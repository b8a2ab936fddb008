//! Which models are loaded, and which may be deleted.

use crate::chat::AppError;
use crate::models::{contains_text, is_required_model_alias};
use crate::text::same;
use vstd::prelude::*;

verus! {

/// Which models are loaded and in use. The first chat model that was loaded is the primary one.
pub struct ModelRegistry {
    pub speech_loaded: Vec<String>,
    pub active_speech: Option<String>,
    pub chat_loaded: Vec<String>,
    pub primary_chat: Option<String>,
}

/// The model of a [`ModelRegistry`].
#[verifier::ext_equal]
pub struct RegistryView {
    pub speech_loaded: Set<Seq<char>>,
    pub active_speech: Option<Seq<char>>,
    pub chat_loaded: Set<Seq<char>>,
    pub primary_chat: Option<Seq<char>>,
}

impl View for ModelRegistry {
    type V = RegistryView;

    open spec fn view(&self) -> RegistryView {
        RegistryView {
            speech_loaded: crate::text::texts(self.speech_loaded@).to_set(),
            active_speech: crate::text::opt_view(self.active_speech),
            chat_loaded: crate::text::texts(self.chat_loaded@).to_set(),
            primary_chat: crate::text::opt_view(self.primary_chat),
        }
    }
}

/// Why a model may not be deleted, if it may not: the application needs it, or it is in use.
pub open spec fn deletion_refusal(alias: Seq<char>, active_speech: Option<Seq<char>>) -> Option<
    crate::chat::ErrorView,
> {
    if crate::models::is_required(alias) {
        Some(crate::chat::bad("必須モデルは削除できません"@))
    } else if active_speech == Some(alias) {
        Some(
            crate::chat::bad(
                "使用中のモデルは削除できません。別のモデルを選択してから削除してください"@,
            ),
        )
    } else {
        None
    }
}

pub(crate) fn is_the(o: &Option<String>, t: &str) -> (r: bool)
    ensures
        r == (crate::text::opt_view(*o) == Some(t@)),
{
    match o {
        Some(s) => same(s.as_str(), t),
        None => false,
    }
}

/// The speech model `alias` is loaded and in use.
pub open spec fn with_speech(v: RegistryView, alias: Seq<char>) -> RegistryView {
    RegistryView {
        speech_loaded: v.speech_loaded.insert(alias),
        active_speech: Some(alias),
        ..v
    }
}

/// The chat model `alias` is loaded. The first one is the primary one.
pub open spec fn with_chat(v: RegistryView, alias: Seq<char>) -> RegistryView {
    RegistryView {
        chat_loaded: v.chat_loaded.insert(alias),
        primary_chat: match v.primary_chat {
            Some(p) => Some(p),
            None => Some(alias),
        },
        ..v
    }
}

fn add_alias(list: &mut Vec<String>, alias: &str)
    ensures
        crate::text::texts(final(list)@).to_set() == crate::text::texts(old(list)@).to_set().insert(
            alias@,
        ),
{
    let ghost before = crate::text::texts(list@);
    if !contains_text(list, alias) {
        list.push(alias.to_owned());
        proof {
            let after = crate::text::texts(list@);
            assert(after =~= before.push(alias@));
            assert forall|x: Seq<char>| after.contains(x) <==> before.contains(x) || x
                == alias@ by {
                if before.contains(x) {
                    let i = choose|i: int| 0 <= i < before.len() && before[i] == x;
                    assert(after[i] == x);
                }
                assert(after[before.len() as int] == alias@);
                if after.contains(x) {
                    let i = choose|i: int| 0 <= i < after.len() && after[i] == x;
                    if i < before.len() {
                        assert(before[i] == x);
                    }
                }
            }
            assert(after.to_set() =~= before.to_set().insert(alias@));
        }
    } else {
        assert(before.to_set() =~= before.to_set().insert(alias@));
    }
}

fn drop_alias(list: &mut Vec<String>, alias: &str)
    ensures
        crate::text::texts(final(list)@).to_set() == crate::text::texts(old(list)@).to_set().remove(
            alias@,
        ),
{
    let ghost before = crate::text::texts(list@);
    let mut kept: Vec<String> = Vec::new();
    let mut i: usize = 0;
    while i < list.len()
        invariant
            i <= list@.len(),
            before == crate::text::texts(list@),
            forall|x: Seq<char>| #[trigger]
                crate::text::texts(kept@).contains(x) <==> before.take(i as int).contains(x) && x
                    != alias@,
        decreases list.len() - i,
    {
        let ghost k = crate::text::texts(kept@);
        let ghost head = before.take(i as int);
        let ghost longer = before.take(i + 1);
        let ghost x0 = list@[i as int]@;
        assert(longer =~= head.push(x0));
        if !same(list[i].as_str(), alias) {
            kept.push(list[i].clone());
            assert(crate::text::texts(kept@) =~= k.push(x0));
        }
        proof {
            let now = crate::text::texts(kept@);
            assert forall|x: Seq<char>| #[trigger] now.contains(x) <==> longer.contains(x) && x
                != alias@ by {
                if head.contains(x) {
                    let j = choose|j: int| 0 <= j < head.len() && head[j] == x;
                    assert(longer[j] == x);
                }
                assert(longer[i as int] == x0);
                if longer.contains(x) {
                    let j = choose|j: int| 0 <= j < longer.len() && longer[j] == x;
                    if j < i {
                        assert(head[j] == x);
                    }
                }
                if k.contains(x) {
                    let j = choose|j: int| 0 <= j < k.len() && k[j] == x;
                    assert(now[j] == x);
                }
                if now.len() > k.len() {
                    assert(now[k.len() as int] == x0);
                }
                if now.contains(x) {
                    let j = choose|j: int| 0 <= j < now.len() && now[j] == x;
                    if j < k.len() {
                        assert(k[j] == x);
                    }
                }
            }
        }
        i = i + 1;
    }
    assert(before.take(before.len() as int) =~= before);
    *list = kept;
    assert(crate::text::texts(list@).to_set() =~= before.to_set().remove(alias@));
}

impl ModelRegistry {
    /// No models.
    pub fn new() -> (r: ModelRegistry)
        ensures
            r@ == (RegistryView {
                speech_loaded: Set::empty(),
                active_speech: None,
                chat_loaded: Set::empty(),
                primary_chat: None,
            }),
    {
        let r = ModelRegistry {
            speech_loaded: Vec::new(),
            active_speech: None,
            chat_loaded: Vec::new(),
            primary_chat: None,
        };
        assert(r@ =~= (RegistryView {
            speech_loaded: Set::empty(),
            active_speech: None,
            chat_loaded: Set::empty(),
            primary_chat: None,
        }));
        r
    }

    /// Whether the chat model `alias` is loaded already.
    pub fn has_chat(&self, alias: &str) -> (r: bool)
        ensures
            r == self@.chat_loaded.contains(alias@),
    {
        contains_text(&self.chat_loaded, alias)
    }

    /// Whether the speech model `alias` is loaded already.
    pub fn has_speech(&self, alias: &str) -> (r: bool)
        ensures
            r == self@.speech_loaded.contains(alias@),
    {
        contains_text(&self.speech_loaded, alias)
    }

    /// Takes note that the speech model `alias` is ready: it is the one in use from now on.
    pub fn speech_ready(&mut self, alias: &str)
        ensures
            final(self)@ == with_speech(old(self)@, alias@),
    {
        add_alias(&mut self.speech_loaded, alias);
        self.active_speech = Some(alias.to_owned());
    }

    /// Takes note that the chat model `alias` is ready. The first one is the primary one.
    pub fn chat_ready(&mut self, alias: &str)
        ensures
            final(self)@ == with_chat(old(self)@, alias@),
    {
        add_alias(&mut self.chat_loaded, alias);
        if self.primary_chat.is_none() {
            self.primary_chat = Some(alias.to_owned());
        }
    }

    /// Forgets a model that is to be deleted, unless it may not be: a speech model is no longer
    /// loaded, and where it was the primary chat model, there is none.
    pub fn delete_model_by_alias(&mut self, alias: &str) -> (r: Result<(), AppError>)
        ensures
            match r {
                Ok(_) => deletion_refusal(alias@, old(self)@.active_speech) is None && final(self)@
                    == (RegistryView {
                    speech_loaded: old(self)@.speech_loaded.remove(alias@),
                    primary_chat: if old(self)@.primary_chat == Some(alias@) {
                        None
                    } else {
                        old(self)@.primary_chat
                    },
                    ..old(self)@
                }),
                Err(e) => deletion_refusal(alias@, old(self)@.active_speech) == Some(e@) && final(
                    self)@ == old(self)@,
            },
    {
        match self.refuse_deletion(alias) {
            Some(e) => Err(e),
            None => {
                drop_alias(&mut self.speech_loaded, alias);
                if is_the(&self.primary_chat, alias) {
                    self.primary_chat = None;
                }
                Ok(())
            },
        }
    }

    /// Forgets a speech model that is to be deleted, unless it may not be.
    pub fn delete_speech_model(&mut self, alias: &str) -> (r: Result<(), AppError>)
        ensures
            match r {
                Ok(_) => deletion_refusal(alias@, old(self)@.active_speech) is None && final(self)@
                    == (RegistryView {
                    speech_loaded: old(self)@.speech_loaded.remove(alias@),
                    ..old(self)@
                }),
                Err(e) => deletion_refusal(alias@, old(self)@.active_speech) == Some(e@) && final(
                    self)@ == old(self)@,
            },
    {
        match self.refuse_deletion(alias) {
            Some(e) => Err(e),
            None => {
                drop_alias(&mut self.speech_loaded, alias);
                Ok(())
            },
        }
    }

    fn refuse_deletion(&self, alias: &str) -> (r: Option<AppError>)
        ensures
            match r {
                Some(e) => deletion_refusal(alias@, self@.active_speech) == Some(e@),
                None => deletion_refusal(alias@, self@.active_speech) is None,
            },
    {
        if is_required_model_alias(alias) {
            Some(AppError::bad_request("必須モデルは削除できません"))
        } else if is_the(&self.active_speech, alias) {
            Some(
                AppError::bad_request(
                    "使用中のモデルは削除できません。別のモデルを選択してから削除してください",
                ),
            )
        } else {
            None
        }
    }

    /// Forgets every model, and gives the chat models and the speech models that are to be
    /// unloaded, each once.
    pub fn shutdown(&mut self) -> (r: (Vec<String>, Vec<String>))
        ensures
            crate::text::texts(r.0@).to_set() == match old(self)@.primary_chat {
                Some(p) => old(self)@.chat_loaded.insert(p),
                None => old(self)@.chat_loaded,
            },
            crate::text::texts(r.0@).no_duplicates(),
            crate::text::texts(r.1@).to_set() == old(self)@.speech_loaded,
            crate::text::texts(r.1@).no_duplicates(),
            final(self)@ == (RegistryView {
                speech_loaded: Set::empty(),
                active_speech: None,
                chat_loaded: Set::empty(),
                primary_chat: None,
            }),
    {
        let mut out = each_once(&self.chat_loaded);
        if let Some(p) = &self.primary_chat {
            let ghost before = crate::text::texts(out@);
            push_once(&mut out, p.as_str());
            assert(crate::text::texts(out@).to_set() =~= before.to_set().insert(p@));
        }
        let speech = each_once(&self.speech_loaded);
        self.speech_loaded = Vec::new();
        self.active_speech = None;
        self.chat_loaded = Vec::new();
        self.primary_chat = None;
        assert(self@ =~= (RegistryView {
            speech_loaded: Set::empty(),
            active_speech: None,
            chat_loaded: Set::empty(),
            primary_chat: None,
        }));
        (out, speech)
    }
}

fn push_once(list: &mut Vec<String>, t: &str)
    requires
        crate::text::texts(old(list)@).no_duplicates(),
    ensures
        crate::text::texts(final(list)@).no_duplicates(),
        forall|x: Seq<char>| #[trigger]
            crate::text::texts(final(list)@).contains(x) <==> crate::text::texts(
                old(list)@,
            ).contains(x) || x == t@,
{
    let ghost before = crate::text::texts(list@);
    if !contains_text(list, t) {
        list.push(t.to_owned());
        proof {
            let after = crate::text::texts(list@);
            assert(after =~= before.push(t@));
            assert forall|x: Seq<char>| #[trigger] after.contains(x) <==> before.contains(x) || x
                == t@ by {
                if before.contains(x) {
                    let i = choose|i: int| 0 <= i < before.len() && before[i] == x;
                    assert(after[i] == x);
                }
                assert(after[before.len() as int] == t@);
                if after.contains(x) {
                    let i = choose|i: int| 0 <= i < after.len() && after[i] == x;
                    if i < before.len() {
                        assert(before[i] == x);
                    }
                }
            }
        }
    }
}

/// The texts of a list, each once.
fn each_once(list: &Vec<String>) -> (r: Vec<String>)
    ensures
        crate::text::texts(r@).to_set() == crate::text::texts(list@).to_set(),
        crate::text::texts(r@).no_duplicates(),
{
    let ghost all = crate::text::texts(list@);
    let mut out: Vec<String> = Vec::new();
    let mut i: usize = 0;
    while i < list.len()
        invariant
            i <= list@.len(),
            all == crate::text::texts(list@),
            crate::text::texts(out@).no_duplicates(),
            forall|x: Seq<char>| #[trigger]
                crate::text::texts(out@).contains(x) <==> all.take(i as int).contains(x),
        decreases list.len() - i,
    {
        let ghost head = all.take(i as int);
        let ghost longer = all.take(i + 1);
        let ghost x0 = list@[i as int]@;
        assert(longer =~= head.push(x0));
        push_once(&mut out, list[i].as_str());
        proof {
            assert forall|x: Seq<char>| #[trigger]
                crate::text::texts(out@).contains(x) <==> longer.contains(x) by {
                if head.contains(x) {
                    let j = choose|j: int| 0 <= j < head.len() && head[j] == x;
                    assert(longer[j] == x);
                }
                assert(longer[i as int] == x0);
                if longer.contains(x) {
                    let j = choose|j: int| 0 <= j < longer.len() && longer[j] == x;
                    if j < i {
                        assert(head[j] == x);
                    }
                }
            }
        }
        i = i + 1;
    }
    assert(all.take(all.len() as int) =~= all);
    assert(crate::text::texts(out@).to_set() =~= all.to_set());
    out
}

/// The models that the application needs, and the speech model in use, are never deleted.
pub proof fn law_needed_models_stay(alias: Seq<char>, active_speech: Option<Seq<char>>)
    ensures
        deletion_refusal(alias, active_speech) is Some <==> crate::models::is_required(alias)
            || active_speech == Some(alias),
{
}

/// A speech model that is ready is loaded and the one in use, and nothing else changes: the others
/// stay loaded, and so do the chat models.
pub proof fn law_ready_speech_model_is_in_use(v: RegistryView, alias: Seq<char>, other: Seq<char>)
    ensures
        with_speech(v, alias).speech_loaded.contains(alias),
        with_speech(v, alias).active_speech == Some(alias),
        other != alias ==> (with_speech(v, alias).speech_loaded.contains(other)
            <==> v.speech_loaded.contains(other)),
        with_speech(v, alias).chat_loaded == v.chat_loaded,
        with_speech(v, alias).primary_chat == v.primary_chat,
{
}

/// A chat model that is ready is loaded, and is the primary one where there was none. It takes no
/// other model's place, and the speech models stay as they were.
pub proof fn law_first_chat_model_is_primary(v: RegistryView, alias: Seq<char>, other: Seq<char>)
    ensures
        with_chat(v, alias).chat_loaded.contains(alias),
        v.primary_chat is None ==> with_chat(v, alias).primary_chat == Some(alias),
        v.primary_chat is Some ==> with_chat(v, alias).primary_chat == v.primary_chat,
        other != alias ==> (with_chat(v, alias).chat_loaded.contains(other)
            <==> v.chat_loaded.contains(other)),
        with_chat(v, alias).speech_loaded == v.speech_loaded,
        with_chat(v, alias).active_speech == v.active_speech,
{
}

/// A model may be deleted unless the product needs it or it is the speech model in use, and what is
/// said of one that may not tells the two apart.
pub proof fn law_deletion_is_refused_for_cause(alias: Seq<char>, active: Option<Seq<char>>)
    ensures
        deletion_refusal(alias, active) is None <==> alias != "whisper-tiny"@ && alias
            != "qwen2.5-coder-0.5b"@ && active != Some(alias),
        deletion_refusal(alias, active) matches Some(e) ==> e.status == 400 && e.message == if alias
            == "whisper-tiny"@ || alias == "qwen2.5-coder-0.5b"@ {
            "必須モデルは削除できません"@
        } else {
            "使用中のモデルは削除できません。別のモデルを選択してから削除してください"@
        },
{
}

} // verus!
