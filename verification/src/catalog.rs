//! The catalog of models, as the user is shown it.

use crate::models::{
    compute_compatibility, contains_text, describe_model_purpose, is_required_model_alias,
    speech_by_name, speech_entry, ModelVariant,
};
use crate::registry::{is_the, ModelRegistry, RegistryView};
use crate::tables::sort_rows;
use crate::text::{copy_opt, same, text_before};
use vstd::prelude::*;

verus! {

// ---------------------------------------------------------------------------
// Listing
// ---------------------------------------------------------------------------

/// A model as the catalog gives it, with whether it has been downloaded, and the directory that it
/// was downloaded to where that is known.
pub struct CatalogModel {
    pub alias: String,
    pub input_modalities: Option<String>,
    pub output_modalities: Option<String>,
    pub variants: Vec<ModelVariant>,
    pub downloaded: bool,
    pub cache_dir: Option<String>,
}

/// The model of a [`CatalogModel`].
pub struct CatalogView {
    pub alias: Seq<char>,
    pub input: Seq<char>,
    pub output: Seq<char>,
    pub variants: Seq<crate::models::VariantView>,
    pub downloaded: bool,
    pub cache_dir: Option<Seq<char>>,
}

/// A text, or nothing where there is none.
pub open spec fn or_empty(o: Option<Seq<char>>) -> Seq<char> {
    match o {
        Some(s) => s,
        None => Seq::empty(),
    }
}

impl View for CatalogModel {
    type V = CatalogView;

    open spec fn view(&self) -> CatalogView {
        CatalogView {
            alias: self.alias@,
            input: or_empty(crate::text::opt_view(self.input_modalities)),
            output: or_empty(crate::text::opt_view(self.output_modalities)),
            variants: crate::records::views(self.variants@),
            downloaded: self.downloaded,
            cache_dir: crate::text::opt_view(self.cache_dir),
        }
    }
}

/// A model as the user is shown it.
pub struct ModelInfo {
    pub alias: String,
    pub category: String,
    pub description: String,
    pub downloaded: bool,
    pub loaded: bool,
    pub active: bool,
    pub required: bool,
    pub size_mb: Option<u64>,
    pub compatible: bool,
    pub incompatibility_reason: Option<String>,
}

/// The model of a [`ModelInfo`].
#[verifier::ext_equal]
pub struct ModelInfoView {
    pub alias: Seq<char>,
    pub category: Seq<char>,
    pub description: Seq<char>,
    pub downloaded: bool,
    pub loaded: bool,
    pub active: bool,
    pub required: bool,
    pub size_mb: Option<u64>,
    pub compatible: bool,
    pub incompatibility_reason: Option<Seq<char>>,
}

impl View for ModelInfo {
    type V = ModelInfoView;

    open spec fn view(&self) -> ModelInfoView {
        ModelInfoView {
            alias: self.alias@,
            category: self.category@,
            description: self.description@,
            downloaded: self.downloaded,
            loaded: self.loaded,
            active: self.active,
            required: self.required,
            size_mb: self.size_mb,
            compatible: self.compatible,
            incompatibility_reason: crate::text::opt_view(self.incompatibility_reason),
        }
    }
}

/// Whether a model of the catalog turns speech into text.
pub open spec fn is_speech(m: CatalogView) -> bool {
    crate::models::is_speech_model(
        crate::models::unicode_lower(m.alias),
        crate::models::unicode_lower(m.input),
    )
}

/// A model of the catalog as the user is shown it.
pub open spec fn shown(m: CatalogView, u: RegistryView, registered: Seq<Seq<char>>) -> ModelInfoView {
    let fit = crate::models::compatibility(m.variants, registered);
    ModelInfoView {
        alias: m.alias,
        category: if is_speech(m) {
            "speech"@
        } else {
            "chat"@
        },
        description: crate::models::purpose_of(
            crate::models::unicode_lower(m.alias),
            crate::models::unicode_lower(m.input),
            crate::models::unicode_lower(m.output),
            is_speech(m),
        ),
        downloaded: m.downloaded,
        loaded: u.speech_loaded.contains(m.alias),
        active: if is_speech(m) {
            u.active_speech == Some(m.alias)
        } else {
            u.primary_chat == Some(m.alias)
        },
        required: crate::models::is_required(m.alias),
        size_mb: None,
        compatible: fit.0,
        incompatibility_reason: fit.1,
    }
}

/// Whether the model at index `i` is the first with its alias.
pub open spec fn is_first_of(aliases: Seq<Seq<char>>, i: int) -> bool {
    forall|j: int| 0 <= j < i ==> #[trigger] aliases[j] != aliases[i]
}

/// The aliases of a catalog.
pub open spec fn aliases_of(list: Seq<CatalogView>) -> Seq<Seq<char>> {
    Seq::new(list.len(), |i: int| list[i].alias)
}

/// The models of the first `n` of the catalog as the user is shown them, the first of each alias.
pub open spec fn shown_upto(
    list: Seq<CatalogView>,
    u: RegistryView,
    registered: Seq<Seq<char>>,
    n: int,
) -> Seq<ModelInfoView>
    decreases n,
{
    if n <= 0 || n > list.len() {
        Seq::empty()
    } else {
        let head = shown_upto(list, u, registered, n - 1);
        if is_first_of(aliases_of(list), n - 1) {
            head.push(shown(list[n - 1], u, registered))
        } else {
            head
        }
    }
}

/// The order of the list: models that can run here first, then by category, then by alias.
pub open spec fn listed_before(a: ModelInfoView, b: ModelInfoView) -> bool {
    if a.compatible != b.compatible {
        a.compatible
    } else if a.category != b.category {
        crate::text::text_le(a.category, b.category)
    } else {
        crate::text::text_le(a.alias, b.alias)
    }
}

/// The order of the list.
pub open spec fn list_order() -> spec_fn(ModelInfoView, ModelInfoView) -> bool {
    |a: ModelInfoView, b: ModelInfoView| listed_before(a, b)
}

/// The list of models that the user is shown.
pub open spec fn model_list(
    list: Seq<CatalogView>,
    u: RegistryView,
    registered: Seq<Seq<char>>,
) -> Seq<ModelInfoView> {
    crate::tables::sorted_by(shown_upto(list, u, registered, list.len() as int), list_order())
}

/// Whether the text at index `i` is the first of its kind.
pub fn is_first_alias(aliases: &Vec<String>, i: usize) -> (r: bool)
    requires
        i < aliases@.len(),
    ensures
        r == is_first_of(crate::text::texts(aliases@), i as int),
{
    let ghost all = crate::text::texts(aliases@);
    let mut j: usize = 0;
    while j < i
        invariant
            j <= i < aliases@.len(),
            all == crate::text::texts(aliases@),
            forall|k: int| 0 <= k < j ==> #[trigger] all[k] != all[i as int],
        decreases i - j,
    {
        assert(all[j as int] == aliases@[j as int]@);
        assert(all[i as int] == aliases@[i as int]@);
        if same(aliases[j].as_str(), aliases[i].as_str()) {
            return false;
        }
        j = j + 1;
    }
    true
}

fn aliases_in(list: &Vec<CatalogModel>) -> (r: Vec<String>)
    ensures
        crate::text::texts(r@) == aliases_of(crate::records::views(list@)),
        r@.len() == list@.len(),
{
    let mut out: Vec<String> = Vec::new();
    let mut i: usize = 0;
    while i < list.len()
        invariant
            i <= list@.len(),
            out@.len() == i,
            forall|j: int| 0 <= j < i ==> (#[trigger] out@[j])@ == list@[j]@.alias,
        decreases list.len() - i,
    {
        out.push(list[i].alias.clone());
        i = i + 1;
    }
    assert(crate::text::texts(out@) =~= aliases_of(crate::records::views(list@)));
    out
}

fn text_or_empty(o: &Option<String>) -> (r: String)
    ensures
        r@ == or_empty(crate::text::opt_view(*o)),
{
    match o {
        Some(s) => s.clone(),
        None => {
            let nothing = String::new();
            assert(nothing@ =~= Seq::empty());
            nothing
        },
    }
}

fn show_model(m: &CatalogModel, u: &ModelRegistry, registered: &Vec<String>) -> (r: ModelInfo)
    ensures
        r@ == shown(m@, u@, crate::text::texts(registered@)),
{
    let input = text_or_empty(&m.input_modalities);
    let output = text_or_empty(&m.output_modalities);
    let speech = speech_entry(m.alias.as_str(), input.as_str());
    let (compatible, incompatibility_reason) = compute_compatibility(&m.variants, registered);
    ModelInfo {
        alias: m.alias.clone(),
        category: if speech {
            "speech".to_owned()
        } else {
            "chat".to_owned()
        },
        description: describe_model_purpose(
            m.alias.as_str(),
            input.as_str(),
            output.as_str(),
            speech,
        ),
        downloaded: m.downloaded,
        loaded: contains_text(&u.speech_loaded, m.alias.as_str()),
        active: if speech {
            is_the(&u.active_speech, m.alias.as_str())
        } else {
            is_the(&u.primary_chat, m.alias.as_str())
        },
        required: is_required_model_alias(m.alias.as_str()),
        size_mb: None,
        compatible,
        incompatibility_reason,
    }
}

/// The list of models that the user is shown: each alias once, those that can run here first, then
/// by category and alias.
pub fn list_all_models(list: &Vec<CatalogModel>, u: &ModelRegistry, registered: &Vec<String>) -> (r: Vec<
    ModelInfo,
>)
    ensures
        crate::records::views(r@) == model_list(
            crate::records::views(list@),
            u@,
            crate::text::texts(registered@),
        ),
{
    let ghost all = crate::records::views(list@);
    let ghost reg = crate::text::texts(registered@);
    let aliases = aliases_in(list);
    let mut out: Vec<ModelInfo> = Vec::new();
    let mut i: usize = 0;
    assert(crate::records::views(out@) =~= shown_upto(all, u@, reg, 0));
    while i < list.len()
        invariant
            i <= list@.len(),
            all == crate::records::views(list@),
            reg == crate::text::texts(registered@),
            crate::text::texts(aliases@) == aliases_of(all),
            aliases@.len() == list@.len(),
            crate::records::views(out@) == shown_upto(all, u@, reg, i as int),
        decreases list.len() - i,
    {
        let ghost before = crate::records::views(out@);
        assert(all[i as int] == list@[i as int]@);
        if is_first_alias(&aliases, i) {
            let info = show_model(&list[i], u, registered);
            let ghost added = info@;
            out.push(info);
            assert(crate::records::views(out@) =~= before.push(added));
        }
        i = i + 1;
    }
    let before = |a: &ModelInfo, b: &ModelInfo| -> (x: bool)
        ensures
            x == list_order()(a@, b@),
    {
        if a.compatible != b.compatible {
            a.compatible
        } else if !same(a.category.as_str(), b.category.as_str()) {
            text_before(a.category.as_str(), b.category.as_str())
        } else {
            text_before(a.alias.as_str(), b.alias.as_str())
        }
    };
    sort_rows(out, before, Ghost(list_order()))
}

/// The directory of the first model, from index `i` on, that is the first of its alias and whose
/// directory is known.
pub open spec fn cache_dir_from(list: Seq<CatalogView>, i: int) -> Option<Seq<char>>
    decreases list.len() - i,
{
    if i < 0 || i >= list.len() {
        None
    } else if is_first_of(aliases_of(list), i) && list[i].cache_dir is Some {
        list[i].cache_dir
    } else {
        cache_dir_from(list, i + 1)
    }
}

/// The directory that models are downloaded to, as far as the list of models tells.
pub fn cache_dir_of(list: &Vec<CatalogModel>) -> (r: Option<String>)
    ensures
        crate::text::opt_view(r) == cache_dir_from(crate::records::views(list@), 0),
{
    let ghost all = crate::records::views(list@);
    let aliases = aliases_in(list);
    let mut i: usize = 0;
    while i < list.len()
        invariant
            i <= list@.len(),
            all == crate::records::views(list@),
            crate::text::texts(aliases@) == aliases_of(all),
            aliases@.len() == list@.len(),
            cache_dir_from(all, 0) == cache_dir_from(all, i as int),
        decreases list.len() - i,
    {
        assert(all[i as int] == list@[i as int]@);
        if list[i].cache_dir.is_some() && is_first_alias(&aliases, i) {
            return copy_opt(&list[i].cache_dir);
        }
        i = i + 1;
    }
    None
}

proof fn lemma_list_order()
    ensures
        crate::tables::is_order(list_order()),
{
    let le = list_order();
    assert forall|a: ModelInfoView, b: ModelInfoView| #[trigger] le(a, b) || le(b, a) by {
        crate::text::lemma_text_le_total(a.category, b.category);
        crate::text::lemma_text_le_total(a.alias, b.alias);
    }
    assert forall|a: ModelInfoView, b: ModelInfoView, c: ModelInfoView| #[trigger]
        le(a, b) && #[trigger] le(b, c) implies le(a, c) by {
        if a.compatible == b.compatible && b.compatible == c.compatible {
            crate::text::lemma_text_le_total(a.category, b.category);
            crate::text::lemma_text_le_total(b.category, c.category);
            crate::text::lemma_text_le_total(a.category, c.category);
            if crate::text::text_le(a.category, b.category) && crate::text::text_le(
                b.category,
                c.category,
            ) {
                crate::text::lemma_text_le_transitive(a.category, b.category, c.category);
            }
            if crate::text::text_le(a.alias, b.alias) && crate::text::text_le(b.alias, c.alias) {
                crate::text::lemma_text_le_transitive(a.alias, b.alias, c.alias);
            }
        }
    }
}

/// No model that can run here is listed after one that cannot.
pub proof fn law_models_that_run_come_first(
    list: Seq<CatalogView>,
    u: RegistryView,
    registered: Seq<Seq<char>>,
    i: int,
    j: int,
)
    requires
        0 <= i < j < model_list(list, u, registered).len(),
    ensures
        model_list(list, u, registered)[j].compatible ==> model_list(
            list,
            u,
            registered,
        )[i].compatible,
{
    let le = list_order();
    let s = shown_upto(list, u, registered, list.len() as int);
    lemma_list_order();
    crate::tables::lemma_sorted_by(s, le);
    let r = model_list(list, u, registered);
    assert(le(r[i], r[j]));
}

/// Every alias of the catalog is listed.
pub proof fn law_every_model_is_listed(
    list: Seq<CatalogView>,
    u: RegistryView,
    registered: Seq<Seq<char>>,
    i: int,
)
    requires
        0 <= i < list.len(),
    ensures
        exists|k: int|
            0 <= k < model_list(list, u, registered).len() && (#[trigger] model_list(
                list,
                u,
                registered,
            )[k]).alias == list[i].alias,
{
    let n = list.len() as int;
    let s = shown_upto(list, u, registered, n);
    let r = model_list(list, u, registered);
    lemma_shown(list, u, registered, n, i);
    let m = choose|m: int| 0 <= m < s.len() && (#[trigger] s[m]).alias == list[i].alias;
    lemma_list_order();
    crate::tables::lemma_sorted_contains(s, list_order());
    assert(s.contains(s[m]));
    assert(r.contains(s[m]));
    let k = choose|k: int| 0 <= k < r.len() && r[k] == s[m];
    assert(r[k].alias == list[i].alias);
}

proof fn lemma_shown(
    list: Seq<CatalogView>,
    u: RegistryView,
    registered: Seq<Seq<char>>,
    n: int,
    i: int,
)
    requires
        0 <= i < n <= list.len(),
    ensures
        exists|m: int|
            0 <= m < shown_upto(list, u, registered, n).len() && (#[trigger] shown_upto(
                list,
                u,
                registered,
                n,
            )[m]).alias == list[i].alias,
    decreases n, i,
{
    let s = shown_upto(list, u, registered, n);
    let head = shown_upto(list, u, registered, n - 1);
    let aliases = aliases_of(list);
    if i < n - 1 {
        lemma_shown(list, u, registered, n - 1, i);
        let m = choose|m: int| 0 <= m < head.len() && (#[trigger] head[m]).alias == list[i].alias;
        assert(s[m] == head[m]);
    } else if is_first_of(aliases, i) {
        assert(s[head.len() as int].alias == list[i].alias);
    } else {
        let j = choose|j: int| 0 <= j < i && #[trigger] aliases[j] == aliases[i];
        lemma_shown(list, u, registered, n, j);
    }
}

// ---------------------------------------------------------------------------
// Speech models
// ---------------------------------------------------------------------------

/// A speech model as the user is shown it.
pub struct SpeechModelStatus {
    pub alias: String,
    pub downloaded: bool,
    pub loaded: bool,
    pub active: bool,
}

/// The model of a [`SpeechModelStatus`].
#[verifier::ext_equal]
pub struct StatusView {
    pub alias: Seq<char>,
    pub downloaded: bool,
    pub loaded: bool,
    pub active: bool,
}

impl View for SpeechModelStatus {
    type V = StatusView;

    open spec fn view(&self) -> StatusView {
        StatusView {
            alias: self.alias@,
            downloaded: self.downloaded,
            loaded: self.loaded,
            active: self.active,
        }
    }
}

/// Whether a model is a speech model by its name.
pub open spec fn is_whisper(alias: Seq<char>) -> bool {
    crate::text::begins(crate::models::unicode_lower(alias), "whisper"@)
}

/// The speech models of the first `n` of the catalog, the first of each alias.
pub open spec fn speech_upto(list: Seq<CatalogView>, u: RegistryView, n: int) -> Seq<StatusView>
    decreases n,
{
    if n <= 0 || n > list.len() {
        Seq::empty()
    } else {
        let head = speech_upto(list, u, n - 1);
        let m = list[n - 1];
        if is_whisper(m.alias) && is_first_of(aliases_of(list), n - 1) {
            head.push(
                StatusView {
                    alias: m.alias,
                    downloaded: m.downloaded,
                    loaded: u.speech_loaded.contains(m.alias),
                    active: u.active_speech == Some(m.alias),
                },
            )
        } else {
            head
        }
    }
}

/// The order of speech models.
pub open spec fn by_alias() -> spec_fn(StatusView, StatusView) -> bool {
    |a: StatusView, b: StatusView| crate::text::text_le(a.alias, b.alias)
}

/// The list of speech models that the user is shown, by alias.
pub fn list_speech_models(list: &Vec<CatalogModel>, u: &ModelRegistry) -> (r: Vec<SpeechModelStatus>)
    ensures
        crate::records::views(r@) == crate::tables::sorted_by(
            speech_upto(crate::records::views(list@), u@, list@.len() as int),
            by_alias(),
        ),
{
    let ghost all = crate::records::views(list@);
    let aliases = aliases_in(list);
    let mut out: Vec<SpeechModelStatus> = Vec::new();
    let mut i: usize = 0;
    assert(crate::records::views(out@) =~= speech_upto(all, u@, 0));
    while i < list.len()
        invariant
            i <= list@.len(),
            all == crate::records::views(list@),
            crate::text::texts(aliases@) == aliases_of(all),
            aliases@.len() == list@.len(),
            crate::records::views(out@) == speech_upto(all, u@, i as int),
        decreases list.len() - i,
    {
        let ghost before = crate::records::views(out@);
        assert(all[i as int] == list@[i as int]@);
        if speech_by_name(list[i].alias.as_str()) && is_first_alias(&aliases, i) {
            let status = SpeechModelStatus {
                alias: list[i].alias.clone(),
                downloaded: list[i].downloaded,
                loaded: contains_text(&u.speech_loaded, list[i].alias.as_str()),
                active: is_the(&u.active_speech, list[i].alias.as_str()),
            };
            let ghost added = status@;
            out.push(status);
            assert(crate::records::views(out@) =~= before.push(added));
        }
        i = i + 1;
    }
    let before = |a: &SpeechModelStatus, b: &SpeechModelStatus| -> (x: bool)
        ensures
            x == by_alias()(a@, b@),
    { text_before(a.alias.as_str(), b.alias.as_str()) };
    sort_rows(out, before, Ghost(by_alias()))
}

/// A model is shown under its alias as what it is: of the kind that its name and what it takes say,
/// downloaded, loaded and needed as it is, and in use where it is the one of its kind that is.
pub proof fn law_models_are_shown_as_they_are(
    m: CatalogView,
    u: RegistryView,
    registered: Seq<Seq<char>>,
)
    ensures
        ({
            let s = shown(m, u, registered);
            let name = crate::models::unicode_lower(m.alias);
            let takes = crate::models::unicode_lower(m.input);
            let gives = crate::models::unicode_lower(m.output);
            let speech = crate::text::begins(name, "whisper"@) || crate::text::has_text(
                takes,
                "audio"@,
            );
            &&& s.alias == m.alias
            &&& s.downloaded == m.downloaded
            &&& speech ==> s.category == "speech"@ && (s.active <==> u.active_speech == Some(
                m.alias,
            ))
            &&& !speech ==> s.category == "chat"@ && (s.active <==> u.primary_chat == Some(m.alias))
            &&& s.description == crate::models::purpose_of(name, takes, gives, speech)
            &&& s.loaded <==> u.speech_loaded.contains(m.alias)
            &&& s.required <==> m.alias == "whisper-tiny"@ || m.alias == "qwen2.5-coder-0.5b"@
            &&& s.size_mb is None
            &&& s.compatible <==> m.variants.len() == 0 || exists|i: int|
                0 <= i < m.variants.len() && crate::models::runs_here(
                    #[trigger] m.variants[i],
                    registered,
                )
            &&& s.compatible <==> s.incompatibility_reason is None
        }),
{
}

/// Among models that run here, and among those that do not, the kinds are listed one after the
/// other, and the models of one kind by alias.
pub proof fn law_models_are_listed_by_kind_and_alias(
    list: Seq<CatalogView>,
    u: RegistryView,
    registered: Seq<Seq<char>>,
    i: int,
    j: int,
)
    requires
        0 <= i < j < model_list(list, u, registered).len(),
    ensures
        ({
            let a = model_list(list, u, registered)[i];
            let b = model_list(list, u, registered)[j];
            &&& a.compatible == b.compatible ==> crate::text::text_le(a.category, b.category)
            &&& a.compatible == b.compatible && a.category == b.category ==> crate::text::text_le(
                a.alias,
                b.alias,
            )
        }),
{
    let le = list_order();
    lemma_list_order();
    crate::tables::lemma_sorted_by(shown_upto(list, u, registered, list.len() as int), le);
    let r = model_list(list, u, registered);
    assert(le(r[i], r[j]));
    crate::text::lemma_text_le_total(r[i].category, r[j].category);
}

/// What is shown of the first models comes from one of them that is the first of its alias.
proof fn lemma_shown_comes_from(
    list: Seq<CatalogView>,
    u: RegistryView,
    registered: Seq<Seq<char>>,
    n: int,
    k: int,
)
    requires
        0 <= n <= list.len(),
        0 <= k < shown_upto(list, u, registered, n).len(),
    ensures
        exists|i: int|
            0 <= i < n && is_first_of(aliases_of(list), i) && shown_upto(list, u, registered, n)[k]
                == shown(#[trigger] list[i], u, registered),
    decreases n,
{
    let head = shown_upto(list, u, registered, n - 1);
    if k < head.len() {
        lemma_shown_comes_from(list, u, registered, n - 1, k);
        let i = choose|i: int|
            0 <= i < n - 1 && is_first_of(aliases_of(list), i) && head[k] == shown(
                #[trigger] list[i],
                u,
                registered,
            );
        assert(shown_upto(list, u, registered, n)[k] == shown(list[i], u, registered));
    } else {
        assert(shown_upto(list, u, registered, n)[k] == shown(list[n - 1], u, registered));
    }
}

/// Nothing is listed that the catalog does not hold, and of several models of one alias the first is
/// the one that is listed.
pub proof fn law_only_the_catalog_is_listed(
    list: Seq<CatalogView>,
    u: RegistryView,
    registered: Seq<Seq<char>>,
    k: int,
)
    requires
        0 <= k < model_list(list, u, registered).len(),
    ensures
        exists|i: int|
            0 <= i < list.len() && model_list(list, u, registered)[k] == shown(
                #[trigger] list[i],
                u,
                registered,
            ) && forall|j: int| 0 <= j < i ==> (#[trigger] list[j]).alias != list[i].alias,
{
    let n = list.len() as int;
    let s = shown_upto(list, u, registered, n);
    let r = model_list(list, u, registered);
    lemma_list_order();
    crate::tables::lemma_sorted_contains(s, list_order());
    assert(r.contains(r[k]));
    let m = choose|m: int| 0 <= m < s.len() && s[m] == r[k];
    lemma_shown_comes_from(list, u, registered, n, m);
    let i = choose|i: int|
        0 <= i < n && is_first_of(aliases_of(list), i) && s[m] == shown(
            #[trigger] list[i],
            u,
            registered,
        );
    assert forall|j: int| 0 <= j < i implies (#[trigger] list[j]).alias != list[i].alias by {
        assert(aliases_of(list)[j] == list[j].alias);
        assert(aliases_of(list)[i] == list[i].alias);
    }
}

/// The speech models that are told of are those of the catalog whose name starts with the name of
/// the speech family, the first of each alias, with what the catalog and the registry say of them.
pub proof fn law_speech_models_are_told_as_they_are(
    list: Seq<CatalogView>,
    u: RegistryView,
    n: int,
    k: int,
)
    requires
        0 <= n <= list.len(),
        0 <= k < speech_upto(list, u, n).len(),
    ensures
        exists|i: int|
            0 <= i < n && is_first_of(aliases_of(list), i) && crate::text::begins(
                crate::models::unicode_lower(list[i].alias),
                "whisper"@,
            ) && speech_upto(list, u, n)[k] == (StatusView {
                alias: (#[trigger] list[i]).alias,
                downloaded: list[i].downloaded,
                loaded: u.speech_loaded.contains(list[i].alias),
                active: u.active_speech == Some(list[i].alias),
            }),
    decreases n,
{
    let head = speech_upto(list, u, n - 1);
    if k < head.len() {
        law_speech_models_are_told_as_they_are(list, u, n - 1, k);
        let all = speech_upto(list, u, n);
        assert(all[k] == head[k]);
    } else {
        assert(is_first_of(aliases_of(list), n - 1));
        assert(list[n - 1] == list[n - 1]);
    }
}

/// Every speech model of the catalog is told of.
pub proof fn law_every_speech_model_is_told_of(
    list: Seq<CatalogView>,
    u: RegistryView,
    n: int,
    i: int,
)
    requires
        0 <= i < n <= list.len(),
        crate::text::begins(crate::models::unicode_lower(list[i].alias), "whisper"@),
        is_first_of(aliases_of(list), i),
    ensures
        exists|k: int|
            0 <= k < speech_upto(list, u, n).len() && (#[trigger] speech_upto(list, u, n)[k]).alias
                == list[i].alias,
    decreases n,
{
    let head = speech_upto(list, u, n - 1);
    let all = speech_upto(list, u, n);
    if i == n - 1 {
        assert(all[head.len() as int].alias == list[i].alias);
    } else {
        law_every_speech_model_is_told_of(list, u, n - 1, i);
        let k = choose|k: int| 0 <= k < head.len() && (#[trigger] head[k]).alias == list[i].alias;
        assert(all[k].alias == list[i].alias);
    }
}

/// The directory of the models is that of one of them, and none is told of only where none of those
/// that are first of their alias has one.
pub proof fn law_model_directory_is_found(list: Seq<CatalogView>, i: int)
    requires
        0 <= i,
    ensures
        match cache_dir_from(list, i) {
            Some(dir) => exists|k: int|
                i <= k < list.len() && (#[trigger] list[k]).cache_dir == Some(dir) && forall|j: int|
                    i <= j < k ==> (#[trigger] list[j]).cache_dir is None || !is_first_of(
                        aliases_of(list),
                        j,
                    ),
            None => forall|j: int|
                i <= j < list.len() ==> (#[trigger] list[j]).cache_dir is None || !is_first_of(
                    aliases_of(list),
                    j,
                ),
        },
    decreases list.len() - i,
{
    if i < list.len() {
        if is_first_of(aliases_of(list), i) && list[i].cache_dir is Some {
            assert(list[i].cache_dir == cache_dir_from(list, i));
        } else {
            law_model_directory_is_found(list, i + 1);
        }
    }
}

} // verus!
