//! The texts of the user interface in the languages that it has.
//!
//! The files can be edited. A newer version of the application adds the texts that a file lacks and
//! brings up to date those that are still as an older version had them.

use crate::text::{chars_of, is_ascii_alphanumeric, is_one_of, same, text_of, to_lower};
use vstd::prelude::*;

verus! {

// ---------------------------------------------------------------------------
// JSON
// ---------------------------------------------------------------------------

#[verifier::external_type_specification]
#[verifier::external_body]
pub struct ExJsonValue(serde_json::Value);

#[verifier::external_type_specification]
#[verifier::external_body]
pub struct ExJsonError(serde_json::Error);

#[verifier::external_type_specification]
#[verifier::external_body]
#[verifier::reject_recursive_types(K)]
#[verifier::reject_recursive_types(V)]
pub struct ExJsonMap<K, V>(serde_json::Map<K, V>);

/// What a text says as JSON.
pub uninterp spec fn parsed_json(raw: Seq<char>) -> Result<serde_json::Value, serde_json::Error>;

/// The object that a JSON value is, where it is one.
pub uninterp spec fn object_in(v: serde_json::Value) -> Option<
    serde_json::Map<String, serde_json::Value>,
>;

/// The text that a JSON value is, where it is one.
pub uninterp spec fn text_in(v: serde_json::Value) -> Option<Seq<char>>;

/// The values of an object by their keys.
pub uninterp spec fn entries(m: serde_json::Map<String, serde_json::Value>) -> Map<
    Seq<char>,
    serde_json::Value,
>;

/// An object as JSON with line breaks and indents.
pub uninterp spec fn pretty_json(m: serde_json::Map<String, serde_json::Value>) -> Result<
    Seq<char>,
    serde_json::Error,
>;

/// An error of JSON in words.
pub uninterp spec fn json_trouble(e: serde_json::Error) -> Seq<char>;

/// `serde_json::from_str`: what the text says as JSON, or why it says nothing.
#[verifier::external_body]
fn parse_json(raw: &str) -> (r: Result<serde_json::Value, serde_json::Error>)
    ensures
        r == parsed_json(raw@),
{
    serde_json::from_str::<serde_json::Value>(raw)
}

/// The variant `Object` of `serde_json::Value`: the object, where the value is one.
#[verifier::external_body]
fn take_object(v: serde_json::Value) -> (r: Option<serde_json::Map<String, serde_json::Value>>)
    ensures
        r == object_in(v),
{
    match v {
        serde_json::Value::Object(m) => Some(m),
        _ => None,
    }
}

/// `serde_json::Map::keys`: the keys of an object, each once.
#[verifier::external_body]
fn key_list(m: &serde_json::Map<String, serde_json::Value>) -> (r: Vec<String>)
    ensures
        crate::text::texts(r@).to_set() == entries(*m).dom(),
        crate::text::texts(r@).no_duplicates(),
{
    m.keys().cloned().collect()
}

/// `serde_json::Map::get`: the value under a key, where there is one.
#[verifier::external_body]
fn get_value<'a>(m: &'a serde_json::Map<String, serde_json::Value>, key: &str) -> (r: Option<
    &'a serde_json::Value,
>)
    ensures
        match r {
            Some(v) => entries(*m).contains_pair(key@, *v),
            None => !entries(*m).contains_key(key@),
        },
{
    m.get(key)
}

/// `serde_json::Map::insert`: puts a value under a key, in place of the one that is there.
#[verifier::external_body]
fn put_value(m: &mut serde_json::Map<String, serde_json::Value>, key: String, v: serde_json::Value)
    ensures
        entries(*final(m)) == entries(*old(m)).insert(key@, v),
{
    m.insert(key, v);
}

/// `serde_json::Value::clone`: the same value.
#[verifier::external_body]
fn copy_value(v: &serde_json::Value) -> (r: serde_json::Value)
    ensures
        r == *v,
{
    v.clone()
}

/// `serde_json::Value::as_str`: the text that the value is, where it is one.
#[verifier::external_body]
fn value_text(v: &serde_json::Value) -> (r: Option<&str>)
    ensures
        crate::text::opt_str_view(r) == text_in(*v),
{
    v.as_str()
}

/// `serde_json::to_string_pretty`: the object as JSON with line breaks and indents.
#[verifier::external_body]
fn print_pretty(m: serde_json::Map<String, serde_json::Value>) -> (r: Result<
    String,
    serde_json::Error,
>)
    ensures
        match r {
            Ok(t) => pretty_json(m) == Ok::<Seq<char>, serde_json::Error>(t@),
            Err(e) => pretty_json(m) == Err::<Seq<char>, serde_json::Error>(e),
        },
{
    serde_json::to_string_pretty(&serde_json::Value::Object(m))
}

/// `serde_json::Error`, by its `Display`: the error in words.
#[verifier::external_body]
fn error_words(e: &serde_json::Error) -> (r: String)
    ensures
        r@ == json_trouble(*e),
{
    format!("{}", e)
}

// ---------------------------------------------------------------------------
// Texts of older versions
// ---------------------------------------------------------------------------

/// The texts that older versions had under a key and that newer ones have replaced.
pub open spec fn outdated_texts(key: Seq<char>) -> Seq<Seq<char>> {
    if key == "quick.autoRefine"@ {
        seq![
            "自動整形"@,
            "Auto refine"@,
        ]
    } else if key == "quick.autoTranslate"@ {
        seq![
            "自動翻訳"@,
            "Auto translate"@,
        ]
    } else if key == "quick.autoCustom"@ {
        seq![
            "自動カスタム"@,
            "Auto custom"@,
        ]
    } else if key == "quick.autoSave"@ {
        seq![
            "自動追加"@,
            "Auto save"@,
        ]
    } else if key == "quick.autoAnalyze"@ {
        seq![
            "分析"@,
            "Analyze"@,
        ]
    } else if key == "quick.autoAnalyzeTooltip"@ {
        seq![
            "文字起こし後に分析します（トーン・要点・キーワード）"@,
            "Analyze after transcription (tone, summary, keywords)"@,
        ]
    } else if key == "settings.analyze.title"@ {
        seq![
            "分析設定"@,
            "Analysis"@,
        ]
    } else if key == "note.analyze"@ {
        seq![
            "🔍 分析"@,
            "🔍 Analyze"@,
        ]
    } else if key == "note.analyzing"@ {
        seq![
            "分析中..."@,
            "Analyzing..."@,
        ]
    } else if key == "note.analysisFailed"@ {
        seq![
            "分析に失敗しました"@,
            "Analysis failed"@,
        ]
    } else if key == "models.desc.llm.qwen"@ {
        seq![
            "テキスト整形・翻訳・分析に使用"@,
            "Used for text refinement, translation and analysis"@,
        ]
    } else if key == "settings.models.chatDesc"@ {
        seq![
            "整形・翻訳・分析に使用します。プロジェクト補正や後処理パイプラインの裏で動作します。"@,
            "Used for refinement, translation and analysis. Runs behind the scenes for post-processing."@,
        ]
    } else if key == "settings.shortcuts.hint"@ {
        seq![
            "各項目の入力欄をクリックして、割り当てたいキーを押してください。Esc で取り消し、Delete / Backspace で解除できます。"@,
            "各項目の入力欄をクリックして、割り当てたいキーを押してください。「押下中だけ録音」は Ctrl 単体などの長押しキーも割り当てられます。Esc で取り消し、Delete / Backspace で解除できます。"@,
            "各項目の入力欄をクリックして、割り当てたいキーを押してください。「押下中だけ録音」は右Ctrlなどの単独キーも指定でき、アプリが非アクティブでも動作します。Esc で取り消し、Delete / Backspace で解除できます。"@,
            "Click a field and press the keys you want to bind. Esc to cancel, Delete / Backspace to clear."@,
            "Click a field and press the keys you want to bind. Press-and-hold recording can use a single held key such as Ctrl. Esc to cancel, Delete / Backspace to clear."@,
            "Click a field and press the keys you want to bind. Press-and-hold recording can use a single key such as RightCtrl and works even when the app is inactive. Esc to cancel, Delete / Backspace to clear."@,
        ]
    } else if key == "settings.complete.model"@ {
        seq![
            "補完に使用するモデル"@,
            "Model for completion"@,
        ]
    } else if key == "live.chunkHint"@ {
        seq![
            "2秒ごとに文字起こしと翻訳を行います"@,
            "2秒ごとに文字起こしします"@,
            "Transcription runs every 2 seconds"@,
            "Audio is buffered first; translation follows transcription"@,
        ]
    } else {
        Seq::empty()
    }
}

/// Whether a text is one that an older version had under a key and that newer ones have replaced.
pub open spec fn is_outdated(key: Seq<char>, text: Seq<char>) -> bool {
    outdated_texts(key).contains(text)
}

fn holds_outdated(key: &str, text: &str) -> (r: bool)
    ensures
        r == is_outdated(key@, text@),
{
    let s = chars_of(text);
    if same(key, "quick.autoRefine") {
        let list: [&str; 2] = [
            "自動整形",
            "Auto refine",
        ];
        assert(crate::text::strs(list@) =~= outdated_texts(key@));
        is_one_of(s.as_slice(), list.as_slice())
    } else if same(key, "quick.autoTranslate") {
        let list: [&str; 2] = [
            "自動翻訳",
            "Auto translate",
        ];
        assert(crate::text::strs(list@) =~= outdated_texts(key@));
        is_one_of(s.as_slice(), list.as_slice())
    } else if same(key, "quick.autoCustom") {
        let list: [&str; 2] = [
            "自動カスタム",
            "Auto custom",
        ];
        assert(crate::text::strs(list@) =~= outdated_texts(key@));
        is_one_of(s.as_slice(), list.as_slice())
    } else if same(key, "quick.autoSave") {
        let list: [&str; 2] = [
            "自動追加",
            "Auto save",
        ];
        assert(crate::text::strs(list@) =~= outdated_texts(key@));
        is_one_of(s.as_slice(), list.as_slice())
    } else if same(key, "quick.autoAnalyze") {
        let list: [&str; 2] = [
            "分析",
            "Analyze",
        ];
        assert(crate::text::strs(list@) =~= outdated_texts(key@));
        is_one_of(s.as_slice(), list.as_slice())
    } else if same(key, "quick.autoAnalyzeTooltip") {
        let list: [&str; 2] = [
            "文字起こし後に分析します（トーン・要点・キーワード）",
            "Analyze after transcription (tone, summary, keywords)",
        ];
        assert(crate::text::strs(list@) =~= outdated_texts(key@));
        is_one_of(s.as_slice(), list.as_slice())
    } else if same(key, "settings.analyze.title") {
        let list: [&str; 2] = [
            "分析設定",
            "Analysis",
        ];
        assert(crate::text::strs(list@) =~= outdated_texts(key@));
        is_one_of(s.as_slice(), list.as_slice())
    } else if same(key, "note.analyze") {
        let list: [&str; 2] = [
            "🔍 分析",
            "🔍 Analyze",
        ];
        assert(crate::text::strs(list@) =~= outdated_texts(key@));
        is_one_of(s.as_slice(), list.as_slice())
    } else if same(key, "note.analyzing") {
        let list: [&str; 2] = [
            "分析中...",
            "Analyzing...",
        ];
        assert(crate::text::strs(list@) =~= outdated_texts(key@));
        is_one_of(s.as_slice(), list.as_slice())
    } else if same(key, "note.analysisFailed") {
        let list: [&str; 2] = [
            "分析に失敗しました",
            "Analysis failed",
        ];
        assert(crate::text::strs(list@) =~= outdated_texts(key@));
        is_one_of(s.as_slice(), list.as_slice())
    } else if same(key, "models.desc.llm.qwen") {
        let list: [&str; 2] = [
            "テキスト整形・翻訳・分析に使用",
            "Used for text refinement, translation and analysis",
        ];
        assert(crate::text::strs(list@) =~= outdated_texts(key@));
        is_one_of(s.as_slice(), list.as_slice())
    } else if same(key, "settings.models.chatDesc") {
        let list: [&str; 2] = [
            "整形・翻訳・分析に使用します。プロジェクト補正や後処理パイプラインの裏で動作します。",
            "Used for refinement, translation and analysis. Runs behind the scenes for post-processing.",
        ];
        assert(crate::text::strs(list@) =~= outdated_texts(key@));
        is_one_of(s.as_slice(), list.as_slice())
    } else if same(key, "settings.shortcuts.hint") {
        let list: [&str; 6] = [
            "各項目の入力欄をクリックして、割り当てたいキーを押してください。Esc で取り消し、Delete / Backspace で解除できます。",
            "各項目の入力欄をクリックして、割り当てたいキーを押してください。「押下中だけ録音」は Ctrl 単体などの長押しキーも割り当てられます。Esc で取り消し、Delete / Backspace で解除できます。",
            "各項目の入力欄をクリックして、割り当てたいキーを押してください。「押下中だけ録音」は右Ctrlなどの単独キーも指定でき、アプリが非アクティブでも動作します。Esc で取り消し、Delete / Backspace で解除できます。",
            "Click a field and press the keys you want to bind. Esc to cancel, Delete / Backspace to clear.",
            "Click a field and press the keys you want to bind. Press-and-hold recording can use a single held key such as Ctrl. Esc to cancel, Delete / Backspace to clear.",
            "Click a field and press the keys you want to bind. Press-and-hold recording can use a single key such as RightCtrl and works even when the app is inactive. Esc to cancel, Delete / Backspace to clear.",
        ];
        assert(crate::text::strs(list@) =~= outdated_texts(key@));
        is_one_of(s.as_slice(), list.as_slice())
    } else if same(key, "settings.complete.model") {
        let list: [&str; 2] = [
            "補完に使用するモデル",
            "Model for completion",
        ];
        assert(crate::text::strs(list@) =~= outdated_texts(key@));
        is_one_of(s.as_slice(), list.as_slice())
    } else if same(key, "live.chunkHint") {
        let list: [&str; 4] = [
            "2秒ごとに文字起こしと翻訳を行います",
            "2秒ごとに文字起こしします",
            "Transcription runs every 2 seconds",
            "Audio is buffered first; translation follows transcription",
        ];
        assert(crate::text::strs(list@) =~= outdated_texts(key@));
        is_one_of(s.as_slice(), list.as_slice())
    } else {
        false
    }
}

// ---------------------------------------------------------------------------
// Merging
// ---------------------------------------------------------------------------

/// Whether the value under a key is still as an older version had it.
pub open spec fn is_stale(key: Seq<char>, v: serde_json::Value) -> bool {
    text_in(v) matches Some(t) && is_outdated(key, t)
}

/// The value that a merged file has under a key.
pub open spec fn merged_value(
    existing: Map<Seq<char>, serde_json::Value>,
    defaults: Map<Seq<char>, serde_json::Value>,
    key: Seq<char>,
) -> serde_json::Value {
    if existing.contains_key(key) && !(defaults.contains_key(key) && is_stale(key, existing[key])) {
        existing[key]
    } else {
        defaults[key]
    }
}

/// A file with the texts that it lacks, and with those that are still as an older version had them
/// brought up to date.
pub open spec fn merged(
    existing: Map<Seq<char>, serde_json::Value>,
    defaults: Map<Seq<char>, serde_json::Value>,
) -> Map<Seq<char>, serde_json::Value> {
    Map::new(
        |key: Seq<char>| existing.contains_key(key) || defaults.contains_key(key),
        |key: Seq<char>| merged_value(existing, defaults, key),
    )
}

/// Whether a file lacks the text under a key, or has it still as an older version had it.
pub open spec fn needs_text(existing: Map<Seq<char>, serde_json::Value>, key: Seq<char>) -> bool {
    !existing.contains_key(key) || is_stale(key, existing[key])
}

/// Whether a file lacks anything or has anything still as an older version had it.
pub open spec fn needs_merging(
    existing: Map<Seq<char>, serde_json::Value>,
    defaults: Map<Seq<char>, serde_json::Value>,
) -> bool {
    exists|key: Seq<char>| defaults.contains_key(key) && #[trigger] needs_text(existing, key)
}

/// Adds the texts that are lacking, brings up to date those that are still as an older version had
/// them, and says whether there were any.
pub fn merge_entries(
    existing: &mut serde_json::Map<String, serde_json::Value>,
    defaults: &serde_json::Map<String, serde_json::Value>,
) -> (r: bool)
    ensures
        entries(*final(existing)) == merged(entries(*old(existing)), entries(*defaults)),
        r == needs_merging(entries(*old(existing)), entries(*defaults)),
{
    let ghost e = entries(*existing);
    let ghost d = entries(*defaults);
    let keys = key_list(defaults);
    let ghost names = crate::text::texts(keys@);
    let mut changed = false;
    let mut i: usize = 0;
    while i < keys.len()
        invariant
            i <= keys@.len(),
            names == crate::text::texts(keys@),
            names.to_set() == d.dom(),
            names.no_duplicates(),
            d == entries(*defaults),
            forall|k: Seq<char>| #[trigger]
                entries(*existing).contains_key(k) <==> e.contains_key(k) || names.take(
                    i as int,
                ).contains(k),
            forall|k: Seq<char>| #[trigger]
                entries(*existing).contains_key(k) ==> entries(*existing)[k] == if names.take(
                    i as int,
                ).contains(k) {
                    merged_value(e, d, k)
                } else {
                    e[k]
                },
            changed == (exists|k: Seq<char>|
                names.take(i as int).contains(k) && #[trigger] needs_text(e, k)),
        decreases keys.len() - i,
    {
        let key = &keys[i];
        let ghost now = entries(*existing);
        let ghost head = names.take(i as int);
        let ghost longer = names.take(i + 1);
        proof {
            assert(names[i as int] == key@);
            assert(longer =~= head.push(key@));
            assert(names.to_set().contains(key@));
            assert(!head.contains(key@)) by {
                if head.contains(key@) {
                    let j = choose|j: int| 0 <= j < head.len() && head[j] == key@;
                    assert(names[j] == names[i as int]);
                }
            }
            assert forall|k: Seq<char>| #[trigger] longer.contains(k) <==> head.contains(k) || k
                == key@ by {
                if head.contains(k) {
                    let j = choose|j: int| 0 <= j < head.len() && head[j] == k;
                    assert(longer[j] == k);
                }
                assert(longer[i as int] == key@);
                if longer.contains(k) {
                    let j = choose|j: int| 0 <= j < longer.len() && longer[j] == k;
                    if j < i {
                        assert(head[j] == k);
                    }
                }
            }
        }
        let stale = match get_value(existing, key.as_str()) {
            None => true,
            Some(v) => match value_text(v) {
                Some(t) => holds_outdated(key.as_str(), t),
                None => false,
            },
        };
        assert(now.contains_key(key@) <==> e.contains_key(key@));
        assert(stale == needs_text(e, key@));
        if stale {
            match get_value(defaults, key.as_str()) {
                Some(v) => {
                    put_value(existing, key.clone(), copy_value(v));
                },
                None => {
                    assert(false);
                },
            }
        }
        proof {
            if changed {
                let k = choose|k: Seq<char>| head.contains(k) && #[trigger] needs_text(e, k);
                assert(longer.contains(k) && needs_text(e, k));
            }
            if stale {
                assert(longer.contains(key@) && needs_text(e, key@));
            }
        }
        changed = changed || stale;
        i = i + 1;
    }
    proof {
        assert(names.take(names.len() as int) =~= names);
        assert forall|k: Seq<char>| #[trigger] names.contains(k) <==> d.contains_key(k) by {
            assert(names.to_set().contains(k) <==> d.dom().contains(k));
        }
        assert(entries(*existing) =~= merged(e, d));
    }
    changed
}

/// What merging the texts of a version into a file comes to: what is to be written, where anything
/// is, or why nothing can be done.
pub open spec fn merge_outcome(existing_raw: Seq<char>, defaults_json: Seq<char>, r: Result<
    Option<Seq<char>>,
    Seq<char>,
>) -> bool {
    match parsed_json(existing_raw) {
        Err(error) => r == Err::<Option<Seq<char>>, _>(json_trouble(error)),
        Ok(value) => match object_in(value) {
            None => r == Err::<Option<Seq<char>>, _>("locale file is not a JSON object"@),
            Some(existing) => if parsed_json(defaults_json) is Ok && object_in(
                parsed_json(defaults_json)->Ok_0,
            ) is Some {
                let defaults = object_in(parsed_json(defaults_json)->Ok_0)->0;
                if needs_merging(entries(existing), entries(defaults)) {
                    exists|m: serde_json::Map<String, serde_json::Value>|
                        entries(m) == merged(entries(existing), entries(defaults))
                            && r == match #[trigger] pretty_json(m) {
                            Ok(t) => Ok(Some(t)),
                            Err(e) => Err(json_trouble(e)),
                        }
                } else {
                    r == Ok::<_, Seq<char>>(None::<Seq<char>>)
                }
            } else {
                r == Err::<Option<Seq<char>>, _>("bundled defaults are not a JSON object"@)
            },
        },
    }
}

/// The model of what merging gives.
pub open spec fn merge_view(r: Result<Option<String>, String>) -> Result<
    Option<Seq<char>>,
    Seq<char>,
> {
    match r {
        Ok(o) => Ok(crate::text::opt_view(o)),
        Err(e) => Err(e@),
    }
}

/// Merges the texts of this version into a file: what is to be written, where anything is.
pub fn merge_missing_keys(existing_raw: &str, defaults_json: &str) -> (r: Result<
    Option<String>,
    String,
>)
    ensures
        merge_outcome(existing_raw@, defaults_json@, merge_view(r)),
{
    let value = match parse_json(existing_raw) {
        Ok(v) => v,
        Err(e) => {
            return Err(error_words(&e));
        },
    };
    let mut existing = match take_object(value) {
        Some(m) => m,
        None => {
            return Err("locale file is not a JSON object".to_owned());
        },
    };
    let defaults = match parse_json(defaults_json) {
        Ok(v) => take_object(v),
        Err(_) => None,
    };
    match defaults {
        None => Err("bundled defaults are not a JSON object".to_owned()),
        Some(d) => {
            let ghost before = existing;
            if !merge_entries(&mut existing, &d) {
                return Ok(None);
            }
            let ghost after = existing;
            match print_pretty(existing) {
                Ok(t) => {
                    assert(pretty_json(after) == Ok::<Seq<char>, serde_json::Error>(t@));
                    Ok(Some(t))
                },
                Err(e) => {
                    assert(pretty_json(after) == Err::<Seq<char>, serde_json::Error>(e));
                    Err(error_words(&e))
                },
            }
        },
    }
}

/// What the user has changed stays: a text that no version had before is kept.
pub proof fn law_own_texts_are_kept(
    existing: Map<Seq<char>, serde_json::Value>,
    defaults: Map<Seq<char>, serde_json::Value>,
    key: Seq<char>,
)
    requires
        existing.contains_key(key),
        !is_stale(key, existing[key]),
    ensures
        merged(existing, defaults).contains_key(key),
        merged(existing, defaults)[key] == existing[key],
{
}

/// Nothing is lacking after merging, and nothing is taken away.
pub proof fn law_no_text_is_lacking(
    existing: Map<Seq<char>, serde_json::Value>,
    defaults: Map<Seq<char>, serde_json::Value>,
    key: Seq<char>,
)
    ensures
        merged(existing, defaults).contains_key(key) <==> existing.contains_key(key)
            || defaults.contains_key(key),
{
}

/// Merging twice is the same as merging once.
pub proof fn law_merging_is_settled(
    existing: Map<Seq<char>, serde_json::Value>,
    defaults: Map<Seq<char>, serde_json::Value>,
)
    ensures
        merged(merged(existing, defaults), defaults) == merged(existing, defaults),
{
    assert(merged(merged(existing, defaults), defaults) =~= merged(existing, defaults));
}

// ---------------------------------------------------------------------------
// Files
// ---------------------------------------------------------------------------

/// Whether a character can stand in the code of a language.
pub open spec fn is_code_char(c: char) -> bool {
    crate::text::is_alnum(c) || c == '-' || c == '_'
}

/// Whether all characters of a name can stand in the code of a language.
pub open spec fn is_code(s: Seq<char>) -> bool {
    forall|i: int| 0 <= i < s.len() ==> is_code_char(#[trigger] s[i])
}

/// Whether a file holds the texts of a language, given the parts of its name.
pub open spec fn is_locale_file(stem: Seq<char>, extension: Option<Seq<char>>) -> bool {
    extension == Some("json"@) && is_code(crate::text::lowered(stem))
}

/// The code of the language that a file is for, given the parts of its name.
pub fn locale_code(stem: &str, extension: Option<&str>) -> (r: Option<String>)
    ensures
        crate::text::opt_view(r) == if is_locale_file(
            stem@,
            crate::text::opt_str_view(extension),
        ) {
            Some(crate::text::lowered(stem@))
        } else {
            None
        },
{
    match extension {
        Some(e) => {
            if !same(e, "json") {
                return None;
            }
        },
        None => {
            return None;
        },
    }
    let s = chars_of(stem);
    let low = to_lower(s.as_slice());
    let mut i: usize = 0;
    while i < low.len()
        invariant
            i <= low@.len(),
            low@ == crate::text::lowered(stem@),
            forall|j: int| 0 <= j < i ==> is_code_char(#[trigger] low@[j]),
        decreases low.len() - i,
    {
        let c: char = low[i];
        if !(is_ascii_alphanumeric(c) || c == '-' || c == '_') {
            return None;
        }
        i = i + 1;
    }
    Some(text_of(low.as_slice()))
}

/// The texts that a file of the directory gives, under the code of their language: whatever its
/// text says as JSON, or why it says nothing. Nothing is read of a file that is not for a language.
pub fn read_locale(stem: &str, extension: Option<&str>, body: &str) -> (r: Option<
    Result<(String, serde_json::Value), String>,
>)
    ensures
        match r {
            None => !is_locale_file(stem@, crate::text::opt_str_view(extension)),
            Some(Ok((code, value))) => is_locale_file(stem@, crate::text::opt_str_view(extension))
                && code@ == crate::text::lowered(stem@) && parsed_json(body@) == Ok::<
                serde_json::Value,
                serde_json::Error,
            >(value),
            Some(Err(words)) => is_locale_file(stem@, crate::text::opt_str_view(extension))
                && parsed_json(body@) is Err && words@ == json_trouble(parsed_json(body@)->Err_0),
        },
{
    match locale_code(stem, extension) {
        None => None,
        Some(code) => match parse_json(body) {
            Ok(value) => Some(Ok((code, value))),
            Err(e) => Some(Err(error_words(&e))),
        },
    }
}

/// A file is one of a language exactly where it is a JSON file whose name is of letters, digits,
/// hyphens and underscores.
pub proof fn law_language_files_are_known(stem: Seq<char>, extension: Option<Seq<char>>)
    ensures
        is_locale_file(stem, extension) <==> extension == Some("json"@) && forall|i: int|
            0 <= i < stem.len() ==> ('a' <= #[trigger] stem[i] && stem[i] <= 'z') || ('A' <= stem[i]
                && stem[i] <= 'Z') || ('0' <= stem[i] && stem[i] <= '9') || stem[i] == '-'
                || stem[i] == '_',
{
    let low = crate::text::lowered(stem);
    assert forall|i: int| 0 <= i < stem.len() implies (is_code_char(low[i]) <==> ('a'
        <= #[trigger] stem[i] && stem[i] <= 'z') || ('A' <= stem[i] && stem[i] <= 'Z') || ('0'
        <= stem[i] && stem[i] <= '9') || stem[i] == '-' || stem[i] == '_') by {
        assert(low[i] == crate::text::lower_char(stem[i]));
    }
    if is_code(low) {
        assert forall|i: int| 0 <= i < stem.len() implies ('a' <= #[trigger] stem[i] && stem[i]
            <= 'z') || ('A' <= stem[i] && stem[i] <= 'Z') || ('0' <= stem[i] && stem[i] <= '9')
            || stem[i] == '-' || stem[i] == '_' by {
            assert(is_code_char(low[i]));
        }
    }
    if forall|i: int|
        0 <= i < stem.len() ==> ('a' <= #[trigger] stem[i] && stem[i] <= 'z') || ('A' <= stem[i]
            && stem[i] <= 'Z') || ('0' <= stem[i] && stem[i] <= '9') || stem[i] == '-' || stem[i]
            == '_' {
        assert forall|i: int| 0 <= i < low.len() implies is_code_char(#[trigger] low[i]) by {
            assert(low[i] == crate::text::lower_char(stem[i]));
            assert('a' <= stem[i] && stem[i] <= 'z' || 'A' <= stem[i] && stem[i] <= 'Z' || '0'
                <= stem[i] && stem[i] <= '9' || stem[i] == '-' || stem[i] == '_');
        }
    }
}

/// The texts that an update replaces are those that earlier versions had under the same key, in
/// either language, and a text under another key is never replaced.
pub proof fn law_replaced_texts_are_known(key: Seq<char>, text: Seq<char>)
    ensures
        is_outdated(key, text) <==> {
            ||| key == "quick.autoRefine"@ && (text == "自動整形"@ || text == "Auto refine"@)
            ||| key == "quick.autoTranslate"@ && (text == "自動翻訳"@ || text == "Auto translate"@)
            ||| key == "quick.autoCustom"@ && (text == "自動カスタム"@ || text == "Auto custom"@)
            ||| key == "quick.autoSave"@ && (text == "自動追加"@ || text == "Auto save"@)
            ||| key == "quick.autoAnalyze"@ && (text == "分析"@ || text == "Analyze"@)
            ||| key == "quick.autoAnalyzeTooltip"@ && (text == "文字起こし後に分析します（トーン・要点・キーワード）"@ || text == "Analyze after transcription (tone, summary, keywords)"@)
            ||| key == "settings.analyze.title"@ && (text == "分析設定"@ || text == "Analysis"@)
            ||| key == "note.analyze"@ && (text == "🔍 分析"@ || text == "🔍 Analyze"@)
            ||| key == "note.analyzing"@ && (text == "分析中..."@ || text == "Analyzing..."@)
            ||| key == "note.analysisFailed"@ && (text == "分析に失敗しました"@ || text == "Analysis failed"@)
            ||| key == "models.desc.llm.qwen"@ && (text == "テキスト整形・翻訳・分析に使用"@ || text == "Used for text refinement, translation and analysis"@)
            ||| key == "settings.models.chatDesc"@ && (text == "整形・翻訳・分析に使用します。プロジェクト補正や後処理パイプラインの裏で動作します。"@ || text == "Used for refinement, translation and analysis. Runs behind the scenes for post-processing."@)
            ||| key == "settings.shortcuts.hint"@ && (text == "各項目の入力欄をクリックして、割り当てたいキーを押してください。Esc で取り消し、Delete / Backspace で解除できます。"@ || text == "各項目の入力欄をクリックして、割り当てたいキーを押してください。「押下中だけ録音」は Ctrl 単体などの長押しキーも割り当てられます。Esc で取り消し、Delete / Backspace で解除できます。"@ || text == "各項目の入力欄をクリックして、割り当てたいキーを押してください。「押下中だけ録音」は右Ctrlなどの単独キーも指定でき、アプリが非アクティブでも動作します。Esc で取り消し、Delete / Backspace で解除できます。"@ || text == "Click a field and press the keys you want to bind. Esc to cancel, Delete / Backspace to clear."@ || text == "Click a field and press the keys you want to bind. Press-and-hold recording can use a single held key such as Ctrl. Esc to cancel, Delete / Backspace to clear."@ || text == "Click a field and press the keys you want to bind. Press-and-hold recording can use a single key such as RightCtrl and works even when the app is inactive. Esc to cancel, Delete / Backspace to clear."@)
            ||| key == "settings.complete.model"@ && (text == "補完に使用するモデル"@ || text == "Model for completion"@)
            ||| key == "live.chunkHint"@ && (text == "2秒ごとに文字起こしと翻訳を行います"@ || text == "2秒ごとに文字起こしします"@ || text == "Transcription runs every 2 seconds"@ || text == "Audio is buffered first; translation follows transcription"@)
        },
{
    lemma_keys_apart();
    let texts = outdated_texts(key);
    if key == "quick.autoRefine"@ {
        assert(texts.len() == 2);
        assert(texts[0] == "自動整形"@ && texts[1] == "Auto refine"@);
    }
    if key == "quick.autoTranslate"@ {
        assert(texts.len() == 2);
        assert(texts[0] == "自動翻訳"@ && texts[1] == "Auto translate"@);
    }
    if key == "quick.autoCustom"@ {
        assert(texts.len() == 2);
        assert(texts[0] == "自動カスタム"@ && texts[1] == "Auto custom"@);
    }
    if key == "quick.autoSave"@ {
        assert(texts.len() == 2);
        assert(texts[0] == "自動追加"@ && texts[1] == "Auto save"@);
    }
    if key == "quick.autoAnalyze"@ {
        assert(texts.len() == 2);
        assert(texts[0] == "分析"@ && texts[1] == "Analyze"@);
    }
    if key == "quick.autoAnalyzeTooltip"@ {
        assert(texts.len() == 2);
        assert(texts[0] == "文字起こし後に分析します（トーン・要点・キーワード）"@ && texts[1] == "Analyze after transcription (tone, summary, keywords)"@);
    }
    if key == "settings.analyze.title"@ {
        assert(texts.len() == 2);
        assert(texts[0] == "分析設定"@ && texts[1] == "Analysis"@);
    }
    if key == "note.analyze"@ {
        assert(texts.len() == 2);
        assert(texts[0] == "🔍 分析"@ && texts[1] == "🔍 Analyze"@);
    }
    if key == "note.analyzing"@ {
        assert(texts.len() == 2);
        assert(texts[0] == "分析中..."@ && texts[1] == "Analyzing..."@);
    }
    if key == "note.analysisFailed"@ {
        assert(texts.len() == 2);
        assert(texts[0] == "分析に失敗しました"@ && texts[1] == "Analysis failed"@);
    }
    if key == "models.desc.llm.qwen"@ {
        assert(texts.len() == 2);
        assert(texts[0] == "テキスト整形・翻訳・分析に使用"@ && texts[1] == "Used for text refinement, translation and analysis"@);
    }
    if key == "settings.models.chatDesc"@ {
        assert(texts.len() == 2);
        assert(texts[0] == "整形・翻訳・分析に使用します。プロジェクト補正や後処理パイプラインの裏で動作します。"@ && texts[1] == "Used for refinement, translation and analysis. Runs behind the scenes for post-processing."@);
    }
    if key == "settings.shortcuts.hint"@ {
        assert(texts.len() == 6);
        assert(texts[0] == "各項目の入力欄をクリックして、割り当てたいキーを押してください。Esc で取り消し、Delete / Backspace で解除できます。"@ && texts[1] == "各項目の入力欄をクリックして、割り当てたいキーを押してください。「押下中だけ録音」は Ctrl 単体などの長押しキーも割り当てられます。Esc で取り消し、Delete / Backspace で解除できます。"@ && texts[2] == "各項目の入力欄をクリックして、割り当てたいキーを押してください。「押下中だけ録音」は右Ctrlなどの単独キーも指定でき、アプリが非アクティブでも動作します。Esc で取り消し、Delete / Backspace で解除できます。"@ && texts[3] == "Click a field and press the keys you want to bind. Esc to cancel, Delete / Backspace to clear."@ && texts[4] == "Click a field and press the keys you want to bind. Press-and-hold recording can use a single held key such as Ctrl. Esc to cancel, Delete / Backspace to clear."@ && texts[5] == "Click a field and press the keys you want to bind. Press-and-hold recording can use a single key such as RightCtrl and works even when the app is inactive. Esc to cancel, Delete / Backspace to clear."@);
    }
    if key == "settings.complete.model"@ {
        assert(texts.len() == 2);
        assert(texts[0] == "補完に使用するモデル"@ && texts[1] == "Model for completion"@);
    }
    if key == "live.chunkHint"@ {
        assert(texts.len() == 4);
        assert(texts[0] == "2秒ごとに文字起こしと翻訳を行います"@ && texts[1] == "2秒ごとに文字起こしします"@ && texts[2] == "Transcription runs every 2 seconds"@ && texts[3] == "Audio is buffered first; translation follows transcription"@);
    }
}

/// How long the keys are, and that those of one length differ.
proof fn lemma_keys_apart()
    ensures
        "quick.autoRefine"@.len() == 16,
        "quick.autoTranslate"@.len() == 19,
        "quick.autoCustom"@.len() == 16,
        "quick.autoSave"@.len() == 14,
        "quick.autoAnalyze"@.len() == 17,
        "quick.autoAnalyzeTooltip"@.len() == 24,
        "settings.analyze.title"@.len() == 22,
        "note.analyze"@.len() == 12,
        "note.analyzing"@.len() == 14,
        "note.analysisFailed"@.len() == 19,
        "models.desc.llm.qwen"@.len() == 20,
        "settings.models.chatDesc"@.len() == 24,
        "settings.shortcuts.hint"@.len() == 23,
        "settings.complete.model"@.len() == 23,
        "live.chunkHint"@.len() == 14,
        "quick.autoRefine"@ != "quick.autoCustom"@,
        "quick.autoTranslate"@ != "note.analysisFailed"@,
        "quick.autoSave"@ != "note.analyzing"@,
        "quick.autoSave"@ != "live.chunkHint"@,
        "quick.autoAnalyzeTooltip"@ != "settings.models.chatDesc"@,
        "note.analyzing"@ != "live.chunkHint"@,
        "settings.shortcuts.hint"@ != "settings.complete.model"@,
{
    reveal_strlit("quick.autoRefine");
    reveal_strlit("quick.autoTranslate");
    reveal_strlit("quick.autoCustom");
    reveal_strlit("quick.autoSave");
    reveal_strlit("quick.autoAnalyze");
    reveal_strlit("quick.autoAnalyzeTooltip");
    reveal_strlit("settings.analyze.title");
    reveal_strlit("note.analyze");
    reveal_strlit("note.analyzing");
    reveal_strlit("note.analysisFailed");
    reveal_strlit("models.desc.llm.qwen");
    reveal_strlit("settings.models.chatDesc");
    reveal_strlit("settings.shortcuts.hint");
    reveal_strlit("settings.complete.model");
    reveal_strlit("live.chunkHint");
    assert("quick.autoRefine"@[10] == 'R' && "quick.autoCustom"@[10] == 'C');
    assert("quick.autoTranslate"@[0] == 'q' && "note.analysisFailed"@[0] == 'n');
    assert("quick.autoSave"@[0] == 'q' && "note.analyzing"@[0] == 'n');
    assert("quick.autoSave"@[0] == 'q' && "live.chunkHint"@[0] == 'l');
    assert("quick.autoAnalyzeTooltip"@[0] == 'q' && "settings.models.chatDesc"@[0] == 's');
    assert("note.analyzing"@[0] == 'n' && "live.chunkHint"@[0] == 'l');
    assert("settings.shortcuts.hint"@[9] == 's' && "settings.complete.model"@[9] == 'c');
}

/// Files that are no JSON objects are not merged, and it is told which of the two is none.
pub proof fn law_only_objects_are_merged(
    existing_raw: Seq<char>,
    defaults_json: Seq<char>,
    r: Result<Option<Seq<char>>, Seq<char>>,
)
    requires
        merge_outcome(existing_raw, defaults_json, r),
    ensures
        parsed_json(existing_raw) matches Err(e) ==> r == Err::<Option<Seq<char>>, _>(
            json_trouble(e),
        ),
        parsed_json(existing_raw) matches Ok(v) ==> (object_in(v) is None ==> r == Err::<
            Option<Seq<char>>,
            _,
        >("locale file is not a JSON object"@)),
        parsed_json(existing_raw) matches Ok(v) ==> (object_in(v) is Some && !(parsed_json(
            defaults_json,
        ) matches Ok(d) && object_in(d) is Some) ==> r == Err::<Option<Seq<char>>, _>(
            "bundled defaults are not a JSON object"@,
        )),
{
}

/// Two objects are merged where the user's lacks a text or has one that is outdated, and what comes
/// out is an object with every key of the two in which the user's own texts stand. Where nothing is
/// lacking nothing comes out.
pub proof fn law_objects_are_merged_where_needed(
    existing_raw: Seq<char>,
    defaults_json: Seq<char>,
    existing: serde_json::Map<String, serde_json::Value>,
    defaults: serde_json::Map<String, serde_json::Value>,
    r: Result<Option<Seq<char>>, Seq<char>>,
)
    requires
        merge_outcome(existing_raw, defaults_json, r),
        parsed_json(existing_raw) matches Ok(v) && object_in(v) == Some(existing),
        parsed_json(defaults_json) matches Ok(d) && object_in(d) == Some(defaults),
    ensures
        (forall|key: Seq<char>| #[trigger]
            entries(defaults).contains_key(key) ==> entries(existing).contains_key(key)
                && !is_stale(key, entries(existing)[key])) ==> r == Ok::<_, Seq<char>>(
            None::<Seq<char>>,
        ),
        forall|key: Seq<char>| #[trigger]
            entries(defaults).contains_key(key) && (!entries(existing).contains_key(key)
                || is_stale(key, entries(existing)[key])) ==> exists|m: serde_json::Map<
                String,
                serde_json::Value,
            >|
                entries(m) == merged(entries(existing), entries(defaults)) && r
                    == match #[trigger] pretty_json(m) {
                    Ok(t) => Ok(Some(t)),
                    Err(e) => Err(json_trouble(e)),
                },
{
    assert forall|key: Seq<char>| #[trigger]
        entries(defaults).contains_key(key) && (!entries(existing).contains_key(key) || is_stale(
            key,
            entries(existing)[key],
        )) implies needs_merging(entries(existing), entries(defaults)) by {
        assert(needs_text(entries(existing), key));
    }
}

} // verus!
