//! The models: which are needed, which can run on this machine, how they are listed, and how they
//! are tried out.

use crate::chat::AppError;
use crate::tables::sort_rows;
use crate::text::{
    chars_of, contains, equals, fill, fill_owned, join, same, starts_with, text_before, to_lower,
    trim_text,
};
use vstd::prelude::*;

verus! {

/// The speech model that is used unless another is asked for.
pub const DEFAULT_SPEECH_MODEL_ALIAS: &'static str = "whisper-tiny";

/// The chat model that is used unless another is asked for.
pub const CHAT_MODEL_ALIAS: &'static str = "qwen2.5-coder-0.5b";

/// The command that installs the runtime.
pub const FOUNDRY_LOCAL_INSTALL_COMMAND: &'static str = "winget install Microsoft.FoundryLocal";

/// Whether all characters of `s` are ASCII.
pub open spec fn all_ascii(s: Seq<char>) -> bool {
    forall|i: int| 0 <= i < s.len() ==> (#[trigger] s[i] as u32) < 128
}

/// `s` in small letters, as Unicode has them.
pub uninterp spec fn unicode_lower(s: Seq<char>) -> Seq<char>;

/// `str::to_lowercase`: the text in small letters, as Unicode has them. Of ASCII text it is the
/// text with each capital turned into the small letter.
#[verifier::external_body]
fn lowercase(s: &str) -> (r: String)
    ensures
        r@ == unicode_lower(s@),
        all_ascii(s@) ==> r@ == crate::text::lowered(s@),
{
    s.to_lowercase()
}

// ---------------------------------------------------------------------------
// Names of models
// ---------------------------------------------------------------------------

/// Whether the application cannot do without a model.
pub open spec fn is_required(alias: Seq<char>) -> bool {
    alias == DEFAULT_SPEECH_MODEL_ALIAS@ || alias == CHAT_MODEL_ALIAS@
}

/// Whether the application cannot do without a model.
pub fn is_required_model_alias(alias: &str) -> (r: bool)
    ensures
        r == is_required(alias@),
{
    same(alias, DEFAULT_SPEECH_MODEL_ALIAS) || same(alias, CHAT_MODEL_ALIAS)
}

/// The speech model that is meant: the one that was asked for, or the default.
pub fn normalize_speech_model_alias(alias: Option<String>) -> (r: String)
    ensures
        r@ == crate::process::given_or(
            crate::text::opt_view(alias),
            DEFAULT_SPEECH_MODEL_ALIAS@,
        ),
{
    match fill_owned(&alias) {
        Some(a) => a,
        None => DEFAULT_SPEECH_MODEL_ALIAS.to_owned(),
    }
}

/// The chat model that is meant: the one that was asked for, or the default.
pub fn normalize_chat_model_alias(alias: Option<&str>) -> (r: String)
    ensures
        r@ == crate::process::given_or(crate::text::opt_str_view(alias), CHAT_MODEL_ALIAS@),
{
    match fill(alias) {
        Some(a) => a,
        None => CHAT_MODEL_ALIAS.to_owned(),
    }
}

/// The alias that a request names, trimmed.
pub fn required_alias(alias: &str) -> (r: Result<String, AppError>)
    ensures
        crate::chat::result_view(r) == if crate::text::blank(alias@) {
            Err(crate::chat::bad("alias is required"@))
        } else {
            Ok(crate::text::trimmed(alias@))
        },
{
    let a = trim_text(alias);
    if a.as_str().is_empty() {
        Err(AppError::bad_request("alias is required"))
    } else {
        Ok(a)
    }
}

/// The key of the text that says what a model is for, given its name and what it takes and gives in
/// small letters.
pub open spec fn purpose_of(
    lower: Seq<char>,
    input: Seq<char>,
    output: Seq<char>,
    is_speech: bool,
) -> Seq<char> {
    if is_speech {
        if crate::text::has_text(lower, "tiny"@) {
            "models.desc.whisper.tiny"@
        } else if crate::text::has_text(lower, "base"@) {
            "models.desc.whisper.base"@
        } else if crate::text::has_text(lower, "small"@) {
            "models.desc.whisper.small"@
        } else if crate::text::has_text(lower, "medium"@) {
            "models.desc.whisper.medium"@
        } else if crate::text::has_text(lower, "large"@) && crate::text::has_text(
            lower,
            "turbo"@,
        ) {
            "models.desc.whisper.largeTurbo"@
        } else if crate::text::has_text(lower, "large"@) {
            "models.desc.whisper.large"@
        } else {
            "models.desc.whisper.generic"@
        }
    } else if crate::text::has_text(lower, "qwen"@) {
        "models.desc.llm.qwen"@
    } else if crate::text::has_text(lower, "phi"@) {
        "models.desc.llm.phi"@
    } else if crate::text::has_text(lower, "llama"@) {
        "models.desc.llm.llama"@
    } else if crate::text::has_text(input, "image"@) {
        "models.desc.llm.image"@
    } else if crate::text::has_text(output, "text"@) {
        "models.desc.llm.text"@
    } else {
        "models.desc.llm.generic"@
    }
}

/// The key of the text that says what a model is for, given its name and what it takes and gives in
/// small letters.
pub fn purpose_key(lower: &str, input: &str, output: &str, is_speech: bool) -> (r: String)
    ensures
        r@ == purpose_of(lower@, input@, output@, is_speech),
{
    let all = chars_of(lower);
    let s = all.as_slice();
    let takes = chars_of(input);
    let gives = chars_of(output);
    let key = if is_speech {
        if contains(s, "tiny") {
            "models.desc.whisper.tiny"
        } else if contains(s, "base") {
            "models.desc.whisper.base"
        } else if contains(s, "small") {
            "models.desc.whisper.small"
        } else if contains(s, "medium") {
            "models.desc.whisper.medium"
        } else if contains(s, "large") && contains(s, "turbo") {
            "models.desc.whisper.largeTurbo"
        } else if contains(s, "large") {
            "models.desc.whisper.large"
        } else {
            "models.desc.whisper.generic"
        }
    } else if contains(s, "qwen") {
        "models.desc.llm.qwen"
    } else if contains(s, "phi") {
        "models.desc.llm.phi"
    } else if contains(s, "llama") {
        "models.desc.llm.llama"
    } else if contains(takes.as_slice(), "image") {
        "models.desc.llm.image"
    } else if contains(gives.as_slice(), "text") {
        "models.desc.llm.text"
    } else {
        "models.desc.llm.generic"
    };
    key.to_owned()
}

/// The key of the text that says what a model is for. The text itself is in the locale.
pub fn describe_model_purpose(alias: &str, input_mod: &str, output_mod: &str, is_speech: bool) -> (r:
    String)
    ensures
        r@ == purpose_of(
            unicode_lower(alias@),
            unicode_lower(input_mod@),
            unicode_lower(output_mod@),
            is_speech,
        ),
        all_ascii(alias@) ==> r@ == purpose_of(
            crate::text::lowered(alias@),
            unicode_lower(input_mod@),
            unicode_lower(output_mod@),
            is_speech,
        ),
{
    purpose_key(
        lowercase(alias).as_str(),
        lowercase(input_mod).as_str(),
        lowercase(output_mod).as_str(),
        is_speech,
    )
}

/// What a model is for is said by a key of its kind. What a speech model is for depends on its name
/// alone, and a large turbo one that names no smaller size has a key of its own.
pub proof fn law_purposes_are_of_their_kind(
    lower: Seq<char>,
    input: Seq<char>,
    output: Seq<char>,
    other_input: Seq<char>,
    other_output: Seq<char>,
)
    ensures
        crate::text::begins(purpose_of(lower, input, output, true), "models.desc.whisper."@),
        crate::text::begins(purpose_of(lower, input, output, false), "models.desc.llm."@),
        purpose_of(lower, input, output, true) == purpose_of(
            lower,
            other_input,
            other_output,
            true,
        ),
        crate::text::has_text(lower, "large"@) && crate::text::has_text(lower, "turbo"@)
            && !crate::text::has_text(lower, "tiny"@) && !crate::text::has_text(lower, "base"@)
            && !crate::text::has_text(lower, "small"@) && !crate::text::has_text(
            lower,
            "medium"@,
        ) ==> purpose_of(lower, input, output, true) == "models.desc.whisper.largeTurbo"@,
{
    reveal_strlit("models.desc.whisper.");
    reveal_strlit("models.desc.whisper.tiny");
    reveal_strlit("models.desc.whisper.base");
    reveal_strlit("models.desc.whisper.small");
    reveal_strlit("models.desc.whisper.medium");
    reveal_strlit("models.desc.whisper.largeTurbo");
    reveal_strlit("models.desc.whisper.large");
    reveal_strlit("models.desc.whisper.generic");
    reveal_strlit("models.desc.llm.");
    reveal_strlit("models.desc.llm.qwen");
    reveal_strlit("models.desc.llm.phi");
    reveal_strlit("models.desc.llm.llama");
    reveal_strlit("models.desc.llm.image");
    reveal_strlit("models.desc.llm.text");
    reveal_strlit("models.desc.llm.generic");
    let speech = purpose_of(lower, input, output, true);
    let chat = purpose_of(lower, input, output, false);
    assert(speech.subrange(0, 20) =~= "models.desc.whisper."@);
    assert(chat.subrange(0, 16) =~= "models.desc.llm."@);
}

/// The case of the letters of an ASCII name does not matter for what a model is for.
pub proof fn law_purpose_ignores_case(
    alias: Seq<char>,
    other: Seq<char>,
    input: Seq<char>,
    output: Seq<char>,
    is_speech: bool,
)
    requires
        all_ascii(alias),
        crate::text::same_but_for_case(alias, other),
    ensures
        all_ascii(other),
        purpose_of(crate::text::lowered(alias), input, output, is_speech) == purpose_of(
            crate::text::lowered(other),
            input,
            output,
            is_speech,
        ),
{
    crate::text::lemma_same_but_for_case(alias, other);
    assert forall|i: int| 0 <= i < other.len() implies (#[trigger] other[i] as u32) < 128 by {
        assert((alias[i] as u32) < 128);
        assert(crate::text::lower_char(alias[i]) == crate::text::lower_char(other[i]));
    }
}

/// Whether a model turns speech into text, given its name and what it takes in small letters.
pub open spec fn is_speech_model(lower: Seq<char>, input: Seq<char>) -> bool {
    crate::text::begins(lower, "whisper"@) || crate::text::has_text(input, "audio"@)
}

/// Whether a model turns speech into text, given its name and what it takes in small letters.
pub fn takes_speech(lower: &str, input: &str) -> (r: bool)
    ensures
        r == is_speech_model(lower@, input@),
{
    let name = chars_of(lower);
    let takes = chars_of(input);
    starts_with(name.as_slice(), "whisper") || contains(takes.as_slice(), "audio")
}

/// Whether a model of the catalog turns speech into text.
pub fn speech_entry(alias: &str, input_mod: &str) -> (r: bool)
    ensures
        r == is_speech_model(unicode_lower(alias@), unicode_lower(input_mod@)),
{
    takes_speech(lowercase(alias).as_str(), lowercase(input_mod).as_str())
}

/// Whether a model is a speech model by its name.
pub fn speech_by_name(alias: &str) -> (r: bool)
    ensures
        r == crate::text::begins(unicode_lower(alias@), "whisper"@),
{
    let name = chars_of(lowercase(alias).as_str());
    starts_with(name.as_slice(), "whisper")
}

// ---------------------------------------------------------------------------
// Variants
// ---------------------------------------------------------------------------

/// What a variant of a model needs to run.
pub struct VariantRuntime {
    /// Whether the device is the CPU.
    pub cpu_device: bool,
    pub execution_provider: String,
}

/// A variant of a model.
pub struct ModelVariant {
    pub id: String,
    pub runtime: Option<VariantRuntime>,
    pub cached: bool,
}

/// The model of a [`ModelVariant`].
pub struct VariantView {
    pub id: Seq<char>,
    pub runtime: Option<(bool, Seq<char>)>,
    pub cached: bool,
}

impl View for ModelVariant {
    type V = VariantView;

    open spec fn view(&self) -> VariantView {
        VariantView {
            id: self.id@,
            runtime: match self.runtime {
                Some(rt) => Some((rt.cpu_device, rt.execution_provider@)),
                None => None,
            },
            cached: self.cached,
        }
    }
}

/// Whether an execution provider is that of the CPU.
pub open spec fn is_cpu_provider(provider: Seq<char>) -> bool {
    ||| provider.len() == 0
    ||| crate::text::lowered(provider) == "cpu"@
    ||| crate::text::has_text(unicode_lower(provider), "cpuexecutionprovider"@)
}

/// Whether a variant runs on the CPU. One that says nothing of what it needs is taken to.
pub open spec fn runs_on_cpu(v: VariantView) -> bool {
    match v.runtime {
        Some((cpu_device, provider)) => cpu_device || is_cpu_provider(provider),
        None => true,
    }
}

/// Whether the execution provider of a variant is among those registered.
pub open spec fn is_registered(v: VariantView, registered: Seq<Seq<char>>) -> bool {
    match v.runtime {
        Some((_, provider)) => registered.contains(provider),
        None => true,
    }
}

/// Whether a variant can run here.
pub open spec fn runs_here(v: VariantView, registered: Seq<Seq<char>>) -> bool {
    runs_on_cpu(v) || is_registered(v, registered)
}

/// The first variant, from index `i` on, that meets `p`.
pub open spec fn first_variant(
    variants: Seq<VariantView>,
    p: spec_fn(VariantView) -> bool,
    i: int,
) -> Option<int>
    decreases variants.len() - i,
{
    if i < 0 || i >= variants.len() {
        None
    } else if p(variants[i]) {
        Some(i)
    } else {
        first_variant(variants, p, i + 1)
    }
}

/// Variants that are here already and can run.
pub open spec fn cached_and_runs(registered: Seq<Seq<char>>) -> spec_fn(VariantView) -> bool {
    |v: VariantView| v.cached && runs_here(v, registered)
}

/// Variants that run on the CPU.
pub open spec fn on_cpu() -> spec_fn(VariantView) -> bool {
    |v: VariantView| runs_on_cpu(v)
}

/// Variants whose execution provider is registered.
pub open spec fn on_registered(registered: Seq<Seq<char>>) -> spec_fn(VariantView) -> bool {
    |v: VariantView| is_registered(v, registered)
}

/// The variant that is chosen: one that is here already and can run, else one for the CPU, else one
/// whose execution provider is registered. None where there is no such variant.
pub open spec fn best_variant(variants: Seq<VariantView>, registered: Seq<Seq<char>>) -> Option<
    int,
> {
    if first_variant(variants, cached_and_runs(registered), 0) is Some {
        first_variant(variants, cached_and_runs(registered), 0)
    } else if first_variant(variants, on_cpu(), 0) is Some {
        first_variant(variants, on_cpu(), 0)
    } else {
        first_variant(variants, on_registered(registered), 0)
    }
}

pub proof fn lemma_first_variant(
    variants: Seq<VariantView>,
    p: spec_fn(VariantView) -> bool,
    i: int,
)
    requires
        0 <= i,
    ensures
        match first_variant(variants, p, i) {
            Some(k) => i <= k < variants.len() && p(variants[k]) && forall|j: int|
                i <= j < k ==> !p(#[trigger] variants[j]),
            None => forall|j: int| i <= j < variants.len() ==> !p(#[trigger] variants[j]),
        },
    decreases variants.len() - i,
{
    if i < variants.len() && !p(variants[i]) {
        lemma_first_variant(variants, p, i + 1);
    }
}

pub(crate) fn contains_text(list: &Vec<String>, t: &str) -> (r: bool)
    ensures
        r == crate::text::texts(list@).contains(t@),
{
    let ghost all = crate::text::texts(list@);
    let mut i: usize = 0;
    while i < list.len()
        invariant
            i <= list@.len(),
            all == crate::text::texts(list@),
            forall|j: int| 0 <= j < i ==> #[trigger] all[j] != t@,
        decreases list.len() - i,
    {
        assert(all[i as int] == list@[i as int]@);
        if same(list[i].as_str(), t) {
            return true;
        }
        i = i + 1;
    }
    false
}

fn variant_on_cpu(v: &ModelVariant) -> (r: bool)
    ensures
        r == runs_on_cpu(v@),
{
    match &v.runtime {
        Some(rt) => {
            let provider = chars_of(rt.execution_provider.as_str());
            let low = to_lower(provider.as_slice());
            let wide = chars_of(lowercase(rt.execution_provider.as_str()).as_str());
            rt.cpu_device || provider.len() == 0 || equals(low.as_slice(), "cpu") || contains(
                wide.as_slice(),
                "cpuexecutionprovider",
            )
        },
        None => true,
    }
}

fn variant_registered(v: &ModelVariant, registered: &Vec<String>) -> (r: bool)
    ensures
        r == is_registered(v@, crate::text::texts(registered@)),
{
    match &v.runtime {
        Some(rt) => contains_text(registered, rt.execution_provider.as_str()),
        None => true,
    }
}

/// The index of the variant to use: one that is here already and can run, else one for the CPU,
/// else one whose execution provider is registered. Where there is none, the choice is left as it
/// is.
pub fn select_best_variant(variants: &Vec<ModelVariant>, registered: &Vec<String>) -> (r: Option<
    usize,
>)
    ensures
        match r {
            Some(k) => best_variant(
                crate::records::views(variants@),
                crate::text::texts(registered@),
            ) == Some(k as int) && k < variants@.len(),
            None => best_variant(
                crate::records::views(variants@),
                crate::text::texts(registered@),
            ) is None,
        },
{
    let ghost all = crate::records::views(variants@);
    let ghost reg = crate::text::texts(registered@);
    let mut i: usize = 0;
    while i < variants.len()
        invariant
            i <= variants@.len(),
            all == crate::records::views(variants@),
            reg == crate::text::texts(registered@),
            first_variant(all, cached_and_runs(reg), 0) == first_variant(
                all,
                cached_and_runs(reg),
                i as int,
            ),
        decreases variants.len() - i,
    {
        assert(all[i as int] == variants@[i as int]@);
        if variants[i].cached && (variant_on_cpu(&variants[i]) || variant_registered(
            &variants[i],
            registered,
        )) {
            return Some(i);
        }
        i = i + 1;
    }
    let mut j: usize = 0;
    while j < variants.len()
        invariant
            j <= variants@.len(),
            all == crate::records::views(variants@),
            reg == crate::text::texts(registered@),
            first_variant(all, cached_and_runs(reg), 0) is None,
            first_variant(all, on_cpu(), 0) == first_variant(all, on_cpu(), j as int),
        decreases variants.len() - j,
    {
        assert(all[j as int] == variants@[j as int]@);
        if variant_on_cpu(&variants[j]) {
            return Some(j);
        }
        j = j + 1;
    }
    let mut k: usize = 0;
    while k < variants.len()
        invariant
            k <= variants@.len(),
            all == crate::records::views(variants@),
            reg == crate::text::texts(registered@),
            first_variant(all, cached_and_runs(reg), 0) is None,
            first_variant(all, on_cpu(), 0) is None,
            first_variant(all, on_registered(reg), 0) == first_variant(
                all,
                on_registered(reg),
                k as int,
            ),
        decreases variants.len() - k,
    {
        assert(all[k as int] == variants@[k as int]@);
        if variant_registered(&variants[k], registered) {
            return Some(k);
        }
        k = k + 1;
    }
    None
}

/// A variant is chosen exactly where one can run here, the one that is chosen can, and one that has
/// to be fetched is only chosen where none that is here already can run.
pub proof fn law_chosen_variant_runs(variants: Seq<VariantView>, registered: Seq<Seq<char>>)
    ensures
        match best_variant(variants, registered) {
            Some(k) => 0 <= k < variants.len() && runs_here(variants[k], registered) && (
            !variants[k].cached ==> forall|j: int|
                0 <= j < variants.len() ==> !((#[trigger] variants[j]).cached && runs_here(
                    variants[j],
                    registered,
                ))),
            None => forall|j: int|
                0 <= j < variants.len() ==> !runs_here(#[trigger] variants[j], registered),
        },
{
    lemma_first_variant(variants, cached_and_runs(registered), 0);
    lemma_first_variant(variants, on_cpu(), 0);
    lemma_first_variant(variants, on_registered(registered), 0);
    assert forall|j: int|
        first_variant(variants, cached_and_runs(registered), 0) is None && 0 <= j
            < variants.len() implies !((#[trigger] variants[j]).cached && runs_here(
        variants[j],
        registered,
    )) by {
        assert(!cached_and_runs(registered)(variants[j]));
    }
    assert forall|j: int|
        first_variant(variants, on_cpu(), 0) is None && 0 <= j
            < variants.len() implies !runs_on_cpu(#[trigger] variants[j]) by {
        assert(!on_cpu()(variants[j]));
    }
    assert forall|j: int|
        first_variant(variants, on_registered(registered), 0) is None && 0 <= j
            < variants.len() implies !is_registered(#[trigger] variants[j], registered) by {
        assert(!on_registered(registered)(variants[j]));
    }
}

// ---------------------------------------------------------------------------
// What can run here
// ---------------------------------------------------------------------------

/// The execution providers that the variants need and that are not registered, each once.
pub open spec fn missing_providers(
    variants: Seq<VariantView>,
    registered: Seq<Seq<char>>,
) -> Seq<Seq<char>>
    decreases variants.len(),
{
    if variants.len() == 0 {
        Seq::empty()
    } else {
        let head = missing_providers(variants.drop_last(), registered);
        let v = variants.last();
        match v.runtime {
            Some((_, provider)) => if runs_here(v, registered) || head.contains(provider) {
                head
            } else {
                head.push(provider)
            },
            None => head,
        }
    }
}

/// Whether any variant can run here.
pub open spec fn any_runs(variants: Seq<VariantView>, registered: Seq<Seq<char>>) -> bool {
    exists|i: int| 0 <= i < variants.len() && runs_here(#[trigger] variants[i], registered)
}

/// Whether a model can run here, and why not. A model without variants is taken to.
pub open spec fn compatibility(variants: Seq<VariantView>, registered: Seq<Seq<char>>) -> (
    bool,
    Option<Seq<char>>,
) {
    if variants.len() == 0 || any_runs(variants, registered) {
        (true, None)
    } else {
        (
            false,
            Some(
                "Requires: "@ + crate::text::joined(
                    crate::tables::sorted_by(
                        missing_providers(variants, registered),
                        crate::storage::by_text(),
                    ),
                    ", "@,
                ),
            ),
        )
    }
}

/// Whether a model can run here: whether one of its variants can. And why not.
pub fn compute_compatibility(variants: &Vec<ModelVariant>, registered: &Vec<String>) -> (r: (
    bool,
    Option<String>,
))
    ensures
        (r.0, crate::text::opt_view(r.1)) == compatibility(
            crate::records::views(variants@),
            crate::text::texts(registered@),
        ),
{
    let ghost all = crate::records::views(variants@);
    let ghost reg = crate::text::texts(registered@);
    let mut any = false;
    let mut missing: Vec<String> = Vec::new();
    let mut i: usize = 0;
    assert(crate::records::views(missing@) =~= missing_providers(all.take(0), reg));
    while i < variants.len()
        invariant
            i <= variants@.len(),
            all == crate::records::views(variants@),
            reg == crate::text::texts(registered@),
            any == exists|j: int| 0 <= j < i && runs_here(#[trigger] all[j], reg),
            crate::records::views(missing@) == missing_providers(all.take(i as int), reg),
        decreases variants.len() - i,
    {
        let ghost before = crate::records::views(missing@);
        proof {
            assert(all[i as int] == variants@[i as int]@);
            assert(all.take(i + 1).drop_last() =~= all.take(i as int));
            assert(all.take(i + 1).last() == variants@[i as int]@);
            assert(crate::text::texts(missing@) =~= before);
        }
        if variant_on_cpu(&variants[i]) || variant_registered(&variants[i], registered) {
            any = true;
            assert(runs_here(all[i as int], reg));
        } else {
            match &variants[i].runtime {
                Some(rt) => {
                    if !contains_text(&missing, rt.execution_provider.as_str()) {
                        missing.push(rt.execution_provider.clone());
                        assert(crate::records::views(missing@) =~= before.push(
                            rt.execution_provider@,
                        ));
                    }
                },
                None => {},
            }
        }
        i = i + 1;
    }
    assert(all.take(all.len() as int) =~= all);
    if variants.len() == 0 || any {
        return (true, None);
    }
    let before = |a: &String, b: &String| -> (x: bool)
        ensures
            x == crate::storage::by_text()(a@, b@),
    { text_before(a.as_str(), b.as_str()) };
    let sorted = sort_rows(missing, before, Ghost(crate::storage::by_text()));
    assert(crate::text::texts(sorted@) =~= crate::records::views(sorted@));
    let mut reason = "Requires: ".to_owned();
    reason.append(join(&sorted, ", ").as_str());
    (false, Some(reason))
}

/// A model counts as able to run here exactly where a variant can be chosen for it, or where it
/// has no variants.
pub proof fn law_compatible_models_have_a_variant(
    variants: Seq<VariantView>,
    registered: Seq<Seq<char>>,
)
    ensures
        compatibility(variants, registered).0 <==> variants.len() == 0 || best_variant(
            variants,
            registered,
        ) is Some,
        compatibility(variants, registered).0 <==> compatibility(variants, registered).1 is None,
{
    law_chosen_variant_runs(variants, registered);
}

/// The models that the product needs are the smallest speech model and the small chat model.
pub proof fn law_needed_models_are_known(alias: Seq<char>)
    ensures
        is_required(alias) <==> alias == "whisper-tiny"@ || alias == "qwen2.5-coder-0.5b"@,
{
}

/// What a speech model is for is said by the first size that its name has, and what a chat model is
/// for by its family, or else by what it takes and gives.
pub proof fn law_purposes_go_by_the_words(lower: Seq<char>, input: Seq<char>, output: Seq<char>)
    ensures
        ({
            let tiny = crate::text::has_text(lower, "tiny"@);
            let base = crate::text::has_text(lower, "base"@);
            let small = crate::text::has_text(lower, "small"@);
            let medium = crate::text::has_text(lower, "medium"@);
            let large = crate::text::has_text(lower, "large"@);
            let turbo = crate::text::has_text(lower, "turbo"@);
            let said = purpose_of(lower, input, output, true);
            &&& tiny ==> said == "models.desc.whisper.tiny"@
            &&& !tiny && base ==> said == "models.desc.whisper.base"@
            &&& !tiny && !base && small ==> said == "models.desc.whisper.small"@
            &&& !tiny && !base && !small && medium ==> said == "models.desc.whisper.medium"@
            &&& !tiny && !base && !small && !medium && large && !turbo ==> said
                == "models.desc.whisper.large"@
            &&& !tiny && !base && !small && !medium && !large ==> said
                == "models.desc.whisper.generic"@
        }),
        ({
            let qwen = crate::text::has_text(lower, "qwen"@);
            let phi = crate::text::has_text(lower, "phi"@);
            let llama = crate::text::has_text(lower, "llama"@);
            let image = crate::text::has_text(input, "image"@);
            let text = crate::text::has_text(output, "text"@);
            let said = purpose_of(lower, input, output, false);
            &&& qwen ==> said == "models.desc.llm.qwen"@
            &&& !qwen && phi ==> said == "models.desc.llm.phi"@
            &&& !qwen && !phi && llama ==> said == "models.desc.llm.llama"@
            &&& !qwen && !phi && !llama && image ==> said == "models.desc.llm.image"@
            &&& !qwen && !phi && !llama && !image && text ==> said == "models.desc.llm.text"@
            &&& !qwen && !phi && !llama && !image && !text ==> said == "models.desc.llm.generic"@
        }),
{
}

/// A model turns speech into text exactly where its name starts with the name of the speech family
/// or what it takes names audio.
pub proof fn law_speech_models_are_known(lower: Seq<char>, input: Seq<char>)
    ensures
        is_speech_model(lower, input) <==> (crate::text::begins(lower, "whisper"@)
            || crate::text::has_text(input, "audio"@)),
{
}

/// A variant runs here where nothing is said of what it needs, where it needs the processor alone,
/// and where what it needs is registered. One that needs something else that is not registered does
/// not.
pub proof fn law_variants_run_on_what_is_here(v: VariantView, registered: Seq<Seq<char>>)
    ensures
        v.runtime is None ==> runs_here(v, registered),
        v.runtime matches Some(rt) ==> (rt.0 ==> runs_here(v, registered)),
        v.runtime matches Some(rt) ==> (rt.1.len() == 0 ==> runs_here(v, registered)),
        v.runtime matches Some(rt) ==> (crate::text::lowered(rt.1) == "cpu"@ ==> runs_here(
            v,
            registered,
        )),
        v.runtime matches Some(rt) ==> (registered.contains(rt.1) ==> runs_here(v, registered)),
        v.runtime matches Some(rt) ==> (!rt.0 && rt.1.len() > 0 && crate::text::lowered(rt.1)
            != "cpu"@ && !crate::text::has_text(unicode_lower(rt.1), "cpuexecutionprovider"@)
            && !registered.contains(rt.1) ==> !runs_here(v, registered)),
{
}

/// Of the variants that can run here the first that is here already is chosen, else the first that
/// needs the processor alone, else the first whose provider is registered.
pub proof fn law_first_fitting_variant_is_chosen(
    variants: Seq<VariantView>,
    registered: Seq<Seq<char>>,
    j: int,
)
    requires
        0 <= j < variants.len(),
    ensures
        variants[j].cached && runs_here(variants[j], registered) ==> {
            &&& best_variant(variants, registered) matches Some(k)
            &&& k <= j && variants[k].cached
        },
        (runs_on_cpu(variants[j]) && forall|i: int|
            0 <= i < variants.len() ==> !((#[trigger] variants[i]).cached && runs_here(
                variants[i],
                registered,
            ))) ==> {
            &&& best_variant(variants, registered) matches Some(k)
            &&& k <= j && runs_on_cpu(variants[k])
        },
        (runs_here(variants[j], registered) && forall|i: int|
            0 <= i < variants.len() ==> !((#[trigger] variants[i]).cached && runs_here(
                variants[i],
                registered,
            )) && !runs_on_cpu(variants[i])) ==> {
            &&& best_variant(variants, registered) matches Some(k)
            &&& k <= j
        },
{
    lemma_first_variant(variants, cached_and_runs(registered), 0);
    lemma_first_variant(variants, on_cpu(), 0);
    lemma_first_variant(variants, on_registered(registered), 0);
    assert(cached_and_runs(registered)(variants[j]) <==> variants[j].cached && runs_here(
        variants[j],
        registered,
    ));
    assert(on_cpu()(variants[j]) <==> runs_on_cpu(variants[j]));
    assert(on_registered(registered)(variants[j]) <==> is_registered(variants[j], registered));
}

/// A provider is missing exactly where a variant that cannot run here needs it.
proof fn lemma_missing(variants: Seq<VariantView>, registered: Seq<Seq<char>>, provider: Seq<char>)
    ensures
        missing_providers(variants, registered).contains(provider) <==> exists|i: int|
            0 <= i < variants.len() && !runs_here(#[trigger] variants[i], registered) && (
            variants[i].runtime matches Some(rt) && rt.1 == provider),
    decreases variants.len(),
{
    if variants.len() > 0 {
        let front = variants.drop_last();
        let head = missing_providers(front, registered);
        let v = variants.last();
        let all = missing_providers(variants, registered);
        lemma_missing(front, registered, provider);
        if let Some(rt) = v.runtime {
            lemma_missing(front, registered, rt.1);
            if !(runs_here(v, registered) || head.contains(rt.1)) {
                assert(all =~= head.push(rt.1));
                assert(all[head.len() as int] == rt.1);
                assert forall|p: Seq<char>| head.contains(p) implies all.contains(p) by {
                    let i = choose|i: int| 0 <= i < head.len() && head[i] == p;
                    assert(all[i] == p);
                }
            }
        }
        if exists|i: int|
            0 <= i < front.len() && !runs_here(#[trigger] front[i], registered) && (
            front[i].runtime matches Some(rt) && rt.1 == provider) {
            let i = choose|i: int|
                0 <= i < front.len() && !runs_here(#[trigger] front[i], registered) && (
                front[i].runtime matches Some(rt) && rt.1 == provider);
            assert(variants[i] == front[i]);
        }
        if exists|i: int|
            0 <= i < variants.len() && !runs_here(#[trigger] variants[i], registered) && (
            variants[i].runtime matches Some(rt) && rt.1 == provider) {
            let i = choose|i: int|
                0 <= i < variants.len() && !runs_here(#[trigger] variants[i], registered) && (
                variants[i].runtime matches Some(rt) && rt.1 == provider);
            if i < front.len() {
                assert(front[i] == variants[i]);
            } else {
                assert(variants[i] == v);
            }
        }
        assert(variants[variants.len() - 1] == v);
    }
}

/// What is said of a model that cannot run here names every provider that one of its variants needs.
pub proof fn law_missing_providers_are_named(
    variants: Seq<VariantView>,
    registered: Seq<Seq<char>>,
    i: int,
)
    requires
        0 <= i < variants.len(),
        !any_runs(variants, registered),
    ensures
        compatibility(variants, registered).1 matches Some(reason) ==> (variants[i].runtime matches
            Some(rt) ==> crate::text::begins(reason, "Requires: "@) && crate::text::has_text(
            reason,
            rt.1,
        )),
        !compatibility(variants, registered).0,
{
    if let Some(rt) = variants[i].runtime {
        let missing = missing_providers(variants, registered);
        let by = crate::storage::by_text();
        let sorted = crate::tables::sorted_by(missing, by);
        let list = crate::text::joined(sorted, ", "@);
        let reason = "Requires: "@ + list;
        assert(!runs_here(variants[i], registered));
        lemma_missing(variants, registered, rt.1);
        assert(missing.contains(rt.1));
        crate::storage::lemma_by_text_is_order();
        crate::tables::lemma_sorted_contains(missing, by);
        assert(sorted.contains(rt.1));
        let k = choose|k: int| 0 <= k < sorted.len() && sorted[k] == rt.1;
        crate::text::lemma_joined_has(sorted, ", "@, k);
        assert(reason.subrange(0, "Requires: "@.len() as int) =~= "Requires: "@);
        crate::text::lemma_has_part("Requires: "@, list, Seq::empty(), rt.1);
        assert(reason + Seq::empty() =~= reason);
    }
}

} // verus!
