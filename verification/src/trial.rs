//! How a chat model is tried out: with a text to proofread, one to translate, and one to extract
//! from.

use crate::chat::AppError;
use crate::process::{RefinementRequest, TranslationRequest};
use crate::text::{chars_of, clip, text_of, trim_text};
use vstd::prelude::*;

verus! {

/// What became of one trial.
pub struct ModelCapabilityTestResult {
    pub capability: String,
    pub ok: bool,
    pub output: Option<String>,
    pub error: Option<String>,
    pub elapsed_ms: u128,
}

/// The model of a [`ModelCapabilityTestResult`].
#[verifier::ext_equal]
pub struct TrialView {
    pub capability: Seq<char>,
    pub ok: bool,
    pub output: Option<Seq<char>>,
    pub error: Option<Seq<char>>,
    pub elapsed_ms: u128,
}

impl View for ModelCapabilityTestResult {
    type V = TrialView;

    open spec fn view(&self) -> TrialView {
        TrialView {
            capability: self.capability@,
            ok: self.ok,
            output: crate::text::opt_view(self.output),
            error: crate::text::opt_view(self.error),
            elapsed_ms: self.elapsed_ms,
        }
    }
}

/// What became of all trials.
pub struct ModelTestResponse {
    pub alias: String,
    pub ok: bool,
    pub results: Vec<ModelCapabilityTestResult>,
    pub elapsed_ms: u128,
}

/// The text that is to be proofread.
pub fn refine_trial(alias: &str) -> (r: RefinementRequest)
    ensures
        r@ == (crate::process::RefinementView {
            text: "えー、本日は、あー、新しい機能について説明します。"@,
            custom_instruction: None,
            custom_terms: None,
            remove_fillers: true,
            voice_commands: false,
            model: Some(alias@),
            note_id: None,
            use_linked_context: false,
        }),
{
    RefinementRequest {
        text: "えー、本日は、あー、新しい機能について説明します。".to_owned(),
        custom_instruction: None,
        custom_terms: None,
        remove_fillers: true,
        style: None,
        voice_commands: false,
        model: Some(alias.to_owned()),
        note_id: None,
        use_linked_context: false,
    }
}

/// The text that is to be translated.
pub fn translate_trial(alias: &str) -> (r: TranslationRequest)
    ensures
        r@ == (crate::process::TranslationView {
            text: "これは翻訳モデルの動作確認です。"@,
            source_language: Some("ja"@),
            target_language: Some("en"@),
            custom_instruction: Some("Output only the translated text."@),
            custom_terms: None,
            model: Some(alias@),
            note_id: None,
            use_linked_context: false,
        }),
{
    TranslationRequest {
        text: "これは翻訳モデルの動作確認です。".to_owned(),
        source_language: Some("ja".to_owned()),
        target_language: Some("en".to_owned()),
        custom_instruction: Some("Output only the translated text.".to_owned()),
        custom_terms: None,
        model: Some(alias.to_owned()),
        note_id: None,
        use_linked_context: false,
    }
}

/// The text that is to be extracted from.
pub const EXTRACT_TRIAL: &'static str = "今日の会議では、ライブ字幕の翻訳精度とモデル選択について確認しました。";

/// The output of a trial, cut after 80 characters.
pub fn short_model_test_output(text: &str) -> (r: String)
    ensures
        r@ == crate::text::clipped(text@, 80),
{
    let s = chars_of(text);
    let short = clip(s.as_slice(), 80);
    text_of(short.as_slice())
}

/// What became of a trial: it went well where anything came back.
pub open spec fn judged(
    capability: Seq<char>,
    result: Result<Seq<char>, crate::chat::ErrorView>,
    elapsed_ms: u128,
) -> TrialView {
    match result {
        Ok(output) => if crate::text::blank(output) {
            TrialView {
                capability,
                ok: false,
                output: None,
                error: Some("empty output"@),
                elapsed_ms,
            }
        } else {
            TrialView {
                capability,
                ok: true,
                output: Some(crate::text::clipped(crate::text::trimmed(output), 80)),
                error: None,
                elapsed_ms,
            }
        },
        Err(error) => TrialView {
            capability,
            ok: false,
            output: None,
            error: Some(error.message),
            elapsed_ms,
        },
    }
}

/// What became of a trial: it went well where anything came back.
pub fn model_test_result(
    capability: &str,
    result: Result<String, AppError>,
    elapsed_ms: u128,
) -> (r: ModelCapabilityTestResult)
    ensures
        r@ == judged(capability@, crate::chat::result_view(result), elapsed_ms),
{
    match result {
        Ok(output) => {
            let output = trim_text(output.as_str());
            if output.as_str().is_empty() {
                ModelCapabilityTestResult {
                    capability: capability.to_owned(),
                    ok: false,
                    output: None,
                    error: Some("empty output".to_owned()),
                    elapsed_ms,
                }
            } else {
                ModelCapabilityTestResult {
                    capability: capability.to_owned(),
                    ok: true,
                    output: Some(short_model_test_output(output.as_str())),
                    error: None,
                    elapsed_ms,
                }
            }
        },
        Err(error) => ModelCapabilityTestResult {
            capability: capability.to_owned(),
            ok: false,
            output: None,
            error: Some(error.message),
            elapsed_ms,
        },
    }
}

/// A trial that did not take place, since the model could not be loaded.
pub open spec fn untried(capability: Seq<char>, message: Seq<char>) -> TrialView {
    TrialView { capability, ok: false, output: None, error: Some(message), elapsed_ms: 0 }
}

fn leave_untried(capability: &str, message: &str) -> (r: ModelCapabilityTestResult)
    ensures
        r@ == untried(capability@, message@),
{
    ModelCapabilityTestResult {
        capability: capability.to_owned(),
        ok: false,
        output: None,
        error: Some(message.to_owned()),
        elapsed_ms: 0,
    }
}

/// What became of all trials where the model could not be loaded.
pub fn untested_model(alias: &str, error: &AppError, elapsed_ms: u128) -> (r: ModelTestResponse)
    ensures
        r.alias@ == alias@,
        !r.ok,
        crate::records::views(r.results@) == seq![
            untried("refine"@, error@.message),
            untried("translate"@, error@.message),
            untried("extract"@, error@.message),
        ],
        r.elapsed_ms == elapsed_ms,
{
    let mut results: Vec<ModelCapabilityTestResult> = Vec::new();
    results.push(leave_untried("refine", error.message.as_str()));
    results.push(leave_untried("translate", error.message.as_str()));
    results.push(leave_untried("extract", error.message.as_str()));
    assert(crate::records::views(results@) =~= seq![
        untried("refine"@, error@.message),
        untried("translate"@, error@.message),
        untried("extract"@, error@.message),
    ]);
    ModelTestResponse { alias: alias.to_owned(), ok: false, results, elapsed_ms }
}

/// Whether any trial went well.
pub open spec fn any_ok(results: Seq<TrialView>) -> bool {
    exists|i: int| 0 <= i < results.len() && (#[trigger] results[i]).ok
}

/// What became of all trials: the model will do where any of them went well.
pub fn tested_model(
    alias: &str,
    results: Vec<ModelCapabilityTestResult>,
    elapsed_ms: u128,
) -> (r: ModelTestResponse)
    ensures
        r.alias@ == alias@,
        r.ok == any_ok(crate::records::views(results@)),
        r.results == results,
        r.elapsed_ms == elapsed_ms,
{
    let ghost all = crate::records::views(results@);
    let mut ok = false;
    let mut i: usize = 0;
    while i < results.len()
        invariant
            i <= results@.len(),
            all == crate::records::views(results@),
            ok == (exists|j: int| 0 <= j < i && (#[trigger] all[j]).ok),
        decreases results.len() - i,
    {
        assert(all[i as int] == results@[i as int]@);
        ok = ok || results[i].ok;
        i = i + 1;
    }
    ModelTestResponse { alias: alias.to_owned(), ok, results, elapsed_ms }
}

/// A capability is there exactly where trying it gave a text with something in it. Then the text is
/// told, a long one up to its first eighty characters with an ellipsis, and else what went wrong.
pub proof fn law_trial_goes_by_the_output(
    capability: Seq<char>,
    output: Seq<char>,
    e: crate::chat::ErrorView,
    elapsed_ms: u128,
)
    ensures
        ({
            let given = judged(capability, Ok(output), elapsed_ms);
            let text = crate::text::trimmed(output);
            &&& given.capability == capability && given.elapsed_ms == elapsed_ms
            &&& given.ok <==> !crate::text::blank(output)
            &&& given.ok ==> given.error is None && given.output is Some
            &&& given.ok && text.len() <= 80 ==> given.output == Some(text)
            &&& given.ok && text.len() > 80 ==> (given.output matches Some(told) && told.len() == 81
                && told.take(80) == text.take(80) && told[80] == '…')
            &&& !given.ok ==> given.output is None && given.error == Some("empty output"@)
        }),
        ({
            let failed = judged(capability, Err(e), elapsed_ms);
            &&& failed.capability == capability && failed.elapsed_ms == elapsed_ms
            &&& !failed.ok && failed.output is None
            &&& failed.error == Some(e.message)
        }),
        ({
            let not_tried = untried(capability, e.message);
            &&& not_tried.capability == capability && not_tried.elapsed_ms == 0
            &&& !not_tried.ok && not_tried.output is None
            &&& not_tried.error == Some(e.message)
        }),
{
    let text = crate::text::trimmed(output);
    if text.len() > 80 {
        assert(text.take(80).push('…').take(80) =~= text.take(80));
    }
}

} // verus!
