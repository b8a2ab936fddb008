//! Post-processing of transcriptions by a chat model: proofreading, translation, free
//! instructions, extraction, continuation, and the pipeline that runs several of them in a row.
//!
//! For each of them there is a function that makes the question, or says why none can be made, and
//! one that reads the reply. Putting the question to a model is left to the caller.

use crate::chat::{plan_question, AppError, ChatPlan};
use crate::dictation::{apply_spoken_commands, remove_common_fillers};
use crate::reply::{extract_json_object, strip_llm_preamble, strip_think_blocks};
use crate::script::{refinement_language_changed, refinement_language_guard_instruction};
use crate::text::{fill_owned, join, trim_text};
use vstd::prelude::*;

verus! {

// ---------------------------------------------------------------------------
// Requests
// ---------------------------------------------------------------------------

/// A request to proofread a text. The style is accepted and not applied: rewriting the style
/// changed the meaning too often.
pub struct RefinementRequest {
    pub text: String,
    pub custom_instruction: Option<String>,
    pub custom_terms: Option<String>,
    pub remove_fillers: bool,
    pub style: Option<String>,
    pub voice_commands: bool,
    pub model: Option<String>,
    pub note_id: Option<String>,
    pub use_linked_context: bool,
}

/// What of a [`RefinementRequest`] its handling depends on.
pub struct RefinementView {
    pub text: Seq<char>,
    pub custom_instruction: Option<Seq<char>>,
    pub custom_terms: Option<Seq<char>>,
    pub remove_fillers: bool,
    pub voice_commands: bool,
    pub model: Option<Seq<char>>,
    pub note_id: Option<Seq<char>>,
    pub use_linked_context: bool,
}

impl View for RefinementRequest {
    type V = RefinementView;

    open spec fn view(&self) -> RefinementView {
        RefinementView {
            text: self.text@,
            custom_instruction: crate::text::opt_view(self.custom_instruction),
            custom_terms: crate::text::opt_view(self.custom_terms),
            remove_fillers: self.remove_fillers,
            voice_commands: self.voice_commands,
            model: crate::text::opt_view(self.model),
            note_id: crate::text::opt_view(self.note_id),
            use_linked_context: self.use_linked_context,
        }
    }
}

/// A request to translate a text.
pub struct TranslationRequest {
    pub text: String,
    pub source_language: Option<String>,
    pub target_language: Option<String>,
    pub custom_instruction: Option<String>,
    pub custom_terms: Option<String>,
    pub model: Option<String>,
    pub note_id: Option<String>,
    pub use_linked_context: bool,
}

/// The model of a [`TranslationRequest`].
pub struct TranslationView {
    pub text: Seq<char>,
    pub source_language: Option<Seq<char>>,
    pub target_language: Option<Seq<char>>,
    pub custom_instruction: Option<Seq<char>>,
    pub custom_terms: Option<Seq<char>>,
    pub model: Option<Seq<char>>,
    pub note_id: Option<Seq<char>>,
    pub use_linked_context: bool,
}

impl View for TranslationRequest {
    type V = TranslationView;

    open spec fn view(&self) -> TranslationView {
        TranslationView {
            text: self.text@,
            source_language: crate::text::opt_view(self.source_language),
            target_language: crate::text::opt_view(self.target_language),
            custom_instruction: crate::text::opt_view(self.custom_instruction),
            custom_terms: crate::text::opt_view(self.custom_terms),
            model: crate::text::opt_view(self.model),
            note_id: crate::text::opt_view(self.note_id),
            use_linked_context: self.use_linked_context,
        }
    }
}

/// A step of a pipeline that follows a free instruction.
pub struct CustomStepRequest {
    pub instruction: String,
    pub max_tokens: Option<u32>,
    /// A name for the step in the answer.
    pub label: Option<String>,
    pub model: Option<String>,
}

/// The model of a [`CustomStepRequest`].
pub struct CustomView {
    pub instruction: Seq<char>,
    pub max_tokens: Option<u32>,
    pub label: Option<Seq<char>>,
    pub model: Option<Seq<char>>,
}

impl View for CustomStepRequest {
    type V = CustomView;

    open spec fn view(&self) -> CustomView {
        CustomView {
            instruction: self.instruction@,
            max_tokens: self.max_tokens,
            label: crate::text::opt_view(self.label),
            model: crate::text::opt_view(self.model),
        }
    }
}

/// What was extracted from a text.
pub struct AnalysisResult {
    pub tone: String,
    pub summary: String,
    pub keywords: Vec<String>,
}

/// Linked notes are used unless a request says otherwise.
pub fn default_true() -> (r: bool)
    ensures
        r == true,
{
    true
}

// ---------------------------------------------------------------------------
// Proofreading
// ---------------------------------------------------------------------------

/// A line of rules that names what the user gave, or nothing where nothing was given.
pub open spec fn rule_for(lead: Seq<char>, own: Option<Seq<char>>) -> Seq<char> {
    match crate::text::filled(own) {
        Some(t) => lead + t,
        None => Seq::empty(),
    }
}

fn rule_line(lead: &str, own: &Option<String>) -> (r: String)
    ensures
        r@ == rule_for(lead@, crate::text::opt_view(*own)),
{
    match fill_owned(own) {
        Some(t) => {
            let mut rule = lead.to_owned();
            rule.append(t.as_str());
            rule
        },
        None => {
            let rule = String::new();
            assert(rule@ =~= Seq::empty());
            rule
        },
    }
}

/// The text that is proofread: trimmed, without filler words and with spoken commands carried out
/// as the request says.
pub open spec fn refine_source(q: RefinementView) -> Seq<char> {
    let t = crate::text::trimmed(q.text);
    let a = if q.remove_fillers {
        crate::dictation::without_fillers(t)
    } else {
        t
    };
    if q.voice_commands {
        crate::dictation::replaced_by(a, crate::dictation::spoken_commands())
    } else {
        a
    }
}

/// What the model is told about filler words.
pub open spec fn filler_rule(removed: bool) -> Seq<char> {
    if removed {
        "Common fillers have already been removed. Remove only any remaining unnecessary filler or hesitation."@
    } else {
        "Keep hesitations that carry meaning."@
    }
}

/// The prompt for proofreading.
pub open spec fn refine_prompt(q: RefinementView) -> Seq<char> {
    let guard = crate::script::guard_instruction(crate::script::dominant(refine_source(q)));
    let fillers = filler_rule(q.remove_fillers);
    let terms = rule_for(
        "\n- Preserve the spelling of these terms and proper nouns: "@,
        q.custom_terms,
    );
    let orders = rule_for("\n- Additional instruction: "@, q.custom_instruction);
    "Proofread the following transcription without translating it.\n\nStrict rules:\n- Preserve the exact language and script of the input. Do not translate.\n- "@
        + guard
        + "\n- If the input is English, output English only. If the input is Japanese, output Japanese only.\n- Do not output Chinese unless the input itself is Chinese.\n- Do not change meaning, content, amount of information, wording style, or register.\n- Keep the original vocabulary and phrasing as much as possible.\n- "@
        + fillers
        + "\n- Only fix obvious speech-recognition errors, punctuation, spacing, and notation inconsistencies.\n- Do not summarize.\n- Do not remove sentences or information.\n- Keep the original sentence order.\n- Do not add facts, subjects, objects, or terms.\n- Output only the proofread body. No preface, explanation, heading, or quotes."@
        + terms
        + orders
        + "\n\nInput:\n"@
        + refine_source(q)
}

/// The question for proofreading.
pub open spec fn refine_question(q: RefinementView, context: Option<Seq<char>>) -> Result<
    crate::chat::PlanView,
    crate::chat::ErrorView,
> {
    if crate::text::blank(q.text) {
        Err(crate::chat::bad("整形する文字起こし結果がありません"@))
    } else {
        Ok(
            crate::chat::plan_of(
                crate::chat::with_context(
                    "You are a transcription proofreading engine. Never translate the input. Always keep the same language and script as the input. Only correct obvious recognition errors, filler remnants, punctuation, spacing, and notation. Output the body text only."@,
                    context,
                    refine_prompt(q),
                ),
                0,
                1024,
            ),
        )
    }
}

/// What a reply to the question for proofreading gives. A reply in another writing system is
/// thrown away.
pub open spec fn refine_outcome(q: RefinementView, reply: Seq<char>) -> Result<
    Seq<char>,
    crate::chat::ErrorView,
> {
    let refined = crate::reply::plain_answer(crate::text::trimmed(reply));
    if crate::text::blank(reply) {
        Err(crate::chat::broken("整形結果が空でした"@))
    } else if crate::script::language_changed(refine_source(q), refined) {
        Err(crate::chat::broken("整形結果の言語が入力と異なるため破棄しました"@))
    } else {
        Ok(refined)
    }
}

fn source_of_refinement(request: &RefinementRequest) -> (r: String)
    ensures
        r@ == refine_source(request@),
{
    let mut source = trim_text(request.text.as_str());
    if request.remove_fillers {
        source = remove_common_fillers(source.as_str());
    }
    if request.voice_commands {
        source = apply_spoken_commands(source.as_str());
    }
    source
}

/// The question that has a text proofread.
pub fn plan_refine(request: &RefinementRequest, linked_context: Option<&str>) -> (r: Result<
    ChatPlan,
    AppError,
>)
    ensures
        crate::chat::plan_view(r) == refine_question(
            request@,
            crate::text::opt_str_view(linked_context),
        ),
{
    if trim_text(request.text.as_str()).as_str().is_empty() {
        return Err(AppError::bad_request("整形する文字起こし結果がありません"));
    }
    let source = source_of_refinement(request);
    let fillers = if request.remove_fillers {
        "Common fillers have already been removed. Remove only any remaining unnecessary filler or hesitation."
    } else {
        "Keep hesitations that carry meaning."
    };
    let terms = rule_line(
        "\n- Preserve the spelling of these terms and proper nouns: ",
        &request.custom_terms,
    );
    let orders = rule_line("\n- Additional instruction: ", &request.custom_instruction);
    let guard = refinement_language_guard_instruction(source.as_str());
    let mut prompt = "Proofread the following transcription without translating it.\n\nStrict rules:\n- Preserve the exact language and script of the input. Do not translate.\n- ".to_owned();
    prompt.append(guard);
    prompt.append("\n- If the input is English, output English only. If the input is Japanese, output Japanese only.\n- Do not output Chinese unless the input itself is Chinese.\n- Do not change meaning, content, amount of information, wording style, or register.\n- Keep the original vocabulary and phrasing as much as possible.\n- ");
    prompt.append(fillers);
    prompt.append("\n- Only fix obvious speech-recognition errors, punctuation, spacing, and notation inconsistencies.\n- Do not summarize.\n- Do not remove sentences or information.\n- Keep the original sentence order.\n- Do not add facts, subjects, objects, or terms.\n- Output only the proofread body. No preface, explanation, heading, or quotes.");
    prompt.append(terms.as_str());
    prompt.append(orders.as_str());
    prompt.append("\n\nInput:\n");
    prompt.append(source.as_str());
    Ok(
        plan_question(
            "You are a transcription proofreading engine. Never translate the input. Always keep the same language and script as the input. Only correct obvious recognition errors, filler remnants, punctuation, spacing, and notation. Output the body text only.",
            linked_context,
            prompt,
            0,
            1024,
        ),
    )
}

/// Reads the reply to the question that has a text proofread.
pub fn finish_refine(request: &RefinementRequest, reply: &str) -> (r: Result<String, AppError>)
    ensures
        crate::chat::result_view(r) == refine_outcome(request@, reply@),
{
    let text = trim_text(reply);
    if text.as_str().is_empty() {
        return Err(AppError::internal("整形結果が空でした"));
    }
    let refined = strip_llm_preamble(text.as_str());
    let source = source_of_refinement(request);
    if refinement_language_changed(source.as_str(), refined.as_str()) {
        return Err(AppError::internal("整形結果の言語が入力と異なるため破棄しました"));
    }
    Ok(refined)
}

/// Proofreading never hands on a text in another writing system than that of its source.
pub proof fn law_refinement_keeps_the_script(q: RefinementView, reply: Seq<char>)
    ensures
        refine_outcome(q, reply) matches Ok(t) ==> (crate::script::dominant(t) is Some
            && crate::script::dominant(refine_source(q)) is Some ==> crate::script::dominant(t)
            == crate::script::dominant(refine_source(q))),
{
}

// ---------------------------------------------------------------------------
// Translation
// ---------------------------------------------------------------------------

/// The given text, trimmed, or the other where nothing was given.
pub open spec fn given_or(own: Option<Seq<char>>, other: Seq<char>) -> Seq<char> {
    match crate::text::filled(own) {
        Some(t) => t,
        None => other,
    }
}

fn take_or(own: &Option<String>, other: &str) -> (r: String)
    ensures
        r@ == given_or(crate::text::opt_view(*own), other@),
{
    match fill_owned(own) {
        Some(t) => t,
        None => other.to_owned(),
    }
}

/// The prompt for a translation.
pub open spec fn translate_prompt(q: TranslationView) -> Seq<char> {
    let source = given_or(q.source_language, "auto"@);
    let target = given_or(q.target_language, "ja"@);
    let terms = rule_for(
        "\n- Preserve these proper nouns and terms as much as possible: "@,
        q.custom_terms,
    );
    let orders = rule_for("\n- Additional instruction: "@, q.custom_instruction);
    "Translate the following transcription.\n\nRules:\n- Source language: "@
        + source
        + "\n- Target language: "@
        + target
        + "\n- Preserve the meaning.\n- Do not summarize.\n- Do not remove or add information.\n- Make the result natural and readable as live-caption subtitles.\n- Do not output a preface, explanation, heading, or quotes.\n- Output only the translated body text."@
        + terms
        + orders
        + "\n\nInput:\n"@
        + crate::text::trimmed(q.text)
}

/// The question for a translation.
pub open spec fn translate_question(q: TranslationView, context: Option<Seq<char>>) -> Result<
    crate::chat::PlanView,
    crate::chat::ErrorView,
> {
    if crate::text::blank(q.text) {
        Err(crate::chat::bad("翻訳する文字起こし結果がありません"@))
    } else {
        Ok(
            crate::chat::plan_of(
                crate::chat::with_context(
                    "You are a translator for live captions. Preserve the input meaning and order, and output only the translated body text."@,
                    context,
                    translate_prompt(q),
                ),
                0,
                1024,
            ),
        )
    }
}

/// The answer in a reply, or the error that stands for an empty one.
pub open spec fn answer_or(reply: Seq<char>, when_empty: Seq<char>) -> Result<
    Seq<char>,
    crate::chat::ErrorView,
> {
    if crate::text::blank(reply) {
        Err(crate::chat::broken(when_empty))
    } else {
        Ok(crate::reply::plain_answer(crate::text::trimmed(reply)))
    }
}

fn read_answer(reply: &str, when_empty: &str) -> (r: Result<String, AppError>)
    ensures
        crate::chat::result_view(r) == answer_or(reply@, when_empty@),
{
    let text = trim_text(reply);
    if text.as_str().is_empty() {
        Err(AppError::internal(when_empty))
    } else {
        Ok(strip_llm_preamble(text.as_str()))
    }
}

/// The question that has a text translated.
pub fn plan_translate(request: &TranslationRequest, linked_context: Option<&str>) -> (r: Result<
    ChatPlan,
    AppError,
>)
    ensures
        crate::chat::plan_view(r) == translate_question(
            request@,
            crate::text::opt_str_view(linked_context),
        ),
{
    let text = trim_text(request.text.as_str());
    if text.as_str().is_empty() {
        return Err(AppError::bad_request("翻訳する文字起こし結果がありません"));
    }
    let target = take_or(&request.target_language, "ja");
    let source = take_or(&request.source_language, "auto");
    let terms = rule_line(
        "\n- Preserve these proper nouns and terms as much as possible: ",
        &request.custom_terms,
    );
    let orders = rule_line("\n- Additional instruction: ", &request.custom_instruction);
    let mut prompt = "Translate the following transcription.\n\nRules:\n- Source language: ".to_owned();
    prompt.append(source.as_str());
    prompt.append("\n- Target language: ");
    prompt.append(target.as_str());
    prompt.append("\n- Preserve the meaning.\n- Do not summarize.\n- Do not remove or add information.\n- Make the result natural and readable as live-caption subtitles.\n- Do not output a preface, explanation, heading, or quotes.\n- Output only the translated body text.");
    prompt.append(terms.as_str());
    prompt.append(orders.as_str());
    prompt.append("\n\nInput:\n");
    prompt.append(text.as_str());
    Ok(
        plan_question(
            "You are a translator for live captions. Preserve the input meaning and order, and output only the translated body text.",
            linked_context,
            prompt,
            0,
            1024,
        ),
    )
}

/// Reads the reply to the question that has a text translated.
pub fn finish_translate(reply: &str) -> (r: Result<String, AppError>)
    ensures
        crate::chat::result_view(r) == answer_or(reply@, "翻訳結果が空でした"@),
{
    read_answer(reply, "翻訳結果が空でした")
}

// ---------------------------------------------------------------------------
// Free instructions
// ---------------------------------------------------------------------------

/// The prompt for a free instruction.
pub open spec fn custom_prompt(text: Seq<char>, instruction: Seq<char>) -> Seq<char> {
    let orders = crate::text::trimmed(instruction);
    "Process the following text according to the instruction.\n\nInstruction:\n"@
        + orders
        + "\n\nRules:\n- Do not output a preface, explanation, or code fence.\n- Output only the processed body text.\n\nInput:\n"@
        + crate::text::trimmed(text)
}

/// The number of tokens that is asked for: at least 128, at most 4096.
pub open spec fn clamped_tokens(n: u32) -> u32 {
    if n < 128 {
        128
    } else if n > 4096 {
        4096
    } else {
        n
    }
}

/// The question for a free instruction.
pub open spec fn custom_question(
    text: Seq<char>,
    instruction: Seq<char>,
    max_tokens: u32,
    context: Option<Seq<char>>,
) -> Result<crate::chat::PlanView, crate::chat::ErrorView> {
    if crate::text::blank(text) {
        Err(crate::chat::bad("処理対象のテキストがありません"@))
    } else if crate::text::blank(instruction) {
        Err(crate::chat::bad("指示が空です"@))
    } else {
        Ok(
            crate::chat::plan_of(
                crate::chat::with_context(
                    "You are a text-processing engine that follows the instruction. Output only the processed body text."@,
                    context,
                    custom_prompt(text, instruction),
                ),
                0,
                clamped_tokens(max_tokens),
            ),
        )
    }
}

/// The question that has a text worked on as the instruction says.
pub fn plan_custom(
    text: &str,
    instruction: &str,
    max_tokens: u32,
    linked_context: Option<&str>,
) -> (r: Result<ChatPlan, AppError>)
    ensures
        crate::chat::plan_view(r) == custom_question(
            text@,
            instruction@,
            max_tokens,
            crate::text::opt_str_view(linked_context),
        ),
{
    let source = trim_text(text);
    if source.as_str().is_empty() {
        return Err(AppError::bad_request("処理対象のテキストがありません"));
    }
    let orders = trim_text(instruction);
    if orders.as_str().is_empty() {
        return Err(AppError::bad_request("指示が空です"));
    }
    let tokens: u32 = if max_tokens < 128 {
        128
    } else if max_tokens > 4096 {
        4096
    } else {
        max_tokens
    };
    let mut prompt = "Process the following text according to the instruction.\n\nInstruction:\n".to_owned();
    prompt.append(orders.as_str());
    prompt.append("\n\nRules:\n- Do not output a preface, explanation, or code fence.\n- Output only the processed body text.\n\nInput:\n");
    prompt.append(source.as_str());
    Ok(
        plan_question(
            "You are a text-processing engine that follows the instruction. Output only the processed body text.",
            linked_context,
            prompt,
            0,
            tokens,
        ),
    )
}

/// Reads the reply to a free instruction.
pub fn finish_custom(reply: &str) -> (r: Result<String, AppError>)
    ensures
        crate::chat::result_view(r) == answer_or(reply@, "処理結果が空でした"@),
{
    read_answer(reply, "処理結果が空でした")
}

// ---------------------------------------------------------------------------
// Extraction
// ---------------------------------------------------------------------------

/// The question for the tone, the summary and the keywords of a text.
pub open spec fn analyze_question(text: Seq<char>, context: Option<Seq<char>>) -> Result<
    crate::chat::PlanView,
    crate::chat::ErrorView,
> {
    if crate::text::blank(text) {
        Err(crate::chat::bad("抽出対象のテキストがありません"@))
    } else {
        Ok(
            crate::chat::plan_of(
                crate::chat::with_context(
                    "You extract tone, key points, and keywords from text. Follow the specified JSON schema exactly and output JSON only."@,
                    context,
                    analyze_prompt(text),
                ),
                0,
                512,
            ),
        )
    }
}

/// The prompt for the tone, the summary and the keywords of a text.
pub open spec fn analyze_prompt(text: Seq<char>) -> Seq<char> {
    "Extract information from the following text and output strict JSON only.\n\nRequirements:\n- Do not output anything outside JSON: no preface, explanation, or code fence.\n- Use exactly these three keys: \"tone\", \"summary\", \"keywords\".\n- tone: one short label for the speaker's overall tone, in the same language as the input.\n- summary: 1-2 sentences summarizing the key points, in the same language as the input.\n- keywords: an array of 3-6 important terms, in the same language as the input where appropriate.\n\nInput:\n"@
        + crate::text::trimmed(text)
}

/// The question that has the tone, the summary and the keywords of a text found out.
pub fn plan_analyze(text: &str, linked_context: Option<&str>) -> (r: Result<ChatPlan, AppError>)
    ensures
        crate::chat::plan_view(r) == analyze_question(
            text@,
            crate::text::opt_str_view(linked_context),
        ),
{
    let source = trim_text(text);
    if source.as_str().is_empty() {
        return Err(AppError::bad_request("抽出対象のテキストがありません"));
    }
    let mut prompt = "Extract information from the following text and output strict JSON only.\n\nRequirements:\n- Do not output anything outside JSON: no preface, explanation, or code fence.\n- Use exactly these three keys: \"tone\", \"summary\", \"keywords\".\n- tone: one short label for the speaker's overall tone, in the same language as the input.\n- summary: 1-2 sentences summarizing the key points, in the same language as the input.\n- keywords: an array of 3-6 important terms, in the same language as the input where appropriate.\n\nInput:\n".to_owned();
    prompt.append(source.as_str());
    Ok(
        plan_question(
            "You extract tone, key points, and keywords from text. Follow the specified JSON schema exactly and output JSON only.",
            linked_context,
            prompt,
            0,
            512,
        ),
    )
}

/// Whether `json` is what of the answer `a` is read as JSON: its first object, or all of it where
/// it has none.
pub open spec fn is_json_part(a: Seq<char>, json: Seq<char>) -> bool {
    ||| crate::reply::is_first_object(a, json)
    ||| json == a && forall|o: Seq<char>| !#[trigger] crate::reply::is_first_object(a, o)
}

/// The JSON in the reply to the question for an extraction. Reasoning is taken out first, so that
/// braces in it do not mislead.
pub fn analysis_json(reply: &str) -> (r: String)
    ensures
        is_json_part(crate::reply::answer(crate::text::trimmed(reply@)), r@),
{
    let cleaned = strip_think_blocks(trim_text(reply).as_str());
    match extract_json_object(cleaned.as_str()) {
        Some(o) => o.to_owned(),
        None => cleaned,
    }
}

/// The error for a reply that is not the JSON that was asked for.
pub fn analysis_parse_error(error: &str, reply: &str) -> (r: AppError)
    ensures
        r@ == crate::chat::broken(
            "抽出結果のJSONパースに失敗しました: "@ + error@ + " / raw: "@ + crate::text::trimmed(reply@),
        ),
{
    let mut message = "抽出結果のJSONパースに失敗しました: ".to_owned();
    message.append(error);
    message.append(" / raw: ");
    message.append(trim_text(reply).as_str());
    AppError::internal(message.as_str())
}

/// An extraction on one line.
pub fn analysis_line(analysis: &AnalysisResult) -> (r: String)
    ensures
        r@ == analysis.tone@ + " / "@ + analysis.summary@ + " / "@ + crate::text::joined(
            crate::text::texts(analysis.keywords@),
            ", "@,
        ),
{
    let mut line = analysis.tone.clone();
    line.append(" / ");
    line.append(analysis.summary.as_str());
    line.append(" / ");
    line.append(join(&analysis.keywords, ", ").as_str());
    line
}

// ---------------------------------------------------------------------------
// Continuation
// ---------------------------------------------------------------------------

/// The prompt for the continuation of a note.
pub open spec fn complete_prompt(text: Seq<char>) -> Seq<char> {
    "Continue the following note body.\n\nRules:\n- Continue the style, language, and topic of the input body.\n- Never repeat the existing body. Output only the continuation text.\n- Do not output a preface such as \"I will continue\" or \"Sure\", a heading, quotes, or a code fence.\n- Be conservative with facts. Do not invent proper nouns or numbers that are not in the input.\n- If related notes are attached as system context, use them only as background and do not copy them directly.\n- Wrap up the topic naturally in about 3-6 sentences.\n\nExisting note body:\n"@
        + crate::text::trimmed(text)
}

/// The question for the continuation of a note.
pub open spec fn complete_question(text: Seq<char>, context: Option<Seq<char>>) -> Result<
    crate::chat::PlanView,
    crate::chat::ErrorView,
> {
    if crate::text::blank(text) {
        Err(crate::chat::bad("補完する本文がありません"@))
    } else {
        Ok(
            crate::chat::plan_of(
                crate::chat::with_context(
                    "You are an assistant that continues notes. Preserve the existing body's style and language, output only the continuation body, and do not include a preface or explanation."@,
                    context,
                    complete_prompt(text),
                ),
                4,
                600,
            ),
        )
    }
}

/// The question that has a note continued.
pub fn plan_complete_note(text: &str, linked_context: Option<&str>) -> (r: Result<
    ChatPlan,
    AppError,
>)
    ensures
        crate::chat::plan_view(r) == complete_question(
            text@,
            crate::text::opt_str_view(linked_context),
        ),
{
    let source = trim_text(text);
    if source.as_str().is_empty() {
        return Err(AppError::bad_request("補完する本文がありません"));
    }
    let mut prompt = "Continue the following note body.\n\nRules:\n- Continue the style, language, and topic of the input body.\n- Never repeat the existing body. Output only the continuation text.\n- Do not output a preface such as \"I will continue\" or \"Sure\", a heading, quotes, or a code fence.\n- Be conservative with facts. Do not invent proper nouns or numbers that are not in the input.\n- If related notes are attached as system context, use them only as background and do not copy them directly.\n- Wrap up the topic naturally in about 3-6 sentences.\n\nExisting note body:\n".to_owned();
    prompt.append(source.as_str());
    Ok(
        plan_question(
            "You are an assistant that continues notes. Preserve the existing body's style and language, output only the continuation body, and do not include a preface or explanation.",
            linked_context,
            prompt,
            4,
            600,
        ),
    )
}

/// Reads the reply to the question that has a note continued.
pub fn finish_complete_note(reply: &str) -> (r: Result<String, AppError>)
    ensures
        crate::chat::result_view(r) == answer_or(reply@, "補完結果が空でした"@),
{
    read_answer(reply, "補完結果が空でした")
}

// ---------------------------------------------------------------------------
// Correction with the user's context
// ---------------------------------------------------------------------------

/// The prompt for a correction.
pub open spec fn correct_prompt(text: Seq<char>, context: Seq<char>) -> Seq<char> {
    let clue = crate::text::trimmed(context);
    "Correct the following transcription using the provided context.\n\nRules:\n- Correct only obvious recognition errors.\n- Preserve the meaning.\n- Do not summarize.\n- Do not add or remove information.\n- Do not output a preface, explanation, heading, or quotes.\n- Output only the corrected body text.\n\nContext and instruction:\n"@
        + clue
        + "\n\nTranscription:\n"@
        + crate::text::trimmed(text)
}

/// The question for a correction; none where there is nothing to correct or no context for it.
pub open spec fn correct_question(text: Seq<char>, context: Seq<char>) -> Option<
    crate::chat::PlanView,
> {
    if crate::text::blank(text) || crate::text::blank(context) {
        None
    } else {
        Some(
            crate::chat::plan_of(
                crate::chat::with_context(
                    "You are an editor who corrects transcription wording and notation. Use the context as a clue, but do not add content that is not in the source."@,
                    None,
                    correct_prompt(text, context),
                ),
                0,
                1024,
            ),
        )
    }
}

/// The corrected text: what the model answered, or the text as it is where it answered nothing.
pub open spec fn corrected(text: Seq<char>, reply: Seq<char>) -> Seq<char> {
    if crate::text::blank(reply) {
        crate::text::trimmed(text)
    } else {
        crate::reply::plain_answer(crate::text::trimmed(reply))
    }
}

/// The question that has a transcription corrected with the help of a context. Where there is
/// none, the transcription stands as it is, trimmed.
pub fn plan_correct(text: &str, context_prompt: &str) -> (r: Option<ChatPlan>)
    ensures
        match r {
            Some(p) => correct_question(text@, context_prompt@) == Some(p@),
            None => correct_question(text@, context_prompt@) is None,
        },
{
    let source = trim_text(text);
    let clue = trim_text(context_prompt);
    if source.as_str().is_empty() || clue.as_str().is_empty() {
        return None;
    }
    let mut prompt = "Correct the following transcription using the provided context.\n\nRules:\n- Correct only obvious recognition errors.\n- Preserve the meaning.\n- Do not summarize.\n- Do not add or remove information.\n- Do not output a preface, explanation, heading, or quotes.\n- Output only the corrected body text.\n\nContext and instruction:\n".to_owned();
    prompt.append(clue.as_str());
    prompt.append("\n\nTranscription:\n");
    prompt.append(source.as_str());
    Some(
        plan_question(
            "You are an editor who corrects transcription wording and notation. Use the context as a clue, but do not add content that is not in the source.",
            None,
            prompt,
            0,
            1024,
        ),
    )
}

/// Reads the reply to the question that has a transcription corrected.
pub fn finish_correct(text: &str, reply: &str) -> (r: String)
    ensures
        r@ == corrected(text@, reply@),
{
    let answer = trim_text(reply);
    if answer.as_str().is_empty() {
        trim_text(text)
    } else {
        strip_llm_preamble(answer.as_str())
    }
}

// ---------------------------------------------------------------------------
// What the model is asked
// ---------------------------------------------------------------------------

/// A question is put by the user and comes last. Before it stand the orders and, where there are any,
/// the excerpts of linked notes.
pub proof fn law_question_comes_last(
    orders: Seq<char>,
    context: Option<Seq<char>>,
    question: Seq<char>,
)
    ensures
        ({
            let m = crate::chat::with_context(orders, context, question);
            &&& m.last().role == crate::chat::Role::User
            &&& m.last().content == question
            &&& m[0].role == crate::chat::Role::System
            &&& m[0].content == orders
            &&& (context matches Some(c) && c.len() > 0) ==> m.len() == 3 && m[1].role
                == crate::chat::Role::System && m[1].content == context->0
            &&& context is None || context->0.len() == 0 ==> m.len() == 2
        }),
{
}

/// A question that ends with a text after a heading holds the rule that stands in it.
proof fn lemma_rule_stands(
    a: Seq<char>,
    lead: Seq<char>,
    own: Option<Seq<char>>,
    b: Seq<char>,
    pre: Seq<char>,
)
    requires
        crate::text::ends(lead, pre),
        own matches Some(t) && !crate::text::blank(t),
    ensures
        crate::text::has_text(a + rule_for(lead, own) + b, pre + crate::text::trimmed(own->0)),
{
    let t = crate::text::trimmed(own->0);
    let none = Seq::<char>::empty();
    crate::text::lemma_ends_longer(a, lead, pre);
    assert(b.subrange(0, 0) =~= none);
    crate::text::lemma_has_across(a + lead, t, b, pre, none);
    assert(a + lead + t + b =~= a + (lead + t) + b);
    assert(pre + t + none =~= pre + t);
}

/// The languages, the terms and the wishes of a translation reach the model as the user gave them,
/// each for what it is, and the text that is to be translated comes last. Without a language it is
/// told to find out the one of the text, and to translate into Japanese.
pub proof fn law_translation_is_asked_for_as_given(
    request: TranslationRequest,
    context: Option<Seq<char>>,
)
    requires
        !crate::text::blank(request.text@),
    ensures
        translate_question(request@, context) matches Ok(plan) && ({
            let q = plan.messages.last();
            let source = match request.source_language {
                Some(l) => if crate::text::blank(l@) {
                    "auto"@
                } else {
                    crate::text::trimmed(l@)
                },
                None => "auto"@,
            };
            let target = match request.target_language {
                Some(l) => if crate::text::blank(l@) {
                    "ja"@
                } else {
                    crate::text::trimmed(l@)
                },
                None => "ja"@,
            };
            &&& q.role == crate::chat::Role::User
            &&& crate::text::has_text(q.content, "Source language: "@ + source + "\n"@)
            &&& crate::text::has_text(q.content, "Target language: "@ + target + "\n"@)
            &&& crate::text::ends(q.content, "Input:\n"@ + crate::text::trimmed(request.text@))
            &&& (request.custom_terms matches Some(t) && !crate::text::blank(t@)) ==> crate::text::has_text(
                q.content,
                "terms as much as possible: "@ + crate::text::trimmed(request.custom_terms->0@),
            )
            &&& (request.custom_instruction matches Some(t) && !crate::text::blank(t@)) ==> crate::text::has_text(
                q.content,
                "Additional instruction: "@ + crate::text::trimmed(request.custom_instruction->0@),
            )
        }),
{
    let q = request@;
    let source = given_or(q.source_language, "auto"@);
    let target = given_or(q.target_language, "ja"@);
    let a = "Translate the following transcription.\n\nRules:\n- Source language: "@;
    let b = "\n- Target language: "@;
    let c = "\n- Preserve the meaning.\n- Do not summarize.\n- Do not remove or add information.\n- Make the result natural and readable as live-caption subtitles.\n- Do not output a preface, explanation, heading, or quotes.\n- Output only the translated body text."@;
    let lead = "\n- Preserve these proper nouns and terms as much as possible: "@;
    let wish = "\n- Additional instruction: "@;
    let terms = rule_for(lead, q.custom_terms);
    let orders = rule_for(wish, q.custom_instruction);
    let gap = "\n\nInput:\n"@;
    let text = crate::text::trimmed(q.text);
    let whole = translate_prompt(q);
    reveal_strlit("Translate the following transcription.\n\nRules:\n- Source language: ");
    reveal_strlit("\n- Target language: ");
    reveal_strlit("\n- Preserve the meaning.\n- Do not summarize.\n- Do not remove or add information.\n- Make the result natural and readable as live-caption subtitles.\n- Do not output a preface, explanation, heading, or quotes.\n- Output only the translated body text.");
    reveal_strlit("\n- Preserve these proper nouns and terms as much as possible: ");
    reveal_strlit("\n- Additional instruction: ");
    reveal_strlit("\n\nInput:\n");
    reveal_strlit("Source language: ");
    reveal_strlit("Target language: ");
    reveal_strlit("Input:\n");
    reveal_strlit("terms as much as possible: ");
    reveal_strlit("Additional instruction: ");
    reveal_strlit("\n");
    assert(crate::text::ends(a, "Source language: "@)) by {
        assert(a.subrange(a.len() - 17, a.len() as int) =~= "Source language: "@);
    }
    assert(crate::text::begins(b, "\n"@)) by {
        assert(b.subrange(0, 1) =~= "\n"@);
    }
    assert(crate::text::ends(b, "Target language: "@)) by {
        assert(b.subrange(b.len() - 17, b.len() as int) =~= "Target language: "@);
    }
    assert(crate::text::begins(c, "\n"@)) by {
        assert(c.subrange(0, 1) =~= "\n"@);
    }
    assert(crate::text::ends(gap, "Input:\n"@)) by {
        assert(gap.subrange(2, 9) =~= "Input:\n"@);
    }
    assert(crate::text::ends(lead, "terms as much as possible: "@)) by {
        assert(lead.subrange(lead.len() - 27, lead.len() as int) =~= "terms as much as possible: "@);
    }
    assert(crate::text::ends(wish, "Additional instruction: "@)) by {
        assert(wish.subrange(wish.len() - 24, wish.len() as int) =~= "Additional instruction: "@);
    }
    lemma_translation_parts(a, source, b, target, c, terms, orders, gap, text);
    if q.custom_terms is Some && !crate::text::blank(q.custom_terms->0) {
        lemma_rule_stands(
            a + source + b + target + c,
            lead,
            q.custom_terms,
            orders + gap + text,
            "terms as much as possible: "@,
        );
        assert(a + source + b + target + c + terms + (orders + gap + text) =~= whole);
    }
    if q.custom_instruction is Some && !crate::text::blank(q.custom_instruction->0) {
        lemma_rule_stands(
            a + source + b + target + c + terms,
            wish,
            q.custom_instruction,
            gap + text,
            "Additional instruction: "@,
        );
        assert(a + source + b + target + c + terms + orders + (gap + text) =~= whole);
    }
}

proof fn lemma_translation_parts(
    a: Seq<char>,
    source: Seq<char>,
    b: Seq<char>,
    target: Seq<char>,
    c: Seq<char>,
    terms: Seq<char>,
    orders: Seq<char>,
    gap: Seq<char>,
    text: Seq<char>,
)
    requires
        crate::text::ends(a, "Source language: "@),
        crate::text::begins(b, "\n"@),
        crate::text::ends(b, "Target language: "@),
        crate::text::begins(c, "\n"@),
        crate::text::ends(gap, "Input:\n"@),
    ensures
        ({
            let whole = a + source + b + target + c + terms + orders + gap + text;
            &&& crate::text::has_text(whole, "Source language: "@ + source + "\n"@)
            &&& crate::text::has_text(whole, "Target language: "@ + target + "\n"@)
            &&& crate::text::ends(whole, "Input:\n"@ + text)
        }),
{
    let whole = a + source + b + target + c + terms + orders + gap + text;
    let none = Seq::<char>::empty();
    let rest = target + c + terms + orders + gap + text;
    crate::text::lemma_has_across(a, source, b, "Source language: "@, "\n"@);
    crate::text::lemma_has_part(none, a + source + b, rest, "Source language: "@ + source + "\n"@);
    assert(none + (a + source + b) + rest =~= whole);
    crate::text::lemma_has_across(b, target, c, "Target language: "@, "\n"@);
    crate::text::lemma_has_part(
        a + source,
        b + target + c,
        terms + orders + gap + text,
        "Target language: "@ + target + "\n"@,
    );
    assert(a + source + (b + target + c) + (terms + orders + gap + text) =~= whole);
    crate::text::lemma_ends_after(gap, text, "Input:\n"@);
    crate::text::lemma_ends_longer(
        a + source + b + target + c + terms + orders,
        gap + text,
        "Input:\n"@ + text,
    );
    assert(a + source + b + target + c + terms + orders + (gap + text) =~= whole);
}

/// The text to be proofread comes last in the question, and is not to be translated. The terms and
/// the wishes of the user reach the model. Where neither filler words nor spoken commands are to be
/// seen to, the text is the user's own.
pub proof fn law_proofreading_is_asked_for_as_given(
    request: RefinementRequest,
    context: Option<Seq<char>>,
)
    requires
        !crate::text::blank(request.text@),
    ensures
        refine_question(request@, context) matches Ok(plan) && ({
            let q = plan.messages.last();
            &&& q.role == crate::chat::Role::User
            &&& crate::text::has_text(q.content, "Do not translate."@)
            &&& crate::text::ends(q.content, "Input:\n"@ + refine_source(request@))
            &&& !request.remove_fillers && !request.voice_commands ==> crate::text::ends(
                q.content,
                "Input:\n"@ + crate::text::trimmed(request.text@),
            )
            &&& (request.custom_terms matches Some(t) && !crate::text::blank(t@))
                ==> crate::text::has_text(
                q.content,
                "terms and proper nouns: "@ + crate::text::trimmed(request.custom_terms->0@),
            )
            &&& (request.custom_instruction matches Some(t) && !crate::text::blank(t@))
                ==> crate::text::has_text(
                q.content,
                "Additional instruction: "@ + crate::text::trimmed(request.custom_instruction->0@),
            )
        }),
{
    let q = request@;
    let a = "Proofread the following transcription without translating it.\n\nStrict rules:\n- Preserve the exact language and script of the input. Do not translate.\n- "@;
    let guard = crate::script::guard_instruction(crate::script::dominant(refine_source(q)));
    let b = "\n- If the input is English, output English only. If the input is Japanese, output Japanese only.\n- Do not output Chinese unless the input itself is Chinese.\n- Do not change meaning, content, amount of information, wording style, or register.\n- Keep the original vocabulary and phrasing as much as possible.\n- "@;
    let fillers = filler_rule(q.remove_fillers);
    let c = "\n- Only fix obvious speech-recognition errors, punctuation, spacing, and notation inconsistencies.\n- Do not summarize.\n- Do not remove sentences or information.\n- Keep the original sentence order.\n- Do not add facts, subjects, objects, or terms.\n- Output only the proofread body. No preface, explanation, heading, or quotes."@;
    let lead = "\n- Preserve the spelling of these terms and proper nouns: "@;
    let wish = "\n- Additional instruction: "@;
    let gap = "\n\nInput:\n"@;
    let text = refine_source(q);
    assert(crate::text::has_text(a, "Do not translate."@)) by {
        reveal_strlit("Proofread the following transcription without translating it.\n\nStrict rules:\n- Preserve the exact language and script of the input. Do not translate.\n- ");
        reveal_strlit("Do not translate.");
        let n = a.len() as int;
        assert(a.subrange(n - 20, n - 3) =~= "Do not translate."@);
        assert(crate::text::occurs_at(a, "Do not translate."@, n - 20));
    }
    assert(crate::text::ends(gap, "Input:\n"@)) by {
        reveal_strlit("\n\nInput:\n");
        reveal_strlit("Input:\n");
        assert(gap.subrange(2, 9) =~= "Input:\n"@);
    }
    assert(crate::text::ends(lead, "terms and proper nouns: "@)) by {
        reveal_strlit("\n- Preserve the spelling of these terms and proper nouns: ");
        reveal_strlit("terms and proper nouns: ");
        assert(lead.subrange(lead.len() - 24, lead.len() as int) =~= "terms and proper nouns: "@);
    }
    assert(crate::text::ends(wish, "Additional instruction: "@)) by {
        reveal_strlit("\n- Additional instruction: ");
        reveal_strlit("Additional instruction: ");
        assert(wish.subrange(wish.len() - 24, wish.len() as int) =~= "Additional instruction: "@);
    }
    lemma_refinement_parts(a, guard, b, fillers, c, q.custom_terms, q.custom_instruction, gap, text);
}

proof fn lemma_refinement_parts(
    a: Seq<char>,
    guard: Seq<char>,
    b: Seq<char>,
    fillers: Seq<char>,
    c: Seq<char>,
    own_terms: Option<Seq<char>>,
    own_orders: Option<Seq<char>>,
    gap: Seq<char>,
    text: Seq<char>,
)
    requires
        crate::text::has_text(a, "Do not translate."@),
        crate::text::ends(gap, "Input:\n"@),
        crate::text::ends(
            "\n- Preserve the spelling of these terms and proper nouns: "@,
            "terms and proper nouns: "@,
        ),
        crate::text::ends("\n- Additional instruction: "@, "Additional instruction: "@),
    ensures
        ({
            let lead = "\n- Preserve the spelling of these terms and proper nouns: "@;
            let wish = "\n- Additional instruction: "@;
            let whole = a + guard + b + fillers + c + rule_for(lead, own_terms) + rule_for(
                wish,
                own_orders,
            ) + gap + text;
            &&& crate::text::has_text(whole, "Do not translate."@)
            &&& crate::text::ends(whole, "Input:\n"@ + text)
            &&& (own_terms matches Some(t) && !crate::text::blank(t)) ==> crate::text::has_text(
                whole,
                "terms and proper nouns: "@ + crate::text::trimmed(own_terms->0),
            )
            &&& (own_orders matches Some(t) && !crate::text::blank(t)) ==> crate::text::has_text(
                whole,
                "Additional instruction: "@ + crate::text::trimmed(own_orders->0),
            )
        }),
{
    let lead = "\n- Preserve the spelling of these terms and proper nouns: "@;
    let wish = "\n- Additional instruction: "@;
    let terms = rule_for(lead, own_terms);
    let orders = rule_for(wish, own_orders);
    let none = Seq::<char>::empty();
    let head = a + guard + b + fillers + c;
    let whole = head + terms + orders + gap + text;
    let rest = guard + b + fillers + c + terms + orders + gap + text;
    crate::text::lemma_has_part(none, a, rest, "Do not translate."@);
    assert(none + a + rest =~= whole);
    crate::text::lemma_ends_after(gap, text, "Input:\n"@);
    crate::text::lemma_ends_longer(head + terms + orders, gap + text, "Input:\n"@ + text);
    assert(head + terms + orders + (gap + text) =~= whole);
    if own_terms is Some && !crate::text::blank(own_terms->0) {
        lemma_rule_stands(head, lead, own_terms, orders + gap + text, "terms and proper nouns: "@);
        assert(head + terms + (orders + gap + text) =~= whole);
    }
    if own_orders is Some && !crate::text::blank(own_orders->0) {
        lemma_rule_stands(head + terms, wish, own_orders, gap + text, "Additional instruction: "@);
        assert(head + terms + orders + (gap + text) =~= whole);
    }
}

/// A free instruction reaches the model under its heading, and the text comes last. The answer may
/// have as many tokens as are asked for, between 128 and 4096.
pub proof fn law_instruction_is_asked_for_as_given(
    text: Seq<char>,
    instruction: Seq<char>,
    max_tokens: u32,
    context: Option<Seq<char>>,
)
    requires
        !crate::text::blank(text),
        !crate::text::blank(instruction),
    ensures
        custom_question(text, instruction, max_tokens, context) matches Ok(plan) && ({
            let q = plan.messages.last();
            &&& q.role == crate::chat::Role::User
            &&& crate::text::has_text(
                q.content,
                "Instruction:\n"@ + crate::text::trimmed(instruction) + "\n"@,
            )
            &&& crate::text::ends(q.content, "Input:\n"@ + crate::text::trimmed(text))
            &&& 128 <= plan.max_tokens <= 4096
            &&& 128 <= max_tokens <= 4096 ==> plan.max_tokens == max_tokens
            &&& max_tokens < 128 ==> plan.max_tokens == 128
            &&& max_tokens > 4096 ==> plan.max_tokens == 4096
            &&& plan.temperature_tenths == 0
        }),
{
    let a = "Process the following text according to the instruction.\n\nInstruction:\n"@;
    let b = "\n\nRules:\n- Do not output a preface, explanation, or code fence.\n- Output only the processed body text.\n\nInput:\n"@;
    let orders = crate::text::trimmed(instruction);
    let t = crate::text::trimmed(text);
    let none = Seq::<char>::empty();
    reveal_strlit("Process the following text according to the instruction.\n\nInstruction:\n");
    reveal_strlit("\n\nRules:\n- Do not output a preface, explanation, or code fence.\n- Output only the processed body text.\n\nInput:\n");
    reveal_strlit("Instruction:\n");
    reveal_strlit("Input:\n");
    reveal_strlit("\n");
    assert(a.subrange(a.len() - 13, a.len() as int) =~= "Instruction:\n"@);
    assert(b.subrange(b.len() - 7, b.len() as int) =~= "Input:\n"@);
    assert(b.subrange(0, 1) =~= "\n"@);
    crate::text::lemma_has_across(a, orders, b, "Instruction:\n"@, "\n"@);
    crate::text::lemma_has_part(none, a + orders + b, t, "Instruction:\n"@ + orders + "\n"@);
    assert(none + (a + orders + b) + t =~= custom_prompt(text, instruction));
    crate::text::lemma_ends_longer(a + orders, b, "Input:\n"@);
    crate::text::lemma_ends_after(a + orders + b, t, "Input:\n"@);
}

/// The text whose tone, summary and keywords are wanted, and the note that is to be continued, come
/// last in their questions.
pub proof fn law_text_comes_last(text: Seq<char>, context: Option<Seq<char>>)
    requires
        !crate::text::blank(text),
    ensures
        analyze_question(text, context) matches Ok(plan) && plan.messages.last().role
            == crate::chat::Role::User && crate::text::ends(
            plan.messages.last().content,
            "Input:\n"@ + crate::text::trimmed(text),
        ),
        complete_question(text, context) matches Ok(plan) && plan.messages.last().role
            == crate::chat::Role::User && crate::text::ends(
            plan.messages.last().content,
            "note body:\n"@ + crate::text::trimmed(text),
        ),
{
    let t = crate::text::trimmed(text);
    let a = "Extract information from the following text and output strict JSON only.\n\nRequirements:\n- Do not output anything outside JSON: no preface, explanation, or code fence.\n- Use exactly these three keys: \"tone\", \"summary\", \"keywords\".\n- tone: one short label for the speaker's overall tone, in the same language as the input.\n- summary: 1-2 sentences summarizing the key points, in the same language as the input.\n- keywords: an array of 3-6 important terms, in the same language as the input where appropriate.\n\nInput:\n"@;
    let b = "Continue the following note body.\n\nRules:\n- Continue the style, language, and topic of the input body.\n- Never repeat the existing body. Output only the continuation text.\n- Do not output a preface such as \"I will continue\" or \"Sure\", a heading, quotes, or a code fence.\n- Be conservative with facts. Do not invent proper nouns or numbers that are not in the input.\n- If related notes are attached as system context, use them only as background and do not copy them directly.\n- Wrap up the topic naturally in about 3-6 sentences.\n\nExisting note body:\n"@;
    assert(crate::text::ends(a, "Input:\n"@)) by {
        reveal_strlit("Extract information from the following text and output strict JSON only.\n\nRequirements:\n- Do not output anything outside JSON: no preface, explanation, or code fence.\n- Use exactly these three keys: \"tone\", \"summary\", \"keywords\".\n- tone: one short label for the speaker's overall tone, in the same language as the input.\n- summary: 1-2 sentences summarizing the key points, in the same language as the input.\n- keywords: an array of 3-6 important terms, in the same language as the input where appropriate.\n\nInput:\n");
        reveal_strlit("Input:\n");
        assert(a.subrange(a.len() - 7, a.len() as int) =~= "Input:\n"@);
    }
    assert(crate::text::ends(b, "note body:\n"@)) by {
        reveal_strlit("Continue the following note body.\n\nRules:\n- Continue the style, language, and topic of the input body.\n- Never repeat the existing body. Output only the continuation text.\n- Do not output a preface such as \"I will continue\" or \"Sure\", a heading, quotes, or a code fence.\n- Be conservative with facts. Do not invent proper nouns or numbers that are not in the input.\n- If related notes are attached as system context, use them only as background and do not copy them directly.\n- Wrap up the topic naturally in about 3-6 sentences.\n\nExisting note body:\n");
        reveal_strlit("note body:\n");
        assert(b.subrange(b.len() - 11, b.len() as int) =~= "note body:\n"@);
    }
    crate::text::lemma_ends_after(a, t, "Input:\n"@);
    crate::text::lemma_ends_after(b, t, "note body:\n"@);
}

/// What was heard is corrected with the clue that the user gave, each under its heading. Without a
/// text or without a clue nothing is asked; and where the reply is empty, what was heard stands.
pub proof fn law_correction_goes_by_the_clue(text: Seq<char>, context: Seq<char>)
    ensures
        correct_question(text, context) is None <==> crate::text::blank(text)
            || crate::text::blank(context),
        correct_question(text, context) matches Some(plan) ==> crate::text::has_text(
            plan.messages.last().content,
            "Context and instruction:\n"@ + crate::text::trimmed(context) + "\n"@,
        ) && crate::text::ends(
            plan.messages.last().content,
            "Transcription:\n"@ + crate::text::trimmed(text),
        ),
        forall|reply: Seq<char>|
            crate::text::blank(reply) ==> #[trigger] corrected(text, reply) == crate::text::trimmed(
                text,
            ),
        forall|reply: Seq<char>|
            !crate::text::blank(reply) ==> #[trigger] corrected(text, reply)
                == crate::reply::plain_answer(crate::text::trimmed(reply)),
{
    let a = "Correct the following transcription using the provided context.\n\nRules:\n- Correct only obvious recognition errors.\n- Preserve the meaning.\n- Do not summarize.\n- Do not add or remove information.\n- Do not output a preface, explanation, heading, or quotes.\n- Output only the corrected body text.\n\nContext and instruction:\n"@;
    let b = "\n\nTranscription:\n"@;
    let clue = crate::text::trimmed(context);
    let t = crate::text::trimmed(text);
    let none = Seq::<char>::empty();
    assert(crate::text::ends(a, "Context and instruction:\n"@)) by {
        reveal_strlit("Correct the following transcription using the provided context.\n\nRules:\n- Correct only obvious recognition errors.\n- Preserve the meaning.\n- Do not summarize.\n- Do not add or remove information.\n- Do not output a preface, explanation, heading, or quotes.\n- Output only the corrected body text.\n\nContext and instruction:\n");
        reveal_strlit("Context and instruction:\n");
        assert(a.subrange(a.len() - 25, a.len() as int) =~= "Context and instruction:\n"@);
    }
    reveal_strlit("\n\nTranscription:\n");
    reveal_strlit("Transcription:\n");
    reveal_strlit("\n");
    assert(b.subrange(2, b.len() as int) =~= "Transcription:\n"@);
    assert(b.subrange(0, 1) =~= "\n"@);
    crate::text::lemma_has_across(a, clue, b, "Context and instruction:\n"@, "\n"@);
    crate::text::lemma_has_part(none, a + clue + b, t, "Context and instruction:\n"@ + clue + "\n"@);
    assert(none + (a + clue + b) + t =~= correct_prompt(text, context));
    crate::text::lemma_ends_longer(a + clue, b, "Transcription:\n"@);
    crate::text::lemma_ends_after(a + clue + b, t, "Transcription:\n"@);
}

/// Without a text, or without an instruction, no model is asked: the user is told of the mistake.
pub proof fn law_nothing_is_asked_without_a_text(
    text: Seq<char>,
    context: Option<Seq<char>>,
    q: RefinementView,
    t: TranslationView,
    instruction: Seq<char>,
    max_tokens: u32,
)
    ensures
        crate::text::blank(text) ==> (analyze_question(text, context) matches Err(e) && e.status
            == 400),
        crate::text::blank(text) ==> (complete_question(text, context) matches Err(e) && e.status
            == 400),
        crate::text::blank(q.text) ==> (refine_question(q, context) matches Err(e) && e.status
            == 400),
        crate::text::blank(t.text) ==> (translate_question(t, context) matches Err(e) && e.status
            == 400),
        crate::text::blank(text) || crate::text::blank(instruction) ==> (custom_question(
            text,
            instruction,
            max_tokens,
            context,
        ) matches Err(e) && e.status == 400),
{
}

/// An empty reply is an error of the server; any other gives the answer in it. A proofread text in
/// another writing system than its source is thrown away, and no other is.
pub proof fn law_replies_are_read(q: RefinementView, reply: Seq<char>, when_empty: Seq<char>)
    ensures
        crate::text::blank(reply) ==> (answer_or(reply, when_empty) matches Err(e) && e.status
            == 500 && e.message == when_empty),
        !crate::text::blank(reply) ==> answer_or(reply, when_empty) == Ok::<
            Seq<char>,
            crate::chat::ErrorView,
        >(crate::reply::plain_answer(crate::text::trimmed(reply))),
        crate::text::blank(reply) ==> (refine_outcome(q, reply) matches Err(e) && e.status == 500),
        !crate::text::blank(reply) ==> ({
            let refined = crate::reply::plain_answer(crate::text::trimmed(reply));
            let before = crate::script::dominant(refine_source(q));
            let after = crate::script::dominant(refined);
            if before is None || after is None || before == after {
                refine_outcome(q, reply) == Ok::<Seq<char>, crate::chat::ErrorView>(refined)
            } else {
                refine_outcome(q, reply) matches Err(e) && e.status == 500
            }
        }),
{
}

/// The model is told what it is for before anything else, the same words for every request of a
/// kind, and is asked for plain answers of a bounded length. Only a continuation leaves it some
/// freedom.
pub proof fn law_models_are_told_their_task(
    proofreading: RefinementView,
    translation: TranslationView,
    text: Seq<char>,
    instruction: Seq<char>,
    max_tokens: u32,
    context: Option<Seq<char>>,
)
    ensures
        refine_question(proofreading, context) matches Ok(plan) ==> plan.messages[0].role is System
            && plan.messages[0].content == "You are a transcription proofreading engine. Never translate the input. Always keep the same language and script as the input. Only correct obvious recognition errors, filler remnants, punctuation, spacing, and notation. Output the body text only."@ && plan.temperature_tenths == 0 && plan.max_tokens == 1024,
        translate_question(translation, context) matches Ok(plan) ==> plan.messages[0].role is System
            && plan.messages[0].content == "You are a translator for live captions. Preserve the input meaning and order, and output only the translated body text."@ && plan.temperature_tenths == 0 && plan.max_tokens == 1024,
        custom_question(text, instruction, max_tokens, context) matches Ok(plan) ==> plan.messages[0].role is System
            && plan.messages[0].content == "You are a text-processing engine that follows the instruction. Output only the processed body text."@,
        analyze_question(text, context) matches Ok(plan) ==> plan.messages[0].role is System
            && plan.messages[0].content == "You extract tone, key points, and keywords from text. Follow the specified JSON schema exactly and output JSON only."@ && plan.temperature_tenths == 0 && plan.max_tokens == 512,
        complete_question(text, context) matches Ok(plan) ==> plan.messages[0].role is System
            && plan.messages[0].content == "You are an assistant that continues notes. Preserve the existing body's style and language, output only the continuation body, and do not include a preface or explanation."@ && plan.temperature_tenths == 4 && plan.max_tokens == 600,
        correct_question(text, instruction) matches Some(plan) ==> plan.messages[0].role is System
            && plan.messages[0].content == "You are an editor who corrects transcription wording and notation. Use the context as a clue, but do not add content that is not in the source."@ && plan.temperature_tenths == 0 && plan.max_tokens == 1024,
{
}

/// What is asked begins with what is to be done, the same words for every text.
pub proof fn law_question_says_what_to_do(
    proofreading: RefinementView,
    translation: TranslationView,
    text: Seq<char>,
    instruction: Seq<char>,
)
    ensures
        crate::text::begins(refine_prompt(proofreading), "Proofread the following transcription without translating it.\n\nStrict rules:\n- Preserve the exact language and script of the input. Do not translate.\n- "@),
        crate::text::begins(translate_prompt(translation), "Translate the following transcription.\n\nRules:\n- Source language: "@),
        crate::text::begins(custom_prompt(text, instruction), "Process the following text according to the instruction.\n\nInstruction:\n"@),
        crate::text::begins(analyze_prompt(text), "Extract information from the following text and output strict JSON only.\n\nRequirements:\n- Do not output anything outside JSON: no preface, explanation, or code fence.\n- Use exactly these three keys: \"tone\", \"summary\", \"keywords\".\n- tone: one short label for the speaker's overall tone, in the same language as the input.\n- summary: 1-2 sentences summarizing the key points, in the same language as the input.\n- keywords: an array of 3-6 important terms, in the same language as the input where appropriate.\n\nInput:\n"@),
        crate::text::begins(complete_prompt(text), "Continue the following note body.\n\nRules:\n- Continue the style, language, and topic of the input body.\n- Never repeat the existing body. Output only the continuation text.\n- Do not output a preface such as \"I will continue\" or \"Sure\", a heading, quotes, or a code fence.\n- Be conservative with facts. Do not invent proper nouns or numbers that are not in the input.\n- If related notes are attached as system context, use them only as background and do not copy them directly.\n- Wrap up the topic naturally in about 3-6 sentences.\n\nExisting note body:\n"@),
        crate::text::begins(correct_prompt(text, instruction), "Correct the following transcription using the provided context.\n\nRules:\n- Correct only obvious recognition errors.\n- Preserve the meaning.\n- Do not summarize.\n- Do not add or remove information.\n- Do not output a preface, explanation, heading, or quotes.\n- Output only the corrected body text.\n\nContext and instruction:\n"@),
{
    lemma_first_part(refine_prompt(proofreading), "Proofread the following transcription without translating it.\n\nStrict rules:\n- Preserve the exact language and script of the input. Do not translate.\n- "@);
    lemma_first_part(translate_prompt(translation), "Translate the following transcription.\n\nRules:\n- Source language: "@);
    lemma_first_part(custom_prompt(text, instruction), "Process the following text according to the instruction.\n\nInstruction:\n"@);
    lemma_first_part(analyze_prompt(text), "Extract information from the following text and output strict JSON only.\n\nRequirements:\n- Do not output anything outside JSON: no preface, explanation, or code fence.\n- Use exactly these three keys: \"tone\", \"summary\", \"keywords\".\n- tone: one short label for the speaker's overall tone, in the same language as the input.\n- summary: 1-2 sentences summarizing the key points, in the same language as the input.\n- keywords: an array of 3-6 important terms, in the same language as the input where appropriate.\n\nInput:\n"@);
    lemma_first_part(complete_prompt(text), "Continue the following note body.\n\nRules:\n- Continue the style, language, and topic of the input body.\n- Never repeat the existing body. Output only the continuation text.\n- Do not output a preface such as \"I will continue\" or \"Sure\", a heading, quotes, or a code fence.\n- Be conservative with facts. Do not invent proper nouns or numbers that are not in the input.\n- If related notes are attached as system context, use them only as background and do not copy them directly.\n- Wrap up the topic naturally in about 3-6 sentences.\n\nExisting note body:\n"@);
    lemma_first_part(correct_prompt(text, instruction), "Correct the following transcription using the provided context.\n\nRules:\n- Correct only obvious recognition errors.\n- Preserve the meaning.\n- Do not summarize.\n- Do not add or remove information.\n- Do not output a preface, explanation, heading, or quotes.\n- Output only the corrected body text.\n\nContext and instruction:\n"@);
}

proof fn lemma_first_part(whole: Seq<char>, head: Seq<char>)
    requires
        whole.len() >= head.len(),
        forall|i: int| 0 <= i < head.len() ==> #[trigger] whole[i] == head[i],
    ensures
        crate::text::begins(whole, head),
{
    assert(whole.subrange(0, head.len() as int) =~= head);
}

/// What is refused is told why, and so is an answer that cannot be used: one with nothing in it, and
/// for proofreading one in another script.
pub proof fn law_refusals_say_what_is_missing(
    proofreading: RefinementView,
    translation: TranslationView,
    text: Seq<char>,
    instruction: Seq<char>,
    max_tokens: u32,
    context: Option<Seq<char>>,
    reply: Seq<char>,
)
    ensures
        refine_question(proofreading, context) matches Err(e) ==> e.message
            == "整形する文字起こし結果がありません"@,
        translate_question(translation, context) matches Err(e) ==> e.message
            == "翻訳する文字起こし結果がありません"@,
        custom_question(text, instruction, max_tokens, context) matches Err(e) ==> e.status == 400
            && e.message == if crate::text::blank(text) {
            "処理対象のテキストがありません"@
        } else {
            "指示が空です"@
        },
        analyze_question(text, context) matches Err(e) ==> e.message
            == "抽出対象のテキストがありません"@,
        complete_question(text, context) matches Err(e) ==> e.message
            == "補完する本文がありません"@,
        refine_outcome(proofreading, reply) matches Err(e) ==> e.status == 500 && e.message
            == if crate::text::blank(reply) {
            "整形結果が空でした"@
        } else {
            "整形結果の言語が入力と異なるため破棄しました"@
        },
{
}

} // verus!
