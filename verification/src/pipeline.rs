//! The post-processing pipeline: steps that run one after the other, each on the text that the one
//! before it gave.

use crate::chat::{AppError, ChatPlan};
use crate::process::{
    finish_custom, finish_refine, finish_translate, plan_custom, plan_refine, plan_translate,
    CustomStepRequest, RefinementRequest, TranslationRequest,
};
use crate::text::{chars_of, copy_opt};
use vstd::prelude::*;

verus! {

/// The longest text that a pipeline takes, in characters.
pub const MAX_PIPELINE_CHARS: usize = 10_000;

/// The greatest number of steps that a pipeline takes.
pub const MAX_PIPELINE_STEPS: usize = 10;

/// A step of a pipeline.
#[allow(inconsistent_fields)]
pub enum PipelineStep {
    Refine { config: RefinementRequest },
    Translate { config: TranslationRequest },
    Custom { config: CustomStepRequest },
}

/// The model of a [`PipelineStep`].
pub enum StepView {
    Refine(crate::process::RefinementView),
    Translate(crate::process::TranslationView),
    Custom(crate::process::CustomView),
}

impl View for PipelineStep {
    type V = StepView;

    open spec fn view(&self) -> StepView {
        match self {
            PipelineStep::Refine { config } => StepView::Refine(config@),
            PipelineStep::Translate { config } => StepView::Translate(config@),
            PipelineStep::Custom { config } => StepView::Custom(config@),
        }
    }
}

/// What a step gave.
pub struct PipelineStepResult {
    pub step_type: String,
    pub text: String,
}

/// The models of a list of steps.
pub open spec fn step_views(v: Seq<PipelineStep>) -> Seq<StepView> {
    v.map_values(|s: PipelineStep| s@)
}

/// The names and texts of a list of results.
pub open spec fn result_pairs(v: Seq<PipelineStepResult>) -> Seq<(Seq<char>, Seq<char>)> {
    v.map_values(|r: PipelineStepResult| (r.step_type@, r.text@))
}

/// The name under which a step's result is given.
pub open spec fn step_name(step: StepView) -> Seq<char> {
    match step {
        StepView::Refine(_) => "refine"@,
        StepView::Translate(_) => "translate"@,
        StepView::Custom(q) => match q.label {
            Some(label) => "custom:"@ + label,
            None => "custom"@,
        },
    }
}

/// The model that a step asks for.
pub open spec fn step_model(step: StepView) -> Option<Seq<char>> {
    match step {
        StepView::Refine(q) => q.model,
        StepView::Translate(q) => q.model,
        StepView::Custom(q) => q.model,
    }
}

/// The request of a proofreading step on the text `text`.
pub open spec fn refine_on(
    q: crate::process::RefinementView,
    text: Seq<char>,
) -> crate::process::RefinementView {
    crate::process::RefinementView { text, note_id: None, use_linked_context: false, ..q }
}

/// The request of a translation step on the text `text`.
pub open spec fn translate_on(
    q: crate::process::TranslationView,
    text: Seq<char>,
) -> crate::process::TranslationView {
    crate::process::TranslationView { text, note_id: None, use_linked_context: false, ..q }
}

/// The number of tokens that a free instruction asks for.
pub open spec fn tokens_of(q: crate::process::CustomView) -> u32 {
    match q.max_tokens {
        Some(n) => n,
        None => 1024,
    }
}

/// The question of a step on the text `text`.
pub open spec fn step_question(
    step: StepView,
    text: Seq<char>,
    context: Option<Seq<char>>,
) -> Result<crate::chat::PlanView, crate::chat::ErrorView> {
    match step {
        StepView::Refine(q) => crate::process::refine_question(refine_on(q, text), context),
        StepView::Translate(q) => crate::process::translate_question(
            translate_on(q, text),
            context,
        ),
        StepView::Custom(q) => crate::process::custom_question(
            text,
            q.instruction,
            tokens_of(q),
            context,
        ),
    }
}

/// What a reply to the question of a step on the text `text` gives.
pub open spec fn step_outcome(step: StepView, text: Seq<char>, reply: Seq<char>) -> Result<
    Seq<char>,
    crate::chat::ErrorView,
> {
    match step {
        StepView::Refine(q) => crate::process::refine_outcome(refine_on(q, text), reply),
        StepView::Translate(_) => crate::process::answer_or(reply, "翻訳結果が空でした"@),
        StepView::Custom(_) => crate::process::answer_or(reply, "処理結果が空でした"@),
    }
}

/// A pipeline on its way: its steps, its input, and what the steps so far gave.
pub struct PipelineRun {
    steps: Vec<PipelineStep>,
    input: String,
    results: Vec<PipelineStepResult>,
}

/// The model of a [`PipelineRun`].
#[verifier::ext_equal]
pub struct RunView {
    pub steps: Seq<StepView>,
    pub input: Seq<char>,
    pub results: Seq<(Seq<char>, Seq<char>)>,
}

impl RunView {
    /// Whether every step is done.
    pub open spec fn done(self) -> bool {
        self.results.len() >= self.steps.len()
    }

    /// The step whose turn it is.
    pub open spec fn step(self) -> StepView {
        self.steps[self.results.len() as int]
    }

    /// The text that the step whose turn it is works on.
    pub open spec fn text(self) -> Seq<char> {
        if self.results.len() == 0 {
            self.input
        } else {
            self.results.last().1
        }
    }

    /// The run after the step whose turn it is gave `text`.
    pub open spec fn after(self, text: Seq<char>) -> RunView {
        RunView { results: self.results.push((step_name(self.step()), text)), ..self }
    }

    /// Whether the results so far are those of the first steps, in order.
    pub open spec fn wf(self) -> bool {
        &&& self.results.len() <= self.steps.len()
        &&& forall|i: int|
            0 <= i < self.results.len() ==> (#[trigger] self.results[i]).0 == step_name(
                self.steps[i],
            )
    }
}

/// A pipeline before its first step.
pub open spec fn fresh_run(text: Seq<char>, steps: Seq<StepView>) -> RunView {
    RunView { steps, input: text, results: Seq::empty() }
}

/// Why a pipeline is refused, if it is.
pub open spec fn pipeline_refusal(text: Seq<char>, steps: Seq<StepView>) -> Option<
    crate::chat::ErrorView,
> {
    if text.len() > MAX_PIPELINE_CHARS {
        Some(crate::chat::bad("テキストは10,000文字以内で指定してください"@))
    } else if steps.len() > MAX_PIPELINE_STEPS {
        Some(crate::chat::bad("パイプラインは10ステップ以内で指定してください"@))
    } else {
        None
    }
}

impl View for PipelineRun {
    type V = RunView;

    closed spec fn view(&self) -> RunView {
        RunView {
            steps: step_views(self.steps@),
            input: self.input@,
            results: result_pairs(self.results@),
        }
    }
}

/// Begins a pipeline. A text that is too long and a pipeline with too many steps are refused.
pub fn process_pipeline(text: String, steps: Vec<PipelineStep>) -> (r: Result<
    PipelineRun,
    AppError,
>)
    ensures
        match r {
            Ok(run) => pipeline_refusal(text@, step_views(steps@)) is None && run@ == fresh_run(
                text@,
                step_views(steps@),
            ) && run@.wf(),
            Err(e) => pipeline_refusal(text@, step_views(steps@)) == Some(e@),
        },
{
    if chars_of(text.as_str()).len() > MAX_PIPELINE_CHARS {
        return Err(AppError::bad_request("テキストは10,000文字以内で指定してください"));
    }
    if steps.len() > MAX_PIPELINE_STEPS {
        return Err(AppError::bad_request("パイプラインは10ステップ以内で指定してください"));
    }
    let run = PipelineRun { steps, input: text, results: Vec::new() };
    assert(run@.results =~= Seq::empty());
    Ok(run)
}

fn refinement_on(config: &RefinementRequest, text: &String) -> (r: RefinementRequest)
    ensures
        r@ == refine_on(config@, text@),
{
    RefinementRequest {
        text: text.clone(),
        custom_instruction: copy_opt(&config.custom_instruction),
        custom_terms: copy_opt(&config.custom_terms),
        remove_fillers: config.remove_fillers,
        style: copy_opt(&config.style),
        voice_commands: config.voice_commands,
        model: copy_opt(&config.model),
        note_id: None,
        use_linked_context: false,
    }
}

fn translation_on(config: &TranslationRequest, text: &String) -> (r: TranslationRequest)
    ensures
        r@ == translate_on(config@, text@),
{
    TranslationRequest {
        text: text.clone(),
        source_language: copy_opt(&config.source_language),
        target_language: copy_opt(&config.target_language),
        custom_instruction: copy_opt(&config.custom_instruction),
        custom_terms: copy_opt(&config.custom_terms),
        model: copy_opt(&config.model),
        note_id: None,
        use_linked_context: false,
    }
}

impl PipelineRun {
    /// Whether every step is done.
    pub fn is_done(&self) -> (r: bool)
        ensures
            r == self@.done(),
    {
        assert(self@.results.len() == self.results@.len());
        assert(self@.steps.len() == self.steps@.len());
        self.results.len() >= self.steps.len()
    }

    /// What the steps so far gave.
    pub fn results(&self) -> (r: &Vec<PipelineStepResult>)
        ensures
            result_pairs(r@) == self@.results,
    {
        &self.results
    }

    fn current(&self) -> (r: &String)
        ensures
            r@ == self@.text(),
    {
        assert(self@.results.len() == self.results@.len());
        if self.results.len() == 0 {
            &self.input
        } else {
            assert(self@.results.last() == (
                self.results@.last().step_type@,
                self.results@.last().text@,
            ));
            &self.results[self.results.len() - 1].text
        }
    }

    /// The model that the step whose turn it is asks for.
    pub fn next_model(&self) -> (r: Option<String>)
        requires
            !self@.done(),
        ensures
            crate::text::opt_view(r) == step_model(self@.step()),
    {
        assert(self@.results.len() == self.results@.len());
        let i: usize = self.results.len();
        assert(self@.steps[i as int] == self.steps@[i as int]@);
        match &self.steps[i] {
            PipelineStep::Refine { config } => copy_opt(&config.model),
            PipelineStep::Translate { config } => copy_opt(&config.model),
            PipelineStep::Custom { config } => copy_opt(&config.model),
        }
    }

    /// The question of the step whose turn it is.
    pub fn next_question(&self, linked_context: Option<&str>) -> (r: Result<ChatPlan, AppError>)
        requires
            !self@.done(),
        ensures
            crate::chat::plan_view(r) == step_question(
                self@.step(),
                self@.text(),
                crate::text::opt_str_view(linked_context),
            ),
    {
        assert(self@.results.len() == self.results@.len());
        let i: usize = self.results.len();
        assert(self@.steps[i as int] == self.steps@[i as int]@);
        let text = self.current();
        match &self.steps[i] {
            PipelineStep::Refine { config } => plan_refine(
                &refinement_on(config, text),
                linked_context,
            ),
            PipelineStep::Translate { config } => plan_translate(
                &translation_on(config, text),
                linked_context,
            ),
            PipelineStep::Custom { config } => {
                let tokens: u32 = match config.max_tokens {
                    Some(n) => n,
                    None => 1024,
                };
                plan_custom(text.as_str(), config.instruction.as_str(), tokens, linked_context)
            },
        }
    }

    /// Takes the reply to the question of the step whose turn it is. An error ends the pipeline:
    /// nothing is added to its results.
    pub fn take_reply(&mut self, reply: &str) -> (r: Result<(), AppError>)
        requires
            old(self)@.wf(),
            !old(self)@.done(),
        ensures
            match r {
                Ok(_) => step_outcome(old(self)@.step(), old(self)@.text(), reply@) matches Ok(t)
                    && final(self)@ == old(self)@.after(t),
                Err(e) => step_outcome(old(self)@.step(), old(self)@.text(), reply@) == Err::<
                    Seq<char>,
                    _,
                >(e@) && final(self)@ == old(self)@,
            },
            final(self)@.wf(),
    {
        assert(self@.results.len() == self.results@.len());
        let i: usize = self.results.len();
        assert(self@.steps[i as int] == self.steps@[i as int]@);
        let text = self.current().clone();
        let (name, outcome) = match &self.steps[i] {
            PipelineStep::Refine { config } => (
                "refine".to_owned(),
                finish_refine(&refinement_on(config, &text), reply),
            ),
            PipelineStep::Translate { .. } => ("translate".to_owned(), finish_translate(reply)),
            PipelineStep::Custom { config } => {
                let name = match &config.label {
                    Some(label) => {
                        let mut name = "custom:".to_owned();
                        name.append(label.as_str());
                        name
                    },
                    None => "custom".to_owned(),
                };
                (name, finish_custom(reply))
            },
        };
        match outcome {
            Ok(t) => {
                let ghost before = self@;
                self.results.push(PipelineStepResult { step_type: name, text: t });
                assert(self@.results =~= before.results.push((name@, t@)));
                assert(self@ =~= before.after(t@));
                Ok(())
            },
            Err(e) => Err(e),
        }
    }
}

/// What a model answers to a question, or why it did not.
pub type Oracle = spec_fn(crate::chat::PlanView) -> Result<Seq<char>, crate::chat::ErrorView>;

/// How a pipeline ends that is driven to its end or to its first error: each question is put to
/// the model, and each reply taken.
pub open spec fn driven(run: RunView, context: Option<Seq<char>>, ask: Oracle) -> Result<
    Seq<(Seq<char>, Seq<char>)>,
    crate::chat::ErrorView,
>
    decreases run.steps.len() - run.results.len(),
{
    if run.done() {
        Ok(run.results)
    } else {
        match step_question(run.step(), run.text(), context) {
            Ok(plan) => match ask(plan) {
                Ok(reply) => match step_outcome(run.step(), run.text(), reply) {
                    Ok(t) => driven(run.after(t), context, ask),
                    Err(e) => Err(e),
                },
                Err(e) => Err(e),
            },
            Err(e) => Err(e),
        }
    }
}

/// A pipeline that ends without an error has one result for each step, in the order of the steps,
/// under the step's name.
pub proof fn law_pipeline_answers_every_step(
    run: RunView,
    context: Option<Seq<char>>,
    ask: Oracle,
)
    requires
        run.wf(),
    ensures
        driven(run, context, ask) matches Ok(results) ==> {
            &&& results.len() == run.steps.len()
            &&& forall|i: int|
                0 <= i < results.len() ==> (#[trigger] results[i]).0 == step_name(run.steps[i])
            &&& run.results.is_prefix_of(results)
        },
    decreases run.steps.len() - run.results.len(),
{
    if !run.done() {
        if let Ok(plan) = step_question(run.step(), run.text(), context) {
            if let Ok(reply) = ask(plan) {
                if let Ok(t) = step_outcome(run.step(), run.text(), reply) {
                    let next = run.after(t);
                    law_pipeline_answers_every_step(next, context, ask);
                    if let Ok(results) = driven(next, context, ask) {
                        assert(next.results.is_prefix_of(results));
                        assert(run.results =~= next.results.take(run.results.len() as int));
                        assert(run.results =~= results.take(run.results.len() as int));
                    }
                }
            }
        }
    } else {
        assert(run.results =~= run.results.take(run.results.len() as int));
    }
}

/// Each step works on the text that the step before it gave, and the first on the input: the
/// `i`th result is the outcome of the `i`th step on that text, for the reply that the model gave
/// to its question.
pub proof fn law_pipeline_hands_the_text_on(
    run: RunView,
    context: Option<Seq<char>>,
    ask: Oracle,
    i: int,
)
    requires
        run.wf(),
        driven(run, context, ask) is Ok,
        run.results.len() <= i < run.steps.len(),
    ensures
        ({
            let results = driven(run, context, ask)->Ok_0;
            let text = if i == 0 {
                run.input
            } else {
                results[i - 1].1
            };
            &&& step_question(run.steps[i], text, context) is Ok
            &&& ask(step_question(run.steps[i], text, context)->Ok_0) is Ok
            &&& step_outcome(
                run.steps[i],
                text,
                ask(step_question(run.steps[i], text, context)->Ok_0)->Ok_0,
            ) == Ok::<_, crate::chat::ErrorView>(results[i].1)
        }),
    decreases run.steps.len() - run.results.len(),
{
    let plan = step_question(run.step(), run.text(), context)->Ok_0;
    let reply = ask(plan)->Ok_0;
    let t = step_outcome(run.step(), run.text(), reply)->Ok_0;
    let next = run.after(t);
    law_pipeline_answers_every_step(next, context, ask);
    let results = driven(next, context, ask)->Ok_0;
    let n = run.results.len() as int;
    assert(next.results.is_prefix_of(results));
    assert(results[n] == next.results[n]);
    if n > 0 {
        assert(results[n - 1] == next.results[n - 1]);
        assert(next.results[n - 1] == run.results.last());
    }
    if i > n {
        law_pipeline_hands_the_text_on(next, context, ask, i);
    }
}

/// A text of at most ten thousand characters goes through at most ten steps, and whatever is longer
/// or takes more steps is refused as a bad request.
pub proof fn law_long_pipelines_are_refused(text: Seq<char>, steps: Seq<StepView>)
    ensures
        pipeline_refusal(text, steps) is None <==> text.len() <= 10_000 && steps.len() <= 10,
        pipeline_refusal(text, steps) matches Some(e) ==> e.status == 400,
        text.len() > 10_000 ==> pipeline_refusal(text, steps).unwrap().message
            == "テキストは10,000文字以内で指定してください"@,
        text.len() <= 10_000 && steps.len() > 10 ==> pipeline_refusal(text, steps).unwrap().message
            == "パイプラインは10ステップ以内で指定してください"@,
{
}

/// A step asks what a request of its own would ask that has the step's settings and the text that
/// has come this far, whatever text and note the step itself was given.
pub proof fn law_steps_ask_on_the_text_so_far(
    proofreading: crate::process::RefinementView,
    translation: crate::process::TranslationView,
    instruction: crate::process::CustomView,
    text: Seq<char>,
    context: Option<Seq<char>>,
)
    ensures
        step_question(StepView::Refine(proofreading), text, context)
            == crate::process::refine_question(
            crate::process::RefinementView {
                text,
                note_id: None,
                use_linked_context: false,
                ..proofreading
            },
            context,
        ),
        step_question(StepView::Translate(translation), text, context)
            == crate::process::translate_question(
            crate::process::TranslationView {
                text,
                note_id: None,
                use_linked_context: false,
                ..translation
            },
            context,
        ),
        step_question(StepView::Custom(instruction), text, context)
            == crate::process::custom_question(
            text,
            instruction.instruction,
            match instruction.max_tokens {
                Some(n) => n,
                None => 1024,
            },
            context,
        ),
        step_model(StepView::Refine(proofreading)) == proofreading.model,
        step_model(StepView::Translate(translation)) == translation.model,
        step_model(StepView::Custom(instruction)) == instruction.model,
{
}

/// A step's result stands under its kind, and under the label of an instruction that has one.
pub proof fn law_results_are_named_after_their_steps(step: StepView)
    ensures
        step is Refine ==> step_name(step) == "refine"@,
        step is Translate ==> step_name(step) == "translate"@,
        step matches StepView::Custom(q) ==> crate::text::begins(step_name(step), "custom"@),
        step matches StepView::Custom(q) ==> (q.label is None ==> step_name(step) == "custom"@),
        step matches StepView::Custom(q) ==> (q.label matches Some(label) ==> {
            &&& step_name(step).len() == 7 + label.len()
            &&& step_name(step)[6] == ':'
            &&& step_name(step).skip(7) == label
        }),
{
    reveal_strlit("custom:");
    reveal_strlit("custom");
    if let StepView::Custom(q) = step {
        assert(step_name(step).subrange(0, 6) =~= "custom"@);
        if let Some(label) = q.label {
            assert(step_name(step).skip(7) =~= label);
        }
    }
}

/// A pipeline without steps has no results, and one that fails does so with the error of the first
/// step that cannot be asked, is not answered or has an answer that cannot be used.
pub proof fn law_pipeline_stops_at_the_first_failure(
    run: RunView,
    context: Option<Seq<char>>,
    ask: Oracle,
)
    requires
        run.wf(),
    ensures
        run.results.len() == run.steps.len() ==> driven(run, context, ask) == Ok::<
            _,
            crate::chat::ErrorView,
        >(run.results),
        run.results.len() < run.steps.len() ==> {
            let step = run.steps[run.results.len() as int];
            let text = if run.results.len() == 0 {
                run.input
            } else {
                run.results[run.results.len() - 1].1
            };
            let question = step_question(step, text, context);
            &&& question matches Err(e) ==> driven(run, context, ask) == Err::<
                Seq<(Seq<char>, Seq<char>)>,
                _,
            >(e)
            &&& (question is Ok && ask(question->Ok_0) is Err) ==> driven(run, context, ask)
                == Err::<Seq<(Seq<char>, Seq<char>)>, _>(ask(question->Ok_0)->Err_0)
            &&& (question is Ok && ask(question->Ok_0) is Ok && step_outcome(
                step,
                text,
                ask(question->Ok_0)->Ok_0,
            ) is Err) ==> driven(run, context, ask) == Err::<Seq<(Seq<char>, Seq<char>)>, _>(
                step_outcome(step, text, ask(question->Ok_0)->Ok_0)->Err_0,
            )
        },
{
}

/// A step's answer is what is left of the reply once it is made plain, and an empty reply is told of
/// as that of its step.
pub proof fn law_steps_give_plain_answers(step: StepView, text: Seq<char>, reply: Seq<char>)
    ensures
        step is Translate && crate::text::blank(reply) ==> step_outcome(step, text, reply) == Err::<
            Seq<char>,
            _,
        >(crate::chat::broken("翻訳結果が空でした"@)),
        step is Custom && crate::text::blank(reply) ==> step_outcome(step, text, reply) == Err::<
            Seq<char>,
            _,
        >(crate::chat::broken("処理結果が空でした"@)),
        !(step is Refine) && !crate::text::blank(reply) ==> step_outcome(step, text, reply) == Ok::<
            _,
            crate::chat::ErrorView,
        >(crate::reply::plain_answer(crate::text::trimmed(reply))),
        step matches StepView::Refine(q) ==> step_outcome(step, text, reply)
            == crate::process::refine_outcome(
            crate::process::RefinementView {
                text,
                note_id: None,
                use_linked_context: false,
                ..q
            },
            reply,
        ),
{
}

} // verus!
