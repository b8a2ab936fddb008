//! The translation of one live caption.
//!
//! Small models answer short questions best, and sometimes repeat their orders instead. So a
//! caption is asked for twice in few words, and then once as an ordinary translation; what still
//! repeats the orders is thrown away. The model that was asked for may fail to load; then the
//! default one can take its place.

use crate::chat::{plan_question, AppError, ChatPlan};
use crate::process::{finish_translate, plan_translate, TranslationRequest};
use crate::reply::{live_language_label, live_translation_output_is_invalid, strip_llm_preamble};
use crate::text::{copy_opt, fill, trim_text};
use vstd::prelude::*;

verus! {

/// A caption to be translated. `model` is the model that was asked for.
pub struct CaptionJob {
    pub source_text: String,
    pub source_language: String,
    pub target_language: String,
    pub model: Option<String>,
    pub allow_model_fallback: bool,
}

/// The model of a [`CaptionJob`].
pub struct CaptionView {
    pub source_text: Seq<char>,
    pub source_language: Seq<char>,
    pub target_language: Seq<char>,
    pub model: Option<Seq<char>>,
    pub allow_model_fallback: bool,
}

impl View for CaptionJob {
    type V = CaptionView;

    open spec fn view(&self) -> CaptionView {
        CaptionView {
            source_text: self.source_text@,
            source_language: self.source_language@,
            target_language: self.target_language@,
            model: crate::text::opt_view(self.model),
            allow_model_fallback: self.allow_model_fallback,
        }
    }
}

/// How far the translation of a caption has come. `default_model` says that the model that was
/// asked for could not be loaded.
#[derive(Clone, Copy, Debug, PartialEq, Eq, Structural)]
pub enum CaptionStage {
    LoadingModel,
    LoadingDefault,
    First { default_model: bool },
    Second { default_model: bool },
    LoadingPlain { default_model: bool },
    Plain { default_model: bool },
    Over,
}

/// What the outside world reports.
pub enum CaptionEvent {
    Loaded,
    LoadFailed(AppError),
    Reply(String),
    ReplyFailed(String),
}

/// The model of a [`CaptionEvent`].
pub enum EventView {
    Loaded,
    LoadFailed(crate::chat::ErrorView),
    Reply(Seq<char>),
    ReplyFailed(Seq<char>),
}

impl View for CaptionEvent {
    type V = EventView;

    open spec fn view(&self) -> EventView {
        match self {
            CaptionEvent::Loaded => EventView::Loaded,
            CaptionEvent::LoadFailed(e) => EventView::LoadFailed(e@),
            CaptionEvent::Reply(t) => EventView::Reply(t@),
            CaptionEvent::ReplyFailed(t) => EventView::ReplyFailed(t@),
        }
    }
}

/// What is to be done next.
pub enum CaptionAction {
    /// Load the model with this alias, or the default one.
    Load(Option<String>),
    /// Ask the model that was loaded last.
    Ask(ChatPlan),
    /// The translation is over.
    Finish(Result<String, AppError>),
}

/// The model of a [`CaptionAction`].
pub enum ActionView {
    Load(Option<Seq<char>>),
    Ask(crate::chat::PlanView),
    Finish(Result<Seq<char>, crate::chat::ErrorView>),
}

impl View for CaptionAction {
    type V = ActionView;

    open spec fn view(&self) -> ActionView {
        match self {
            CaptionAction::Load(alias) => ActionView::Load(crate::text::opt_view(*alias)),
            CaptionAction::Ask(plan) => ActionView::Ask(plan@),
            CaptionAction::Finish(r) => ActionView::Finish(crate::chat::result_view(*r)),
        }
    }
}

/// Whether an event can come at a stage: a model is loaded or not where one is being loaded, and
/// a reply comes or not where one is waited for.
pub open spec fn fits(stage: CaptionStage, event: EventView) -> bool {
    match stage {
        CaptionStage::LoadingModel
        | CaptionStage::LoadingDefault
        | CaptionStage::LoadingPlain { .. } => event is Loaded || event is LoadFailed,
        CaptionStage::First { .. }
        | CaptionStage::Second { .. }
        | CaptionStage::Plain { .. } => event is Reply || event is ReplyFailed,
        CaptionStage::Over => false,
    }
}

/// The first question: a sentence that names both languages.
pub open spec fn first_question(job: CaptionView) -> crate::chat::PlanView {
    crate::chat::plan_of(
        crate::chat::with_context(
            "You translate live captions. Answer with the translation only."@,
            None,
            "Translate this "@ + crate::reply::language_label(job.source_language)
                + " live caption into "@ + crate::reply::language_label(
                crate::text::trimmed(job.target_language),
            ) + ".\nText:\n"@ + job.source_text,
        ),
        0,
        160,
    )
}

/// The second question, in as few words as possible.
pub open spec fn second_question(job: CaptionView) -> crate::chat::PlanView {
    crate::chat::plan_of(
        crate::chat::with_context(
            "Translator. No notes."@,
            None,
            crate::reply::language_label(crate::text::trimmed(job.target_language))
                + " translation only:\n"@ + job.source_text,
        ),
        0,
        160,
    )
}

/// The model that is in use.
pub open spec fn model_in_use(job: CaptionView, default_model: bool) -> Option<Seq<char>> {
    if default_model {
        None
    } else {
        job.model
    }
}

/// The request for an ordinary translation of the caption.
pub open spec fn plain_request(
    job: CaptionView,
    default_model: bool,
) -> crate::process::TranslationView {
    crate::process::TranslationView {
        text: job.source_text,
        source_language: Some(job.source_language),
        target_language: Some(job.target_language),
        custom_instruction: Some("Live caption translation. Output only the translated text."@),
        custom_terms: None,
        model: model_in_use(job, default_model),
        note_id: None,
        use_linked_context: false,
    }
}

/// The end of a translation.
pub open spec fn over(result: Result<Seq<char>, crate::chat::ErrorView>) -> (
    CaptionStage,
    ActionView,
) {
    (CaptionStage::Over, ActionView::Finish(result))
}

/// The next stage, and what is to be done, after an event.
pub open spec fn caption_step(job: CaptionView, stage: CaptionStage, event: EventView) -> (
    CaptionStage,
    ActionView,
) {
    match (stage, event) {
        (CaptionStage::LoadingModel, EventView::LoadFailed(e)) => if job.allow_model_fallback
            && job.model is Some {
            (CaptionStage::LoadingDefault, ActionView::Load(None))
        } else {
            over(Err(e))
        },
        (CaptionStage::LoadingModel, _) => (
            CaptionStage::First { default_model: false },
            ActionView::Ask(first_question(job)),
        ),
        (CaptionStage::LoadingDefault, EventView::LoadFailed(e)) => over(Err(e)),
        (CaptionStage::LoadingDefault, _) => (
            CaptionStage::First { default_model: true },
            ActionView::Ask(first_question(job)),
        ),
        (CaptionStage::First { default_model }, EventView::Reply(t)) => {
            let translated = crate::reply::plain_answer(t);
            if crate::reply::bad_translation(translated) {
                (CaptionStage::Second { default_model }, ActionView::Ask(second_question(job)))
            } else {
                over(Ok(translated))
            }
        },
        (CaptionStage::Second { default_model }, EventView::Reply(t)) => {
            let translated = crate::reply::plain_answer(t);
            if crate::reply::bad_translation(translated) {
                (
                    CaptionStage::LoadingPlain { default_model },
                    ActionView::Load(model_in_use(job, default_model)),
                )
            } else {
                over(Ok(translated))
            }
        },
        (CaptionStage::LoadingPlain { .. }, EventView::LoadFailed(e)) => over(Err(e)),
        (CaptionStage::LoadingPlain { default_model }, _) => {
            match crate::process::translate_question(plain_request(job, default_model), None) {
                Ok(plan) => (CaptionStage::Plain { default_model }, ActionView::Ask(plan)),
                Err(e) => over(Err(e)),
            }
        },
        (CaptionStage::Plain { .. }, EventView::Reply(t)) => {
            match crate::process::answer_or(t, "翻訳結果が空でした"@) {
                Ok(translated) => if crate::reply::bad_translation(translated) {
                    over(Ok(Seq::empty()))
                } else {
                    over(Ok(translated))
                },
                Err(e) => over(Err(e)),
            }
        },
        (_, EventView::ReplyFailed(message)) => over(Err(crate::chat::broken(message))),
        (_, EventView::LoadFailed(e)) => over(Err(e)),
        (_, _) => over(Err(crate::chat::broken(Seq::empty()))),
    }
}

/// What of a job is needed to begin: its text, trimmed, and its languages and model as they are
/// used.
pub open spec fn job_of(
    source_text: Seq<char>,
    source_language: Option<Seq<char>>,
    target_language: Seq<char>,
    model: Option<Seq<char>>,
    allow_model_fallback: bool,
) -> CaptionView {
    CaptionView {
        source_text: crate::text::trimmed(source_text),
        source_language: crate::process::given_or(source_language, "auto"@),
        target_language,
        model: crate::text::filled(model),
        allow_model_fallback,
    }
}

/// Begins the translation of a caption: the first thing to do is to load the model of the job.
pub fn translate_live_caption(
    source_text: &str,
    source_language: Option<&str>,
    target_language: &str,
    model_alias: Option<&str>,
    allow_model_fallback: bool,
) -> (r: Result<(CaptionJob, CaptionStage, CaptionAction), AppError>)
    ensures
        match r {
            Ok((job, stage, action)) => {
                &&& !crate::text::blank(source_text@)
                &&& job@ == job_of(
                    source_text@,
                    crate::text::opt_str_view(source_language),
                    target_language@,
                    crate::text::opt_str_view(model_alias),
                    allow_model_fallback,
                )
                &&& stage == CaptionStage::LoadingModel
                &&& action@ == ActionView::Load(job@.model)
            },
            Err(e) => crate::text::blank(source_text@) && e@ == crate::chat::bad(
                "翻訳する文字起こし結果がありません"@,
            ),
        },
{
    let text = trim_text(source_text);
    if text.as_str().is_empty() {
        return Err(AppError::bad_request("翻訳する文字起こし結果がありません"));
    }
    let source = match fill(source_language) {
        Some(t) => t,
        None => "auto".to_owned(),
    };
    let job = CaptionJob {
        source_text: text,
        source_language: source,
        target_language: target_language.to_owned(),
        model: fill(model_alias),
        allow_model_fallback,
    };
    let alias = copy_opt(&job.model);
    Ok((job, CaptionStage::LoadingModel, CaptionAction::Load(alias)))
}

impl CaptionJob {
    fn ask_first(&self) -> (r: ChatPlan)
        ensures
            r@ == first_question(self@),
    {
        let target = trim_text(self.target_language.as_str());
        let mut prompt = "Translate this ".to_owned();
        prompt.append(live_language_label(self.source_language.as_str()));
        prompt.append(" live caption into ");
        prompt.append(live_language_label(target.as_str()));
        prompt.append(".\nText:\n");
        prompt.append(self.source_text.as_str());
        plan_question(
            "You translate live captions. Answer with the translation only.",
            None,
            prompt,
            0,
            160,
        )
    }

    fn ask_second(&self) -> (r: ChatPlan)
        ensures
            r@ == second_question(self@),
    {
        let target = trim_text(self.target_language.as_str());
        let mut prompt = live_language_label(target.as_str()).to_owned();
        prompt.append(" translation only:\n");
        prompt.append(self.source_text.as_str());
        plan_question("Translator. No notes.", None, prompt, 0, 160)
    }

    fn model_used(&self, default_model: bool) -> (r: Option<String>)
        ensures
            crate::text::opt_view(r) == model_in_use(self@, default_model),
    {
        if default_model {
            None
        } else {
            copy_opt(&self.model)
        }
    }

    fn as_request(&self, default_model: bool) -> (r: TranslationRequest)
        ensures
            r@ == plain_request(self@, default_model),
    {
        TranslationRequest {
            text: self.source_text.clone(),
            source_language: Some(self.source_language.clone()),
            target_language: Some(self.target_language.clone()),
            custom_instruction: Some(
                "Live caption translation. Output only the translated text.".to_owned(),
            ),
            custom_terms: None,
            model: self.model_used(default_model),
            note_id: None,
            use_linked_context: false,
        }
    }

    /// The next stage, and what is to be done, after an event that fits the stage.
    pub fn step(&self, stage: CaptionStage, event: CaptionEvent) -> (r: (
        CaptionStage,
        CaptionAction,
    ))
        requires
            fits(stage, event@),
        ensures
            (r.0, r.1@) == caption_step(self@, stage, event@),
    {
        match (stage, event) {
            (CaptionStage::LoadingModel, CaptionEvent::LoadFailed(e)) => {
                if self.allow_model_fallback && self.model.is_some() {
                    (CaptionStage::LoadingDefault, CaptionAction::Load(None))
                } else {
                    (CaptionStage::Over, CaptionAction::Finish(Err(e)))
                }
            },
            (CaptionStage::LoadingModel, _) => (
                CaptionStage::First { default_model: false },
                CaptionAction::Ask(self.ask_first()),
            ),
            (CaptionStage::LoadingDefault, CaptionEvent::LoadFailed(e)) => (
                CaptionStage::Over,
                CaptionAction::Finish(Err(e)),
            ),
            (CaptionStage::LoadingDefault, _) => (
                CaptionStage::First { default_model: true },
                CaptionAction::Ask(self.ask_first()),
            ),
            (CaptionStage::First { default_model }, CaptionEvent::Reply(t)) => {
                let translated = strip_llm_preamble(t.as_str());
                if live_translation_output_is_invalid(translated.as_str()) {
                    (
                        CaptionStage::Second { default_model },
                        CaptionAction::Ask(self.ask_second()),
                    )
                } else {
                    (CaptionStage::Over, CaptionAction::Finish(Ok(translated)))
                }
            },
            (CaptionStage::Second { default_model }, CaptionEvent::Reply(t)) => {
                let translated = strip_llm_preamble(t.as_str());
                if live_translation_output_is_invalid(translated.as_str()) {
                    (
                        CaptionStage::LoadingPlain { default_model },
                        CaptionAction::Load(self.model_used(default_model)),
                    )
                } else {
                    (CaptionStage::Over, CaptionAction::Finish(Ok(translated)))
                }
            },
            (CaptionStage::LoadingPlain { .. }, CaptionEvent::LoadFailed(e)) => (
                CaptionStage::Over,
                CaptionAction::Finish(Err(e)),
            ),
            (CaptionStage::LoadingPlain { default_model }, _) => {
                match plan_translate(&self.as_request(default_model), None) {
                    Ok(plan) => (CaptionStage::Plain { default_model }, CaptionAction::Ask(plan)),
                    Err(e) => (CaptionStage::Over, CaptionAction::Finish(Err(e))),
                }
            },
            (CaptionStage::Plain { .. }, CaptionEvent::Reply(t)) => {
                match finish_translate(t.as_str()) {
                    Ok(translated) => {
                        if live_translation_output_is_invalid(translated.as_str()) {
                            let nothing = String::new();
                            assert(nothing@ =~= Seq::empty());
                            (CaptionStage::Over, CaptionAction::Finish(Ok(nothing)))
                        } else {
                            (CaptionStage::Over, CaptionAction::Finish(Ok(translated)))
                        }
                    },
                    Err(e) => (CaptionStage::Over, CaptionAction::Finish(Err(e))),
                }
            },
            (_, CaptionEvent::ReplyFailed(message)) => (
                CaptionStage::Over,
                CaptionAction::Finish(Err(AppError::internal(message.as_str()))),
            ),
            (_, CaptionEvent::LoadFailed(e)) => (
                CaptionStage::Over,
                CaptionAction::Finish(Err(e)),
            ),
            (_, _) => (CaptionStage::Over, CaptionAction::Finish(Err(AppError::internal("")))),
        }
    }
}

/// Whatever the models answer, a caption's translation is empty or one that does not repeat the
/// orders.
pub proof fn law_caption_never_leaks_orders(
    job: CaptionView,
    stage: CaptionStage,
    event: EventView,
)
    requires
        fits(stage, event),
    ensures
        caption_step(job, stage, event).1 matches ActionView::Finish(Ok(t)) ==> t.len() == 0
            || !crate::reply::bad_translation(t),
{
}

/// How many stages may still come.
pub open spec fn stages_left(stage: CaptionStage) -> nat {
    match stage {
        CaptionStage::LoadingModel => 6,
        CaptionStage::LoadingDefault => 5,
        CaptionStage::First { .. } => 4,
        CaptionStage::Second { .. } => 3,
        CaptionStage::LoadingPlain { .. } => 2,
        CaptionStage::Plain { .. } => 1,
        CaptionStage::Over => 0,
    }
}

/// Every event brings a translation nearer to its end, and it ends exactly when it says so.
pub proof fn law_caption_ends(job: CaptionView, stage: CaptionStage, event: EventView)
    requires
        fits(stage, event),
    ensures
        stages_left(caption_step(job, stage, event).0) < stages_left(stage),
        caption_step(job, stage, event).0 == CaptionStage::Over <==> caption_step(
            job,
            stage,
            event,
        ).1 is Finish,
{
}

/// The default model is only ever loaded in place of one that was asked for and failed, and only
/// where that is allowed.
pub proof fn law_model_fallback_is_allowed(job: CaptionView, stage: CaptionStage, event: EventView)
    requires
        fits(stage, event),
        caption_step(job, stage, event).0 == CaptionStage::LoadingDefault,
    ensures
        job.allow_model_fallback,
        job.model is Some,
        event is LoadFailed,
{
}

/// The caption, the language that it is in and the one that it is to be put into reach the model, each
/// for what it is; the caption comes last.
pub proof fn law_caption_question_names_the_languages(job: CaptionView)
    ensures
        ({
            let q = first_question(job).messages.last();
            let r = second_question(job).messages.last();
            let target = crate::reply::language_label(crate::text::trimmed(job.target_language));
            &&& q.role == crate::chat::Role::User
            &&& r.role == crate::chat::Role::User
            &&& crate::text::has_text(q.content, "into "@ + target + "."@)
            &&& crate::text::begins(
                q.content,
                "Translate this "@ + crate::reply::language_label(job.source_language),
            )
            &&& crate::text::ends(q.content, "Text:\n"@ + job.source_text)
            &&& crate::text::begins(r.content, target)
            &&& crate::text::ends(r.content, "only:\n"@ + job.source_text)
            &&& first_question(job).temperature_tenths == 0 && first_question(job).max_tokens == 160
            &&& second_question(job).temperature_tenths == 0 && second_question(job).max_tokens
                == 160
        }),
{
    let target = crate::reply::language_label(crate::text::trimmed(job.target_language));
    let source = crate::reply::language_label(job.source_language);
    let a = "Translate this "@;
    let b = " live caption into "@;
    let c = ".\nText:\n"@;
    let d = " translation only:\n"@;
    let text = job.source_text;
    let none = Seq::<char>::empty();
    reveal_strlit(" live caption into ");
    reveal_strlit(".\nText:\n");
    reveal_strlit(" translation only:\n");
    reveal_strlit("into ");
    reveal_strlit(".");
    reveal_strlit("Text:\n");
    reveal_strlit("only:\n");
    let whole = a + source + b + target + c + text;
    assert(b.subrange(b.len() - 5, b.len() as int) =~= "into "@);
    assert(c.subrange(0, 1) =~= "."@);
    assert(c.subrange(2, c.len() as int) =~= "Text:\n"@);
    crate::text::lemma_has_across(b, target, c, "into "@, "."@);
    crate::text::lemma_has_part(a + source, b + target + c, text, "into "@ + target + "."@);
    assert(a + source + (b + target + c) + text =~= whole);
    crate::text::lemma_ends_longer(a + source + b + target, c, "Text:\n"@);
    crate::text::lemma_ends_after(a + source + b + target + c, text, "Text:\n"@);
    assert(whole.subrange(0, (a + source).len() as int) =~= a + source);
    let second = target + d + text;
    assert(second.subrange(0, target.len() as int) =~= target);
    assert(d.subrange(d.len() - 6, d.len() as int) =~= "only:\n"@);
    crate::text::lemma_ends_longer(target, d, "only:\n"@);
    crate::text::lemma_ends_after(target + d, text, "only:\n"@);
}

/// A caption is translated as it is asked for: trimmed, from the language that is given, or the one of
/// the text where none is, and with the model that is given.
pub proof fn law_caption_job_is_as_asked_for(
    source_text: Seq<char>,
    source_language: Option<Seq<char>>,
    target_language: Seq<char>,
    model: Option<Seq<char>>,
    allow: bool,
)
    ensures
        ({
            let job = job_of(source_text, source_language, target_language, model, allow);
            &&& job.source_text == crate::text::trimmed(source_text)
            &&& job.target_language == target_language
            &&& job.allow_model_fallback == allow
            &&& (source_language matches Some(l) && !crate::text::blank(l)) ==> job.source_language
                == crate::text::trimmed(source_language->0)
            &&& !(source_language matches Some(l) && !crate::text::blank(l)) ==> job.source_language
                == "auto"@
            &&& (model matches Some(m) && !crate::text::blank(m)) ==> job.model == Some(
                crate::text::trimmed(model->0),
            )
            &&& !(model matches Some(m) && !crate::text::blank(m)) ==> job.model is None
        }),
{
}

/// A reply that can be a translation ends the job with it. One that cannot is followed by a second
/// question, and then by a plain request for a translation of the same caption between the same
/// languages; where that fails too, nothing is shown.
pub proof fn law_translation_is_shown(job: CaptionView, reply: Seq<char>, default_model: bool)
    ensures
        ({
            let t = crate::reply::plain_answer(reply);
            let first = caption_step(
                job,
                CaptionStage::First { default_model },
                EventView::Reply(reply),
            );
            let second = caption_step(
                job,
                CaptionStage::Second { default_model },
                EventView::Reply(reply),
            );
            let third = caption_step(
                job,
                CaptionStage::Plain { default_model },
                EventView::Reply(reply),
            );
            &&& !crate::reply::bad_translation(t) ==> first.1 == ActionView::Finish(
                Ok::<Seq<char>, crate::chat::ErrorView>(t),
            ) && second.1 == first.1
            &&& crate::reply::bad_translation(t) ==> first.1 == ActionView::Ask(
                second_question(job),
            ) && second.1 == ActionView::Load(
                if default_model {
                    None
                } else {
                    job.model
                },
            )
            &&& crate::text::blank(reply) ==> (third.1 matches ActionView::Finish(r) && r is Err)
            &&& !crate::text::blank(reply) ==> ({
                let u = crate::reply::plain_answer(crate::text::trimmed(reply));
                third.1 matches ActionView::Finish(r) && r is Ok && (if crate::reply::bad_translation(u) {
                    r->Ok_0.len() == 0
                } else {
                    r->Ok_0 == u
                })
            })
        }),
{
}

/// The plain request for a translation is for the same caption and the same languages.
pub proof fn law_plain_request_is_for_the_caption(job: CaptionView, default_model: bool)
    ensures
        ({
            let q = plain_request(job, default_model);
            &&& q.text == job.source_text
            &&& q.source_language == Some(job.source_language)
            &&& q.target_language == Some(job.target_language)
            &&& !crate::text::blank(job.source_text) ==> caption_step(
                job,
                CaptionStage::LoadingPlain { default_model },
                EventView::Loaded,
            ).1 == ActionView::Ask(crate::process::translate_question(q, None)->Ok_0)
        }),
{
}

/// A model that has been loaded is asked first; one that cannot be loaded gives way to the default
/// model only where that is allowed, and else ends the job with the error.
pub proof fn law_loaded_model_is_asked(job: CaptionView, e: crate::chat::ErrorView)
    ensures
        caption_step(job, CaptionStage::LoadingModel, EventView::Loaded).1 == ActionView::Ask(
            first_question(job),
        ),
        caption_step(job, CaptionStage::LoadingDefault, EventView::Loaded).1 == ActionView::Ask(
            first_question(job),
        ),
        job.allow_model_fallback && job.model is Some ==> caption_step(
            job,
            CaptionStage::LoadingModel,
            EventView::LoadFailed(e),
        ).1 == ActionView::Load(None),
        !job.allow_model_fallback || job.model is None ==> caption_step(
            job,
            CaptionStage::LoadingModel,
            EventView::LoadFailed(e),
        ).1 == ActionView::Finish(Err::<Seq<char>, crate::chat::ErrorView>(e)),
        caption_step(job, CaptionStage::LoadingDefault, EventView::LoadFailed(e)).1
            == ActionView::Finish(Err::<Seq<char>, crate::chat::ErrorView>(e)),
{
}

/// The model is told first that it translates captions, and is asked for short and plain answers.
pub proof fn law_interpreter_is_told_the_task(job: CaptionView, default_model: bool)
    ensures
        ({
            let plan = first_question(job);
            &&& plan.messages.len() == 2
            &&& plan.messages[0].role is System && plan.messages[1].role is User
            &&& plan.messages[0].content == "You translate live captions. Answer with the translation only."@
            &&& plan.temperature_tenths == 0 && plan.max_tokens == 160
        }),
        ({
            let plan = second_question(job);
            &&& plan.messages.len() == 2
            &&& plan.messages[0].role is System && plan.messages[1].role is User
            &&& plan.messages[0].content == "Translator. No notes."@
            &&& plan.temperature_tenths == 0 && plan.max_tokens == 160
        }),
        plain_request(job, default_model).custom_instruction == Some("Live caption translation. Output only the translated text."@),
{
}

/// A caption that fails says why: the model that could not be loaded or did not answer says so
/// itself, and an answer of the last try with nothing in it is told of.
pub proof fn law_failed_captions_say_why(
    job: CaptionView,
    stage: CaptionStage,
    e: crate::chat::ErrorView,
    message: Seq<char>,
    reply: Seq<char>,
)
    ensures
        (stage is LoadingDefault || stage is LoadingPlain) ==> caption_step(
            job,
            stage,
            EventView::LoadFailed(e),
        ).1 == ActionView::Finish(Err(e)),
        stage is LoadingModel && !(job.allow_model_fallback && job.model is Some) ==> caption_step(
            job,
            stage,
            EventView::LoadFailed(e),
        ).1 == ActionView::Finish(Err(e)),
        stage is LoadingModel && job.allow_model_fallback && job.model is Some ==> caption_step(
            job,
            stage,
            EventView::LoadFailed(e),
        ).1 == ActionView::Load(None),
        (stage is First || stage is Second || stage is Plain) ==> caption_step(
            job,
            stage,
            EventView::ReplyFailed(message),
        ).1 == ActionView::Finish(Err(crate::chat::broken(message))),
        stage is Plain && crate::text::blank(reply) ==> caption_step(
            job,
            stage,
            EventView::Reply(reply),
        ).1 == ActionView::Finish(Err(crate::chat::broken("翻訳結果が空でした"@))),
{
}

} // verus!
