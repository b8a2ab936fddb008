//! How a model is made ready: found in the catalog, downloaded where it is not here yet, and loaded.
//!
//! The runtime does the work. What is to be done next follows from what it reported last.

use crate::chat::AppError;
use crate::models::{
    normalize_chat_model_alias, normalize_speech_model_alias, select_best_variant, ModelVariant,
};
use crate::registry::ModelRegistry;
use vstd::prelude::*;

verus! {

/// What a model is wanted for: to hear, to write, or only to be here.
#[derive(Clone, Copy, Debug, PartialEq, Eq, Structural)]
pub enum Purpose {
    Speech,
    Chat,
    Fetch,
}

/// How far a model has come.
#[derive(Clone, Copy, Debug, PartialEq, Eq, Structural)]
pub enum LoadStage {
    OpeningRuntime,
    RegisteringProviders,
    FindingModel,
    ListingVariants,
    AskingCached,
    Downloading,
    AskingLoaded,
    Loading,
    Over,
}

/// What the runtime reports.
pub enum LoadEvent {
    /// What was to be done is done.
    Done,
    /// The answer to a question.
    Answer(bool),
    /// The variants of the model, and the execution providers that are registered.
    Variants { variants: Vec<ModelVariant>, registered: Vec<String> },
    /// What was to be done failed.
    Failed(String),
}

/// The model of a [`LoadEvent`].
pub enum LoadEventView {
    Done,
    Answer(bool),
    Variants(Seq<crate::models::VariantView>, Seq<Seq<char>>),
    Failed(Seq<char>),
}

impl View for LoadEvent {
    type V = LoadEventView;

    open spec fn view(&self) -> LoadEventView {
        match self {
            LoadEvent::Done => LoadEventView::Done,
            LoadEvent::Answer(b) => LoadEventView::Answer(*b),
            LoadEvent::Variants { variants, registered } => LoadEventView::Variants(
                crate::records::views(variants@),
                crate::text::texts(registered@),
            ),
            LoadEvent::Failed(m) => LoadEventView::Failed(m@),
        }
    }
}

/// What is to be done next.
pub enum LoadAction {
    OpenRuntime,
    RegisterProviders,
    FindModel,
    ListVariants,
    /// Select the variant with this index, where there is one, and ask whether the model is here.
    AskCached(Option<usize>),
    Download,
    AskLoaded,
    Load,
    Finish(Result<(), AppError>),
}

/// The model of a [`LoadAction`].
pub enum LoadActionView {
    OpenRuntime,
    RegisterProviders,
    FindModel,
    ListVariants,
    AskCached(Option<int>),
    Download,
    AskLoaded,
    Load,
    Finish(Result<(), crate::chat::ErrorView>),
}

impl View for LoadAction {
    type V = LoadActionView;

    open spec fn view(&self) -> LoadActionView {
        match self {
            LoadAction::OpenRuntime => LoadActionView::OpenRuntime,
            LoadAction::RegisterProviders => LoadActionView::RegisterProviders,
            LoadAction::FindModel => LoadActionView::FindModel,
            LoadAction::ListVariants => LoadActionView::ListVariants,
            LoadAction::AskCached(k) => LoadActionView::AskCached(
                match k {
                    Some(i) => Some(*i as int),
                    None => None,
                },
            ),
            LoadAction::Download => LoadActionView::Download,
            LoadAction::AskLoaded => LoadActionView::AskLoaded,
            LoadAction::Load => LoadActionView::Load,
            LoadAction::Finish(r) => LoadActionView::Finish(
                match r {
                    Ok(_) => Ok(()),
                    Err(e) => Err(e@),
                },
            ),
        }
    }
}

/// What the user is told of a download.
pub enum DownloadEvent {
    Started { alias: String },
    Completed { alias: String },
    Failed { alias: String, message: String },
    Idle,
}

/// The model of a [`DownloadEvent`].
pub enum DownloadView {
    Started(Seq<char>),
    Completed(Seq<char>),
    Failed(Seq<char>, Seq<char>),
    Idle,
}

impl View for DownloadEvent {
    type V = DownloadView;

    open spec fn view(&self) -> DownloadView {
        match self {
            DownloadEvent::Started { alias } => DownloadView::Started(alias@),
            DownloadEvent::Completed { alias } => DownloadView::Completed(alias@),
            DownloadEvent::Failed { alias, message } => DownloadView::Failed(alias@, message@),
            DownloadEvent::Idle => DownloadView::Idle,
        }
    }
}

/// A model on its way. `providers_ready` says that the execution providers have been registered.
pub struct ModelLoad {
    pub purpose: Purpose,
    pub alias: String,
    pub providers_ready: bool,
    pub stage: LoadStage,
}

/// The model of a [`ModelLoad`].
#[verifier::ext_equal]
pub struct LoadView {
    pub purpose: Purpose,
    pub alias: Seq<char>,
    pub providers_ready: bool,
    pub stage: LoadStage,
}

impl View for ModelLoad {
    type V = LoadView;

    open spec fn view(&self) -> LoadView {
        LoadView {
            purpose: self.purpose,
            alias: self.alias@,
            providers_ready: self.providers_ready,
            stage: self.stage,
        }
    }
}

/// Whether the runtime can report an event at a stage.
pub open spec fn can_follow(stage: LoadStage, event: LoadEventView) -> bool {
    match stage {
        LoadStage::Over => false,
        LoadStage::AskingCached | LoadStage::AskingLoaded => event is Answer || event is Failed,
        LoadStage::ListingVariants => event is Variants || event is Failed,
        _ => event is Done || event is Failed,
    }
}

/// A load at a later stage.
pub open spec fn at_stage(l: LoadView, stage: LoadStage) -> LoadView {
    LoadView { stage, ..l }
}

/// A step of a load: how far it has come, what the user is told, and what is to be done.
pub type LoadStep = (LoadView, Seq<DownloadView>, LoadActionView);

/// A step of which the user is told nothing.
pub open spec fn quietly(l: LoadView, stage: LoadStage, action: LoadActionView) -> LoadStep {
    (at_stage(l, stage), Seq::empty(), action)
}

/// What the user is told where a load fails: nothing, but that a download failed. A model that was
/// only to be fetched is always reported.
pub open spec fn told_of_failure(l: LoadView, message: Seq<char>) -> Seq<DownloadView> {
    let failed = DownloadView::Failed(l.alias, message);
    (if l.stage is Downloading {
        seq![failed]
    } else {
        Seq::empty()
    }) + (if l.purpose is Fetch {
        seq![failed]
    } else {
        Seq::empty()
    })
}

/// What follows once the model is here.
pub open spec fn once_here(l: LoadView) -> (LoadStage, LoadActionView) {
    if l.purpose is Fetch {
        (LoadStage::Over, LoadActionView::Finish(Ok(())))
    } else {
        (LoadStage::AskingLoaded, LoadActionView::AskLoaded)
    }
}

/// The step that follows an event.
pub open spec fn load_step(l: LoadView, event: LoadEventView) -> LoadStep {
    match (l.stage, event) {
        (_, LoadEventView::Failed(message)) => (
            at_stage(l, LoadStage::Over),
            told_of_failure(l, message),
            LoadActionView::Finish(Err(crate::chat::broken(message))),
        ),
        (LoadStage::OpeningRuntime, _) => if l.providers_ready || l.purpose is Fetch {
            quietly(l, LoadStage::FindingModel, LoadActionView::FindModel)
        } else {
            quietly(l, LoadStage::RegisteringProviders, LoadActionView::RegisterProviders)
        },
        (LoadStage::RegisteringProviders, _) => quietly(
            LoadView { providers_ready: true, ..l },
            LoadStage::FindingModel,
            LoadActionView::FindModel,
        ),
        (LoadStage::FindingModel, _) => quietly(
            l,
            LoadStage::ListingVariants,
            LoadActionView::ListVariants,
        ),
        (LoadStage::ListingVariants, LoadEventView::Variants(variants, registered)) => quietly(
            l,
            LoadStage::AskingCached,
            LoadActionView::AskCached(crate::models::best_variant(variants, registered)),
        ),
        (LoadStage::AskingCached, LoadEventView::Answer(true)) => quietly(
            l,
            once_here(l).0,
            once_here(l).1,
        ),
        (LoadStage::AskingCached, _) => (
            at_stage(l, LoadStage::Downloading),
            seq![DownloadView::Started(l.alias)],
            LoadActionView::Download,
        ),
        (LoadStage::Downloading, _) => (
            at_stage(l, once_here(l).0),
            seq![DownloadView::Completed(l.alias)],
            once_here(l).1,
        ),
        (LoadStage::AskingLoaded, LoadEventView::Answer(false)) => quietly(
            l,
            LoadStage::Loading,
            LoadActionView::Load,
        ),
        (_, _) => quietly(l, LoadStage::Over, LoadActionView::Finish(Ok(()))),
    }
}

fn once_here_do(purpose: Purpose) -> (r: (LoadStage, LoadAction))
    ensures
        forall|l: LoadView|
            l.purpose == purpose ==> (r.0, r.1@) == #[trigger] once_here(l),
{
    if purpose == Purpose::Fetch {
        (LoadStage::Over, LoadAction::Finish(Ok(())))
    } else {
        (LoadStage::AskingLoaded, LoadAction::AskLoaded)
    }
}

impl ModelLoad {
    /// A model on its way. The first thing to be done is to open the runtime.
    pub fn new(purpose: Purpose, alias: &str, providers_ready: bool) -> (r: ModelLoad)
        ensures
            r@ == (LoadView {
                purpose,
                alias: alias@,
                providers_ready,
                stage: LoadStage::OpeningRuntime,
            }),
    {
        ModelLoad {
            purpose,
            alias: alias.to_owned(),
            providers_ready,
            stage: LoadStage::OpeningRuntime,
        }
    }

    /// Takes what the runtime reports, and gives what the user is told and what is to be done next.
    pub fn step(&mut self, event: LoadEvent) -> (r: (Vec<DownloadEvent>, LoadAction))
        requires
            can_follow(old(self)@.stage, event@),
        ensures
            (final(self)@, crate::records::views(r.0@), r.1@) == load_step(old(self)@, event@),
    {
        let ghost l = self@;
        let ghost e = event@;
        let mut told: Vec<DownloadEvent> = Vec::new();
        match event {
            LoadEvent::Failed(message) => {
                if self.stage == LoadStage::Downloading {
                    told.push(
                        DownloadEvent::Failed {
                            alias: self.alias.clone(),
                            message: message.clone(),
                        },
                    );
                }
                if self.purpose == Purpose::Fetch {
                    told.push(
                        DownloadEvent::Failed {
                            alias: self.alias.clone(),
                            message: message.clone(),
                        },
                    );
                }
                self.stage = LoadStage::Over;
                assert(crate::records::views(told@) =~= told_of_failure(l, message@));
                (told, LoadAction::Finish(Err(AppError::internal(message.as_str()))))
            },
            LoadEvent::Variants { variants, registered } => {
                let best = select_best_variant(&variants, &registered);
                self.stage = LoadStage::AskingCached;
                assert(crate::records::views(told@) =~= Seq::empty());
                (told, LoadAction::AskCached(best))
            },
            LoadEvent::Answer(yes) => {
                if self.stage == LoadStage::AskingCached {
                    if yes {
                        let (stage, action) = once_here_do(self.purpose);
                        assert((stage, action@) == once_here(l));
                        self.stage = stage;
                        assert(crate::records::views(told@) =~= Seq::empty());
                        (told, action)
                    } else {
                        self.stage = LoadStage::Downloading;
                        told.push(DownloadEvent::Started { alias: self.alias.clone() });
                        assert(crate::records::views(told@) =~= seq![
                            DownloadView::Started(l.alias),
                        ]);
                        (told, LoadAction::Download)
                    }
                } else if yes {
                    self.stage = LoadStage::Over;
                    assert(crate::records::views(told@) =~= Seq::empty());
                    (told, LoadAction::Finish(Ok(())))
                } else {
                    self.stage = LoadStage::Loading;
                    assert(crate::records::views(told@) =~= Seq::empty());
                    (told, LoadAction::Load)
                }
            },
            LoadEvent::Done => {
                assert(crate::records::views(told@) =~= Seq::empty());
                match self.stage {
                    LoadStage::OpeningRuntime => {
                        if self.providers_ready || self.purpose == Purpose::Fetch {
                            self.stage = LoadStage::FindingModel;
                            (told, LoadAction::FindModel)
                        } else {
                            self.stage = LoadStage::RegisteringProviders;
                            (told, LoadAction::RegisterProviders)
                        }
                    },
                    LoadStage::RegisteringProviders => {
                        self.providers_ready = true;
                        self.stage = LoadStage::FindingModel;
                        (told, LoadAction::FindModel)
                    },
                    LoadStage::FindingModel => {
                        self.stage = LoadStage::ListingVariants;
                        (told, LoadAction::ListVariants)
                    },
                    LoadStage::Downloading => {
                        let (stage, action) = once_here_do(self.purpose);
                        assert((stage, action@) == once_here(l));
                        self.stage = stage;
                        told.push(DownloadEvent::Completed { alias: self.alias.clone() });
                        assert(crate::records::views(told@) =~= seq![
                            DownloadView::Completed(l.alias),
                        ]);
                        (told, action)
                    },
                    _ => {
                        self.stage = LoadStage::Over;
                        (told, LoadAction::Finish(Ok(())))
                    },
                }
            },
        }
    }

    /// Takes note that the model is ready for what it was wanted for.
    pub fn finish(&self, registry: &mut ModelRegistry)
        ensures
            final(registry)@ == match self@.purpose {
                Purpose::Speech => crate::registry::with_speech(old(registry)@, self@.alias),
                Purpose::Chat => crate::registry::with_chat(old(registry)@, self@.alias),
                Purpose::Fetch => old(registry)@,
            },
    {
        match self.purpose {
            Purpose::Speech => registry.speech_ready(self.alias.as_str()),
            Purpose::Chat => registry.chat_ready(self.alias.as_str()),
            Purpose::Fetch => {},
        }
    }
}

/// A load on its way to a model for speech or chat.
pub open spec fn fresh_load(purpose: Purpose, alias: Seq<char>, providers_ready: bool) -> LoadView {
    LoadView { purpose, alias, providers_ready, stage: LoadStage::OpeningRuntime }
}

/// The chat model that a request asks for, and how to get it where it is not loaded yet.
pub fn ensure_chat_model_by_alias(
    registry: &ModelRegistry,
    alias: Option<&str>,
    providers_ready: bool,
) -> (r: (String, Option<ModelLoad>))
    ensures
        r.0@ == crate::process::given_or(
            crate::text::opt_str_view(alias),
            crate::models::CHAT_MODEL_ALIAS@,
        ),
        match r.1 {
            Some(l) => !registry@.chat_loaded.contains(r.0@) && l@ == fresh_load(
                Purpose::Chat,
                r.0@,
                providers_ready,
            ),
            None => registry@.chat_loaded.contains(r.0@),
        },
{
    let wanted = normalize_chat_model_alias(alias);
    if registry.has_chat(wanted.as_str()) {
        (wanted, None)
    } else {
        let load = ModelLoad::new(Purpose::Chat, wanted.as_str(), providers_ready);
        (wanted, Some(load))
    }
}

/// The speech model that a request asks for, and how to get it where it is not loaded yet. One that
/// is loaded already is the one in use from now on.
pub fn ensure_speech_model(
    registry: &mut ModelRegistry,
    alias: Option<String>,
    providers_ready: bool,
) -> (r: (String, Option<ModelLoad>))
    ensures
        r.0@ == crate::process::given_or(
            crate::text::opt_view(alias),
            crate::models::DEFAULT_SPEECH_MODEL_ALIAS@,
        ),
        match r.1 {
            Some(l) => !old(registry)@.speech_loaded.contains(r.0@) && l@ == fresh_load(
                Purpose::Speech,
                r.0@,
                providers_ready,
            ) && final(registry)@ == old(registry)@,
            None => old(registry)@.speech_loaded.contains(r.0@) && final(registry)@
                == crate::registry::with_speech(old(registry)@, r.0@),
        },
{
    let wanted = normalize_speech_model_alias(alias);
    if registry.has_speech(wanted.as_str()) {
        registry.speech_ready(wanted.as_str());
        (wanted, None)
    } else {
        let load = ModelLoad::new(Purpose::Speech, wanted.as_str(), providers_ready);
        (wanted, Some(load))
    }
}

/// How many steps a load can still take.
pub open spec fn steps_left(stage: LoadStage) -> nat {
    match stage {
        LoadStage::OpeningRuntime => 8,
        LoadStage::RegisteringProviders => 7,
        LoadStage::FindingModel => 6,
        LoadStage::ListingVariants => 5,
        LoadStage::AskingCached => 4,
        LoadStage::Downloading => 3,
        LoadStage::AskingLoaded => 2,
        LoadStage::Loading => 1,
        LoadStage::Over => 0,
    }
}

/// Every load ends: each step brings it nearer to its end, and it is over exactly where its outcome
/// is told.
pub proof fn law_loading_ends(l: LoadView, event: LoadEventView)
    requires
        can_follow(l.stage, event),
    ensures
        steps_left(load_step(l, event).0.stage) < steps_left(l.stage),
        load_step(l, event).0.stage is Over <==> load_step(l, event).2 is Finish,
{
}

/// A download is announced where it begins and where it ends, and nothing else is announced of a
/// model that is to be loaded.
pub proof fn law_downloads_are_announced(l: LoadView, event: LoadEventView)
    requires
        can_follow(l.stage, event),
        !(l.purpose is Fetch),
    ensures
        load_step(l, event).2 is Download <==> load_step(l, event).1 == seq![
            DownloadView::Started(l.alias),
        ],
        l.stage is Downloading ==> load_step(l, event).1 == match event {
            LoadEventView::Failed(message) => seq![DownloadView::Failed(l.alias, message)],
            _ => seq![DownloadView::Completed(l.alias)],
        },
        !(l.stage is Downloading) && !(load_step(l, event).2 is Download) ==> load_step(
            l,
            event,
        ).1 == Seq::<DownloadView>::empty(),
{
    let told = load_step(l, event).1;
    if let LoadEventView::Failed(message) = event {
        let failed = DownloadView::Failed(l.alias, message);
        assert(seq![failed] + Seq::<DownloadView>::empty() =~= seq![failed]);
        assert(seq![failed][0] == failed);
        assert(seq![DownloadView::Started(l.alias)][0] == DownloadView::Started(l.alias));
        assert(Seq::<DownloadView>::empty() + Seq::<DownloadView>::empty() =~= Seq::<
            DownloadView,
        >::empty());
    } else {
        assert(seq![DownloadView::Completed(l.alias)][0] == DownloadView::Completed(l.alias));
        assert(seq![DownloadView::Started(l.alias)][0] == DownloadView::Started(l.alias));
    }
    assert(seq![DownloadView::Started(l.alias)].len() == 1);
}

/// A model that is to be loaded is only ready once the runtime has said that it is loaded, and one
/// that is here already is never downloaded.
pub proof fn law_ready_models_are_loaded(l: LoadView, event: LoadEventView)
    requires
        can_follow(l.stage, event),
        !(l.purpose is Fetch),
    ensures
        load_step(l, event).2 == LoadActionView::Finish(Ok(())) ==> (l.stage is AskingLoaded
            && event == LoadEventView::Answer(true)) || (l.stage is Loading && event is Done),
        load_step(l, event).2 is Download ==> l.stage is AskingCached && event
            == LoadEventView::Answer(false),
{
}

/// The way to a model goes over the runtime, the providers where they are not ready and the model is
/// to be loaded, the model, its variants, and whether it is here. One that is not here is
/// downloaded, one that is only to be fetched is then done, and any other is loaded unless it is.
pub proof fn law_load_goes_its_way(l: LoadView, answer: bool)
    ensures
        ({
            let next = |stage: LoadStage, event: LoadEventView|
                load_step(LoadView { stage, ..l }, event).2;
            let fetched = l.purpose is Fetch;
            &&& next(LoadStage::OpeningRuntime, LoadEventView::Done) == if fetched
                || l.providers_ready {
                LoadActionView::FindModel
            } else {
                LoadActionView::RegisterProviders
            }
            &&& next(LoadStage::RegisteringProviders, LoadEventView::Done)
                == LoadActionView::FindModel
            &&& next(LoadStage::FindingModel, LoadEventView::Done) == LoadActionView::ListVariants
            &&& next(LoadStage::AskingCached, LoadEventView::Answer(false))
                == LoadActionView::Download
            &&& next(LoadStage::AskingCached, LoadEventView::Answer(true)) == if fetched {
                LoadActionView::Finish(Ok(()))
            } else {
                LoadActionView::AskLoaded
            }
            &&& next(LoadStage::Downloading, LoadEventView::Done) == if fetched {
                LoadActionView::Finish(Ok(()))
            } else {
                LoadActionView::AskLoaded
            }
            &&& next(LoadStage::AskingLoaded, LoadEventView::Answer(false)) == LoadActionView::Load
            &&& next(LoadStage::AskingLoaded, LoadEventView::Answer(true))
                == LoadActionView::Finish(Ok(()))
            &&& next(LoadStage::Loading, LoadEventView::Done) == LoadActionView::Finish(Ok(()))
        }),
{
}

/// A load waits for what it asked for: the stage that it is left in is that of its action.
pub proof fn law_load_waits_for_its_action(l: LoadView, event: LoadEventView)
    requires
        can_follow(l.stage, event),
    ensures
        load_step(l, event).0.stage == match load_step(l, event).2 {
            LoadActionView::OpenRuntime => LoadStage::OpeningRuntime,
            LoadActionView::RegisterProviders => LoadStage::RegisteringProviders,
            LoadActionView::FindModel => LoadStage::FindingModel,
            LoadActionView::ListVariants => LoadStage::ListingVariants,
            LoadActionView::AskCached(_) => LoadStage::AskingCached,
            LoadActionView::Download => LoadStage::Downloading,
            LoadActionView::AskLoaded => LoadStage::AskingLoaded,
            LoadActionView::Load => LoadStage::Loading,
            LoadActionView::Finish(_) => LoadStage::Over,
        },
        load_step(l, event).0.alias == l.alias,
        load_step(l, event).0.purpose == l.purpose,
        l.providers_ready ==> load_step(l, event).0.providers_ready,
        l.stage is RegisteringProviders && event is Done ==> load_step(l, event).0.providers_ready,
{
}

/// A step that fails ends the load with what went wrong, whatever it was, and a failed download is
/// told of under the model's name.
pub proof fn law_failed_step_ends_the_load(l: LoadView, message: Seq<char>)
    ensures
        load_step(l, LoadEventView::Failed(message)).2 matches LoadActionView::Finish(Err(e))
            && e.status == 500 && e.message == message,
        load_step(l, LoadEventView::Failed(message)).0.stage is Over,
        forall|i: int|
            0 <= i < load_step(l, LoadEventView::Failed(message)).1.len() ==> (#[trigger] load_step(
                l,
                LoadEventView::Failed(message),
            ).1[i]) == DownloadView::Failed(l.alias, message),
        l.stage is Downloading || l.purpose is Fetch ==> load_step(
            l,
            LoadEventView::Failed(message),
        ).1.len() > 0,
{
}

/// The variant that is asked for is one that can run here, where there is one.
pub proof fn law_asked_for_variant_runs(
    l: LoadView,
    variants: Seq<crate::models::VariantView>,
    registered: Seq<Seq<char>>,
)
    requires
        l.stage is ListingVariants,
    ensures
        load_step(l, LoadEventView::Variants(variants, registered)).2 matches
            LoadActionView::AskCached(k) && match k {
            Some(i) => 0 <= i < variants.len() && crate::models::runs_here(variants[i], registered),
            None => !crate::models::any_runs(variants, registered),
        },
{
    crate::models::law_chosen_variant_runs(variants, registered);
}

} // verus!
