//! What the application needs of the machine it runs on, and whether it has it.

use crate::models::{
    contains_text, CHAT_MODEL_ALIAS, DEFAULT_SPEECH_MODEL_ALIAS, FOUNDRY_LOCAL_INSTALL_COMMAND,
};
use crate::registry::{is_the, ModelRegistry, RegistryView};
use crate::text::first_non_empty_line;
use vstd::prelude::*;

verus! {

/// A part of the runtime, and whether it is there.
pub struct RuntimeRequirementInfo {
    pub name: String,
    pub ok: bool,
    pub detail: String,
    pub version: Option<String>,
    pub install_command: Option<String>,
}

/// The model of a [`RuntimeRequirementInfo`].
#[verifier::ext_equal]
pub struct RuntimeView {
    pub name: Seq<char>,
    pub ok: bool,
    pub detail: Seq<char>,
    pub version: Option<Seq<char>>,
    pub install_command: Option<Seq<char>>,
}

impl View for RuntimeRequirementInfo {
    type V = RuntimeView;

    open spec fn view(&self) -> RuntimeView {
        RuntimeView {
            name: self.name@,
            ok: self.ok,
            detail: self.detail@,
            version: crate::text::opt_view(self.version),
            install_command: crate::text::opt_view(self.install_command),
        }
    }
}

// ---------------------------------------------------------------------------
// The command line tool
// ---------------------------------------------------------------------------

/// The text that a program wrote, with what is no text replaced.
pub uninterp spec fn lossy_text(bytes: Seq<u8>) -> Seq<char>;

/// `String::from_utf8_lossy`: the text of the bytes. Bytes that are UTF-8 are the text that they
/// encode; how the others are replaced is not said.
#[verifier::external_body]
fn read_lossy(bytes: &[u8]) -> (r: String)
    ensures
        r@ == lossy_text(bytes@),
        vstd::utf8::valid_utf8(bytes@) ==> r@ == vstd::utf8::decode_utf8(bytes@),
{
    String::from_utf8_lossy(bytes).into_owned()
}

/// What became of asking the command line tool for its version.
pub enum CliOutcome {
    /// It ran, and ended with the status that is given in words.
    Ran { success: bool, status: String, stdout: Vec<u8>, stderr: Vec<u8> },
    /// There is no such command.
    NotFound,
    /// It could not be run.
    Failed(String),
}

/// The model of what became of asking, with the texts that were written.
pub enum CliView {
    Ran { success: bool, status: Seq<char>, stdout: Seq<char>, stderr: Seq<char> },
    NotFound,
    Failed(Seq<char>),
}

/// The model of a [`CliOutcome`].
pub open spec fn cli_view(outcome: CliOutcome) -> CliView {
    match outcome {
        CliOutcome::Ran { success, status, stdout, stderr } => CliView::Ran {
            success,
            status: status@,
            stdout: lossy_text(stdout@),
            stderr: lossy_text(stderr@),
        },
        CliOutcome::NotFound => CliView::NotFound,
        CliOutcome::Failed(e) => CliView::Failed(e@),
    }
}

/// The first text of the two that is there.
pub open spec fn either(a: Option<Seq<char>>, b: Option<Seq<char>>) -> Option<Seq<char>> {
    if a is Some {
        a
    } else {
        b
    }
}

/// The tool is not there.
pub open spec fn cli_missing(detail: Seq<char>) -> RuntimeView {
    RuntimeView {
        name: "Foundry Local CLI"@,
        ok: false,
        detail,
        version: None,
        install_command: Some(FOUNDRY_LOCAL_INSTALL_COMMAND@),
    }
}

/// What is known of the tool after asking. Its version is the first line with anything on it that
/// it wrote; where it failed, that line says why.
pub open spec fn cli_state(outcome: CliView) -> RuntimeView {
    match outcome {
        CliView::Ran { success, status, stdout, stderr } => {
            let out = crate::text::first_filled_line(stdout);
            let err = crate::text::first_filled_line(stderr);
            if success {
                RuntimeView {
                    name: "Foundry Local CLI"@,
                    ok: true,
                    detail: "foundry command is available"@,
                    version: either(out, err),
                    install_command: None,
                }
            } else {
                match either(err, out) {
                    Some(line) => cli_missing(line),
                    None => cli_missing("foundry --version exited with "@ + status),
                }
            }
        },
        CliView::NotFound => cli_missing("foundry command was not found on PATH"@),
        CliView::Failed(error) => cli_missing(error),
    }
}

fn missing_cli(detail: String) -> (r: RuntimeRequirementInfo)
    ensures
        r@ == cli_missing(detail@),
{
    RuntimeRequirementInfo {
        name: "Foundry Local CLI".to_owned(),
        ok: false,
        detail,
        version: None,
        install_command: Some(FOUNDRY_LOCAL_INSTALL_COMMAND.to_owned()),
    }
}

/// What is known of the tool, given the texts that it wrote.
pub fn judge_cli(success: bool, status: &str, stdout: &str, stderr: &str) -> (r:
    RuntimeRequirementInfo)
    ensures
        r@ == cli_state(
            CliView::Ran { success, status: status@, stdout: stdout@, stderr: stderr@ },
        ),
{
    let out = first_non_empty_line(stdout);
    let err = first_non_empty_line(stderr);
    if success {
        RuntimeRequirementInfo {
            name: "Foundry Local CLI".to_owned(),
            ok: true,
            detail: "foundry command is available".to_owned(),
            version: if out.is_some() {
                out
            } else {
                err
            },
            install_command: None,
        }
    } else {
        match err {
            Some(line) => missing_cli(line),
            None => match out {
                Some(line) => missing_cli(line),
                None => {
                    let mut detail = "foundry --version exited with ".to_owned();
                    detail.append(status);
                    missing_cli(detail)
                },
            },
        }
    }
}

/// What is known of the command line tool after asking it for its version.
pub fn probe_foundry_cli(outcome: &CliOutcome) -> (r: RuntimeRequirementInfo)
    ensures
        r@ == cli_state(cli_view(*outcome)),
{
    match outcome {
        CliOutcome::Ran { success, status, stdout, stderr } => {
            let out = read_lossy(stdout.as_slice());
            let err = read_lossy(stderr.as_slice());
            judge_cli(*success, status.as_str(), out.as_str(), err.as_str())
        },
        CliOutcome::NotFound => missing_cli("foundry command was not found on PATH".to_owned()),
        CliOutcome::Failed(error) => missing_cli(error.clone()),
    }
}

// ---------------------------------------------------------------------------
// The runtime
// ---------------------------------------------------------------------------

/// An execution provider, and whether it is registered.
pub struct ExecutionProviderInfo {
    pub name: String,
    pub registered: bool,
}

/// The model of an [`ExecutionProviderInfo`].
#[verifier::ext_equal]
pub struct ProviderView {
    pub name: Seq<char>,
    pub registered: bool,
}

impl View for ExecutionProviderInfo {
    type V = ProviderView;

    open spec fn view(&self) -> ProviderView {
        ProviderView { name: self.name@, registered: self.registered }
    }
}

/// What became of opening the runtime: the error, or what became of listing its execution
/// providers.
pub type RuntimeOutcome = Result<Result<Vec<ExecutionProviderInfo>, String>, String>;

/// What is known of the runtime: its state, its execution providers, and what is missing.
pub struct RuntimeState {
    pub info: RuntimeRequirementInfo,
    pub ready: bool,
    pub execution_providers: Vec<ExecutionProviderInfo>,
    pub missing_summary: Vec<String>,
}

/// What is known of the runtime after opening it.
pub fn sdk_runtime_ok(outcome: RuntimeOutcome) -> (r: RuntimeState)
    ensures
        r.ready == outcome is Ok,
        match outcome {
            Ok(providers) => r.info@ == (RuntimeView {
                name: "Foundry Local SDK Runtime"@,
                ok: true,
                detail: "SDK runtime initialized successfully"@,
                version: None,
                install_command: None,
            }) && match providers {
                Ok(list) => r.execution_providers == list && crate::text::texts(
                    r.missing_summary@,
                ) == Seq::<Seq<char>>::empty(),
                Err(error) => r.execution_providers@ == Seq::<ExecutionProviderInfo>::empty()
                    && crate::text::texts(r.missing_summary@) == seq![
                    "Execution provider check failed: "@ + error@,
                ],
            },
            Err(error) => r.info@ == (RuntimeView {
                name: "Foundry Local SDK Runtime"@,
                ok: false,
                detail: error@,
                version: None,
                install_command: Some(FOUNDRY_LOCAL_INSTALL_COMMAND@),
            }) && r.execution_providers@ == Seq::<ExecutionProviderInfo>::empty()
                && crate::text::texts(r.missing_summary@) == seq![
                "Foundry Local runtime: "@ + error@,
            ],
        },
{
    let mut missing_summary: Vec<String> = Vec::new();
    match outcome {
        Ok(providers) => {
            let execution_providers = match providers {
                Ok(list) => {
                    assert(crate::text::texts(missing_summary@) =~= Seq::<Seq<char>>::empty());
                    list
                },
                Err(error) => {
                    let mut line = "Execution provider check failed: ".to_owned();
                    line.append(error.as_str());
                    missing_summary.push(line);
                    assert(crate::text::texts(missing_summary@) =~= seq![
                        "Execution provider check failed: "@ + error@,
                    ]);
                    Vec::new()
                },
            };
            RuntimeState {
                info: RuntimeRequirementInfo {
                    name: "Foundry Local SDK Runtime".to_owned(),
                    ok: true,
                    detail: "SDK runtime initialized successfully".to_owned(),
                    version: None,
                    install_command: None,
                },
                ready: true,
                execution_providers,
                missing_summary,
            }
        },
        Err(error) => {
            let mut line = "Foundry Local runtime: ".to_owned();
            line.append(error.as_str());
            missing_summary.push(line);
            assert(crate::text::texts(missing_summary@) =~= seq![
                "Foundry Local runtime: "@ + error@,
            ]);
            RuntimeState {
                info: RuntimeRequirementInfo {
                    name: "Foundry Local SDK Runtime".to_owned(),
                    ok: false,
                    detail: error,
                    version: None,
                    install_command: Some(FOUNDRY_LOCAL_INSTALL_COMMAND.to_owned()),
                },
                ready: false,
                execution_providers: Vec::new(),
                missing_summary,
            }
        },
    }
}

// ---------------------------------------------------------------------------
// The models that are needed
// ---------------------------------------------------------------------------

/// A model that the application needs, and whether it is there.
pub struct RequiredModelInfo {
    pub alias: String,
    pub purpose: String,
    pub downloaded: bool,
    pub loaded: bool,
    pub active: bool,
    pub message: Option<String>,
}

/// The model of a [`RequiredModelInfo`].
#[verifier::ext_equal]
pub struct RequiredView {
    pub alias: Seq<char>,
    pub purpose: Seq<char>,
    pub downloaded: bool,
    pub loaded: bool,
    pub active: bool,
    pub message: Option<Seq<char>>,
}

impl View for RequiredModelInfo {
    type V = RequiredView;

    open spec fn view(&self) -> RequiredView {
        RequiredView {
            alias: self.alias@,
            purpose: self.purpose@,
            downloaded: self.downloaded,
            loaded: self.loaded,
            active: self.active,
            message: crate::text::opt_view(self.message),
        }
    }
}

/// What became of looking for a model: whether it has been downloaded, or the error.
pub type Probe = Result<bool, String>;

/// Whether a model has been downloaded, as far as is known.
pub open spec fn found(probe: Probe) -> bool {
    probe == Ok::<bool, String>(true)
}

/// Why it is not known whether a model has been downloaded.
pub open spec fn trouble(probe: Probe) -> Option<Seq<char>> {
    match probe {
        Ok(_) => None,
        Err(e) => Some(e@),
    }
}

/// The speech model that is needed.
pub open spec fn needed_speech(u: RegistryView, probe: Probe) -> RequiredView {
    RequiredView {
        alias: DEFAULT_SPEECH_MODEL_ALIAS@,
        purpose: "speech_to_text"@,
        downloaded: found(probe),
        loaded: u.speech_loaded.contains(DEFAULT_SPEECH_MODEL_ALIAS@),
        active: u.active_speech == Some(DEFAULT_SPEECH_MODEL_ALIAS@),
        message: trouble(probe),
    }
}

/// The chat model that is needed.
pub open spec fn needed_chat(u: RegistryView, probe: Probe) -> RequiredView {
    RequiredView {
        alias: CHAT_MODEL_ALIAS@,
        purpose: "post_processing"@,
        downloaded: found(probe),
        loaded: u.chat_loaded.contains(CHAT_MODEL_ALIAS@),
        active: u.primary_chat == Some(CHAT_MODEL_ALIAS@),
        message: trouble(probe),
    }
}

fn read_probe(probe: &Probe) -> (r: (bool, Option<String>))
    ensures
        r.0 == found(*probe),
        crate::text::opt_view(r.1) == trouble(*probe),
{
    match probe {
        Ok(b) => (*b, None),
        Err(e) => (false, Some(e.clone())),
    }
}

/// The models that the application needs, given what became of looking for each. Where the runtime
/// cannot be opened, both were looked for in vain.
pub fn required_model_requirements(u: &ModelRegistry, speech: &Probe, chat: &Probe) -> (r: Vec<
    RequiredModelInfo,
>)
    ensures
        crate::records::views(r@) == seq![needed_speech(u@, *speech), needed_chat(u@, *chat)],
{
    let mut out: Vec<RequiredModelInfo> = Vec::new();
    let (downloaded, message) = read_probe(speech);
    out.push(
        RequiredModelInfo {
            alias: DEFAULT_SPEECH_MODEL_ALIAS.to_owned(),
            purpose: "speech_to_text".to_owned(),
            downloaded,
            loaded: contains_text(&u.speech_loaded, DEFAULT_SPEECH_MODEL_ALIAS),
            active: is_the(&u.active_speech, DEFAULT_SPEECH_MODEL_ALIAS),
            message,
        },
    );
    let (downloaded, message) = read_probe(chat);
    out.push(
        RequiredModelInfo {
            alias: CHAT_MODEL_ALIAS.to_owned(),
            purpose: "post_processing".to_owned(),
            downloaded,
            loaded: contains_text(&u.chat_loaded, CHAT_MODEL_ALIAS),
            active: is_the(&u.primary_chat, CHAT_MODEL_ALIAS),
            message,
        },
    );
    assert(crate::records::views(out@) =~= seq![needed_speech(u@, *speech), needed_chat(u@, *chat)]);
    out
}

// ---------------------------------------------------------------------------
// All of it
// ---------------------------------------------------------------------------

/// What the user is told of the machine.
pub struct AppRequirementsResponse {
    pub ok: bool,
    pub runtime_ready: bool,
    pub foundry_cli: RuntimeRequirementInfo,
    pub sdk_runtime: RuntimeRequirementInfo,
    pub execution_providers: Vec<ExecutionProviderInfo>,
    pub required_models: Vec<RequiredModelInfo>,
    pub install_command: String,
    pub missing_summary: Vec<String>,
}

/// The lines for the models that are missing.
pub open spec fn missing_lines(models: Seq<RequiredView>) -> Seq<Seq<char>>
    decreases models.len(),
{
    if models.len() == 0 {
        Seq::empty()
    } else {
        let head = missing_lines(models.drop_last());
        if models.last().downloaded {
            head
        } else {
            head.push("Model "@ + models.last().alias + " is not downloaded"@)
        }
    }
}

/// Whether all models have been downloaded.
pub open spec fn all_here(models: Seq<RequiredView>) -> bool {
    forall|i: int| 0 <= i < models.len() ==> (#[trigger] models[i]).downloaded
}

/// What the user is told of the machine: it will do where the runtime is ready and all models that
/// are needed have been downloaded.
pub fn app_requirements(
    foundry_cli: RuntimeRequirementInfo,
    runtime: RuntimeState,
    required_models: Vec<RequiredModelInfo>,
) -> (r: AppRequirementsResponse)
    ensures
        r.ok == (runtime.ready && all_here(crate::records::views(required_models@))),
        r.runtime_ready == runtime.ready,
        r.foundry_cli == foundry_cli,
        r.sdk_runtime == runtime.info,
        r.execution_providers == runtime.execution_providers,
        r.required_models == required_models,
        r.install_command@ == FOUNDRY_LOCAL_INSTALL_COMMAND@,
        crate::text::texts(r.missing_summary@) == crate::text::texts(runtime.missing_summary@)
            + missing_lines(crate::records::views(required_models@)),
{
    let ghost models = crate::records::views(required_models@);
    let ghost before = crate::text::texts(runtime.missing_summary@);
    let mut summary = runtime.missing_summary;
    let mut all = true;
    let mut i: usize = 0;
    assert(models.take(0) =~= Seq::empty());
    assert(before + missing_lines(models.take(0)) =~= before);
    while i < required_models.len()
        invariant
            i <= required_models@.len(),
            models == crate::records::views(required_models@),
            crate::text::texts(summary@) == before + missing_lines(models.take(i as int)),
            all == (forall|j: int| 0 <= j < i ==> (#[trigger] models[j]).downloaded),
        decreases required_models.len() - i,
    {
        let ghost so_far = crate::text::texts(summary@);
        let ghost m = models[i as int];
        assert(m == required_models@[i as int]@);
        assert(models.take(i + 1).drop_last() =~= models.take(i as int));
        assert(models.take(i + 1).last() == m);
        if !required_models[i].downloaded {
            let mut line = "Model ".to_owned();
            line.append(required_models[i].alias.as_str());
            line.append(" is not downloaded");
            let ghost added = line@;
            summary.push(line);
            all = false;
            assert(crate::text::texts(summary@) =~= so_far.push(added));
            assert(crate::text::texts(summary@) =~= before + missing_lines(models.take(i + 1)));
        }
        i = i + 1;
    }
    assert(models.take(models.len() as int) =~= models);
    AppRequirementsResponse {
        ok: runtime.ready && all,
        runtime_ready: runtime.ready,
        foundry_cli,
        sdk_runtime: runtime.info,
        execution_providers: runtime.execution_providers,
        required_models,
        install_command: FOUNDRY_LOCAL_INSTALL_COMMAND.to_owned(),
        missing_summary: summary,
    }
}

/// Every model that is needed and missing is named, and nothing is named where nothing is missing.
pub proof fn law_missing_models_are_named(models: Seq<RequiredView>)
    ensures
        all_here(models) <==> missing_lines(models) == Seq::<Seq<char>>::empty(),
        forall|i: int|
            0 <= i < models.len() && !(#[trigger] models[i]).downloaded ==> missing_lines(
                models,
            ).contains("Model "@ + models[i].alias + " is not downloaded"@),
    decreases models.len(),
{
    if models.len() > 0 {
        let head = models.drop_last();
        law_missing_models_are_named(head);
        let lines = missing_lines(head);
        let n = models.len() - 1;
        assert forall|i: int|
            0 <= i < models.len() && !(#[trigger] models[i]).downloaded implies missing_lines(
            models,
        ).contains("Model "@ + models[i].alias + " is not downloaded"@) by {
            let line = "Model "@ + models[i].alias + " is not downloaded"@;
            if i < n {
                assert(head[i] == models[i]);
                let k = choose|k: int| 0 <= k < lines.len() && lines[k] == line;
                assert(missing_lines(models)[k] == line);
            } else {
                assert(missing_lines(models)[lines.len() as int] == line);
            }
        }
        if all_here(models) {
            assert forall|i: int| 0 <= i < head.len() implies (#[trigger] head[i]).downloaded by {
                assert(models[i] == head[i]);
            }
            assert(models[n].downloaded);
        }
        if missing_lines(models) == Seq::<Seq<char>>::empty() {
            assert forall|i: int| 0 <= i < models.len() implies (#[trigger] models[i]).downloaded by {
                if !models[i].downloaded {
                    assert(missing_lines(models).contains(
                        "Model "@ + models[i].alias + " is not downloaded"@,
                    ));
                }
            }
        }
    }
}

/// The command line tool is there exactly where it ran and succeeded. Then its version is told, from
/// its output before its errors, and else how to install it and what is known of the failure, from
/// its errors before its output.
pub proof fn law_tool_is_there_where_it_runs(
    success: bool,
    status: Seq<char>,
    stdout: Seq<char>,
    stderr: Seq<char>,
    error: Seq<char>,
)
    ensures
        ({
            let ran = cli_state(CliView::Ran { success, status, stdout, stderr });
            let out = crate::text::first_filled_line(stdout);
            let err = crate::text::first_filled_line(stderr);
            &&& ran.name == "Foundry Local CLI"@
            &&& ran.ok == success
            &&& success ==> ran.install_command is None && ran.detail
                == "foundry command is available"@
            &&& success && out is Some ==> ran.version == out
            &&& success && out is None ==> ran.version == err
            &&& !success ==> ran.version is None && ran.install_command == Some(
                "winget install Microsoft.FoundryLocal"@,
            )
            &&& !success ==> (err matches Some(line) ==> ran.detail == line)
            &&& !success && err is None ==> (out matches Some(line) ==> ran.detail == line)
            &&& !success && err is None && out is None ==> ran.detail
                == "foundry --version exited with "@ + status
        }),
        ({
            let none = cli_state(CliView::NotFound);
            &&& !none.ok && none.version is None
            &&& none.detail == "foundry command was not found on PATH"@
            &&& none.install_command == Some("winget install Microsoft.FoundryLocal"@)
        }),
        ({
            let broken = cli_state(CliView::Failed(error));
            &&& !broken.ok && broken.version is None
            &&& broken.detail == error
            &&& broken.install_command == Some("winget install Microsoft.FoundryLocal"@)
        }),
{
}

/// A needed model counts as downloaded exactly where asking for it says so, as loaded and in use
/// where the registry says so of its kind, and what went wrong in asking is told.
pub proof fn law_needed_models_are_told_as_they_are(u: RegistryView, probe: Probe)
    ensures
        ({
            let m = needed_speech(u, probe);
            &&& m.alias == "whisper-tiny"@
            &&& m.purpose == "speech_to_text"@
            &&& m.loaded <==> u.speech_loaded.contains("whisper-tiny"@)
            &&& m.active <==> u.active_speech == Some("whisper-tiny"@)
            &&& probe matches Ok(b) ==> m.downloaded == b && m.message is None
            &&& probe matches Err(e) ==> !m.downloaded && m.message == Some(e@)
        }),
        ({
            let m = needed_chat(u, probe);
            &&& m.alias == "qwen2.5-coder-0.5b"@
            &&& m.purpose == "post_processing"@
            &&& m.loaded <==> u.chat_loaded.contains("qwen2.5-coder-0.5b"@)
            &&& m.active <==> u.primary_chat == Some("qwen2.5-coder-0.5b"@)
            &&& probe matches Ok(b) ==> m.downloaded == b && m.message is None
            &&& probe matches Err(e) ==> !m.downloaded && m.message == Some(e@)
        }),
{
}

} // verus!
