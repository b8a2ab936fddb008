use seedraft::catalog::{cache_dir_of, list_all_models, list_speech_models, CatalogModel};
use seedraft::loading::{
    ensure_chat_model_by_alias, ensure_speech_model, DownloadEvent, LoadAction, LoadEvent,
    ModelLoad, Purpose,
};
use seedraft::models::{
    compute_compatibility, describe_model_purpose, is_required_model_alias,
    normalize_chat_model_alias, normalize_speech_model_alias, required_alias, select_best_variant,
    ModelVariant, VariantRuntime, CHAT_MODEL_ALIAS, DEFAULT_SPEECH_MODEL_ALIAS,
};
use seedraft::registry::ModelRegistry;
use seedraft::requirements::{
    app_requirements, judge_cli, probe_foundry_cli, required_model_requirements, sdk_runtime_ok,
    CliOutcome, ExecutionProviderInfo,
};
use seedraft::trial::{
    model_test_result, refine_trial, short_model_test_output, tested_model, translate_trial,
    untested_model,
};
use seedraft::chat::AppError;

fn variant(provider: &str, cpu: bool, cached: bool) -> ModelVariant {
    ModelVariant {
        id: provider.to_string(),
        cached,
        runtime: Some(VariantRuntime {
            cpu_device: cpu,
            execution_provider: provider.to_string(),
        }),
    }
}

fn model(alias: &str, input: Option<&str>, variants: Vec<ModelVariant>) -> CatalogModel {
    CatalogModel {
        alias: alias.to_string(),
        input_modalities: input.map(|s| s.to_string()),
        output_modalities: Some("text".to_string()),
        variants,
        downloaded: false,
        cache_dir: None,
    }
}

#[test]
fn required_models_are_known() {
    assert!(is_required_model_alias("whisper-tiny"));
    assert!(is_required_model_alias("qwen2.5-coder-0.5b"));
    assert!(!is_required_model_alias("phi-4"));
}

#[test]
fn aliases_have_defaults() {
    assert_eq!(normalize_speech_model_alias(None), DEFAULT_SPEECH_MODEL_ALIAS);
    assert_eq!(normalize_speech_model_alias(Some(" x ".to_string())), "x");
    assert_eq!(normalize_chat_model_alias(Some("  ")), CHAT_MODEL_ALIAS);
    assert_eq!(required_alias(" a ").unwrap(), "a");
    assert_eq!(required_alias(" ").unwrap_err().message, "alias is required");
}

#[test]
fn purposes_are_described() {
    assert_eq!(
        describe_model_purpose("Whisper-LARGE-v3-Turbo", "audio", "text", true),
        "models.desc.whisper.largeTurbo"
    );
    assert_eq!(
        describe_model_purpose("Phi-4", "", "", false),
        "models.desc.llm.phi"
    );
    assert_eq!(
        describe_model_purpose("other", "IMAGE", "", false),
        "models.desc.llm.image"
    );
    assert_eq!(
        describe_model_purpose("other", "", "", false),
        "models.desc.llm.generic"
    );
}

#[test]
fn best_variant_is_selected() {
    let registered = vec!["CudaExecutionProvider".to_string()];
    let all = vec![
        variant("CudaExecutionProvider", false, false),
        variant("CPUExecutionProvider", false, false),
        variant("QnnExecutionProvider", false, true),
    ];
    assert_eq!(select_best_variant(&all, &registered), Some(1));
    let cached = vec![
        variant("CPUExecutionProvider", false, false),
        variant("CudaExecutionProvider", false, true),
    ];
    assert_eq!(select_best_variant(&cached, &registered), Some(1));
    let gpu = vec![
        variant("QnnExecutionProvider", false, false),
        variant("CudaExecutionProvider", false, false),
    ];
    assert_eq!(select_best_variant(&gpu, &registered), Some(1));
    assert_eq!(
        select_best_variant(&vec![variant("QnnExecutionProvider", false, true)], &registered),
        None
    );
}

#[test]
fn incompatible_models_say_why() {
    let registered: Vec<String> = vec![];
    let (ok, reason) =
        compute_compatibility(&vec![variant("QnnExecutionProvider", false, false)], &registered);
    assert!(!ok);
    assert!(reason.unwrap().contains("QnnExecutionProvider"));
    let (ok, reason) = compute_compatibility(&vec![variant("cpu", false, false)], &registered);
    assert!(ok && reason.is_none());
}

#[test]
fn catalog_is_listed() {
    let mut registry = ModelRegistry::new();
    registry.speech_ready("whisper-base");
    registry.chat_ready("phi-4");
    let list = vec![
        model("gpu-only", None, vec![variant("QnnExecutionProvider", false, false)]),
        model("phi-4", None, vec![variant("", true, false)]),
        model("whisper-base", Some("audio"), vec![variant("", true, false)]),
        model("phi-4", None, vec![]),
        model("Whisper-Tiny", None, vec![variant("", true, false)]),
    ];
    let shown = list_all_models(&list, &registry, &vec![]);
    let aliases: Vec<&str> = shown.iter().map(|m| m.alias.as_str()).collect();
    assert_eq!(aliases, vec!["phi-4", "Whisper-Tiny", "whisper-base", "gpu-only"]);
    assert_eq!(shown[0].category, "chat");
    assert!(shown[0].active && shown[0].compatible);
    assert_eq!(shown[2].category, "speech");
    assert!(shown[2].loaded && shown[2].active);
    assert!(!shown[3].compatible);
    let speech = list_speech_models(&list, &registry);
    let aliases: Vec<&str> = speech.iter().map(|m| m.alias.as_str()).collect();
    assert_eq!(aliases, vec!["Whisper-Tiny", "whisper-base"]);
    assert!(speech[1].active && !speech[0].active);
}

#[test]
fn cache_dir_is_the_first_known() {
    let mut a = model("a", None, vec![]);
    let mut b = model("b", None, vec![]);
    assert_eq!(cache_dir_of(&vec![]), None);
    a.cache_dir = None;
    b.cache_dir = Some("/cache".to_string());
    assert_eq!(cache_dir_of(&vec![a, b]), Some("/cache".to_string()));
}

#[test]
fn needed_models_are_not_deleted() {
    let mut registry = ModelRegistry::new();
    registry.speech_ready("whisper-base");
    let e = registry.delete_model_by_alias("whisper-tiny").unwrap_err();
    assert_eq!((e.status, e.message.as_str()), (400, "必須モデルは削除できません"));
    let e = registry.delete_speech_model("whisper-base").unwrap_err();
    assert_eq!(
        e.message,
        "使用中のモデルは削除できません。別のモデルを選択してから削除してください"
    );
    registry.speech_ready("whisper-small");
    assert!(registry.delete_speech_model("whisper-base").is_ok());
    assert!(!registry.has_speech("whisper-base"));
    assert!(registry.has_speech("whisper-small"));
}

#[test]
fn primary_chat_model_is_forgotten() {
    let mut registry = ModelRegistry::new();
    registry.chat_ready("a");
    registry.chat_ready("b");
    assert_eq!(registry.primary_chat.as_deref(), Some("a"));
    assert!(registry.delete_model_by_alias("a").is_ok());
    assert_eq!(registry.primary_chat, None);
    registry.chat_ready("c");
    assert_eq!(registry.primary_chat.as_deref(), Some("c"));
    let (chat, speech) = registry.shutdown();
    assert_eq!(chat.len(), 3);
    assert!(speech.is_empty());
    assert!(!registry.has_chat("c"));
    registry.speech_ready("whisper-small");
    registry.speech_ready("whisper-base");
    registry.speech_ready("whisper-small");
    assert_eq!(registry.shutdown().1.len(), 2);
}

#[test]
fn model_is_downloaded_and_loaded() {
    let mut registry = ModelRegistry::new();
    let (alias, load) = ensure_chat_model_by_alias(&registry, Some(" phi-4 "), false);
    assert_eq!(alias, "phi-4");
    let mut load = load.unwrap();
    let (_, a) = load.step(LoadEvent::Done);
    assert!(matches!(a, LoadAction::RegisterProviders));
    let (_, a) = load.step(LoadEvent::Done);
    assert!(matches!(a, LoadAction::FindModel));
    assert!(load.providers_ready);
    let (_, a) = load.step(LoadEvent::Done);
    assert!(matches!(a, LoadAction::ListVariants));
    let (_, a) = load.step(LoadEvent::Variants {
        variants: vec![variant("cpu", false, false)],
        registered: vec![],
    });
    assert!(matches!(a, LoadAction::AskCached(Some(0))));
    let (told, a) = load.step(LoadEvent::Answer(false));
    assert!(matches!(a, LoadAction::Download));
    assert!(matches!(&told[0], DownloadEvent::Started { alias } if alias == "phi-4"));
    let (told, a) = load.step(LoadEvent::Done);
    assert!(matches!(a, LoadAction::AskLoaded));
    assert!(matches!(&told[0], DownloadEvent::Completed { alias } if alias == "phi-4"));
    let (_, a) = load.step(LoadEvent::Answer(false));
    assert!(matches!(a, LoadAction::Load));
    let (_, a) = load.step(LoadEvent::Done);
    assert!(matches!(a, LoadAction::Finish(Ok(()))));
    load.finish(&mut registry);
    assert!(registry.has_chat("phi-4"));
    assert!(ensure_chat_model_by_alias(&registry, Some("phi-4"), true).1.is_none());
}

#[test]
fn failed_download_is_told() {
    let mut load = ModelLoad::new(Purpose::Fetch, "m", false);
    load.step(LoadEvent::Done);
    load.step(LoadEvent::Done);
    load.step(LoadEvent::Variants { variants: vec![], registered: vec![] });
    load.step(LoadEvent::Answer(false));
    let (told, a) = load.step(LoadEvent::Failed("no space".to_string()));
    assert_eq!(told.len(), 2);
    match a {
        LoadAction::Finish(Err(e)) => assert_eq!((e.status, e.message.as_str()), (500, "no space")),
        _ => panic!("a failure was expected"),
    }
    let mut load = ModelLoad::new(Purpose::Chat, "m", true);
    let (told, _) = load.step(LoadEvent::Failed("gone".to_string()));
    assert!(told.is_empty());
}

#[test]
fn loaded_speech_model_is_in_use() {
    let mut registry = ModelRegistry::new();
    registry.speech_ready("whisper-tiny");
    registry.speech_ready("whisper-base");
    let (alias, load) = ensure_speech_model(&mut registry, None, true);
    assert_eq!(alias, "whisper-tiny");
    assert!(load.is_none());
    assert_eq!(registry.active_speech.as_deref(), Some("whisper-tiny"));
    let (_, load) = ensure_speech_model(&mut registry, Some("whisper-large".to_string()), true);
    assert!(load.is_some());
    assert_eq!(registry.active_speech.as_deref(), Some("whisper-tiny"));
}

#[test]
fn cli_is_probed() {
    let found = probe_foundry_cli(&CliOutcome::Ran {
        success: true,
        status: "exit status: 0".to_string(),
        stdout: b"\n  0.8.113  \nmore".to_vec(),
        stderr: vec![],
    });
    assert!(found.ok);
    assert_eq!(found.version.as_deref(), Some("0.8.113"));
    assert_eq!(found.install_command, None);
    let broken = probe_foundry_cli(&CliOutcome::Ran {
        success: false,
        status: "exit status: 2".to_string(),
        stdout: vec![0xff],
        stderr: b"".to_vec(),
    });
    assert!(!broken.ok);
    assert_eq!(broken.detail, "\u{fffd}");
    let silent = judge_cli(false, "exit status: 2", " ", "\n");
    assert_eq!(silent.detail, "foundry --version exited with exit status: 2");
    let missing = probe_foundry_cli(&CliOutcome::NotFound);
    assert_eq!(missing.detail, "foundry command was not found on PATH");
    assert_eq!(
        missing.install_command.as_deref(),
        Some("winget install Microsoft.FoundryLocal")
    );
    let failed = probe_foundry_cli(&CliOutcome::Failed("denied".to_string()));
    assert_eq!(failed.detail, "denied");
}

#[test]
fn runtime_state_is_told() {
    let providers = vec![ExecutionProviderInfo { name: "CPU".to_string(), registered: true }];
    let ready = sdk_runtime_ok(Ok(Ok(providers)));
    assert!(ready.ready && ready.missing_summary.is_empty());
    assert_eq!(ready.execution_providers.len(), 1);
    let half = sdk_runtime_ok(Ok(Err("e".to_string())));
    assert_eq!(half.missing_summary, vec!["Execution provider check failed: e"]);
    let none = sdk_runtime_ok(Err("e".to_string()));
    assert!(!none.ready);
    assert_eq!(none.missing_summary, vec!["Foundry Local runtime: e"]);
    assert_eq!(none.info.detail, "e");
}

#[test]
fn missing_models_are_named() {
    let registry = ModelRegistry::new();
    let models =
        required_model_requirements(&registry, &Ok(true), &Err("not in catalog".to_string()));
    assert_eq!(models[0].purpose, "speech_to_text");
    assert!(models[0].downloaded && models[0].message.is_none());
    assert_eq!(models[1].message.as_deref(), Some("not in catalog"));
    let cli = probe_foundry_cli(&CliOutcome::NotFound);
    let all = app_requirements(cli, sdk_runtime_ok(Ok(Ok(vec![]))), models);
    assert!(!all.ok && all.runtime_ready);
    assert_eq!(
        all.missing_summary,
        vec!["Model qwen2.5-coder-0.5b is not downloaded"]
    );
    let cli = probe_foundry_cli(&CliOutcome::NotFound);
    let models = required_model_requirements(&registry, &Ok(true), &Ok(true));
    assert!(app_requirements(cli, sdk_runtime_ok(Ok(Ok(vec![]))), models).ok);
}

#[test]
fn trials_are_judged() {
    let ok = model_test_result("refine", Ok("  done ".to_string()), 7);
    assert!(ok.ok);
    assert_eq!(ok.output.as_deref(), Some("done"));
    assert_eq!(ok.elapsed_ms, 7);
    let empty = model_test_result("translate", Ok(" ".to_string()), 0);
    assert_eq!(empty.error.as_deref(), Some("empty output"));
    let failed = model_test_result("extract", Err(AppError::internal("x")), 0);
    assert_eq!(failed.error.as_deref(), Some("x"));
    let all = tested_model("m", vec![empty, ok], 9);
    assert!(all.ok && all.elapsed_ms == 9);
    assert!(!tested_model("m", vec![failed], 9).ok);
    let untested = untested_model("m", &AppError::internal("gone"), 3);
    assert_eq!(untested.results.len(), 3);
    assert_eq!(untested.results[2].capability, "extract");
    assert_eq!(untested.results[2].error.as_deref(), Some("gone"));
}

#[test]
fn trial_output_is_short() {
    assert_eq!(short_model_test_output("short"), "short");
    assert_eq!(
        short_model_test_output(&"x".repeat(81)),
        format!("{}…", "x".repeat(80))
    );
    assert_eq!(refine_trial("m").model.as_deref(), Some("m"));
    assert_eq!(translate_trial("m").target_language.as_deref(), Some("en"));
}

#[test]
fn purpose_ignores_case() {
    for name in ["QWEN2.5-Coder", "qwen2.5-coder", "qWeN2.5-cOdEr"] {
        assert_eq!(describe_model_purpose(name, "", "", false), "models.desc.llm.qwen");
    }
    assert_eq!(
        describe_model_purpose("WHISPER-tiny", "image", "text", true),
        describe_model_purpose("whisper-TINY", "", "", true)
    );
}
