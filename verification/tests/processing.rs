use seedraft::chat::Role;
use seedraft::pipeline::{process_pipeline, PipelineStep};
use seedraft::process::{
    analysis_json, analysis_line, analysis_parse_error, default_true, finish_complete_note,
    finish_correct, finish_custom, finish_refine, finish_translate, plan_analyze,
    plan_complete_note, plan_correct, plan_custom, plan_refine, plan_translate, AnalysisResult,
    CustomStepRequest, RefinementRequest, TranslationRequest,
};
use seedraft::storage::{Storage, Tables};
use seedraft::transcription::{
    answer_silence, answer_transcription, answer_transcription_with, has_room_for, listen,
    plan_correction, upload_name, Correction, Heard, Listening, Loudness, TranscribeForm,
};

fn refinement(text: &str) -> RefinementRequest {
    RefinementRequest {
        text: text.to_string(),
        custom_instruction: Some(" be brief ".to_string()),
        custom_terms: Some(" SeeDraft ".to_string()),
        remove_fillers: true,
        style: None,
        voice_commands: true,
        model: None,
        note_id: None,
        use_linked_context: false,
    }
}

fn translation(text: &str) -> TranslationRequest {
    TranslationRequest {
        text: text.to_string(),
        source_language: None,
        target_language: None,
        custom_instruction: None,
        custom_terms: None,
        model: Some("m".to_string()),
        note_id: None,
        use_linked_context: false,
    }
}

#[test]
fn linked_notes_are_used_by_default() {
    assert!(default_true());
}

#[test]
fn refinement_is_planned() {
    let plan = plan_refine(&refinement("えー、今日は晴れ句点"), Some("context")).unwrap();
    assert_eq!(plan.temperature_tenths, 0);
    assert_eq!(plan.max_tokens, 1024);
    assert_eq!(plan.messages.len(), 3);
    assert!(plan.messages[0].role == Role::System);
    assert_eq!(plan.messages[1].content, "context");
    let question = &plan.messages[2].content;
    assert!(question.ends_with("\n\nInput:\n今日は晴れ。"));
    assert!(question.contains("\n- Preserve the spelling of these terms and proper nouns: SeeDraft\n- Additional instruction: be brief\n\nInput:"));
    match plan_refine(&refinement("  "), None) {
        Err(e) => assert_eq!(
            (e.status, e.message.as_str()),
            (400, "整形する文字起こし結果がありません")
        ),
        Ok(_) => panic!("there is nothing to proofread"),
    }
}

#[test]
fn refinement_is_finished() {
    let request = refinement("今日は新しい機能について説明します");
    assert_eq!(
        finish_refine(&request, " 「今日は新しい機能について説明します。」 ").unwrap(),
        "今日は新しい機能について説明します。"
    );
    assert_eq!(
        finish_refine(&request, " ").unwrap_err().message,
        "整形結果が空でした"
    );
    assert_eq!(
        finish_refine(&request, "Today I will explain a new feature.")
            .unwrap_err()
            .message,
        "整形結果の言語が入力と異なるため破棄しました"
    );
}

#[test]
fn translation_is_planned_and_finished() {
    let plan = plan_translate(&translation(" hello "), None).unwrap();
    assert_eq!(plan.messages.len(), 2);
    assert!(plan.messages[1].content.contains("hello"));
    match plan_translate(&translation(""), None) {
        Err(e) => assert_eq!(e.status, 400),
        Ok(_) => panic!("there is nothing to translate"),
    }
    assert_eq!(finish_translate("「やあ」").unwrap(), "やあ");
    assert_eq!(finish_translate("").unwrap_err().message, "翻訳結果が空でした");
}

#[test]
fn custom_step_is_planned_and_finished() {
    let plan = plan_custom("text", "shout", 5, None).unwrap();
    assert!(plan.messages[1].content.contains("shout"));
    assert_eq!(plan.max_tokens, 128);
    assert_eq!(finish_custom("TEXT").unwrap(), "TEXT");
    assert_eq!(finish_custom(" ").unwrap_err().message, "処理結果が空でした");
}

#[test]
fn extraction_is_read() {
    assert!(plan_analyze("text", None).is_ok());
    assert!(plan_analyze(" ", None).is_err());
    assert_eq!(
        analysis_json("<think>{}</think>Sure: {\"tone\":\"x\"} done"),
        "{\"tone\":\"x\"}"
    );
    assert_eq!(analysis_json("nothing"), "nothing");
    assert_eq!(
        analysis_parse_error("bad", " raw ").message,
        "抽出結果のJSONパースに失敗しました: bad / raw: raw"
    );
    let line = analysis_line(&AnalysisResult {
        tone: "t".to_string(),
        summary: "s".to_string(),
        keywords: vec!["a".to_string(), "b".to_string()],
    });
    assert_eq!(line, "t / s / a, b");
}

#[test]
fn notes_are_continued_and_corrected() {
    assert!(plan_complete_note("text", None).is_ok());
    assert!(plan_complete_note("", None).is_err());
    assert!(finish_complete_note("").is_err());
    assert!(plan_correct("text", "  ").is_none());
    assert!(plan_correct("text", "clue")
        .unwrap()
        .messages[1]
        .content
        .ends_with("\nclue\n\nTranscription:\ntext"));
    assert_eq!(finish_correct(" a ", " "), "a");
    assert_eq!(finish_correct("a", "\"b\""), "b");
}

#[test]
fn pipeline_hands_the_text_on() {
    let steps = vec![
        PipelineStep::Translate { config: translation("ignored") },
        PipelineStep::Custom {
            config: CustomStepRequest {
                instruction: "shout".to_string(),
                max_tokens: None,
                label: Some("loud".to_string()),
                model: None,
            },
        },
    ];
    let mut run = process_pipeline("hello".to_string(), steps).unwrap();
    assert!(!run.is_done());
    assert_eq!(run.next_model().as_deref(), Some("m"));
    assert!(run.next_question(None).unwrap().messages[1].content.contains("hello"));
    run.take_reply("やあ").unwrap();
    assert!(run.next_question(None).unwrap().messages[1].content.contains("やあ"));
    assert!(run.take_reply(" ").is_err());
    run.take_reply("やあ！").unwrap();
    assert!(run.is_done());
    let names: Vec<&str> = run.results().iter().map(|r| r.step_type.as_str()).collect();
    assert_eq!(names, vec!["translate", "custom:loud"]);
    assert_eq!(run.results()[1].text, "やあ！");
}

#[test]
fn pipelines_are_limited() {
    assert!(process_pipeline("x".repeat(10_000), vec![]).is_ok());
    match process_pipeline("x".repeat(10_001), vec![]) {
        Err(e) => assert_eq!(e.status, 400),
        Ok(_) => panic!("the text is too long"),
    }
    let many = |n: usize| -> Vec<PipelineStep> {
        (0..n)
            .map(|_| PipelineStep::Translate { config: translation("") })
            .collect()
    };
    assert!(process_pipeline("x".to_string(), many(10)).is_ok());
    assert!(process_pipeline("x".to_string(), many(11)).is_err());
}

fn form() -> TranscribeForm {
    let mut form = TranscribeForm::new();
    form.take_audio(Some("rec.take.WAV"), Some("audio/mpeg"), vec![1, 2]);
    form
}

#[test]
fn upload_form_is_read() {
    let mut f = TranscribeForm::new();
    assert_eq!(f.check().unwrap_err().message, "音声ファイルがありません");
    assert_eq!(f.extension(), "webm");
    f.take_audio(None, Some("audio/wav"), vec![]);
    assert_eq!(f.check().unwrap_err().message, "音声ファイルが空です");
    assert_eq!(f.extension(), "wav");
    let mut f = form();
    assert!(f.check().is_ok());
    assert_eq!(f.extension(), "wav");
    assert_eq!(f.audio_name.as_deref(), Some("rec.take.WAV"));
    f.take_field("language", " ja ");
    f.take_field("speech_model", " whisper ");
    f.take_field("transcription_prompt", " clue ");
    f.take_field("project_id", " q ");
    f.take_field("project_id", "  ");
    f.take_field("parent_id", "n");
    f.take_field("save_as_note", " YES ");
    f.take_field("unknown", "x");
    assert_eq!(f.language.as_deref(), Some("ja"));
    assert_eq!(f.speech_model.as_deref(), Some("whisper"));
    assert_eq!(f.transcription_prompt.as_deref(), Some("clue"));
    assert_eq!(f.project_id.as_deref(), Some("q"));
    assert_eq!(f.parent_id.as_deref(), Some("n"));
    assert!(f.save_as_note);
    f.take_field("save_as_note", "no");
    assert!(!f.save_as_note);
}

#[test]
fn upload_name_is_sound() {
    assert_eq!(upload_name("12", "34", "../W a v"), "upload-12-34.wav");
}

fn loudness(silent: bool, low_confidence: bool) -> Option<Loudness> {
    Some(Loudness { silent, low_confidence, duration: 0.5f64.to_bits() })
}

fn heard(text: &str) -> Heard {
    Heard {
        text: text.to_string(),
        language: Some("ja".to_string()),
        duration: Some(2.0f64.to_bits()),
    }
}

fn store() -> Storage {
    Storage::open_with(Tables::new(), true, "p".to_string(), 1).unwrap()
}

#[test]
fn silence_is_not_transcribed() {
    let mut f = form();
    assert!(matches!(
        listen(&f, loudness(true, true)),
        Listening::Silence { .. }
    ));
    f.take_field("language", "  ");
    match listen(&f, loudness(false, true)) {
        Listening::Transcribe { language, speech_model } => {
            assert_eq!(language, None);
            assert_eq!(speech_model, None);
        }
        _ => panic!("there is something to hear"),
    }
    let answer = answer_silence(&store(), &f, 0.5f64.to_bits()).unwrap();
    assert_eq!(answer.text, "");
    assert_eq!(answer.duration.map(f64::from_bits), Some(0.5));
    assert_eq!(answer.project_id.as_deref(), Some("p"));
    assert_eq!(answer.note_id, None);
}

#[test]
fn correction_is_asked_for_with_a_clue() {
    let mut f = form();
    assert!(matches!(plan_correction(&f, " a "), Correction::Keep(t) if t == " a "));
    f.take_field("transcription_prompt", "clue");
    assert!(matches!(plan_correction(&f, " a "), Correction::Ask(_)));
    assert!(matches!(plan_correction(&f, "  "), Correction::Keep(t) if t.is_empty()));
}

#[test]
fn transcription_is_kept_on_request() {
    let mut storage = store();
    let mut f = form();
    let answer =
        answer_transcription(&mut storage, &f, None, &heard("x"), "Hello.".to_string()).unwrap();
    assert_eq!(answer.text, "Hello.");
    assert_eq!(answer.note_id, None);
    assert_eq!(storage.list_notes("p").unwrap().len(), 0);
    f.take_field("save_as_note", "on");
    assert!(has_room_for(&storage, &f));
    let answer = answer_transcription_with(
        &mut storage,
        &f,
        loudness(false, false),
        &heard("x"),
        "Hello.".to_string(),
        "n".to_string(),
        7,
    )
    .unwrap();
    assert_eq!(answer.note_id.as_deref(), Some("n"));
    assert_eq!(answer.language.as_deref(), Some("ja"));
    let note = &storage.list_notes("p").unwrap()[0].note;
    assert_eq!(note.title, "Hello.");
    assert_eq!(note.source_name.as_deref(), Some("rec.take.WAV"));
    assert_eq!(note.created_at, 7);
    let answer = answer_transcription_with(
        &mut storage,
        &f,
        None,
        &heard("x"),
        "\"\"".to_string(),
        "m".to_string(),
        8,
    )
    .unwrap();
    assert_eq!(answer.note_id.as_deref(), Some("m"));
    assert_eq!(storage.list_notes("p").unwrap()[0].note.title, "take");
    f.take_field("parent_id", "none");
    let answer =
        answer_transcription(&mut storage, &f, None, &heard("x"), "Lost.".to_string()).unwrap();
    assert_eq!(answer.note_id, None);
    assert_eq!(answer.project_id.as_deref(), Some("p"));
}

#[test]
fn made_up_text_is_dropped() {
    let mut storage = store();
    let mut f = form();
    f.take_field("save_as_note", "1");
    let text = "ご視聴ありがとうございました。";
    let quiet = answer_transcription(
        &mut storage,
        &f,
        loudness(false, true),
        &heard(text),
        text.to_string(),
    )
    .unwrap();
    assert_eq!(quiet.text, "");
    assert_eq!(quiet.note_id, None);
    let loud = answer_transcription(
        &mut storage,
        &f,
        loudness(false, false),
        &heard(text),
        text.to_string(),
    )
    .unwrap();
    assert_eq!(loud.text, text);
    assert!(loud.note_id.is_some());
}
