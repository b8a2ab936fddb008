use seedraft::caption::{
    translate_live_caption, CaptionAction, CaptionEvent, CaptionStage,
};
use seedraft::chat::AppError;
use seedraft::live::{live_sentence_boundary_index, split_live_source_units};
use seedraft::session::{
    flush_live_pending_source, live_session_with_id, take_chunk, usable_translation, LiveChunkForm, LiveSessions, LiveStartRequest, LiveStopRequest,
    LiveTranslationRequest, LiveTranslationStep,
};

fn start(sessions: &mut LiveSessions, translate: bool) -> String {
    sessions
        .start(
            &LiveStartRequest {
                title: Some("  ".to_string()),
                source_language: Some(" ja ".to_string()),
                target_language: Some("en".to_string()),
                speech_model: None,
                translate_model: None,
                translate: Some(translate),
            },
            1000,
        )
        .session_id
}

#[test]
fn sentences_end() {
    assert_eq!(live_sentence_boundary_index("Hi. There"), Some(3));
    assert_eq!(live_sentence_boundary_index("今日。"), Some(9));
    assert_eq!(live_sentence_boundary_index("Dr. Who? Yes"), Some(8));
    assert_eq!(live_sentence_boundary_index("3.5 is fine"), None);
    assert_eq!(live_sentence_boundary_index("no end"), None);
    assert_eq!(live_sentence_boundary_index("\"Stop!\" he said"), Some(6));
}

#[test]
fn units_are_split() {
    let (units, rest) = split_live_source_units(" One. Two! Thr", false);
    assert_eq!(units, vec!["One.", "Two!"]);
    assert_eq!(rest, "Thr");
    let (units, rest) = split_live_source_units(" One. Two! Thr", true);
    assert_eq!(units, vec!["One.", "Two!", "Thr"]);
    assert_eq!(rest, "");
}

#[test]
fn chunk_form_is_checked() {
    let mut form = LiveChunkForm::new();
    assert_eq!(form.check().unwrap_err().message, "session_id is required");
    form.take_field("session_id", " s ");
    form.take_field("chunk_start_ms", " -12 ");
    form.take_field("other", "x");
    assert_eq!(form.chunk_start_ms, Some(-12));
    assert_eq!(form.check().unwrap_err().message, "audio chunk is required");
    form.take_audio(0);
    assert_eq!(form.check().unwrap_err().message, "audio chunk is empty");
    form.take_audio(3);
    assert_eq!(form.check().unwrap(), "s");
    form.take_field("chunk_start_ms", "soon");
    assert_eq!(form.chunk_start_ms, None);
}

#[test]
fn chunks_become_captions() {
    let mut sessions = LiveSessions::new();
    let id = start(&mut sessions, true);
    assert_eq!(id.len(), 36);
    let (language, model) = sessions.chunk_settings(&id).unwrap();
    assert_eq!(language.as_deref(), Some("ja"));
    assert_eq!(model, None);
    let first = sessions.take_chunk(&id, " Hello there", 100).unwrap();
    assert_eq!(first.source_text, "Hello there");
    assert!(first.segments.is_empty());
    assert!(sessions.can_take_chunk(&id, "world. And"));
    let second = sessions.take_chunk(&id, "world. And", 200).unwrap();
    assert_eq!(second.source_text, "Hello there world.");
    assert_eq!(second.segments[0].sequence, 0);
    assert_eq!(second.segments[0].elapsed_ms, 100);
    let third = sessions.take_chunk(&id, "  ", 300).unwrap();
    assert!(third.segments.is_empty());
    assert!(sessions.can_stop(&id, 5000));
    let stopped = sessions
        .stop(
            &LiveStopRequest { session_id: id.clone(), save: true, title: None },
            5000,
        )
        .unwrap();
    let (session, segments) = stopped.unwrap();
    assert_eq!(session.title, "Live session");
    assert_eq!(session.duration_ms, 4000);
    assert_eq!(session.segment_count, 2);
    assert_eq!(segments[1].source_text, "And");
    assert_eq!(segments[1].start_ms, 200);
    assert_eq!(
        sessions.take_chunk(&id, "x", 0).unwrap_err().message,
        "unknown session_id"
    );
}

#[test]
fn unsaved_session_is_dropped() {
    let mut sessions = LiveSessions::new();
    let id = start(&mut sessions, true);
    sessions.take_chunk(&id, "Hi.", 0).unwrap();
    let r = sessions.stop(
        &LiveStopRequest { session_id: id.clone(), save: false, title: None },
        2000,
    );
    assert!(matches!(r, Ok(None)));
    let r = sessions.stop(&LiveStopRequest { session_id: id, save: true, title: None }, 2000);
    assert_eq!(r.unwrap_err().message, "unknown session_id");
}

#[test]
fn captions_are_translated() {
    let mut sessions = LiveSessions::new();
    let id = start(&mut sessions, true);
    sessions.take_chunk(&id, "One. Two.", 0).unwrap();
    let request = |sequence: i64, sequences: Option<Vec<i64>>| LiveTranslationRequest {
        session_id: format!(" {} ", id),
        sequence,
        sequences,
        source_text: None,
        append: Some(true),
    };
    match sessions.plan_translation(&request(0, Some(vec![0, 1]))).unwrap() {
        LiveTranslationStep::Translate(job) => {
            assert_eq!(job.sequence, 1);
            assert_eq!(job.source_text, "Two.");
            assert_eq!(job.target_language, "en");
        }
        _ => panic!("a translation was expected"),
    }
    match sessions.plan_translation(&request(7, None)) {
        Err(e) => assert_eq!(e.message, "unknown live segment"),
        Ok(_) => panic!("there is no such caption"),
    }
    assert_eq!(sessions.take_translation(&id, 1, true, "a"), "a");
    assert_eq!(sessions.take_translation(&id, 1, true, "b"), "a\nb");
    assert_eq!(sessions.take_translation(&id, 1, false, "c"), "c");
    assert_eq!(sessions.take_translation("gone", 1, false, "d"), "d");
    let quiet = start(&mut sessions, false);
    sessions.take_chunk(&quiet, "One.", 0).unwrap();
    let r = sessions.plan_translation(&LiveTranslationRequest {
        session_id: quiet,
        sequence: 0,
        sequences: None,
        source_text: None,
        append: None,
    });
    assert!(matches!(r, Ok(LiveTranslationStep::Nothing(0))));
}

#[test]
fn blank_translations_are_dropped() {
    assert_eq!(usable_translation(Ok(" x ".to_string())), Some("x".to_string()));
    assert_eq!(usable_translation(Ok("  ".to_string())), None);
    assert_eq!(usable_translation(Err(AppError::internal("x"))), None);
}

#[test]
fn caption_is_asked_for_three_times() {
    let (job, stage, action) =
        translate_live_caption(" Hi ", Some("en"), "ja", Some("m"), true).unwrap();
    assert!(matches!(action, CaptionAction::Load(Some(_))));
    let (stage, action) = job.step(stage, CaptionEvent::Loaded);
    match action {
        CaptionAction::Ask(plan) => assert_eq!(
            plan.messages[1].content,
            "Translate this English live caption into Japanese.\nText:\nHi"
        ),
        _ => panic!("a question was expected"),
    }
    let (stage, action) = job.step(stage, CaptionEvent::Reply("output only".to_string()));
    match action {
        CaptionAction::Ask(plan) => {
            assert_eq!(plan.messages[1].content, "Japanese translation only:\nHi")
        }
        _ => panic!("a second question was expected"),
    }
    let (stage, action) = job.step(stage, CaptionEvent::Reply("  ".to_string()));
    assert!(matches!(action, CaptionAction::Load(Some(_))));
    let (stage, action) = job.step(stage, CaptionEvent::Loaded);
    assert!(matches!(action, CaptionAction::Ask(_)));
    let (stage, action) = job.step(stage, CaptionEvent::Reply("translator".to_string()));
    assert_eq!(stage, CaptionStage::Over);
    match action {
        CaptionAction::Finish(Ok(text)) => assert_eq!(text, ""),
        _ => panic!("an empty translation was expected"),
    }
}

#[test]
fn default_model_can_take_over() {
    let (job, stage, _) = translate_live_caption("Hi", None, "ja", Some("m"), true).unwrap();
    let (stage, action) = job.step(stage, CaptionEvent::LoadFailed(AppError::internal("gone")));
    assert!(matches!(action, CaptionAction::Load(None)));
    let (stage, _) = job.step(stage, CaptionEvent::Loaded);
    let (_, action) = job.step(stage, CaptionEvent::Reply("「やあ」".to_string()));
    match action {
        CaptionAction::Finish(Ok(text)) => assert_eq!(text, "やあ"),
        _ => panic!("a translation was expected"),
    }
    let (job, stage, _) = translate_live_caption("Hi", None, "ja", Some("m"), false).unwrap();
    let (_, action) = job.step(stage, CaptionEvent::LoadFailed(AppError::internal("gone")));
    match action {
        CaptionAction::Finish(Err(e)) => assert_eq!(e.message, "gone"),
        _ => panic!("a failure was expected"),
    }
    match translate_live_caption(" ", None, "ja", None, true) {
        Err(e) => assert_eq!(e.message, "翻訳する文字起こし結果がありません"),
        Ok(_) => panic!("there is nothing to translate"),
    }
}

#[test]
fn second_flush_changes_nothing() {
    let request = LiveStartRequest {
        title: None,
        source_language: None,
        target_language: None,
        speech_model: None,
        translate_model: None,
        translate: None,
    };
    let mut session = live_session_with_id(&request, "s".to_string(), 5);
    take_chunk(&mut session, "One. Two", 7);
    assert_eq!(session.segments.len(), 1);
    flush_live_pending_source(&mut session);
    assert_eq!(session.segments.len(), 2);
    assert_eq!(session.segments[1].source_text, "Two");
    assert_eq!(session.segments[1].sequence, 1);
    assert_eq!(session.segments[1].start_ms, 7);
    assert_eq!(session.segments[1].session_id, "s");
    assert_eq!(session.segments[1].translated_text, None);
    assert_eq!(session.sequence, 2);
    assert_eq!(session.pending_source_text, "");
    flush_live_pending_source(&mut session);
    assert_eq!(session.segments.len(), 2);
    assert_eq!(session.sequence, 2);
    assert_eq!(session.pending_start_ms, None);
}
