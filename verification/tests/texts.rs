use seedraft::dictation::{
    apply_spoken_commands, remove_common_fillers, transcription_looks_like_no_speech_hallucination,
};
use seedraft::draft::{
    build_draft_prompt, clean_draft_llm_output, compose_draft, compose_draft_reply,
    compose_draft_retry_reply, draft_output_looks_like_prompt_echo, DraftStep,
};
use seedraft::reply::{
    derive_title_from_text, extract_json_object, live_language_label,
    live_translation_output_is_invalid, strip_llm_preamble, strip_think_blocks,
};
use seedraft::script::{
    count_text_scripts, dominant_text_script, refinement_language_changed,
    refinement_language_guard_instruction, TextScript,
};

#[test]
fn refinement_guard_rejects_english_to_cjk() {
    assert!(refinement_language_changed(
        "This meeting starts at nine and covers the quarterly roadmap.",
        "这次会议从九点开始，讨论季度路线图。"
    ));
}

#[test]
fn refinement_guard_allows_english_to_english() {
    assert!(!refinement_language_changed(
        "This meeting starts at nine and covers the quarterly roadmap.",
        "This meeting starts at 9 and covers the quarterly roadmap."
    ));
}

#[test]
fn refinement_guard_allows_japanese_to_japanese() {
    assert!(!refinement_language_changed(
        "今日は新しい機能について説明します。",
        "今日は新しい機能について説明します。"
    ));
}

#[test]
fn draft_echo_guard_rejects_repeated_prompt() {
    let echoed = "Reconstruct the following notes into one coherent document.\n\nRules:\n- Output only the Markdown body.\n\nInput notes:\n### [1] Memo\nBody";
    assert!(draft_output_looks_like_prompt_echo(echoed));
}

#[test]
fn draft_echo_guard_allows_article_body() {
    let article = "# 週次まとめ\n\n今週は入力体験を改善し、初回起動時の案内を整理しました。";
    assert!(!draft_output_looks_like_prompt_echo(article));
}

#[test]
fn draft_cleaner_strips_fences_and_answer_label() {
    let raw = "```markdown\nFinal article:\n# 週次まとめ\n\n本文です。\n```";
    assert_eq!(
        clean_draft_llm_output(raw),
        "# 週次まとめ\n\n本文です。".to_string()
    );
}

#[test]
fn draft_prompt_template_fills_placeholders() {
    let prompt = build_draft_prompt(
        Some("Write it.\n{instruction}\n\n{notes}"),
        "### [1] Note\nBody",
        Some("Use polite style."),
        "\n- Additional instruction: Use polite style.",
    );
    assert!(prompt.contains("Additional instruction: Use polite style."));
    assert!(prompt.contains("### [1] Note\nBody"));
}

#[test]
fn draft_prompt_template_appends_notes_when_placeholder_missing() {
    let prompt = build_draft_prompt(
        Some("Write one article."),
        "### [1] Note\nBody",
        Some("Start with decisions."),
        "\n- Additional instruction: Start with decisions.",
    );
    assert!(prompt.contains("Write one article."));
    assert!(prompt.contains("Input notes:\n### [1] Note\nBody"));
    assert!(prompt.contains("Additional instruction:\nStart with decisions."));
}

#[test]
fn draft_prompt_is_exact() {
    assert_eq!(
        build_draft_prompt(
            Some("  {notes}|{input_notes}|{instruction}|{additional_instruction}  "),
            "N",
            Some(" I "),
            "\n- B"
        ),
        "N|N|- B|I"
    );
    assert_eq!(
        build_draft_prompt(Some("T"), "N", None, ""),
        "T\n\nInput notes:\nN"
    );
}

#[test]
fn scripts_are_counted() {
    let counts = count_text_scripts("aé かな漢字 한 я ع अ ก 1!");
    assert_eq!(counts.latin, 2);
    assert_eq!(counts.kana, 2);
    assert_eq!(counts.cjk, 2);
    assert_eq!(counts.hangul, 1);
    assert_eq!(counts.cyrillic, 1);
    assert_eq!(counts.arabic, 1);
    assert_eq!(counts.devanagari, 1);
    assert_eq!(counts.thai, 1);
    assert_eq!(counts.total(), 11);
}

#[test]
fn dominant_script_needs_three_characters() {
    assert!(dominant_text_script("ab").is_none());
    assert!(matches!(dominant_text_script("abc"), Some(TextScript::Latin)));
    assert!(matches!(
        dominant_text_script("漢字か"),
        Some(TextScript::Japanese)
    ));
    assert!(matches!(dominant_text_script("漢字漢"), Some(TextScript::Cjk)));
    assert!(matches!(
        dominant_text_script("한국어"),
        Some(TextScript::Hangul)
    ));
    assert!(dominant_text_script("abяб").is_none());
    assert!(matches!(
        dominant_text_script("abcабв"),
        Some(TextScript::Cyrillic)
    ));
}

#[test]
fn guard_names_the_script() {
    assert_eq!(
        refinement_language_guard_instruction("สวัสดี"),
        "Detected input script: Thai. The output must remain Thai."
    );
    assert_eq!(
        refinement_language_guard_instruction("!"),
        "Preserve the input language and script exactly. Do not translate."
    );
}

#[test]
fn fillers_are_removed() {
    assert_eq!(
        remove_common_fillers("えー、今日は、あー  晴れ です。"),
        "今日は、 晴れ です。"
    );
    assert_eq!(remove_common_fillers("um, I think uh yes"), "I think yes");
    assert_eq!(remove_common_fillers("えーあー"), "");
}

#[test]
fn spoken_commands_are_applied() {
    assert_eq!(
        apply_spoken_commands("こんにちは句点改行してください次の行"),
        "こんにちは。\n次の行"
    );
    assert_eq!(
        apply_spoken_commands("end period new paragraph why question mark"),
        "end . \n\n why ?"
    );
}

#[test]
fn phrases_of_silence_are_known() {
    assert!(transcription_looks_like_no_speech_hallucination(
        " ご視聴ありがとうございました。 "
    ));
    assert!(transcription_looks_like_no_speech_hallucination(
        "Thank you for watching!"
    ));
    assert!(!transcription_looks_like_no_speech_hallucination(
        "Thank you for coming"
    ));
}

#[test]
fn think_blocks_are_stripped() {
    assert_eq!(strip_think_blocks("<think>hm</think> Answer "), "Answer");
    assert_eq!(
        strip_think_blocks("A<THINKING>x</THINKING>B<think>y</think>C"),
        "ABC"
    );
    assert_eq!(strip_think_blocks("reasoning</think>Answer"), "Answer");
    assert_eq!(strip_think_blocks("Answer<think>and then"), "Answer");
    assert_eq!(
        strip_think_blocks("<think>let me see\n\nThe answer."),
        "The answer."
    );
    assert_eq!(strip_think_blocks("<think>let me see"), "");
}

#[test]
fn preamble_is_stripped() {
    assert_eq!(
        strip_llm_preamble("Here is the text:\n\nBody\n\nMore"),
        "Body\n\nMore"
    );
    assert_eq!(strip_llm_preamble("「本文」"), "本文");
    assert_eq!(strip_llm_preamble("First\n\nSecond"), "First\n\nSecond");
}

#[test]
fn first_json_object_is_found() {
    assert_eq!(
        extract_json_object("x {\"a\": \"}\", \"b\": {\"c\": \"\\\"}\"}} y {}"),
        Some("{\"a\": \"}\", \"b\": {\"c\": \"\\\"}\"}}")
    );
    assert_eq!(extract_json_object("no object"), None);
    assert_eq!(extract_json_object("{ open"), None);
}

#[test]
fn titles_are_derived() {
    assert_eq!(
        derive_title_from_text("\n\n## - 12. 「会議」メモ\nrest").as_deref(),
        Some("会議」メモ")
    );
    assert_eq!(derive_title_from_text("  \n "), None);
    let long = "あ".repeat(41);
    let expected = format!("{}…", "あ".repeat(40));
    assert_eq!(derive_title_from_text(&long), Some(expected));
    assert_eq!(derive_title_from_text(&"い".repeat(40)), Some("い".repeat(40)));
}

#[test]
fn leaked_orders_are_invalid() {
    assert!(live_translation_output_is_invalid("  "));
    assert!(live_translation_output_is_invalid("Output ONLY the text"));
    assert!(live_translation_output_is_invalid("入力言語: 日本語"));
    assert!(!live_translation_output_is_invalid("Good morning"));
}

#[test]
fn languages_have_labels() {
    assert_eq!(live_language_label(" JA "), "Japanese");
    assert_eq!(live_language_label("auto"), "the source language");
    assert_eq!(live_language_label("tlh"), "tlh");
}

#[test]
fn concatenated_draft_has_every_note() {
    let notes = vec![
        ("First".to_string(), "Body one".to_string()),
        ("".to_string(), "Body two".to_string()),
    ];
    match compose_draft(&notes, "concat", None, None) {
        DraftStep::Finished(text) => {
            assert!(text.contains("First"));
            assert!(text.contains("Body one"));
            assert!(text.contains("Body two"));
        }
        _ => panic!("a draft was expected"),
    }
}

#[test]
fn draft_of_nothing_is_refused() {
    match compose_draft(&vec![], "concat", None, None) {
        DraftStep::Failed(e) => {
            assert_eq!(e.status, 400);
            assert_eq!(e.message, "合成対象のノートがありません");
        }
        _ => panic!("a refusal was expected"),
    }
}

#[test]
fn echoed_draft_is_asked_for_again() {
    let notes = vec![("T".to_string(), "B".to_string())];
    match compose_draft(&notes, "llm", Some("short"), None) {
        DraftStep::Ask(plan) => {
            assert_eq!(plan.temperature_tenths, 2);
            assert_eq!(plan.max_tokens, 2048);
            assert_eq!(plan.messages.len(), 2);
        }
        _ => panic!("a question was expected"),
    }
    match compose_draft_reply(&notes, Some("short"), "Reconstruct the following notes into one") {
        DraftStep::Ask(plan) => {
            assert!(plan.messages[1].content.contains("SOURCE NOTES START"));
        }
        _ => panic!("a second question was expected"),
    }
    match compose_draft_reply(&notes, None, "```\n# Title\nText\n```") {
        DraftStep::Finished(text) => assert_eq!(text, "# Title\nText"),
        _ => panic!("a draft was expected"),
    }
    match compose_draft_reply(&notes, None, "  ") {
        DraftStep::Failed(e) => assert_eq!(e.message, "合成結果が空でした"),
        _ => panic!("a failure was expected"),
    }
    match compose_draft_retry_reply("Rules: a\nRequirements: b") {
        DraftStep::Failed(e) => assert_eq!(e.status, 500),
        _ => panic!("a failure was expected"),
    }
    match compose_draft_retry_reply("# Done") {
        DraftStep::Finished(text) => assert_eq!(text, "# Done"),
        _ => panic!("a draft was expected"),
    }
}

#[test]
fn white_space_around_a_reply_does_not_matter() {
    let reply = "<think>\n\nhm</think>Sure!\n\n```md\n# Title\n```";
    let padded = format!(" \n\n\t{}\n\n ", reply);
    assert_eq!(strip_think_blocks(&padded), strip_think_blocks(reply));
    assert_eq!(clean_draft_llm_output(&padded), "# Title");
    let open = "a\n\nb <think> c\n\nd";
    assert_eq!(strip_think_blocks(&format!("\n\n{}\n\n", open)), "d");
    assert_eq!(strip_think_blocks(open), "d");
}

#[test]
fn title_is_part_of_the_first_line() {
    let a40 = "a".repeat(40);
    let a41 = "a".repeat(41);
    assert_eq!(derive_title_from_text(&a40), Some(a40.clone()));
    assert_eq!(derive_title_from_text(&a41), Some(format!("{}…", a40)));
    assert_eq!(
        derive_title_from_text(" \r\n > \"One\"\r\nTwo").as_deref(),
        Some("One")
    );
    assert_eq!(derive_title_from_text("\u{3000}\n\t"), None);
}

#[test]
fn leaked_orders_are_found_anywhere() {
    assert!(live_translation_output_is_invalid("TRANSLATION ONLY: hi"));
    assert!(live_translation_output_is_invalid("translation only: hi"));
    assert!(live_translation_output_is_invalid("Well, tRANSLATION oNLY: hi. Bye"));
    assert!(live_translation_output_is_invalid("入力言語は日本語"));
    assert!(!live_translation_output_is_invalid("Hello, world."));
    assert!(!live_translation_output_is_invalid("HELLO, WORLD."));
}
