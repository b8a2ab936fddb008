use seedraft::desktop::{
    after_batch, after_paste, complete_hold_recording, insert_text_at_cursor, is_global_shortcut_action,
    is_native_hold_key_binding, native_hold_key_kind, native_hold_key_matches, overlay_position,
    paste_from_clipboard, set_system_clipboard_text, shortcut_effect, shortcut_phase,
    shortcut_state_label, AppExitState, HoldKey, HoldRecordOutputMode, Key, KeyMessage, OutputStep,
    PasteKey, Screen, ShortcutEffect, ShortcutPhase, UnitKey, HOLD_KEY_ALT_ANY, HOLD_KEY_CTRL_LEFT,
    HOLD_KEY_CTRL_RIGHT, HOLD_KEY_META_ANY, HOLD_KEY_SHIFT_RIGHT,
};
use seedraft::locales::{locale_code, merge_entries, merge_missing_keys, read_locale};
use seedraft::server::{loopback_address, server_address, window_url};
use seedraft::settings::{
    app_settings_path, app_settings_response, bundled_native_dir, changed_settings,
    default_locales_dir, locales_dir, normalize_settings_dir, set_foundry_native_dir, AppSettings,
};
use seedraft::shortcuts::{
    plan_shortcuts, GlobalShortcutBinding, GlobalShortcutRegistry, RegisteredGlobalShortcut,
    SetupAction, ShortcutSetup,
};

#[test]
fn quitting_is_noted() {
    let mut state = AppExitState::new(false);
    assert!(!state.quit_requested);
    state.request();
    assert!(state.quit_requested);
}

#[test]
fn actions_have_effects() {
    assert!(is_global_shortcut_action("record.hold"));
    assert!(!is_global_shortcut_action("app.hide"));
    assert_eq!(
        shortcut_effect("app.show", ShortcutPhase::Pressed),
        ShortcutEffect::ShowMain
    );
    assert_eq!(
        shortcut_effect("app.show", ShortcutPhase::Released),
        ShortcutEffect::Nothing
    );
    assert_eq!(
        shortcut_effect("live.open", ShortcutPhase::Pressed),
        ShortcutEffect::OpenLive
    );
    assert_eq!(
        shortcut_effect("record.hold", ShortcutPhase::Released),
        ShortcutEffect::RecordHold
    );
}

#[test]
fn phases_have_words() {
    assert_eq!(shortcut_state_label(ShortcutPhase::Pressed), "pressed");
    assert_eq!(shortcut_phase("released"), Ok(ShortcutPhase::Released));
    assert_eq!(
        shortcut_phase("held"),
        Err("unsupported hold shortcut state: held".to_string())
    );
}

#[test]
fn hold_keys_are_named() {
    assert_eq!(native_hold_key_kind(" Right-Ctrl "), Some(HOLD_KEY_CTRL_RIGHT));
    assert_eq!(native_hold_key_kind("control left"), Some(HOLD_KEY_CTRL_LEFT));
    assert_eq!(native_hold_key_kind("Option"), Some(HOLD_KEY_ALT_ANY));
    assert_eq!(native_hold_key_kind("cmd"), Some(HOLD_KEY_META_ANY));
    assert_eq!(native_hold_key_kind("Ctrl+Shift+A"), None);
    assert!(is_native_hold_key_binding("shift", true));
    assert!(!is_native_hold_key_binding("shift", false));
}

#[test]
fn hold_keys_are_told_apart() {
    assert!(native_hold_key_matches(HOLD_KEY_CTRL_RIGHT, Key::Control, 0, true));
    assert!(!native_hold_key_matches(HOLD_KEY_CTRL_RIGHT, Key::Control, 0, false));
    assert!(native_hold_key_matches(HOLD_KEY_SHIFT_RIGHT, Key::Shift, 0x36, false));
    assert!(!native_hold_key_matches(HOLD_KEY_SHIFT_RIGHT, Key::Shift, 0x2A, false));
    assert!(!native_hold_key_matches(0, Key::Control, 0, false));
    assert!(!native_hold_key_matches(HOLD_KEY_META_ANY, Key::Other, 0, false));
}

#[test]
fn held_key_is_told_once() {
    let mut hold = HoldKey::new();
    assert!(hold.key(Key::LeftControl, 0, false, KeyMessage::Down).is_none());
    assert!(hold.apply_native_hold_key_binding(Some(" LeftCtrl ".to_string())).is_none());
    assert_eq!(hold.native_hold_key_accelerator(), "LeftCtrl");
    let pressed = hold.key(Key::LeftControl, 0, false, KeyMessage::Down).unwrap();
    assert_eq!(pressed.phase, ShortcutPhase::Pressed);
    assert_eq!(pressed.accelerator, "LeftCtrl");
    assert!(hold.key(Key::LeftControl, 0, false, KeyMessage::Down).is_none());
    assert!(hold.key(Key::RightControl, 0, false, KeyMessage::Up).is_none());
    assert!(hold.key(Key::LeftControl, 0, false, KeyMessage::Other).is_none());
    let released = hold.key(Key::LeftControl, 0, false, KeyMessage::Up).unwrap();
    assert_eq!(released.phase, ShortcutPhase::Released);
    hold.key(Key::LeftControl, 0, false, KeyMessage::Down);
    let let_go = hold.apply_native_hold_key_binding(None).unwrap();
    assert_eq!(let_go.phase, ShortcutPhase::Released);
    assert_eq!(let_go.accelerator, "LeftCtrl");
    assert_eq!(hold.kind, 0);
    hold.set_native_hold_key_accelerator("x");
    assert_eq!(hold.native_hold_key_accelerator(), "x");
}

#[test]
fn overlay_stays_on_screen() {
    let screen = Some(Screen { x: 0, y: 0, width: 1920, height: 1080 });
    assert_eq!(overlay_position(100, 200, screen), (122, 222));
    assert_eq!(overlay_position(1900, 1070, screen), (1660, 962));
    assert_eq!(overlay_position(-500, -500, screen), (0, 0));
    let tiny = Some(Screen { x: 5, y: 6, width: 10, height: 10 });
    assert_eq!(overlay_position(100, 100, tiny), (5, 6));
    assert_eq!(overlay_position(100, 200, None), (122, 222));
}

#[test]
fn recordings_are_put_out() {
    let (text, steps) = complete_hold_recording(" hi ", HoldRecordOutputMode::Both);
    assert_eq!(text, "hi");
    assert_eq!(steps, vec![OutputStep::SetClipboard, OutputStep::Paste]);
    let (_, steps) = complete_hold_recording("hi", HoldRecordOutputMode::Insert);
    assert_eq!(steps, vec![OutputStep::SetClipboard, OutputStep::InsertText]);
    let (_, steps) = complete_hold_recording("hi", HoldRecordOutputMode::Copy);
    assert_eq!(steps, vec![OutputStep::SetClipboard]);
    let (_, steps) = complete_hold_recording("  ", HoldRecordOutputMode::Copy);
    assert!(steps.is_empty());
}

#[test]
fn text_is_sent_in_utf16() {
    let text = "aあ😀";
    let mut expected: Vec<u16> = text.encode_utf16().collect();
    expected.push(0);
    assert_eq!(set_system_clipboard_text(text, true), Ok(expected));
    assert_eq!(
        set_system_clipboard_text(text, false),
        Err("system clipboard integration is only implemented on Windows".to_string())
    );
    let batches = insert_text_at_cursor(&"x".repeat(130), true).unwrap();
    let sizes: Vec<usize> = batches.iter().map(|b| b.len()).collect();
    assert_eq!(sizes, vec![128, 128, 4]);
    assert_eq!(
        insert_text_at_cursor("a😀", true),
        Ok(vec![vec![
            UnitKey::Down(0x61),
            UnitKey::Up(0x61),
            UnitKey::Down(0xD83D),
            UnitKey::Up(0xD83D),
            UnitKey::Down(0xDE00),
            UnitKey::Up(0xDE00),
        ]])
    );
    assert_eq!(after_batch(&batches[2], 4), Ok(()));
    assert_eq!(after_batch(&batches[2], 3), Err("failed to insert text".to_string()));
    assert_eq!(insert_text_at_cursor("", true), Ok(vec![]));
    assert_eq!(
        insert_text_at_cursor("x", false),
        Err("text insertion is only implemented on Windows".to_string())
    );
    assert_eq!(
        paste_from_clipboard(true),
        Ok(vec![
            PasteKey::ControlDown,
            PasteKey::LetterDown,
            PasteKey::LetterUp,
            PasteKey::ControlUp,
        ])
    );
    assert!(paste_from_clipboard(false).is_err());
    let keys = paste_from_clipboard(true).unwrap();
    assert_eq!(after_paste(&keys, 4), Ok(()));
    assert_eq!(after_paste(&keys, 0), Err("failed to send paste shortcut".to_string()));
}

fn binding(action: &str, accelerator: &str) -> GlobalShortcutBinding {
    GlobalShortcutBinding {
        action: action.to_string(),
        accelerator: accelerator.to_string(),
    }
}

#[test]
fn choices_are_sorted_out() {
    let (list, hold) = plan_shortcuts(
        &vec![
            binding(" app.show ", " Ctrl+A "),
            binding("nothing", "Ctrl+B"),
            binding("live.open", "  "),
            binding("record.hold", "RightCtrl"),
            binding("record.hold", "Ctrl+R"),
        ],
        true,
    );
    let kept: Vec<&str> = list.iter().map(|b| b.accelerator.as_str()).collect();
    assert_eq!(kept, vec!["Ctrl+A", "Ctrl+R"]);
    assert_eq!(list[0].action, "app.show");
    assert_eq!(hold.as_deref(), Some("RightCtrl"));
    let (list, hold) = plan_shortcuts(&vec![binding("record.hold", "RightCtrl")], false);
    assert_eq!(list.len(), 1);
    assert_eq!(hold, None);
}

fn parsed(id: u32, accelerator: &str) -> RegisteredGlobalShortcut {
    RegisteredGlobalShortcut {
        id,
        action: "app.show".to_string(),
        accelerator: accelerator.to_string(),
    }
}

#[test]
fn shortcuts_are_registered() {
    let before = GlobalShortcutRegistry { shortcuts: vec![parsed(9, "old")] };
    let list = vec![parsed(1, "a"), parsed(2, "b"), parsed(1, "c")];
    let (mut setup, action) = ShortcutSetup::begin(&list, Some("hold".to_string()), &before);
    assert!(matches!(action, SetupAction::Unregister(ids) if ids == vec![9]));
    assert!(matches!(setup.step(None), SetupAction::Register(0)));
    assert!(matches!(setup.step(None), SetupAction::Register(1)));
    match setup.step(None) {
        SetupAction::Finish { hold } => assert_eq!(hold.as_deref(), Some("hold")),
        _ => panic!("all are registered"),
    }
    let registry = setup.into_registry();
    assert_eq!(registry.shortcuts.len(), 2);
    assert_eq!(registry.lookup(1).map(|s| s.accelerator.as_str()), Some("a"));
    assert!(registry.lookup(7).is_none());
}

#[test]
fn refused_shortcuts_are_rolled_back() {
    let none = GlobalShortcutRegistry::new();
    let list = vec![parsed(1, "a"), parsed(2, "b")];
    let (mut setup, action) = ShortcutSetup::begin(&list, None, &none);
    assert!(matches!(action, SetupAction::Register(0)));
    setup.step(None);
    match setup.step(Some("taken".to_string())) {
        SetupAction::RollBack { ids, message } => {
            assert_eq!(ids, vec![1]);
            assert_eq!(message, "b: taken");
        }
        _ => panic!("a refusal was expected"),
    }
    let before = GlobalShortcutRegistry { shortcuts: vec![parsed(9, "old")] };
    let (mut setup, _) = ShortcutSetup::begin(&vec![], None, &before);
    assert!(matches!(setup.step(Some("x".to_string())), SetupAction::Fail(e) if e == "x"));
}

#[test]
fn server_address_is_found() {
    let args = |list: &[&str]| -> Vec<String> { list.iter().map(|s| s.to_string()).collect() };
    assert_eq!(server_address(&args(&["app"])), None);
    assert_eq!(server_address(&args(&["app", "-s"])).as_deref(), Some("0.0.0.0:8000"));
    assert_eq!(
        server_address(&args(&["app", "-s", "127.0.0.1"])).as_deref(),
        Some("127.0.0.1:8000")
    );
    assert_eq!(
        server_address(&args(&["app", "-s", "127.0.0.1:9"])).as_deref(),
        Some("127.0.0.1:9")
    );
    assert_eq!(window_url(38713, "index"), "http://127.0.0.1:38713/index");
    assert_eq!(loopback_address(0), "127.0.0.1:0");
}

#[test]
fn settings_are_answered() {
    assert_eq!(normalize_settings_dir(Some("  ".to_string())), None);
    let settings = changed_settings(Some(" /l ".to_string()));
    assert_eq!(settings.locales_dir.as_deref(), Some("/l"));
    let answer = app_settings_response(&settings, "/default");
    assert_eq!(answer.locales_dir, "/l");
    assert_eq!(answer.default_locales_dir, "/default");
    assert_eq!(answer.configured_locales_dir.as_deref(), Some("/l"));
    assert_eq!(locales_dir(&AppSettings::default(), "/default"), "/default");
}

#[test]
fn files_are_found() {
    assert_eq!(app_settings_path("/data"), "/data/settings.json");
    assert_eq!(default_locales_dir(Some("/bin"), "/data"), "/bin/locales");
    assert_eq!(default_locales_dir(None, "/data"), "/data/locales");
}

#[test]
fn native_dir_is_set_once() {
    let mut slot = None;
    set_foundry_native_dir(&mut slot, "/a".to_string(), false);
    assert_eq!(slot, None);
    set_foundry_native_dir(&mut slot, "/b".to_string(), true);
    set_foundry_native_dir(&mut slot, "/c".to_string(), true);
    assert_eq!(slot.as_deref(), Some("/b"));
    let dir = |a: bool, b: bool| bundled_native_dir("d".to_string(), a, "r".to_string(), b);
    assert_eq!(dir(true, true).as_deref(), Some("d"));
    assert_eq!(dir(false, true).as_deref(), Some("r"));
    assert_eq!(dir(false, false), None);
}

fn object(raw: &str) -> serde_json::Map<String, serde_json::Value> {
    match serde_json::from_str(raw) {
        Ok(serde_json::Value::Object(m)) => m,
        _ => panic!("an object was expected"),
    }
}

#[test]
fn missing_texts_are_merged() {
    let defaults = object(
        "{\"a\": \"A\", \"quick.autoSave\": \"Save\", \"note.analyze\": \"Extract\", \"n\": 1}",
    );
    let mut own = object(
        "{\"quick.autoSave\": \"Auto save\", \"note.analyze\": \"Mine\", \"n\": 2, \"x\": \"X\"}",
    );
    assert!(merge_entries(&mut own, &defaults));
    assert_eq!(
        own,
        object(
            "{\"a\": \"A\", \"quick.autoSave\": \"Save\", \"note.analyze\": \"Mine\", \"n\": 2, \"x\": \"X\"}"
        )
    );
    let once = own.clone();
    assert!(!merge_entries(&mut own, &defaults));
    assert_eq!(own, once);
}

#[test]
fn locale_files_are_merged() {
    let merged = merge_missing_keys("{\"b\":\"x\"}", "{\"a\":\"y\",\"b\":\"z\"}").unwrap();
    assert_eq!(merged.as_deref(), Some("{\n  \"a\": \"y\",\n  \"b\": \"x\"\n}"));
    assert_eq!(merge_missing_keys("{\"a\":\"x\"}", "{\"a\":\"y\"}"), Ok(None));
    assert_eq!(
        merge_missing_keys("[]", "{}"),
        Err("locale file is not a JSON object".to_string())
    );
    assert_eq!(
        merge_missing_keys("{}", "nothing"),
        Err("bundled defaults are not a JSON object".to_string())
    );
    assert_eq!(
        merge_missing_keys("{", "{}"),
        Err("EOF while parsing an object at line 1 column 1".to_string())
    );
}

#[test]
fn locale_files_have_codes() {
    assert_eq!(locale_code("pt-BR", Some("json")).as_deref(), Some("pt-br"));
    assert_eq!(locale_code("en", Some("JSON")), None);
    assert_eq!(locale_code("my file", Some("json")), None);
    assert_eq!(locale_code("en", None), None);
}

#[test]
fn locale_files_are_read() {
    let (code, value) = read_locale("pt-BR", Some("json"), "{\"app\": \"Notas\"}")
        .unwrap()
        .unwrap();
    assert_eq!(code, "pt-br");
    assert_eq!(value.get("app").and_then(|v| v.as_str()), Some("Notas"));
    let (code, value) = read_locale("xx", Some("json"), " 7 ").unwrap().unwrap();
    assert_eq!((code.as_str(), value.as_u64()), ("xx", Some(7)));
    let words = read_locale("en", Some("json"), "{").unwrap().unwrap_err();
    assert!(words.starts_with("EOF while parsing an object"));
    assert!(read_locale("en", Some("txt"), "{}").is_none());
    assert!(read_locale("my file", Some("json"), "{}").is_none());
    assert!(read_locale("en", None, "{}").is_none());
}

#[test]
fn sides_of_keys_follow_the_key() {
    let plain = [
        ("ctrl", 1),
        ("control", 1),
        ("alt", 4),
        ("option", 4),
        ("shift", 7),
        ("meta", 10),
        ("super", 10),
        ("win", 10),
    ];
    for (name, kind) in plain {
        assert_eq!(native_hold_key_kind(name), Some(kind));
        assert_eq!(native_hold_key_kind(&format!("left{}", name)), Some(kind + 1));
        assert_eq!(native_hold_key_kind(&format!("{}left", name)), Some(kind + 1));
        assert_eq!(native_hold_key_kind(&format!("right{}", name)), Some(kind + 2));
        assert_eq!(native_hold_key_kind(&format!("{}right", name)), Some(kind + 2));
    }
    assert_eq!(native_hold_key_kind("\t LeFt_sHi-Ft \n"), Some(8));
    assert_eq!(native_hold_key_kind("- shift"), Some(7));
    assert_eq!(native_hold_key_kind("-\tshift"), None);
}
