use slint_terminal::app::input::{
    configured_key_action, event_key, normalize_key, shortcut_action, KeyAction,
};
use slint_terminal::app::settings::shortcuts::{
    default_shortcuts, normalize_shortcut_key, normalize_shortcuts, parse_shortcut,
    shortcut_label, update_shortcut, validate_shortcuts,
};
use slint_terminal::app::settings::{AppSettings, ShortcutSetting};
use slint_terminal::app::viewport::{plain_key_action, PlainKeyAction};
use slint_terminal::terminal::input::KeyInput;

fn setting(action: &str, shortcut: &str) -> ShortcutSetting {
    ShortcutSetting {
        action: action.to_owned(),
        shortcut: shortcut.to_owned(),
        pass_through: false,
    }
}

fn key_text(key: slint::platform::Key) -> String {
    slint::SharedString::from(key).to_string()
}

#[test]
fn resolves_supported_shortcuts() {
    let settings = AppSettings::defaults();
    assert_eq!(
        configured_key_action(&settings, "c", true, false, false, false).action,
        Some(KeyAction::Copy)
    );
    assert_eq!(
        configured_key_action(&settings, "A", true, false, false, false).action,
        Some(KeyAction::SelectAll)
    );
    assert_eq!(
        configured_key_action(&settings, "v", true, false, false, false).action,
        Some(KeyAction::Paste)
    );
    assert_eq!(
        configured_key_action(&settings, "t", true, false, false, false).action,
        Some(KeyAction::NewTab)
    );
    assert_eq!(
        configured_key_action(&settings, "W", true, false, false, false).action,
        Some(KeyAction::CloseTab)
    );
    assert_eq!(
        configured_key_action(&settings, "C", false, true, false, false).action,
        Some(KeyAction::Interrupt)
    );
    assert_eq!(
        configured_key_action(&settings, "q", false, true, false, false).action,
        Some(KeyAction::Quit)
    );
}

#[test]
fn forwards_unsupported_shortcuts() {
    let settings = AppSettings::defaults();
    for decision in [
        configured_key_action(&settings, "x", true, false, false, false),
        configured_key_action(&settings, "c", true, false, true, false),
        configured_key_action(&settings, "t", true, false, true, false),
        configured_key_action(&settings, "w", true, false, true, false),
        configured_key_action(&settings, "v", true, true, false, false),
        configured_key_action(&settings, "x", false, true, false, false),
    ] {
        assert_eq!(decision.action, None);
        assert!(decision.forward);
    }
}

#[test]
fn forwards_text_and_altgr_input() {
    let settings = AppSettings::defaults();
    assert_eq!(
        configured_key_action(&settings, "x", false, false, false, false).action,
        None
    );
    assert!(configured_key_action(&settings, "X", false, false, true, false).forward);
    assert!(configured_key_action(&settings, "@", true, true, false, true).forward);
}

#[test]
fn configured_shortcuts_are_not_forwarded_by_default() {
    let settings = AppSettings::defaults();
    assert!(!configured_key_action(&settings, "c", true, false, false, false).forward);
}

#[test]
fn configured_shortcuts_can_execute_and_forward() {
    let mut settings = AppSettings::defaults();
    settings.shortcuts[0].pass_through = true;
    let decision = configured_key_action(&settings, "c", true, false, false, false);
    assert_eq!(decision.action, Some(KeyAction::Copy));
    assert!(decision.forward);
}

#[test]
fn altgr_never_triggers_a_shortcut() {
    let settings = AppSettings::defaults();
    let decision = configured_key_action(&settings, "c", true, false, false, true);
    assert_eq!(decision.action, None);
    assert!(decision.forward);
}

#[test]
fn find_has_a_shortcut() {
    let settings = AppSettings::defaults();
    assert_eq!(
        configured_key_action(&settings, "f", true, false, false, false).action,
        Some(KeyAction::Find)
    );
}

#[test]
fn actions_are_known_by_their_names() {
    assert_eq!(shortcut_action("copy"), Some(KeyAction::Copy));
    assert_eq!(shortcut_action("select-all"), Some(KeyAction::SelectAll));
    assert_eq!(shortcut_action("find"), Some(KeyAction::Find));
    assert_eq!(shortcut_action("quit"), Some(KeyAction::Quit));
    assert_eq!(shortcut_action("fly"), None);
}

#[test]
fn named_keys_come_by_their_symbols() {
    assert_eq!(
        event_key(&key_text(slint::platform::Key::F5)),
        Some("F5".to_owned())
    );
    assert_eq!(
        event_key(&key_text(slint::platform::Key::Return)),
        Some("Enter".to_owned())
    );
    assert_eq!(event_key("x"), Some("X".to_owned()));
    assert_eq!(event_key(""), None);
}

#[test]
fn symbols_become_keys_of_the_terminal() {
    assert_eq!(
        normalize_key(&key_text(slint::platform::Key::Return)),
        Some(KeyInput::Return)
    );
    assert_eq!(
        normalize_key(&key_text(slint::platform::Key::UpArrow)),
        Some(KeyInput::Up)
    );
    assert_eq!(
        normalize_key(&key_text(slint::platform::Key::Backtab)),
        Some(KeyInput::Backtab)
    );
    assert_eq!(
        normalize_key(&key_text(slint::platform::Key::F12)),
        Some(KeyInput::Function(12))
    );
    assert_eq!(normalize_key(&key_text(slint::platform::Key::Shift)), None);
    assert_eq!(normalize_key(&key_text(slint::platform::Key::CapsLock)), None);
    assert_eq!(normalize_key(""), None);
    assert_eq!(
        normalize_key("é"),
        Some(KeyInput::Text("é".to_owned()))
    );
}

#[test]
fn plain_views_know_the_chords_of_the_clipboard() {
    assert_eq!(plain_key_action("V", true, true), PlainKeyAction::Paste);
    assert_eq!(plain_key_action("c", true, true), PlainKeyAction::Copy);
    assert_eq!(plain_key_action("c", true, false), PlainKeyAction::Send);
    assert_eq!(plain_key_action("x", true, true), PlainKeyAction::Send);
}

#[test]
fn shortcut_parser_normalizes_modifiers_and_key() {
    let shortcut = parse_shortcut("shift + control + t").unwrap();
    assert!(shortcut.control);
    assert!(shortcut.shift);
    assert!(!shortcut.alt);
    assert_eq!(shortcut.key, "T");
    assert_eq!(shortcut.display(), "Ctrl+Shift+T");
}

#[test]
fn shortcut_parser_reports_each_problem() {
    assert_eq!(parse_shortcut("Ctrl").unwrap_err(), "错误：快捷键缺少主按键");
    assert_eq!(parse_shortcut("").unwrap_err(), "错误：快捷键缺少主按键");
    assert_eq!(
        parse_shortcut("Ctrl+A+B").unwrap_err(),
        "错误：快捷键只能包含一个主按键"
    );
    assert_eq!(
        parse_shortcut("Ctrl+Nope").unwrap_err(),
        "错误：不支持的快捷键主按键：Nope"
    );
    assert!(parse_shortcut("A").unwrap_err().contains("修饰键"));
}

#[test]
fn written_shortcuts_are_read_back() {
    for written in ["Ctrl+C", "Alt+Shift+F10", "Ctrl+Alt+PageDown", "Shift+,"] {
        assert_eq!(parse_shortcut(written).unwrap().display(), written);
    }
}

#[test]
fn keys_have_a_normal_form() {
    assert_eq!(normalize_shortcut_key("pageup").unwrap(), "PageUp");
    assert_eq!(normalize_shortcut_key("é").unwrap(), "É");
    assert_eq!(normalize_shortcut_key("ß").unwrap(), "SS");
    assert!(normalize_shortcut_key("\u{7}").is_err());
}

#[test]
fn migrates_previous_tab_shortcut_defaults() {
    let mut settings = AppSettings::defaults();
    settings
        .shortcuts
        .iter_mut()
        .find(|setting| setting.action == "new-tab")
        .unwrap()
        .shortcut = "Ctrl+Shift+T".to_owned();
    settings
        .shortcuts
        .iter_mut()
        .find(|setting| setting.action == "close-tab")
        .unwrap()
        .shortcut = "Ctrl+Shift+W".to_owned();
    settings.normalize(&Vec::new());
    assert_eq!(
        settings
            .shortcuts
            .iter()
            .find(|setting| setting.action == "new-tab")
            .unwrap()
            .shortcut,
        "Ctrl+T"
    );
    assert_eq!(
        settings
            .shortcuts
            .iter()
            .find(|setting| setting.action == "close-tab")
            .unwrap()
            .shortcut,
        "Ctrl+W"
    );
}

#[test]
fn adds_find_shortcut_to_existing_settings() {
    let mut settings = AppSettings::defaults();
    settings
        .shortcuts
        .retain(|setting| setting.action != "find");

    settings.normalize(&Vec::new());

    let find = settings
        .shortcuts
        .iter()
        .find(|setting| setting.action == "find")
        .unwrap();
    assert_eq!(find.shortcut, "Ctrl+F");
    assert!(!find.pass_through);
}

#[test]
fn normalizing_shortcuts_twice_changes_nothing() {
    let mut shortcuts = vec![
        setting("quit", " Alt+F4 "),
        setting("new-tab", "Ctrl+Shift+T"),
        setting("copy", "nonsense"),
        setting("fly", "Ctrl+Y"),
    ];
    normalize_shortcuts(&mut shortcuts);
    assert_eq!(shortcuts.len(), 8);
    assert_eq!(shortcuts[0], setting("copy", "Ctrl+C"));
    assert_eq!(shortcuts[5], setting("new-tab", "Ctrl+T"));
    assert_eq!(shortcuts[7], setting("quit", "Alt+F4"));
    let once: Vec<String> = shortcuts.iter().map(|s| s.shortcut.clone()).collect();
    normalize_shortcuts(&mut shortcuts);
    let twice: Vec<String> = shortcuts.iter().map(|s| s.shortcut.clone()).collect();
    assert_eq!(once, twice);
}

#[test]
fn shortcut_update_rejects_conflicts() {
    let mut settings = AppSettings::defaults();
    let error = update_shortcut(&mut settings, "paste", "Ctrl+C", false).unwrap_err();
    assert!(error.contains("已被其他功能使用"));
}

#[test]
fn shortcut_update_persists_forwarding_choice() {
    let mut settings = AppSettings::defaults();
    update_shortcut(&mut settings, "copy", "Alt+X", true).unwrap();
    let copy = settings
        .shortcuts
        .iter()
        .find(|setting| setting.action == "copy")
        .unwrap();
    assert_eq!(copy.shortcut, "Alt+X");
    assert!(copy.pass_through);
}

#[test]
fn shortcut_update_reports_unknown_and_missing_actions() {
    let mut settings = AppSettings::defaults();
    assert_eq!(
        update_shortcut(&mut settings, "fly", "Ctrl+Y", false).unwrap_err(),
        "错误：未知的快捷键功能"
    );
    settings.shortcuts.clear();
    assert_eq!(
        update_shortcut(&mut settings, "copy", "Ctrl+Y", false).unwrap_err(),
        "错误：找不到快捷键设置"
    );
    assert!(update_shortcut(&mut settings, "copy", "Y", false).is_err());
}

#[test]
fn shortcut_update_keeps_the_other_actions() {
    let mut settings = AppSettings::defaults();
    update_shortcut(&mut settings, "paste", "shift+insert", false).unwrap();
    assert_eq!(settings.shortcuts[2], setting("paste", "Shift+Insert"));
    assert_eq!(settings.shortcuts[0], setting("copy", "Ctrl+C"));
    assert!(validate_shortcuts(&settings.shortcuts).is_ok());
}

#[test]
fn shortcuts_are_checked() {
    assert!(validate_shortcuts(&default_shortcuts()).is_ok());
    assert_eq!(
        validate_shortcuts(&vec![setting("fly", "Ctrl+Y")]).unwrap_err(),
        "未知的快捷键功能：fly"
    );
    assert_eq!(
        validate_shortcuts(&vec![setting("copy", "Ctrl+Y"), setting("copy", "Ctrl+Z")])
            .unwrap_err(),
        "快捷键功能 copy 重复"
    );
    assert_eq!(
        validate_shortcuts(&vec![setting("copy", "Ctrl+Y"), setting("paste", "control + y")])
            .unwrap_err(),
        "快捷键 Ctrl+Y 重复"
    );
    assert!(validate_shortcuts(&vec![setting("copy", "Y")]).is_err());
}

#[test]
fn shortcuts_have_labels() {
    assert_eq!(shortcut_label("copy"), Some("复制"));
    assert_eq!(shortcut_label("quit"), Some("退出应用"));
    assert_eq!(shortcut_label("fly"), None);
}

#[test]
fn changes_keep_the_check() {
    let mut settings = AppSettings::defaults();
    settings.shortcuts[0].shortcut = "Ctrl+ß".to_owned();
    assert!(validate_shortcuts(&settings.shortcuts).is_ok());
    update_shortcut(&mut settings, "paste", "Ctrl+S", false).unwrap();
    assert!(validate_shortcuts(&settings.shortcuts).is_ok());
    update_shortcut(&mut settings, "paste", "Ctrl+S", true).unwrap();
    assert!(validate_shortcuts(&settings.shortcuts).is_ok());
}

#[test]
fn chords_that_are_not_read_again_fail_the_check() {
    let mut settings = AppSettings::defaults();
    update_shortcut(&mut settings, "paste", "Ctrl+ß", false).unwrap();
    assert_eq!(settings.shortcuts[2].shortcut, "Ctrl+SS");
    assert!(validate_shortcuts(&settings.shortcuts).is_err());
}

#[test]
fn different_chords_are_written_differently() {
    let written = [
        "Ctrl+A",
        "Alt+A",
        "Shift+A",
        "Ctrl+Alt+A",
        "Ctrl+Shift+A",
        "Alt+Shift+A",
        "Ctrl+Alt+Shift+A",
        "Ctrl+B",
    ];
    for (index, one) in written.iter().enumerate() {
        let chord = parse_shortcut(one).unwrap();
        assert_eq!(chord.display(), *one);
        for other in &written[index + 1..] {
            assert_ne!(chord.display(), parse_shortcut(other).unwrap().display());
        }
    }
}
