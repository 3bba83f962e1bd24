use cliprail::clipboard::{ClipCommand, ClipWatcher, TextSeen};
use cliprail::hotkey::{normalize, parse, parse_code, parse_normalized, Hotkey, HotkeyError, MainKey, Modifiers};

fn mods(control: bool, alt: bool, shift: bool, super_key: bool) -> Modifiers {
    Modifiers { control, alt, shift, super_key }
}

#[test]
fn parses_alt_shift_v() {
    assert_eq!(
        parse("alt+shift+v"),
        Ok(Hotkey { modifiers: mods(false, true, true, false), key: MainKey::Letter('v') })
    );
}

#[test]
fn parses_ctrl_alt_c_and_super_shift_f2() {
    assert_eq!(
        parse("ctrl+alt+c"),
        Ok(Hotkey { modifiers: mods(true, true, false, false), key: MainKey::Letter('c') })
    );
    assert_eq!(
        parse("super+shift+f2"),
        Ok(Hotkey { modifiers: mods(false, false, true, true), key: MainKey::Function(2) })
    );
}

#[test]
fn modifier_synonyms() {
    let expected = Hotkey { modifiers: mods(true, true, false, true), key: MainKey::Function(12) };
    assert_eq!(parse("control+option+win+f12"), Ok(expected));
    assert_eq!(parse("ctrl+alt+meta+f12"), Ok(expected));
    assert_eq!(parse("ctrl+alt+cmd+f12"), Ok(expected));
}

#[test]
fn case_and_white_space_are_ignored() {
    let expected = Hotkey { modifiers: mods(false, true, true, false), key: MainKey::Letter('v') };
    assert_eq!(parse("  Alt + SHIFT +V \t"), Ok(expected));
    assert_eq!(parse("ALT++shift+v"), Ok(expected));
    assert_eq!(normalize("  Alt+Shift+V "), "alt+shift+v");
}

#[test]
fn empty_is_refused() {
    assert_eq!(parse(""), Err(HotkeyError::Empty));
    assert_eq!(parse("   "), Err(HotkeyError::Empty));
    assert_eq!(parse_normalized(""), Err(HotkeyError::Empty));
}

#[test]
fn two_main_keys_are_refused() {
    assert_eq!(parse("alt+a+b"), Err(HotkeyError::MultipleMainKeys));
    // The second main key is refused even when it is not a valid key.
    assert_eq!(parse("alt+a+zz"), Err(HotkeyError::MultipleMainKeys));
}

#[test]
fn missing_main_key_is_refused() {
    assert_eq!(parse("alt+shift"), Err(HotkeyError::MissingMainKey));
    assert_eq!(parse("+"), Err(HotkeyError::MissingMainKey));
}

#[test]
fn missing_modifier_is_refused() {
    assert_eq!(parse("v"), Err(HotkeyError::NoModifier));
    assert_eq!(parse("f5"), Err(HotkeyError::NoModifier));
}

#[test]
fn unsupported_keys_are_refused() {
    assert_eq!(parse("alt+f13"), Err(HotkeyError::UnsupportedKey("f13".to_string())));
    assert_eq!(parse("alt+1"), Err(HotkeyError::UnsupportedKey("1".to_string())));
    assert_eq!(parse("alt+ Space "), Err(HotkeyError::UnsupportedKey("space".to_string())));
    assert_eq!(parse("ctrl+f0"), Err(HotkeyError::UnsupportedKey("f0".to_string())));
}

#[test]
fn error_messages() {
    assert_eq!(HotkeyError::Empty.message(), "快捷键不能为空");
    assert_eq!(HotkeyError::MultipleMainKeys.message(), "只能设置一个主键");
    assert_eq!(HotkeyError::MissingMainKey.message(), "缺少主键（A–Z 或 F1–F12）");
    assert_eq!(HotkeyError::NoModifier.message(), "至少需要一个修饰键（Ctrl / Alt / Shift / Super）");
    assert_eq!(HotkeyError::UnsupportedKey("f13".to_string()).message(), "不支持的按键：f13");
}

#[test]
fn main_key_table() {
    let code = |s: &str| parse_code(&s.chars().collect::<Vec<char>>());
    assert_eq!(code("a"), Some(MainKey::Letter('a')));
    assert_eq!(code("z"), Some(MainKey::Letter('z')));
    assert_eq!(code("f1"), Some(MainKey::Function(1)));
    assert_eq!(code("f9"), Some(MainKey::Function(9)));
    assert_eq!(code("f10"), Some(MainKey::Function(10)));
    assert_eq!(code("f12"), Some(MainKey::Function(12)));
    assert_eq!(code("A"), None);
    assert_eq!(code("f13"), None);
    assert_eq!(code("ff"), None);
    assert_eq!(code(""), None);
}

#[test]
fn registration_messages() {
    assert_eq!(
        cliprail::hotkey::no_global_hotkeys_message(),
        "当前系统不支持全局快捷键，可使用 ClipRail --toggle"
    );
    assert_eq!(
        cliprail::hotkey::registration_failed_message("already registered"),
        "快捷键注册失败（可能与其他程序冲突）：already registered"
    );
}

#[test]
fn order_spacing_empty_pieces_and_aliases_do_not_matter() {
    let expected = parse("alt+shift+v");
    assert!(expected.is_ok());
    assert_eq!(parse("v+shift+alt"), expected);
    assert_eq!(parse("shift + v + option"), expected);
    assert_eq!(parse("alt++shift+v+"), expected);
    assert_eq!(parse("alt+shift+alt+v"), expected);
    assert_eq!(parse("option+shift+v"), expected);
    assert_eq!(parse("cmd+f2"), parse("win + F2"));
    assert_eq!(parse("meta+f2"), parse("super+f2"));
}

#[test]
fn each_text_reported_once_across_polls() {
    let mut w = ClipWatcher::new();
    let polls = ["a", "a", " ", "b", "b", "a", "", "a"];
    let reports: Vec<bool> = polls
        .iter()
        .map(|t| matches!(w.observe_text(t.to_string()), TextSeen::New(_)))
        .collect();
    assert_eq!(reports, vec![true, false, false, true, false, true, false, false]);
    w.wrote(&ClipCommand::SetText("c".to_string()));
    assert!(matches!(w.observe_text("c".to_string()), TextSeen::Unchanged));
    assert!(matches!(w.observe_text("a".to_string()), TextSeen::New(_)));
}
