use cliprail::platform::{hotkey_fallback_hint, is_wayland};
use cliprail::text::{
    decimal_string, hex_string, is_blank, signed_decimal_string, split_chars, trim_str,
};
use cliprail::theme::cjk_font_candidates;

#[test]
fn decimal_and_hex() {
    assert_eq!(decimal_string(0), "0");
    assert_eq!(decimal_string(1234567890), "1234567890");
    assert_eq!(decimal_string(u64::MAX), u64::MAX.to_string());
    assert_eq!(signed_decimal_string(i64::MIN), i64::MIN.to_string());
    assert_eq!(signed_decimal_string(-42), "-42");
    assert_eq!(hex_string(&[0x00, 0x0f, 0xa5, 0xff]), "000fa5ff");
}

#[test]
fn trimming_and_splitting() {
    assert_eq!(trim_str("\u{3000} a b \n"), "a b");
    assert_eq!(trim_str("   "), "");
    assert!(is_blank(" \u{a0}\t"));
    assert!(!is_blank(" x "));
    let parts = split_chars(&"a++b".chars().collect::<Vec<char>>(), '+');
    let parts: Vec<String> = parts.into_iter().map(|p| p.into_iter().collect()).collect();
    assert_eq!(parts, vec!["a", "", "b"]);
    assert_eq!(cliprail::hotkey::normalize(" ALT+Ä "), "alt+ä");
}

#[test]
fn platform_hints() {
    assert!(!is_wayland(true, true));
    assert!(is_wayland(false, true));
    assert!(!is_wayland(false, false));
    assert!(!cliprail::platform::windows::is_wayland());
    assert_eq!(hotkey_fallback_hint(true), "Wayland 限制下可将系统快捷键绑定到：ClipRail --toggle");
    assert_eq!(hotkey_fallback_hint(false), "可在设置中更换快捷键，或使用：ClipRail --toggle");
}

#[test]
fn font_candidates() {
    let fonts = cjk_font_candidates();
    assert_eq!(fonts.len(), 14);
    assert_eq!(fonts[0], "C:/Windows/Fonts/msyh.ttc");
    assert_eq!(fonts[13], "/usr/share/fonts/truetype/dejavu/DejaVuSans.ttf");
}
