use cliprail::model::{ClipItem, ClipKind, Settings};
use cliprail::store::{
    archives_dir, clean_loaded, clips_file, data_dir, format_ts, hash_bytes, image_file, images_dir,
    local_date_key, new_id, settings_file, shown_or, sort_pinned_first, toggle_file,
};

fn item(id: &str, hash: &str, pinned: bool) -> ClipItem {
    let mut it = ClipItem::new_text(id.to_string(), format!("text {}", id), hash.to_string(), 100);
    it.pinned = pinned;
    it
}

fn image(id: &str, hash: &str) -> ClipItem {
    ClipItem::new_image(id.to_string(), format!("data/images/{}.png", id), hash.to_string(), 100, 4, 3)
}

fn ids(items: &[ClipItem]) -> Vec<String> {
    items.iter().map(|i| i.id.clone()).collect()
}

#[test]
fn sort_puts_pinned_first_and_keeps_order() {
    let mut items = vec![
        item("a", "ha", false),
        item("b", "hb", true),
        item("c", "hc", false),
        item("d", "hd", true),
    ];
    sort_pinned_first(&mut items);
    assert_eq!(ids(&items), vec!["b", "d", "a", "c"]);
    // Sorting again changes nothing.
    sort_pinned_first(&mut items);
    assert_eq!(ids(&items), vec!["b", "d", "a", "c"]);
}

#[test]
fn sha256_hashes_in_lower_hex() {
    assert_eq!(hash_bytes(b"abc"), "ba7816bf8f01cfea414140de5dae2223b00361a396177a9cb410ff61f20015ad");
    assert_eq!(hash_bytes(b""), "e3b0c44298fc1c149afbf4c8996fb92427ae41e4649b934ca495991b7852b855");
    assert_eq!(hash_bytes("你好".as_bytes()).len(), 64);
}

#[test]
fn ids_are_time_dash_hash_prefix() {
    assert_eq!(new_id(1700000000, "0123456789abcdef"), "1700000000-01234567");
    assert_eq!(new_id(-5, "abc"), "-5-abc");
    assert_eq!(new_id(0, ""), "0-");
    assert_eq!(new_id(42, "ffffffffffff"), "42-ffffffff");
}

#[test]
fn relative_paths() {
    assert_eq!(data_dir(), "data");
    assert_eq!(images_dir(), "data/images");
    assert_eq!(archives_dir(), "data/archives");
    assert_eq!(clips_file(), "data/clips.json");
    assert_eq!(settings_file(), "data/settings.json");
    assert_eq!(toggle_file(), "data/.toggle");
    assert_eq!(image_file("12-ab"), "data/images/12-ab.png");
}

#[test]
fn time_formatting() {
    assert_eq!(format_ts(i64::MAX, "%Y-%m-%d"), "-");
    assert_eq!(local_date_key(i64::MAX), "未知日期");
    let day = format_ts(86400 * 365, "%Y-%m-%d");
    assert_eq!(day.len(), 10);
    assert!(day.starts_with("1970-12-3") || day.starts_with("1971-01-01"));
    assert_eq!(local_date_key(86400 * 365), day);
    assert_eq!(item("x", "h", false).date_key(), format_ts(100, "%Y-%m-%d"));
    assert_eq!(shown_or(Some("12:30".to_string()), "-"), "12:30");
    assert_eq!(shown_or(None, "未知日期"), "未知日期");
}

#[test]
fn times_outside_the_date_range_have_no_local_form() {
    assert_eq!(format_ts(8_210_266_876_800, "%Y"), "-");
    assert_eq!(format_ts(-8_334_601_228_801, "%Y"), "-");
    assert_eq!(local_date_key(i64::MIN), "未知日期");
    assert_ne!(format_ts(8_210_266_876_799, "%Y"), "-");
    assert_ne!(format_ts(-8_334_601_228_800, "%Y"), "-");
    assert_ne!(local_date_key(0), "未知日期");
    let far = ClipItem::new_text("f".into(), "t".into(), "h".into(), 9_000_000_000_000);
    assert_eq!(far.date_key(), "未知日期");
    assert_eq!(far.local_time(), "-");
}

#[test]
fn loading_drops_duplicates_empty_hashes_and_missing_pictures() {
    let items = vec![
        item("a", "h1", false),
        item("b", "", false),
        image("c", "h2"),
        image("d", "h2"),
        item("e", "h1", true),
        item("f", "h3", true),
        item("g", "h4", false),
    ];
    let present = vec![true, true, false, true, true, true, true];
    let kept = clean_loaded(items, &present);
    // "c" lacks its picture but still claims hash h2, so "d" is dropped too.
    assert_eq!(ids(&kept), vec!["f", "a", "g"]);
}

#[test]
fn default_settings() {
    let s = Settings::default();
    assert_eq!(s.hotkey, "alt+shift+v");
    assert!(s.edge_hide);
    assert!(!s.panel_pinned);
}

#[test]
fn records_are_built_unpinned() {
    let t = ClipItem::new_text("1".into(), "hi".into(), "h".into(), 7);
    assert_eq!(t.kind, ClipKind::Text);
    assert!(!t.pinned && t.image_path.is_empty() && t.width == 0);
    let i = image("2", "h");
    assert_eq!(i.kind, ClipKind::Image);
    assert!(i.text.is_empty() && i.width == 4 && i.height == 3);
    let d = i.duplicate();
    assert_eq!((d.id, d.image_path, d.hash), (i.id, i.image_path, i.hash));
}

#[test]
fn card_texts() {
    let short = item("s", "h", false);
    assert_eq!(short.preview(), "text s");
    assert_eq!(short.char_count(), 6);
    assert_eq!(short.meta_label(), "文本 · 6 字");
    let long = ClipItem::new_text("l".into(), "字".repeat(301), "h".into(), 0);
    assert_eq!(long.char_count(), 301);
    let p = long.preview();
    assert_eq!(p.chars().count(), 301);
    assert!(p.ends_with("字…"));
    let exact = ClipItem::new_text("e".into(), "a".repeat(300), "h".into(), 0);
    assert_eq!(exact.preview(), "a".repeat(300));
    assert_eq!(image("i", "h").meta_label(), "图片 · 4×3");
    let unknown = ClipItem::new_image("u".into(), "p".into(), "h".into(), 0, 0, 0);
    assert_eq!(unknown.meta_label(), "图片");
    assert_eq!(short.local_time(), format_ts(100, "%m-%d %H:%M"));
}
