use cliprail::clipboard::{ClipCommand, ClipEvent, ClipWatcher, TextSeen};
use cliprail::store::hash_bytes;

#[test]
fn new_text_is_reported_once() {
    let mut w = ClipWatcher::new();
    match w.observe_text("hello".to_string()) {
        TextSeen::New(ClipEvent::Text { text, hash }) => {
            assert_eq!(text, "hello");
            assert_eq!(hash, hash_bytes(b"hello"));
        }
        other => panic!("unexpected {:?}", other),
    }
    assert!(matches!(w.observe_text("hello".to_string()), TextSeen::Unchanged));
    assert!(matches!(w.observe_text(" \n\t".to_string()), TextSeen::Blank));
    assert!(matches!(w.observe_text(String::new()), TextSeen::Blank));
}

#[test]
fn written_content_is_not_reported_back() {
    let mut w = ClipWatcher::new();
    w.wrote(&ClipCommand::SetText("copied".to_string()));
    assert!(matches!(w.observe_text("copied".to_string()), TextSeen::Unchanged));
    w.wrote(&ClipCommand::SetImage { width: 1, height: 1, rgba: vec![1, 2, 3, 4] });
    assert!(w.observe_image(1, 1, vec![1, 2, 3, 4]).is_none());
    match w.observe_image(1, 1, vec![9, 9, 9, 9]) {
        Some(ClipEvent::Image { width, height, rgba, hash }) => {
            assert_eq!((width, height), (1, 1));
            assert_eq!(rgba, vec![9, 9, 9, 9]);
            assert_eq!(hash, hash_bytes(&[9, 9, 9, 9]));
        }
        other => panic!("unexpected {:?}", other),
    }
    assert!(w.observe_image(1, 1, vec![9, 9, 9, 9]).is_none());
}

#[test]
fn a_poll_looks_at_the_picture_only_without_text() {
    let mut w = ClipWatcher::new();
    let p = w.poll_text(None);
    assert!(p.report.is_none() && p.look_at_picture);
    let p = w.poll_text(Some("  ".to_string()));
    assert!(p.report.is_none() && p.look_at_picture);
    let p = w.poll_text(Some("hi".to_string()));
    assert!(matches!(p.report, Some(ClipEvent::Text { ref text, .. }) if text == "hi"));
    assert!(!p.look_at_picture);
    let p = w.poll_text(Some("hi".to_string()));
    assert!(p.report.is_none() && !p.look_at_picture);
}
