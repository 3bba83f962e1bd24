use cliprail::app::{
    bulk_controls, delete_button_label, empty_list_message, section_heading, BulkControls, Heading,
    today_string, Action, App, DateFilter, DragState, DropPoint, Effect, HotkeyPress, PanelCommand,
};
use cliprail::model::{ClipItem, Settings};

fn text(id: &str, hash: &str, pinned: bool) -> ClipItem {
    let mut it = ClipItem::new_text(id.to_string(), format!("text {}", id), hash.to_string(), 100);
    it.pinned = pinned;
    it
}

fn image(id: &str, hash: &str) -> ClipItem {
    ClipItem::new_image(id.to_string(), format!("data/images/{}.png", id), hash.to_string(), 100, 2, 2)
}

fn app(items: Vec<ClipItem>) -> App {
    App::new(Settings::default(), items, Ok(7))
}

fn ids(app: &App) -> Vec<String> {
    app.items.iter().map(|i| i.id.clone()).collect()
}

fn dates(app: &App, d: &str) -> Vec<String> {
    app.items.iter().map(|_| d.to_string()).collect()
}

fn sorted_selection(app: &App) -> Vec<String> {
    let mut s = app.selected.clone();
    s.sort();
    s.dedup();
    s
}

#[test]
fn start_up_state() {
    let a = App::new(Settings::default(), vec![text("a", "h", false)], Err("冲突".to_string()));
    assert_eq!(a.hotkey_id, None);
    assert_eq!(a.hotkey_error.as_deref(), Some("冲突（可在设置中更换，或使用 ClipRail --toggle）"));
    assert_eq!(a.draft_hotkey, "alt+shift+v");
    assert!(a.draft_edge_hide && !a.show_settings && !a.dirty);
    let b = app(vec![]);
    assert_eq!(b.hotkey_id, Some(7));
    assert!(b.hotkey_error.is_none());
}

#[test]
fn new_text_goes_after_pinned_and_duplicates_are_refused() {
    let mut a = app(vec![text("p", "hp", true), text("u", "hu", false)]);
    assert!(a.add_text_clip("hello".to_string(), "hn".to_string(), 1_700_000_000));
    assert_eq!(a.items[1].text, "hello");
    assert_eq!(a.items[1].hash, "hn");
    assert!(a.items[1].id.ends_with("-hn"));
    assert!(a.dirty);
    assert!(!a.add_text_clip("hello again".to_string(), "hu".to_string(), 1_700_000_000));
    assert_eq!(a.items.len(), 3);
    assert!(a.insert_clip(image("i", "hi")));
    assert_eq!(ids(&a)[1], "i");
    assert!(!a.insert_clip(image("j", "hi")));
}

#[test]
fn toggling_a_pin_resorts() {
    let mut a = app(vec![text("p", "hp", true), text("u1", "h1", false), text("u2", "h2", false)]);
    a.toggle_pin(&"u2".to_string());
    assert_eq!(ids(&a), vec!["p", "u2", "u1"]);
    assert!(a.items[1].pinned);
    a.toggle_pin(&"p".to_string());
    assert_eq!(ids(&a), vec!["u2", "p", "u1"]);
    a.toggle_pin(&"missing".to_string());
    assert_eq!(ids(&a), vec!["u2", "p", "u1"]);
}

#[test]
fn dragging_reorders() {
    let mut a = app(vec![text("p", "hp", true), text("a", "ha", false), text("b", "hb", false), text("c", "hc", false)]);
    a.reorder(&"c".to_string(), &Some("a".to_string()));
    assert_eq!(ids(&a), vec!["p", "c", "a", "b"]);
    a.reorder(&"c".to_string(), &None);
    assert_eq!(ids(&a), vec!["p", "a", "b", "c"]);
    // An unpinned record cannot be dragged above a pinned one.
    a.reorder(&"b".to_string(), &Some("p".to_string()));
    assert_eq!(ids(&a), vec!["p", "b", "a", "c"]);
    a.dirty = false;
    a.reorder(&"zz".to_string(), &None);
    assert!(!a.dirty);
}

#[test]
fn deleting_removes_records_selection_and_pictures() {
    let mut a = app(vec![text("a", "ha", false), image("b", "hb"), text("c", "hc", false)]);
    a.add_to_selection(&"a".to_string());
    a.add_to_selection(&"b".to_string());
    a.add_to_selection(&"c".to_string());
    let effects = a.delete_ids(&vec!["b".to_string(), "a".to_string()]);
    assert_eq!(ids(&a), vec!["c"]);
    assert_eq!(sorted_selection(&a), vec!["c"]);
    assert!(matches!(&effects[0], Effect::DeleteImage(p) if p == "data/images/b.png"));
    assert!(matches!(&effects[1], Effect::ForgetPreview(i) if i == "b"));
    assert!(matches!(&effects[2], Effect::ForgetPreview(i) if i == "a"));
    assert_eq!(effects.len(), 3);
    a.dirty = false;
    assert!(a.delete_ids(&vec![]).is_empty());
    assert!(!a.dirty);
}

#[test]
fn selection_toggles() {
    let mut a = app(vec![text("a", "ha", false), text("b", "hb", false)]);
    a.toggle_select(&"a".to_string());
    assert_eq!(sorted_selection(&a), vec!["a"]);
    a.toggle_select(&"a".to_string());
    assert!(a.selected.is_empty());
    let d = dates(&a, "2024-01-01");
    a.apply(Action::SelectAllVisible, &d, "2024-01-01");
    assert_eq!(sorted_selection(&a), vec!["a", "b"]);
    a.apply(Action::ClearSelection, &d, "2024-01-01");
    assert!(a.selected.is_empty());
}

#[test]
fn copying_asks_for_the_content() {
    let mut a = app(vec![text("a", "ha", false), image("b", "hb")]);
    let e = a.copy_to_clipboard(&"a".to_string());
    assert!(matches!(&e[..], [Effect::CopyText(t)] if t == "text a"));
    assert_eq!(a.copied.as_deref(), Some("a"));
    let e = a.copy_to_clipboard(&"b".to_string());
    assert!(matches!(&e[..], [Effect::CopyImage(p)] if p == "data/images/b.png"));
    assert!(a.copy_to_clipboard(&"zz".to_string()).is_empty());
    assert_eq!(a.copied.as_deref(), Some("b"));
    a.expire_copied(900);
    assert_eq!(a.copied.as_deref(), Some("b"));
    a.expire_copied(1001);
    assert!(a.copied.is_none());
}

#[test]
fn drag_out_deletes_and_escape_cancels() {
    let mut a = app(vec![text("a", "ha", false), image("b", "hb")]);
    let d = dates(&a, "x");
    a.apply(Action::DragStart("b".to_string()), &d, "x");
    assert!(matches!(&a.drag, Some(DragState { id }) if id == "b"));
    a.cancel();
    assert!(a.drag.is_none());
    assert_eq!(ids(&a), vec!["a", "b"]);
    a.apply(Action::DragStart("b".to_string()), &d, "x");
    let e = a.apply(Action::DragStop(DropPoint::OutsideWindow), &d, "x");
    assert_eq!(ids(&a), vec!["a"]);
    assert_eq!(e.len(), 2);
    let d = dates(&a, "x");
    a.apply(Action::DragStart("a".to_string()), &d, "x");
    assert!(a.apply(Action::DragStop(DropPoint::NoPointer), &d, "x").is_empty());
    assert!(a.drag.is_none());
    assert_eq!(ids(&a), vec!["a"]);
}

#[test]
fn drag_inside_moves() {
    let mut a = app(vec![text("a", "ha", false), text("b", "hb", false)]);
    let d = dates(&a, "x");
    a.apply(Action::DragStart("b".to_string()), &d, "x");
    a.apply(Action::DragStop(DropPoint::Before(Some("a".to_string()))), &d, "x");
    assert_eq!(ids(&a), vec!["b", "a"]);
}

#[test]
fn delete_selected_action() {
    let mut a = app(vec![text("a", "ha", false), text("b", "hb", false), text("c", "hc", false)]);
    let d = dates(&a, "x");
    a.apply(Action::ToggleSelect("a".to_string()), &d, "x");
    a.apply(Action::ToggleSelect("c".to_string()), &d, "x");
    a.apply(Action::DeleteSelected, &d, "x");
    assert_eq!(ids(&a), vec!["b"]);
    assert!(a.selected.is_empty());
}

#[test]
fn settings_dialog() {
    let mut a = app(vec![]);
    a.settings.hotkey = "ctrl+alt+c".to_string();
    a.apply(Action::OpenSettings, &[], "x");
    assert!(a.show_settings);
    assert_eq!(a.draft_hotkey, "ctrl+alt+c");
    a.draft_hotkey = "  Alt+Shift+X ".to_string();
    a.draft_edge_hide = false;
    let draft = a.settings_draft();
    assert_eq!(draft, "alt+shift+x");
    assert!(!a.save_settings_draft(draft.clone(), Err("注册失败".to_string())));
    assert_eq!(a.settings_error.as_deref(), Some("注册失败"));
    assert!(a.show_settings);
    assert_eq!(a.settings.hotkey, "ctrl+alt+c");
    assert!(a.save_settings_draft(draft, Ok(9)));
    assert_eq!(a.settings.hotkey, "alt+shift+x");
    assert!(!a.settings.edge_hide);
    assert!(!a.show_settings && a.settings_error.is_none());
    assert_eq!(a.hotkey_id, Some(9));
    a.open_settings();
    a.settings_error = Some("e".to_string());
    a.close_settings();
    assert!(!a.show_settings && a.settings_error.is_none());
}

#[test]
fn panel_pin_and_hiding() {
    let mut a = app(vec![]);
    let e = a.apply(Action::TogglePanelPin, &[], "x");
    assert!(matches!(&e[..], [Effect::SetOnTop(true)]));
    assert!(a.settings.panel_pinned);
    assert_eq!(a.toggle_panel(), PanelCommand::CollapseToEdge);
    assert!(a.collapsed);
    assert_eq!(a.toggle_panel(), PanelCommand::Show);
    assert!(!a.collapsed && !a.hidden);
    a.settings.edge_hide = false;
    assert_eq!(a.hide_panel(), PanelCommand::Hide);
    assert_eq!(a.hide_panel(), PanelCommand::Nothing);
    assert_eq!(a.show_panel(), PanelCommand::Show);
    assert_eq!(a.show_panel(), PanelCommand::Nothing);
}

#[test]
fn auto_hide() {
    let mut a = app(vec![]);
    // Pinned panels stay.
    a.settings.panel_pinned = true;
    let r = a.update_autohide(false, false, 5000, 5000);
    assert!(!r.keep_alive && r.command == PanelCommand::Nothing);
    a.settings.panel_pinned = false;
    // Just shown, or recently used: stays.
    assert_eq!(a.update_autohide(false, false, 100, 5000).command, PanelCommand::Nothing);
    assert_eq!(a.update_autohide(false, false, 5000, 650).command, PanelCommand::Nothing);
    // In use: stays and the timer restarts.
    assert!(a.update_autohide(true, false, 5000, 5000).keep_alive);
    a.show_settings = true;
    assert!(a.update_autohide(false, false, 5000, 5000).keep_alive);
    a.show_settings = false;
    // Idle: collapses to the edge.
    assert_eq!(a.update_autohide(false, false, 5000, 651).command, PanelCommand::CollapseToEdge);
    assert!(a.collapsed);
    // The pointer over the strip brings it back.
    let r = a.update_autohide(true, false, 0, 0);
    assert!(r.keep_alive && r.command == PanelCommand::Show);
    a.settings.edge_hide = false;
    assert_eq!(a.update_autohide(false, false, 5000, 5000).command, PanelCommand::Hide);
    assert_eq!(a.update_autohide(true, true, 5000, 5000).command, PanelCommand::Nothing);
}

#[test]
fn hotkey_events_and_saving() {
    let mut a = app(vec![]);
    assert_eq!(a.global_hotkey_press(7, 300), HotkeyPress::Toggle);
    assert_eq!(a.global_hotkey_press(7, 100), HotkeyPress::Debounced);
    assert_eq!(a.global_hotkey_press(8, 300), HotkeyPress::Ignored);
    a.hotkey_id = None;
    assert_eq!(a.global_hotkey_press(8, 300), HotkeyPress::Toggle);
    assert!(cliprail::app::local_hotkey_fires(true, 201));
    assert!(!cliprail::app::local_hotkey_fires(true, 200));
    assert!(!cliprail::app::local_hotkey_fires(false, 900));
    assert!(!a.needs_save(true, 0));
    a.dirty = true;
    assert!(a.needs_save(true, 0));
    assert!(!a.needs_save(false, 699));
    assert!(a.needs_save(false, 700));
    a.mark_saved();
    assert!(!a.dirty);
}

#[test]
fn date_filters_and_labels() {
    let mut a = app(vec![text("a", "ha", false), text("b", "hb", false), text("c", "hc", false)]);
    let d = vec!["2024-05-02".to_string(), "2024-05-01".to_string(), "2024-05-02".to_string()];
    assert_eq!(a.visible_indices(&d, "2024-05-02"), vec![0, 1, 2]);
    assert_eq!(a.filter_label(&d, "2024-05-02"), "全部记录（3）");
    a.apply(Action::SetFilter(DateFilter::Today), &d, "2024-05-02");
    assert_eq!(a.visible_indices(&d, "2024-05-02"), vec![0, 2]);
    assert_eq!(a.filter_label(&d, "2024-05-02"), "今天（2）");
    a.set_filter(DateFilter::Day("2024-05-01".to_string()));
    assert_eq!(a.visible_indices(&d, "2024-05-02"), vec![1]);
    assert_eq!(a.filter_label(&d, "2024-05-02"), "2024-05-01（1）");
    a.apply(Action::SelectAllVisible, &d, "2024-05-02");
    assert_eq!(sorted_selection(&a), vec!["b"]);
    assert_eq!(a.count_for_date(&d, "2024-05-02"), 2);
    assert_eq!(a.count_for_date(&d, "1999-01-01"), 0);
    assert_eq!(
        a.date_options(&d),
        vec![("2024-05-02".to_string(), 2), ("2024-05-01".to_string(), 1)]
    );
    assert_eq!(today_string(1_700_000_000).len(), 10);
    assert_eq!(today_string(i64::MAX), "-");
}

#[test]
fn previews_load_two_at_a_time() {
    let a = app(vec![image("a", "ha"), text("t", "ht", false), image("b", "hb"), image("c", "hc"), image("d", "hd")]);
    assert_eq!(a.previews_to_load(&[false; 5], &vec![]), vec![0, 2]);
    assert_eq!(a.previews_to_load(&[true, false, false, false, false], &vec![]), vec![2, 3]);
    let on_screen = vec!["d".to_string(), "t".to_string()];
    assert_eq!(a.previews_to_load(&[false; 5], &on_screen), vec![4]);
    assert!(a.previews_to_load(&[true; 5], &vec![]).is_empty());
    assert!(cliprail::app::should_prune_previews(61, 1));
    assert!(!cliprail::app::should_prune_previews(60, 1));
    assert!(!cliprail::app::should_prune_previews(61, 0));
}

#[test]
fn date_counts_add_up_to_the_records() {
    let items: Vec<ClipItem> = (0..7).map(|k| text(&format!("r{}", k), &format!("h{}", k), k % 3 == 0)).collect();
    let a = app(items);
    let d: Vec<String> = ["2024-01-03", "2023-12-31", "2024-01-03", "2024-01-01", "2023-12-31", "2024-01-03", "2024-02-10"]
        .iter()
        .map(|s| s.to_string())
        .collect();
    let options = a.date_options(&d);
    let total: usize = options.iter().map(|(_, c)| *c).sum();
    assert_eq!(total, 7);
    assert_eq!(options.len(), 4);
    assert_eq!(options[0], ("2024-02-10".to_string(), 1));
    assert_eq!(options[3], ("2023-12-31".to_string(), 2));
}

#[test]
fn pictures_get_an_id_only_when_new() {
    let mut a = app(vec![text("p", "hp", true), image("i", "hi")]);
    assert!(a.new_image_id(&"hi".to_string(), 1_700_000_000).is_none());
    let id = a.new_image_id(&"abcdef0123456789".to_string(), 1_700_000_000).unwrap();
    assert_eq!(id, "1700000000-abcdef01");
    assert!(id.ends_with("-abcdef01"));
    assert!(a.add_image_clip(id.clone(), "data/images/x.png".to_string(), "abcdef0123456789".to_string(), 640, 480, 1_700_000_000));
    assert_eq!(a.items[1].id, id);
    assert_eq!((a.items[1].width, a.items[1].height), (640, 480));
    assert_eq!(a.items[1].image_path, "data/images/x.png");
    assert!(a.dirty);
    assert!(!a.add_image_clip("other".to_string(), "data/images/y.png".to_string(), "hi".to_string(), 1, 1, 1_700_000_000));
    assert_eq!(a.items.len(), 3);
}

#[test]
fn drag_labels() {
    let long: String = "第一行\nsecond line that goes on and on".to_string();
    let mut a = app(vec![ClipItem::new_text("t".to_string(), long, "ht".to_string(), 5), image("i", "hi")]);
    assert!(a.drag_label(false).is_none());
    a.drag = Some(DragState { id: "t".to_string() });
    assert_eq!(a.drag_label(true).as_deref(), Some("松开删除该记录"));
    assert_eq!(a.drag_label(false).as_deref(), Some("移动：第一行 second line th"));
    a.drag = Some(DragState { id: "i".to_string() });
    assert_eq!(a.drag_label(false).as_deref(), Some("移动图片记录"));
    a.drag = Some(DragState { id: "gone".to_string() });
    assert_eq!(a.drag_label(false).as_deref(), Some("移动记录"));
}

#[test]
fn toggle_file_is_checked_every_quarter_second() {
    assert!(!cliprail::app::toggle_check_due(249));
    assert!(cliprail::app::toggle_check_due(250));
}

#[test]
fn operations_keep_hashes_distinct_and_pinning_twice_restores() {
    let mut a = app(vec![text("p", "hp", true), text("a", "ha", false), image("b", "hb"), text("c", "hc", false)]);
    a.toggle_pin(&"b".to_string());
    a.toggle_pin(&"b".to_string());
    let mut after: Vec<String> = ids(&a);
    after.sort();
    assert_eq!(after, vec!["a", "b", "c", "p"]);
    assert!(!a.items.iter().find(|i| i.id == "b").unwrap().pinned);
    a.reorder(&"a".to_string(), &None);
    assert!(!a.add_text_clip("again".to_string(), "hc".to_string(), 1_700_000_000));
    a.delete_ids(&vec!["c".to_string()]);
    let mut hashes: Vec<String> = a.items.iter().map(|i| i.hash.clone()).collect();
    let n = hashes.len();
    hashes.sort();
    hashes.dedup();
    assert_eq!(hashes.len(), n);
    assert!(a.items[0].pinned);
}

#[test]
fn tool_bar_list_headings_and_empty_list() {
    assert_eq!(bulk_controls(2, 0), BulkControls::DeleteOrCancel);
    assert_eq!(bulk_controls(0, 5), BulkControls::SelectAll);
    assert_eq!(bulk_controls(0, 0), BulkControls::Nothing);
    assert_eq!(delete_button_label(12), "删除 12");
    assert_eq!(section_heading(true, 0, false), Some(Heading::Pinned));
    assert_eq!(section_heading(true, 1, false), None);
    assert_eq!(section_heading(false, 2, false), Some(Heading::Recent));
    assert_eq!(section_heading(false, 3, true), None);
    assert_eq!(section_heading(false, 0, false), None);
    assert_eq!(empty_list_message(true).0, "还没有记录");
    assert_eq!(empty_list_message(false).1, "切换到“全部记录”查看其他内容");
}

#[test]
fn actions_keep_what_they_do_not_touch() {
    let mut a = app(vec![text("a", "ha", false), text("b", "hb", false)]);
    let d = dates(&a, "x");
    a.set_filter(DateFilter::Today);
    a.apply(Action::ToggleSelect("a".to_string()), &d, "x");
    assert!(matches!(a.filter, DateFilter::Today));
    assert!(a.settings.edge_hide && !a.dirty);
    a.apply(Action::DeleteSelected, &d, "x");
    assert!(a.dirty && a.selected.is_empty());
    a.mark_saved();
    a.apply(Action::Copy("b".to_string()), &dates(&a, "x"), "x");
    assert_eq!(a.copied.as_deref(), Some("b"));
    assert!(!a.dirty);
    a.apply(Action::DragStart("b".to_string()), &dates(&a, "x"), "x");
    a.apply(Action::DragStop(DropPoint::OutsideWindow), &dates(&a, "x"), "x");
    assert!(a.dirty && a.items.is_empty());
}

#[test]
fn adding_marks_unsaved_and_duplicates_do_not() {
    let mut a = app(vec![text("a", "ha", false)]);
    assert!(!a.add_text_clip("x".to_string(), "ha".to_string(), 1_700_000_000));
    assert!(!a.dirty);
    assert!(!a.add_image_clip("i".to_string(), "p".to_string(), "ha".to_string(), 1, 1, 1_700_000_000));
    assert!(!a.dirty);
    assert!(a.add_image_clip("i".to_string(), "p".to_string(), "hi".to_string(), 1, 1, 1_700_000_000));
    assert!(a.dirty);
}
