use cliprail::archive::{archive_file_name, ends_with_json, stale_archives};
use cliprail::dates::{chars_less, group_by_date, positions_with_date};

fn strings(v: &[&str]) -> Vec<String> {
    v.iter().map(|s| s.to_string()).collect()
}

#[test]
fn groups_by_date_in_order() {
    let d = strings(&["2024-05-02", "2023-12-31", "2024-05-02", "未知日期", "2023-12-31"]);
    let g = group_by_date(&d);
    let got: Vec<(String, Vec<usize>)> = g.into_iter().map(|g| (g.date, g.positions)).collect();
    assert_eq!(
        got,
        vec![
            ("2023-12-31".to_string(), vec![1, 4]),
            ("2024-05-02".to_string(), vec![0, 2]),
            ("未知日期".to_string(), vec![3]),
        ]
    );
    assert!(group_by_date(&[]).is_empty());
}

#[test]
fn text_order_matches_string_order() {
    let pairs = [("a", "b"), ("ab", "a"), ("", "a"), ("2024-01-02", "2024-01-10"), ("日", "a"), ("x", "x")];
    for (x, y) in pairs {
        let xc: Vec<char> = x.chars().collect();
        let yc: Vec<char> = y.chars().collect();
        assert_eq!(chars_less(&xc, &yc), x < y);
    }
}

#[test]
fn positions_of_a_date() {
    let d = strings(&["a", "b", "a"]);
    assert_eq!(positions_with_date(&d, "a"), vec![0, 2]);
    assert!(positions_with_date(&d, "c").is_empty());
}

#[test]
fn archive_names() {
    assert_eq!(archive_file_name("2024-05-02"), "2024-05-02.json");
    assert!(ends_with_json("x.json"));
    assert!(ends_with_json(".json"));
    assert!(!ends_with_json("json"));
    assert!(!ends_with_json("x.jsonl"));
    let existing = strings(&["2024-01-01.json", "notes.txt", "2024-01-02.json", "a.tmp"]);
    let written = strings(&["2024-01-02.json"]);
    assert_eq!(stale_archives(&existing, &written), strings(&["2024-01-01.json"]));
}
