use exchange::snapshot::{is_selected, is_snapshot_file, snapshot_pattern};

#[test]
fn names_ending_in_json_are_snapshots() {
    assert!(is_snapshot_file("1.json"));
    assert!(is_snapshot_file("./exchanges/42.json"));
    assert!(is_snapshot_file(".json"));
}

#[test]
fn other_names_are_not_snapshots() {
    assert!(!is_snapshot_file("1.txt"));
    assert!(!is_snapshot_file("1.json.bak"));
    assert!(!is_snapshot_file("json"));
    assert!(!is_snapshot_file("1xjson"));
    assert!(!is_snapshot_file(""));
}

#[test]
fn only_a_match_selects() {
    assert!(is_selected(Some(true)));
    assert!(!is_selected(Some(false)));
    assert!(!is_selected(None));
    assert_eq!(snapshot_pattern(), r".*\.json$");
}
