use exchange::entry::Entry;
use exchange::name_map::NameMap;
use exchange::reconcile::{contains_entry, copy_entries, delete, reconcile, remove_entries};

fn entry(items: &[&str]) -> Entry {
    Entry::new(items.iter().map(|item| item.to_string()).collect())
}

fn rows(map: &NameMap<Entry>) -> Vec<(String, Vec<Entry>)> {
    let mut out = Vec::new();
    for index in 0..map.len() {
        out.push((map.name_at(index).clone(), copy_entries(map.items_at(index))));
    }
    out
}

#[test]
fn entries_are_equal_item_by_item_in_order() {
    assert_eq!(entry(&["A", "B"]), entry(&["A", "B"]));
    assert_ne!(entry(&["A", "B"]), entry(&["B", "A"]));
    assert_ne!(entry(&["A", "B"]), entry(&["A"]));
    assert_ne!(entry(&["A"]), entry(&["A", "B"]));
    assert_eq!(entry(&[]), entry(&[]));
    assert_eq!(entry(&["A", "B"]).clone(), entry(&["A", "B"]));
}

#[test]
fn reconcile_appends_only_what_is_new() {
    let existing = vec![entry(&["A", "B"]), entry(&["C"])];
    let incoming = vec![entry(&["C"]), entry(&["D"]), entry(&["A", "B"]), entry(&["E"])];
    let merged = reconcile(&existing, &incoming);
    assert_eq!(
        merged,
        vec![entry(&["A", "B"]), entry(&["C"]), entry(&["D"]), entry(&["E"])]
    );
}

#[test]
fn reconcile_keeps_the_order_of_what_is_kept() {
    let existing = vec![entry(&["Z"]), entry(&["A"]), entry(&["M"])];
    let incoming = vec![entry(&["B"]), entry(&["A"]), entry(&["Y"])];
    let merged = reconcile(&existing, &incoming);
    assert_eq!(&merged[..3], &existing[..]);
    assert_eq!(&merged[3..], &[entry(&["B"]), entry(&["Y"])][..]);
}

#[test]
fn reconcile_drops_repetitions_within_a_merge() {
    let existing = vec![entry(&["A"])];
    let incoming = vec![entry(&["B"]), entry(&["B"])];
    assert_eq!(reconcile(&existing, &incoming), vec![entry(&["A"]), entry(&["B"])]);
}

#[test]
fn a_first_submission_is_kept_as_it_is() {
    let incoming = vec![entry(&["B"]), entry(&["B"]), entry(&["A"])];
    assert_eq!(reconcile(&Vec::new(), &incoming), incoming);
    assert_eq!(reconcile(&Vec::new(), &Vec::new()), Vec::<Entry>::new());
}

#[test]
fn reconciling_the_same_sets_again_changes_nothing() {
    let existing = vec![entry(&["A"])];
    let incoming = vec![entry(&["B"]), entry(&["A"]), entry(&["C"])];
    let once = reconcile(&existing, &incoming);
    let twice = reconcile(&once, &incoming);
    assert_eq!(once, twice);
    let first = reconcile(&Vec::new(), &vec![entry(&["A", "B"])]);
    let second = reconcile(&first, &vec![entry(&["A", "B"])]);
    assert_eq!(second, vec![entry(&["A", "B"])]);
}

#[test]
fn contains_and_remove_go_by_equality() {
    let entries = vec![entry(&["A"]), entry(&["B"]), entry(&["A"]), entry(&["C"])];
    assert!(contains_entry(&entries, &entry(&["B"])));
    assert!(!contains_entry(&entries, &entry(&["D"])));
    assert!(!contains_entry(&Vec::new(), &entry(&["A"])));
    let left = remove_entries(&entries, &vec![entry(&["A"]), entry(&["D"])]);
    assert_eq!(left, vec![entry(&["B"]), entry(&["C"])]);
    assert_eq!(remove_entries(&entries, &Vec::new()), entries);
}

#[test]
fn delete_drops_emptied_participants_and_leaves_the_others() {
    let mut submissions: NameMap<Entry> = NameMap::new();
    submissions.insert("alice".to_string(), vec![entry(&["A"]), entry(&["B"])]);
    submissions.insert("bob".to_string(), vec![entry(&["A"])]);
    submissions.insert("carol".to_string(), vec![entry(&["C"])]);
    let left = delete(&submissions, &vec![entry(&["A"])]);
    assert_eq!(
        rows(&left),
        vec![
            ("alice".to_string(), vec![entry(&["B"])]),
            ("carol".to_string(), vec![entry(&["C"])]),
        ]
    );
    // the submissions handed in are untouched
    assert_eq!(submissions.len(), 3);
    assert_eq!(submissions.items_at(0), &vec![entry(&["A"]), entry(&["B"])]);
}

#[test]
fn delete_without_a_match_changes_nothing() {
    let mut submissions: NameMap<Entry> = NameMap::new();
    submissions.insert("alice".to_string(), vec![entry(&["A"]), entry(&["B"])]);
    submissions.insert("bob".to_string(), vec![entry(&["C"])]);
    let left = delete(&submissions, &vec![entry(&["B", "A"]), entry(&["D"])]);
    assert_eq!(rows(&left), rows(&submissions));
}

#[test]
fn name_map_keeps_the_order_of_first_appearance() {
    let mut map: NameMap<Entry> = NameMap::new();
    assert!(map.is_empty());
    map.insert("bob".to_string(), vec![entry(&["B"])]);
    map.insert("alice".to_string(), vec![entry(&["A"])]);
    map.insert("bob".to_string(), vec![entry(&["B2"])]);
    assert_eq!(map.len(), 2);
    assert_eq!(map.name_at(0), "bob");
    assert_eq!(map.name_at(1), "alice");
    assert_eq!(map.get(&"bob".to_string()), Some(&vec![entry(&["B2"])]));
    assert_eq!(map.get(&"carol".to_string()), None);
    assert_eq!(map.position(&"alice".to_string()), Some(1));
    assert!(map.contains_name(&"alice".to_string()));
    assert!(map.has_distinct_names());
    assert_eq!(map.remove(&"bob".to_string()), Some(vec![entry(&["B2"])]));
    assert_eq!(map.remove(&"bob".to_string()), None);
    assert_eq!(map.len(), 1);
    map.append("dave".to_string(), Vec::new());
    assert_eq!(map.name_at(1), "dave");
    map.clear();
    assert!(map.is_empty());
}
