use exchange::assignment::{assign, compute_results, pick_for};
use exchange::entry::{Entry, Vote};
use exchange::name_map::NameMap;
use exchange::ranking::{priority_range, rank, score_of, scores_of, FACTOR_SCALE};
use exchange::tally::{count_votes, find_count, voted_before, Count};

fn set(items: &[&str]) -> Entry {
    Entry::new(items.iter().map(|item| item.to_string()).collect())
}

fn vote(priority: i32, items: &[&str]) -> Vote {
    Vote::new(priority, set(items))
}

fn ballots(all: Vec<(&str, Vec<Vote>)>) -> NameMap<Vote> {
    let mut map = NameMap::new();
    for (name, ballot) in all {
        map.insert(name.to_string(), ballot);
    }
    map
}

fn submissions(all: Vec<(&str, Vec<Entry>)>) -> NameMap<Entry> {
    let mut map = NameMap::new();
    for (name, entries) in all {
        map.insert(name.to_string(), entries);
    }
    map
}

fn table(map: &NameMap<Entry>) -> Vec<(String, Vec<Entry>)> {
    let mut out = Vec::new();
    for index in 0..map.len() {
        out.push((map.name_at(index).clone(), map.items_at(index).clone()));
    }
    out
}

fn three_voters() -> (NameMap<Entry>, NameMap<Vote>) {
    let handed_in = submissions(vec![
        ("alice", vec![set(&["A"])]),
        ("bob", vec![set(&["B"])]),
        ("carol", vec![set(&["C"])]),
    ]);
    let cast = ballots(vec![
        ("alice", vec![vote(1, &["B"]), vote(2, &["C"])]),
        ("bob", vec![vote(1, &["C"]), vote(2, &["A"])]),
        ("carol", vec![vote(1, &["B"])]),
    ]);
    (handed_in, cast)
}

#[test]
fn votes_are_value_equal() {
    assert_eq!(vote(1, &["A"]), vote(1, &["A"]));
    assert_ne!(vote(1, &["A"]), vote(2, &["A"]));
    assert_ne!(vote(1, &["A"]), vote(1, &["B"]));
    assert_eq!(vote(3, &["A", "B"]).clone(), vote(3, &["A", "B"]));
}

#[test]
fn tally_counts_ballots_and_lists_priorities_in_first_seen_order() {
    let (_, cast) = three_voters();
    let tally = count_votes(&cast);
    assert_eq!(tally.len(), 3);
    assert_eq!(tally[0].entry, set(&["B"]));
    assert_eq!(tally[0].votes, 2);
    assert_eq!(tally[0].priorities, vec![1, 1]);
    assert_eq!(tally[1].entry, set(&["C"]));
    assert_eq!(tally[1].votes, 2);
    assert_eq!(tally[1].priorities, vec![2, 1]);
    assert_eq!(tally[2].entry, set(&["A"]));
    assert_eq!(tally[2].votes, 1);
    assert_eq!(tally[2].priorities, vec![2]);
}

#[test]
fn a_ballot_that_names_an_entry_twice_counts_once() {
    let cast = ballots(vec![
        ("alice", vec![vote(1, &["B"]), vote(5, &["B"])]),
        ("bob", vec![vote(2, &["B"])]),
    ]);
    let tally = count_votes(&cast);
    assert_eq!(tally.len(), 1);
    assert_eq!(tally[0].votes, 2);
    assert_eq!(tally[0].priorities, vec![1, 5, 2]);
}

#[test]
fn tally_of_no_ballots_is_empty() {
    assert!(count_votes(&NameMap::new()).is_empty());
    let cast = ballots(vec![("alice", Vec::new())]);
    assert!(count_votes(&cast).is_empty());
}

#[test]
fn counts_and_earlier_votes_are_found_by_equality() {
    let (_, cast) = three_voters();
    let tally = count_votes(&cast);
    assert_eq!(find_count(&tally, &set(&["C"])), Some(1));
    assert_eq!(find_count(&tally, &set(&["D"])), None);
    let ballot = vec![vote(1, &["B"]), vote(2, &["C"]), vote(3, &["B"])];
    assert!(!voted_before(&ballot, 0, &set(&["B"])));
    assert!(voted_before(&ballot, 1, &set(&["B"])));
    assert!(!voted_before(&ballot, 1, &set(&["C"])));
    assert!(voted_before(&ballot, 3, &set(&["C"])));
}

#[test]
fn priority_range_spans_all_ballots() {
    let (_, cast) = three_voters();
    assert_eq!(priority_range(&cast), (1, 2));
    let wide = ballots(vec![
        ("alice", vec![vote(-4, &["B"])]),
        ("bob", vec![vote(9, &["B"]), vote(0, &["C"])]),
    ]);
    assert_eq!(priority_range(&wide), (-4, 9));
    assert_eq!(priority_range(&NameMap::new()), (i32::MAX, i32::MIN));
}

#[test]
fn score_blends_popularity_and_preference() {
    let count = Count { entry: set(&["Y"]), votes: 2, priorities: vec![3, 3] };
    // popularity: 2 ballots at full strength 3; preference: strengths 1 + 1
    assert_eq!(score_of(&count, 500, 1, 3), 500 * 6 + 500 * 2);
    assert_eq!(score_of(&count, 500, 1, 3), 4000);
    assert_eq!(score_of(&count, FACTOR_SCALE, 1, 3), 6000);
    assert_eq!(score_of(&count, 0, 1, 3), 2000);
    let single = Count { entry: set(&["X"]), votes: 1, priorities: vec![1] };
    assert_eq!(score_of(&single, 500, 1, 3), 3000);
    assert_eq!(score_of(&single, FACTOR_SCALE, 1, 3), 3000);
    assert_eq!(score_of(&single, 0, 1, 3), 3000);
}

#[test]
fn score_stands_the_widest_range() {
    let count = Count { entry: set(&["X"]), votes: 3, priorities: vec![i32::MIN, i32::MAX] };
    let full = i32::MAX as i128 - i32::MIN as i128 + 1;
    assert_eq!(score_of(&count, 250, i32::MIN, i32::MAX), 250 * 3 * full + 750 * (full + 1));
}

#[test]
fn scores_follow_the_tally() {
    let (_, cast) = three_voters();
    let tally = count_votes(&cast);
    assert_eq!(scores_of(&tally, 500, 1, 2), vec![4000, 3500, 1500]);
    assert_eq!(scores_of(&tally, 0, 1, 2), vec![4000, 3000, 1000]);
    assert_eq!(scores_of(&tally, 1000, 1, 2), vec![4000, 4000, 2000]);
}

#[test]
fn ranking_puts_the_higher_score_first() {
    let cast = ballots(vec![
        ("alice", vec![vote(1, &["X"]), vote(3, &["Y"])]),
        ("bob", vec![vote(3, &["Y"])]),
    ]);
    let tally = count_votes(&cast);
    assert_eq!(priority_range(&cast), (1, 3));
    // all weight on popularity: Y is on two ballots, X on one
    assert_eq!(rank(&tally, 1000, 1, 3), vec![1, 0]);
    // all weight on preference: X is a first choice, Y a last one twice
    assert_eq!(rank(&tally, 0, 1, 3), vec![0, 1]);
    assert_eq!(rank(&tally, 500, 1, 3), vec![1, 0]);
}

#[test]
fn ranking_keeps_equal_scores_in_first_seen_order() {
    let (_, cast) = three_voters();
    let tally = count_votes(&cast);
    assert_eq!(rank(&tally, 1000, 1, 2), vec![0, 1, 2]);
    let even = ballots(vec![
        ("alice", vec![vote(1, &["P"]), vote(1, &["Q"]), vote(1, &["R"])]),
    ]);
    let tally = count_votes(&even);
    assert_eq!(rank(&tally, 500, 1, 1), vec![0, 1, 2]);
    assert_eq!(rank(&Vec::new(), 500, 0, 0), Vec::<usize>::new());
}

#[test]
fn picking_skips_own_sets_and_full_entries() {
    let ranked = vec![set(&["B"]), set(&["C"]), set(&["A"]), set(&["D"])];
    let mut room = vec![1, 0, 2, 1];
    let own = vec![set(&["B"])];
    let given = pick_for(&ranked, &mut room, Some(&own), 5);
    assert_eq!(given, vec![set(&["A"]), set(&["D"])]);
    assert_eq!(room, vec![1, 0, 1, 0]);
    let given = pick_for(&ranked, &mut room, None, 1);
    assert_eq!(given, vec![set(&["B"])]);
    assert_eq!(room, vec![0, 0, 1, 0]);
    let given = pick_for(&ranked, &mut room, None, 0);
    assert!(given.is_empty());
    assert_eq!(room, vec![0, 0, 1, 0]);
}

#[test]
fn assignment_serves_the_voters_in_order() {
    let (handed_in, cast) = three_voters();
    let ranked = vec![set(&["B"]), set(&["C"]), set(&["A"])];
    let results = assign(&ranked, vec![2, 2, 1], &handed_in, &cast, 2);
    assert_eq!(
        table(&results),
        vec![
            ("alice".to_string(), vec![set(&["B"]), set(&["C"])]),
            ("bob".to_string(), vec![set(&["C"]), set(&["A"])]),
            ("carol".to_string(), vec![set(&["B"])]),
        ]
    );
}

#[test]
fn results_follow_tally_ranking_and_assignment() {
    let (handed_in, cast) = three_voters();
    let results = compute_results(&handed_in, &cast, 2, 500);
    assert_eq!(
        table(&results),
        vec![
            ("alice".to_string(), vec![set(&["B"]), set(&["C"])]),
            ("bob".to_string(), vec![set(&["C"]), set(&["A"])]),
            ("carol".to_string(), vec![set(&["B"])]),
        ]
    );
}

#[test]
fn results_respect_the_limit_per_participant() {
    let (handed_in, cast) = three_voters();
    let results = compute_results(&handed_in, &cast, 1, 500);
    assert_eq!(
        table(&results),
        vec![
            ("alice".to_string(), vec![set(&["B"])]),
            ("bob".to_string(), vec![set(&["C"])]),
            ("carol".to_string(), vec![set(&["B"])]),
        ]
    );
    for limit in [0, -3] {
        let results = compute_results(&handed_in, &cast, limit, 500);
        assert_eq!(
            table(&results),
            vec![
                ("alice".to_string(), Vec::new()),
                ("bob".to_string(), Vec::new()),
                ("carol".to_string(), Vec::new()),
            ]
        );
    }
}

#[test]
fn results_depend_on_the_assignment_factor() {
    let handed_in = submissions(vec![("dana", vec![set(&["D"])])]);
    let cast = ballots(vec![
        ("alice", vec![vote(1, &["X"]), vote(3, &["Y"])]),
        ("bob", vec![vote(3, &["Y"])]),
    ]);
    let by_popularity = compute_results(&handed_in, &cast, 1, 1000);
    assert_eq!(
        table(&by_popularity),
        vec![
            ("alice".to_string(), vec![set(&["Y"])]),
            ("bob".to_string(), vec![set(&["Y"])]),
        ]
    );
    let by_preference = compute_results(&handed_in, &cast, 1, 0);
    assert_eq!(
        table(&by_preference),
        vec![
            ("alice".to_string(), vec![set(&["X"])]),
            ("bob".to_string(), vec![set(&["Y"])]),
        ]
    );
}

#[test]
fn results_of_no_ballots_are_empty() {
    let (handed_in, _) = three_voters();
    let results = compute_results(&handed_in, &NameMap::new(), 2, 500);
    assert!(results.is_empty());
}
