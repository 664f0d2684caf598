use exchange::entry::{Entry, Vote};
use exchange::exchange::{Exchange, DEFAULT_ASSIGNMENT_FACTOR, DEFAULT_USER_MAX};
use exchange::name_map::NameMap;
use exchange::projection::project;
use exchange::stage::{ExchangeError, Stage};

fn item_set(items: &[&str]) -> Entry {
    Entry::new(items.iter().map(|item| item.to_string()).collect())
}

fn name(text: &str) -> String {
    text.to_string()
}

fn fresh() -> Exchange {
    Exchange::new(1, name("Books"), name("secret"), None, None).unwrap()
}

fn listing(map: &NameMap<Entry>) -> Vec<(String, Vec<Entry>)> {
    let mut out = Vec::new();
    for index in 0..map.len() {
        out.push((map.name_at(index).clone(), map.items_at(index).clone()));
    }
    out
}

/// An exchange in the voting stage: alice handed in A and B, bob handed in C.
fn voting() -> Exchange {
    let mut exchange = fresh();
    exchange
        .add_submission(name("alice"), vec![item_set(&["A"]), item_set(&["B"])])
        .unwrap();
    exchange.add_submission(name("bob"), vec![item_set(&["C"])]).unwrap();
    exchange.transition(Stage::Voting).unwrap();
    exchange
}

/// An exchange in the selection stage, after bob voted for A and alice for C.
fn selection() -> Exchange {
    let mut exchange = voting();
    exchange
        .cast_votes(name("bob"), vec![Vote::new(1, item_set(&["A"]))])
        .unwrap();
    exchange
        .cast_votes(name("alice"), vec![Vote::new(1, item_set(&["C"]))])
        .unwrap();
    exchange.transition(Stage::Selection).unwrap();
    exchange
}

fn frozen() -> Exchange {
    let mut exchange = selection();
    exchange.transition(Stage::Frozen).unwrap();
    exchange
}

#[test]
fn a_new_exchange_starts_empty_in_the_submission_stage() {
    let exchange = fresh();
    assert_eq!(exchange.title(), "Books");
    assert_eq!(exchange.id(), 1);
    assert_eq!(exchange.passphrase(), "secret");
    assert_eq!(exchange.stage(), Stage::Submission);
    assert_eq!(exchange.user_max(), 2);
    assert_eq!(exchange.assignment_factor(), 500);
    assert_eq!(DEFAULT_USER_MAX, 2);
    assert_eq!(DEFAULT_ASSIGNMENT_FACTOR, 500);
    assert!(exchange.submissions().is_empty());
    assert!(exchange.votes().is_empty());
    assert!(exchange.results().is_empty());
}

#[test]
fn settings_given_at_creation_are_kept() {
    let exchange = Exchange::new(7, name("Films"), name("s"), Some(5), Some(1000)).unwrap();
    assert_eq!(exchange.user_max(), 5);
    assert_eq!(exchange.assignment_factor(), 1000);
    assert_eq!(exchange.id(), 7);
}

#[test]
fn creation_refuses_bad_ids_and_factors() {
    assert_eq!(
        Exchange::new(0, name("x"), name("s"), None, None).unwrap_err(),
        ExchangeError::ValidationError
    );
    assert_eq!(
        Exchange::new(-1, name("x"), name("s"), None, None).unwrap_err(),
        ExchangeError::ValidationError
    );
    assert_eq!(
        Exchange::new(1, name("x"), name("s"), None, Some(1001)).unwrap_err(),
        ExchangeError::ValidationError
    );
}

#[test]
fn authorize_compares_the_secret() {
    let exchange = fresh();
    assert_eq!(exchange.authorize(&name("secret")), Ok(()));
    assert_eq!(exchange.authorize(&name("Secret")), Err(ExchangeError::Unauthorized));
    assert_eq!(exchange.authorize(&name("")), Err(ExchangeError::Unauthorized));
}

#[test]
fn submitting_the_same_set_twice_keeps_it_once() {
    let mut exchange = fresh();
    exchange.add_submission(name("alice"), vec![item_set(&["A", "B"])]).unwrap();
    exchange.add_submission(name("alice"), vec![item_set(&["A", "B"])]).unwrap();
    assert_eq!(
        listing(exchange.submissions()),
        vec![(name("alice"), vec![item_set(&["A", "B"])])]
    );
}

#[test]
fn later_submissions_are_merged_behind_the_earlier_ones() {
    let mut exchange = fresh();
    exchange
        .add_submission(name("alice"), vec![item_set(&["B"]), item_set(&["A"])])
        .unwrap();
    exchange.add_submission(name("bob"), vec![item_set(&["A"])]).unwrap();
    exchange
        .add_submission(
            name("alice"),
            vec![item_set(&["C"]), item_set(&["A"]), item_set(&["C"])],
        )
        .unwrap();
    assert_eq!(
        listing(exchange.submissions()),
        vec![
            (name("alice"), vec![item_set(&["B"]), item_set(&["A"]), item_set(&["C"])]),
            (name("bob"), vec![item_set(&["A"])]),
        ]
    );
}

#[test]
fn submissions_are_taken_in_the_submission_stage_only() {
    let mut exchange = voting();
    assert_eq!(
        exchange.add_submission(name("carol"), vec![item_set(&["D"])]),
        Err(ExchangeError::InvalidState)
    );
    assert_eq!(exchange.submissions().len(), 2);
    let mut exchange = selection();
    assert_eq!(
        exchange.add_submission(name("carol"), vec![item_set(&["D"])]),
        Err(ExchangeError::InvalidState)
    );
    let mut exchange = frozen();
    assert_eq!(
        exchange.add_submission(name("carol"), vec![item_set(&["D"])]),
        Err(ExchangeError::Locked)
    );
}

#[test]
fn deleting_needs_sets_and_submissions() {
    let mut exchange = fresh();
    assert_eq!(
        exchange.delete_submission(&vec![item_set(&["A"])]),
        Err(ExchangeError::ValidationError)
    );
    exchange.add_submission(name("alice"), vec![item_set(&["A"])]).unwrap();
    assert_eq!(exchange.delete_submission(&Vec::new()), Err(ExchangeError::ValidationError));
    assert_eq!(exchange.submissions().len(), 1);
    let mut exchange = voting();
    assert_eq!(
        exchange.delete_submission(&vec![item_set(&["A"])]),
        Err(ExchangeError::InvalidState)
    );
    let mut exchange = frozen();
    assert_eq!(
        exchange.delete_submission(&vec![item_set(&["A"])]),
        Err(ExchangeError::Locked)
    );
}

#[test]
fn deleting_takes_sets_from_everybody() {
    let mut exchange = fresh();
    exchange
        .add_submission(name("alice"), vec![item_set(&["A"]), item_set(&["B"])])
        .unwrap();
    exchange.add_submission(name("bob"), vec![item_set(&["A"])]).unwrap();
    exchange.delete_submission(&vec![item_set(&["A"])]).unwrap();
    assert_eq!(
        listing(exchange.submissions()),
        vec![(name("alice"), vec![item_set(&["B"])])]
    );
}

#[test]
fn voting_needs_submissions() {
    let mut exchange = fresh();
    assert_eq!(exchange.transition(Stage::Voting), Err(ExchangeError::InvalidState));
    assert_eq!(exchange.stage(), Stage::Submission);
    exchange.add_submission(name("alice"), vec![item_set(&["A"])]).unwrap();
    assert_eq!(exchange.transition(Stage::Voting), Ok(()));
    assert_eq!(exchange.stage(), Stage::Voting);
}

#[test]
fn selection_needs_ballots() {
    let mut exchange = voting();
    assert_eq!(exchange.transition(Stage::Selection), Err(ExchangeError::InvalidState));
    assert_eq!(exchange.stage(), Stage::Voting);
    exchange
        .cast_votes(name("bob"), vec![Vote::new(1, item_set(&["A"]))])
        .unwrap();
    assert_eq!(exchange.transition(Stage::Selection), Ok(()));
    assert_eq!(exchange.stage(), Stage::Selection);
    assert_eq!(listing(exchange.results()), vec![(name("bob"), vec![item_set(&["A"])])]);
}

#[test]
fn the_current_stage_cannot_be_requested() {
    let mut exchange = fresh();
    assert_eq!(exchange.transition(Stage::Submission), Err(ExchangeError::InvalidTransition));
    let mut exchange = voting();
    assert_eq!(exchange.transition(Stage::Voting), Err(ExchangeError::InvalidTransition));
    let mut exchange = selection();
    assert_eq!(exchange.transition(Stage::Selection), Err(ExchangeError::InvalidTransition));
}

#[test]
fn stages_cannot_be_skipped() {
    let mut exchange = fresh();
    exchange.add_submission(name("alice"), vec![item_set(&["A"])]).unwrap();
    assert_eq!(exchange.transition(Stage::Selection), Err(ExchangeError::InvalidTransition));
    assert_eq!(exchange.transition(Stage::Frozen), Err(ExchangeError::InvalidTransition));
    let mut exchange = voting();
    assert_eq!(exchange.transition(Stage::Frozen), Err(ExchangeError::InvalidTransition));
    let mut exchange = selection();
    assert_eq!(exchange.transition(Stage::Submission), Err(ExchangeError::InvalidTransition));
    assert_eq!(exchange.stage(), Stage::Selection);
}

#[test]
fn a_frozen_exchange_refuses_every_stage() {
    for requested in [Stage::Submission, Stage::Voting, Stage::Selection, Stage::Frozen] {
        let mut exchange = frozen();
        assert_eq!(exchange.transition(requested), Err(ExchangeError::Locked));
        assert_eq!(exchange.stage(), Stage::Frozen);
        assert_eq!(exchange.results().len(), 2);
    }
}

#[test]
fn a_frozen_exchange_refuses_every_change() {
    let mut exchange = frozen();
    assert_eq!(
        exchange.cast_votes(name("bob"), Vec::new()),
        Err(ExchangeError::Locked)
    );
    assert_eq!(exchange.delete_votes(&name("bob")), Err(ExchangeError::Locked));
    assert_eq!(exchange.update_results(Some(1), None), Err(ExchangeError::Locked));
    assert_eq!(exchange.votes().len(), 2);
    assert_eq!(exchange.user_max(), 2);
}

#[test]
fn going_back_to_submission_clears_the_ballots() {
    let mut exchange = voting();
    exchange
        .cast_votes(name("bob"), vec![Vote::new(1, item_set(&["A"]))])
        .unwrap();
    assert_eq!(exchange.votes().len(), 1);
    assert_eq!(exchange.transition(Stage::Submission), Ok(()));
    assert_eq!(exchange.stage(), Stage::Submission);
    assert!(exchange.votes().is_empty());
    assert_eq!(exchange.submissions().len(), 2);
}

#[test]
fn going_back_to_voting_clears_the_results() {
    let mut exchange = selection();
    assert_eq!(exchange.results().len(), 2);
    assert_eq!(exchange.transition(Stage::Voting), Ok(()));
    assert_eq!(exchange.stage(), Stage::Voting);
    assert!(exchange.results().is_empty());
    assert_eq!(exchange.votes().len(), 2);
}

#[test]
fn a_new_ballot_replaces_the_old_one() {
    let mut exchange = voting();
    exchange
        .cast_votes(name("bob"), vec![Vote::new(1, item_set(&["A"]))])
        .unwrap();
    exchange
        .cast_votes(name("alice"), vec![Vote::new(1, item_set(&["C"]))])
        .unwrap();
    exchange
        .cast_votes(
            name("bob"),
            vec![Vote::new(2, item_set(&["B"])), Vote::new(1, item_set(&["A"]))],
        )
        .unwrap();
    assert_eq!(exchange.votes().len(), 2);
    assert_eq!(exchange.votes().name_at(0), "bob");
    assert_eq!(
        exchange.votes().items_at(0),
        &vec![Vote::new(2, item_set(&["B"])), Vote::new(1, item_set(&["A"]))]
    );
}

#[test]
fn ballots_are_taken_in_the_voting_stage_only() {
    let mut exchange = fresh();
    assert_eq!(
        exchange.cast_votes(name("bob"), Vec::new()),
        Err(ExchangeError::InvalidState)
    );
    let mut exchange = selection();
    assert_eq!(
        exchange.cast_votes(name("bob"), Vec::new()),
        Err(ExchangeError::InvalidState)
    );
    assert_eq!(exchange.votes().items_at(0).len(), 1);
}

#[test]
fn deleting_a_ballot_needs_the_voter() {
    let mut exchange = voting();
    assert_eq!(exchange.delete_votes(&name("bob")), Err(ExchangeError::NotFound));
    exchange
        .cast_votes(name("bob"), vec![Vote::new(1, item_set(&["A"]))])
        .unwrap();
    assert_eq!(exchange.delete_votes(&name("alice")), Err(ExchangeError::NotFound));
    assert_eq!(exchange.delete_votes(&name("bob")), Ok(()));
    assert!(exchange.votes().is_empty());
    let mut exchange = fresh();
    assert_eq!(exchange.delete_votes(&name("bob")), Err(ExchangeError::NotFound));
}

#[test]
fn results_go_to_the_voters_in_the_order_of_their_ballots() {
    let exchange = selection();
    assert_eq!(
        listing(exchange.results()),
        vec![
            (name("bob"), vec![item_set(&["A"])]),
            (name("alice"), vec![item_set(&["C"])]),
        ]
    );
}

#[test]
fn tuning_computes_the_results_again() {
    let mut exchange = selection();
    assert_eq!(exchange.update_results(Some(0), Some(250)), Ok(()));
    assert_eq!(exchange.user_max(), 0);
    assert_eq!(exchange.assignment_factor(), 250);
    assert_eq!(
        listing(exchange.results()),
        vec![(name("bob"), Vec::new()), (name("alice"), Vec::new())]
    );
    assert_eq!(exchange.update_results(Some(3), None), Ok(()));
    assert_eq!(exchange.user_max(), 3);
    assert_eq!(exchange.assignment_factor(), 250);
    assert_eq!(exchange.results().items_at(0), &vec![item_set(&["A"])]);
    assert_eq!(exchange.update_results(None, None), Ok(()));
    assert_eq!(exchange.user_max(), 3);
}

#[test]
fn tuning_is_for_the_selection_stage_and_valid_factors() {
    let mut exchange = voting();
    assert_eq!(exchange.update_results(Some(1), None), Err(ExchangeError::InvalidState));
    assert_eq!(exchange.user_max(), 2);
    let mut exchange = fresh();
    assert_eq!(exchange.update_results(None, Some(1)), Err(ExchangeError::InvalidState));
    let mut exchange = selection();
    assert_eq!(
        exchange.update_results(Some(1), Some(1001)),
        Err(ExchangeError::ValidationError)
    );
    assert_eq!(exchange.user_max(), 2);
    assert_eq!(exchange.assignment_factor(), 500);
}

#[test]
fn restore_accepts_what_the_commands_produce() {
    let source = selection();
    let mut submissions = NameMap::new();
    for (who, entries) in listing(source.submissions()) {
        submissions.insert(who, entries);
    }
    let mut votes = NameMap::new();
    votes.insert(name("bob"), vec![Vote::new(1, item_set(&["A"]))]);
    let mut results = NameMap::new();
    results.insert(name("bob"), vec![item_set(&["A"])]);
    let restored = Exchange::restore(
        name("Books"),
        4,
        name("secret"),
        Stage::Selection,
        3,
        750,
        submissions,
        votes,
        results,
    )
    .unwrap();
    assert_eq!(restored.id(), 4);
    assert_eq!(restored.stage(), Stage::Selection);
    assert_eq!(restored.user_max(), 3);
    assert_eq!(restored.assignment_factor(), 750);
    assert_eq!(listing(restored.submissions()), listing(source.submissions()));
    assert_eq!(restored.votes().len(), 1);
    assert_eq!(listing(restored.results()), vec![(name("bob"), vec![item_set(&["A"])])]);
}

#[test]
fn restore_refuses_what_no_command_produces() {
    let one_ballot = || {
        let mut votes = NameMap::new();
        votes.insert(name("bob"), vec![Vote::new(1, item_set(&["A"]))]);
        votes
    };
    let one_result = || {
        let mut results = NameMap::new();
        results.insert(name("bob"), vec![item_set(&["A"])]);
        results
    };
    let ballots_too_early = Exchange::restore(
        name("x"),
        1,
        name("s"),
        Stage::Submission,
        2,
        500,
        NameMap::new(),
        one_ballot(),
        NameMap::new(),
    );
    assert_eq!(ballots_too_early.unwrap_err(), ExchangeError::ValidationError);
    let results_too_early = Exchange::restore(
        name("x"),
        1,
        name("s"),
        Stage::Voting,
        2,
        500,
        NameMap::new(),
        one_ballot(),
        one_result(),
    );
    assert_eq!(results_too_early.unwrap_err(), ExchangeError::ValidationError);
    let bad_id = Exchange::restore(
        name("x"),
        0,
        name("s"),
        Stage::Frozen,
        2,
        500,
        NameMap::new(),
        NameMap::new(),
        NameMap::new(),
    );
    assert_eq!(bad_id.unwrap_err(), ExchangeError::ValidationError);
    let bad_factor = Exchange::restore(
        name("x"),
        1,
        name("s"),
        Stage::Frozen,
        2,
        1001,
        NameMap::new(),
        NameMap::new(),
        NameMap::new(),
    );
    assert_eq!(bad_factor.unwrap_err(), ExchangeError::ValidationError);
    let mut twice = NameMap::new();
    twice.append(name("bob"), vec![item_set(&["A"])]);
    twice.append(name("bob"), vec![item_set(&["B"])]);
    assert!(!twice.has_distinct_names());
    let named_twice = Exchange::restore(
        name("x"),
        1,
        name("s"),
        Stage::Submission,
        2,
        500,
        twice,
        NameMap::new(),
        NameMap::new(),
    );
    assert_eq!(named_twice.unwrap_err(), ExchangeError::ValidationError);
}

#[test]
fn errors_have_their_status_codes() {
    assert_eq!(ExchangeError::NotFound.status_code(), 404);
    assert_eq!(ExchangeError::Unauthorized.status_code(), 401);
    assert_eq!(ExchangeError::Locked.status_code(), 423);
    assert_eq!(ExchangeError::InvalidState.status_code(), 400);
    assert_eq!(ExchangeError::InvalidTransition.status_code(), 400);
    assert_eq!(ExchangeError::ValidationError.status_code(), 400);
}

#[test]
fn projection_shows_only_what_the_stage_releases() {
    let shown = project(&fresh(), None);
    assert_eq!(shown.title, "Books");
    assert_eq!(shown.id, 1);
    assert_eq!(shown.stage, Stage::Submission);
    assert!(shown.submissions.is_none());
    assert!(shown.results.is_none());
    let shown = project(&selection(), Some(&name("alice")));
    assert_eq!(shown.stage, Stage::Selection);
    assert!(shown.submissions.is_none());
    assert!(shown.results.is_none());
    let shown = project(&frozen(), None);
    assert_eq!(shown.stage, Stage::Frozen);
    assert!(shown.submissions.is_none());
    assert_eq!(
        listing(&shown.results.unwrap()),
        vec![
            (name("bob"), vec![item_set(&["A"])]),
            (name("alice"), vec![item_set(&["C"])]),
        ]
    );
}

#[test]
fn voters_are_not_shown_their_own_sets() {
    let exchange = voting();
    let everything = vec![item_set(&["A"]), item_set(&["B"]), item_set(&["C"])];
    assert_eq!(project(&exchange, None).submissions, Some(everything.clone()));
    assert_eq!(
        project(&exchange, Some(&name("carol"))).submissions,
        Some(everything)
    );
    assert_eq!(
        project(&exchange, Some(&name("alice"))).submissions,
        Some(vec![item_set(&["C"])])
    );
    assert_eq!(
        project(&exchange, Some(&name("bob"))).submissions,
        Some(vec![item_set(&["A"]), item_set(&["B"])])
    );
    assert!(project(&exchange, Some(&name("bob"))).results.is_none());
}

#[test]
fn a_set_handed_in_by_two_is_hidden_from_both() {
    let mut exchange = fresh();
    exchange
        .add_submission(name("alice"), vec![item_set(&["A"]), item_set(&["B"])])
        .unwrap();
    exchange
        .add_submission(name("bob"), vec![item_set(&["A"]), item_set(&["C"])])
        .unwrap();
    exchange.transition(Stage::Voting).unwrap();
    assert_eq!(
        project(&exchange, Some(&name("alice"))).submissions,
        Some(vec![item_set(&["C"])])
    );
    assert_eq!(
        project(&exchange, None).submissions,
        Some(vec![item_set(&["A"]), item_set(&["B"]), item_set(&["A"]), item_set(&["C"])])
    );
}
