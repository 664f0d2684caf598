//! Handing the entries out: who gets which sets once the votes are in.
//!
//! The voters are served one after the other, in the order in which their
//! ballots were first cast. Each is given entries in order of merit, up to the
//! limit per participant. Nobody gets a set that they handed in themselves,
//! and no entry goes to more participants than there are ballots that name
//! it.

use crate::entry::{Entry, EntryView, Vote, VoteView};
use crate::model::{flatten, kept_under, names, numbers, views, Row};
use crate::name_map::NameMap;
use crate::ranking::{
    highest_priority, lowest_priority, priority_range, rank, ranking, spec_scores, FACTOR_SCALE,
};
use crate::reconcile::contains_entry;
use crate::tally::{count_votes, spec_count_votes};
use vstd::prelude::*;

verus! {

/// The places, among the first `upto` of `ranked`, of the entries that go to
/// a participant who handed in `own`: in order of merit, every entry that has
/// room left and is not one of `own`, until `limit` entries are picked.
pub open spec fn picks(
    ranked: Seq<EntryView>,
    room: Seq<int>,
    own: Seq<EntryView>,
    limit: int,
    upto: int,
) -> Seq<int>
    decreases upto,
{
    if upto <= 0 {
        Seq::empty()
    } else {
        let before = picks(ranked, room, own, limit, upto - 1);
        if before.len() < limit && room[upto - 1] > 0 && !own.contains(ranked[upto - 1]) {
            before.push(upto - 1)
        } else {
            before
        }
    }
}

/// The entries at the places `picked`.
pub open spec fn entries_at(ranked: Seq<EntryView>, picked: Seq<int>) -> Seq<EntryView> {
    Seq::new(picked.len(), |k: int| ranked[picked[k]])
}

/// The room that is left once the entries at `picked` went to one more
/// participant.
pub open spec fn spend(room: Seq<int>, picked: Seq<int>) -> Seq<int> {
    Seq::new(
        room.len(),
        |i: int| if picked.contains(i) {
            room[i] - 1
        } else {
            room[i]
        },
    )
}

/// The room that is left when the turn of the voter at place `voter` comes.
pub open spec fn room_before(
    ranked: Seq<EntryView>,
    room: Seq<int>,
    submissions: Seq<Row<EntryView>>,
    voters: Seq<Seq<char>>,
    limit: int,
    voter: int,
) -> Seq<int>
    decreases voter,
{
    if voter <= 0 {
        room
    } else {
        let left = room_before(ranked, room, submissions, voters, limit, voter - 1);
        spend(
            left,
            picks(
                ranked,
                left,
                kept_under(submissions, voters[voter - 1]),
                limit,
                ranked.len() as int,
            ),
        )
    }
}

/// The entries that go to the voter at place `voter`.
pub open spec fn share(
    ranked: Seq<EntryView>,
    room: Seq<int>,
    submissions: Seq<Row<EntryView>>,
    voters: Seq<Seq<char>>,
    limit: int,
    voter: int,
) -> Seq<EntryView> {
    entries_at(
        ranked,
        picks(
            ranked,
            room_before(ranked, room, submissions, voters, limit, voter),
            kept_under(submissions, voters[voter]),
            limit,
            ranked.len() as int,
        ),
    )
}

/// Every voter with their share, in the order of the voters.
pub open spec fn spec_assign(
    ranked: Seq<EntryView>,
    room: Seq<int>,
    submissions: Seq<Row<EntryView>>,
    voters: Seq<Seq<char>>,
    limit: int,
) -> Seq<Row<EntryView>> {
    Seq::new(
        voters.len(),
        |voter: int| (voters[voter], share(ranked, room, submissions, voters, limit, voter)),
    )
}

/// The results of an exchange: the ballots are tallied, the entries ranked by
/// score, and every voter is given their share. An entry starts with room for
/// as many participants as there are ballots that name it. A limit below zero
/// counts as zero.
pub open spec fn spec_compute_results(
    submissions: Seq<Row<EntryView>>,
    ballots: Seq<Row<VoteView>>,
    user_max: int,
    factor: int,
) -> Seq<Row<EntryView>> {
    let tally = spec_count_votes(ballots);
    let votes = flatten(ballots);
    let order = ranking(
        spec_scores(tally, factor, lowest_priority(votes), highest_priority(votes)),
        tally.len() as int,
    );
    let ranked = Seq::new(order.len(), |i: int| tally[order[i]].entry);
    let room = Seq::new(order.len(), |i: int| tally[order[i]].votes);
    let limit = if user_max > 0 {
        user_max
    } else {
        0
    };
    spec_assign(ranked, room, submissions, names(ballots), limit)
}

/// Picks the share of one participant and takes it off the room that is left.
pub fn pick_for(
    ranked: &Vec<Entry>,
    room: &mut Vec<usize>,
    own: Option<&Vec<Entry>>,
    limit: usize,
) -> (given: Vec<Entry>)
    requires
        old(room).len() == ranked.len(),
    ensures
        final(room).len() == ranked.len(),
        views(given@) == entries_at(
            views(ranked@),
            picks(
                views(ranked@),
                numbers(old(room)@),
                match own {
                    Some(list) => views(list@),
                    None => Seq::empty(),
                },
                limit as int,
                ranked.len() as int,
            ),
        ),
        numbers(final(room)@) == spend(
            numbers(old(room)@),
            picks(
                views(ranked@),
                numbers(old(room)@),
                match own {
                    Some(list) => views(list@),
                    None => Seq::empty(),
                },
                limit as int,
                ranked.len() as int,
            ),
        ),
{
    let ghost merit = views(ranked@);
    let ghost start = numbers(room@);
    let ghost kept: Seq<EntryView> = match own {
        Some(list) => views(list@),
        None => Seq::empty(),
    };
    let ghost mut picked: Seq<int> = Seq::empty();
    let mut given: Vec<Entry> = Vec::new();
    let mut at: usize = 0;
    proof {
        assert(views(given@) =~= entries_at(merit, picked));
        assert(numbers(room@) =~= spend(start, picked));
    }
    while at < ranked.len()
        invariant
            at <= ranked.len() == room.len() == start.len(),
            merit == views(ranked@),
            kept == (match own {
                Some(list) => views(list@),
                None => Seq::<EntryView>::empty(),
            }),
            picked == picks(merit, start, kept, limit as int, at as int),
            forall|k: int| 0 <= k < picked.len() ==> 0 <= #[trigger] picked[k] < at,
            given.len() == picked.len(),
            views(given@) == entries_at(merit, picked),
            numbers(room@) == spend(start, picked),
        decreases ranked.len() - at,
    {
        let taken = match own {
            Some(list) => contains_entry(list, &ranked[at]),
            None => false,
        };
        assert(taken == kept.contains(merit[at as int]));
        assert(!picked.contains(at as int));
        assert(numbers(room@)[at as int] == start[at as int]);
        if given.len() < limit && room[at] > 0 && !taken {
            let ghost before = picked;
            let ghost shown = views(given@);
            let ghost left = numbers(room@);
            given.push(ranked[at].clone());
            room[at] = room[at] - 1;
            proof {
                picked = before.push(at as int);
                assert(views(given@) =~= shown.push(merit[at as int]));
                assert(views(given@) =~= entries_at(merit, picked));
                assert forall|i: int| 0 <= i < start.len() implies picked.contains(i) == (
                before.contains(i) || i == at) by {
                    if before.contains(i) {
                        let k = choose|k: int| 0 <= k < before.len() && before[k] == i;
                        assert(picked[k] == i);
                    }
                    if i == at {
                        assert(picked[before.len() as int] == i);
                    }
                    if picked.contains(i) {
                        let k = choose|k: int| 0 <= k < picked.len() && picked[k] == i;
                        if k < before.len() {
                            assert(before[k] == i);
                        }
                    }
                }
                assert forall|i: int| 0 <= i < start.len() implies numbers(room@)[i] == spend(
                    start,
                    picked,
                )[i] by {
                    if i == at {
                        assert(numbers(room@)[i] == left[i] - 1);
                    } else {
                        assert(numbers(room@)[i] == left[i]);
                        assert(left[i] == spend(start, before)[i]);
                    }
                }
                assert(numbers(room@) =~= spend(start, picked));
            }
        }
        at = at + 1;
    }
    given
}

/// Serves the voters one after the other: each gets their share of the ranked
/// entries, and what they get is taken off the room that is left for the
/// voters after them.
pub fn assign(
    ranked: &Vec<Entry>,
    room: Vec<usize>,
    submissions: &NameMap<Entry>,
    votes: &NameMap<Vote>,
    limit: usize,
) -> (results: NameMap<Entry>)
    requires
        room.len() == ranked.len(),
    ensures
        results@ == spec_assign(
            views(ranked@),
            numbers(room@),
            submissions@,
            names(votes@),
            limit as int,
        ),
{
    let ghost merit = views(ranked@);
    let ghost start = numbers(room@);
    let ghost voters = names(votes@);
    let ghost all = spec_assign(merit, start, submissions@, voters, limit as int);
    let mut room = room;
    let mut results: NameMap<Entry> = NameMap::new();
    let count = votes.len();
    let mut voter: usize = 0;
    proof {
        assert(results@ =~= all.take(0));
    }
    while voter < count
        invariant
            voter <= count == votes@.len() == voters.len(),
            merit == views(ranked@),
            voters == names(votes@),
            all == spec_assign(merit, start, submissions@, voters, limit as int),
            room.len() == ranked.len(),
            numbers(room@) == room_before(
                merit,
                start,
                submissions@,
                voters,
                limit as int,
                voter as int,
            ),
            results@ == all.take(voter as int),
        decreases count - voter,
    {
        let name = votes.name_at(voter);
        let own = submissions.get(name);
        assert(voters[voter as int] == name@);
        assert(kept_under(submissions@, name@) == (match own {
            Some(list) => views(list@),
            None => Seq::<EntryView>::empty(),
        }));
        let given = pick_for(ranked, &mut room, own, limit);
        assert(views(given@) == all[voter as int].1);
        results.append(name.clone(), given);
        assert(results@ =~= all.take(voter + 1));
        voter = voter + 1;
    }
    assert(all.take(count as int) =~= all);
    results
}

/// Computes the results of an exchange from its submissions and ballots.
///
/// The ballots are tallied and every entry is scored: `factor` thousandths
/// of the weight go to the number of ballots that name it, the rest to the
/// strength of the votes it got. The entries are ranked by score, earlier
/// found first among equals. Then the voters are served in the order of their
/// ballots: each gets the best entries that still have room and are not their
/// own, at most `user_max` of them. Every voter has a row in the results,
/// also one who gets nothing.
pub fn compute_results(
    submissions: &NameMap<Entry>,
    votes: &NameMap<Vote>,
    user_max: i32,
    factor: u32,
) -> (results: NameMap<Entry>)
    requires
        factor <= FACTOR_SCALE,
    ensures
        results@ == spec_compute_results(submissions@, votes@, user_max as int, factor as int),
        votes.wf() ==> results.wf(),
{
    proof {
        lemma_results_name_the_voters(submissions@, votes@, user_max as int, factor as int);
    }
    let tally = count_votes(votes);
    let range = priority_range(votes);
    let order = rank(&tally, factor, range.0, range.1);
    let ghost counted = spec_count_votes(votes@);
    let ghost places = numbers(order@);
    let mut ranked: Vec<Entry> = Vec::new();
    let mut room: Vec<usize> = Vec::new();
    let mut i: usize = 0;
    while i < order.len()
        invariant
            i <= order.len() == tally.len(),
            counted == views(tally@),
            places == numbers(order@),
            forall|k: int| 0 <= k < order.len() ==> (#[trigger] order[k]) < tally.len(),
            ranked.len() == i,
            room.len() == i,
            forall|k: int| 0 <= k < i ==> (#[trigger] views(ranked@)[k]) == counted[places[k]].entry,
            forall|k: int| 0 <= k < i ==> (#[trigger] room[k]) == counted[places[k]].votes,
        decreases order.len() - i,
    {
        let place = order[i];
        assert(counted[places[i as int]] == tally[place as int]@);
        let ghost before = views(ranked@);
        ranked.push(tally[place].entry.clone());
        room.push(tally[place].votes);
        assert(views(ranked@) =~= before.push(tally[place as int].entry@));
        i = i + 1;
    }
    let limit: usize = if user_max > 0 {
        user_max as usize
    } else {
        0
    };
    proof {
        assert(views(ranked@) =~= Seq::new(places.len(), |i: int| counted[places[i]].entry));
        assert(numbers(room@) =~= Seq::new(places.len(), |i: int| counted[places[i]].votes));
    }
    assign(&ranked, room, submissions, votes, limit)
}

/// The results name the voters, each once and in their order.
pub proof fn lemma_results_name_the_voters(
    submissions: Seq<Row<EntryView>>,
    ballots: Seq<Row<VoteView>>,
    user_max: int,
    factor: int,
)
    ensures
        names(spec_compute_results(submissions, ballots, user_max, factor)) == names(ballots),
        crate::model::distinct_names(ballots) ==> crate::model::distinct_names(
            spec_compute_results(submissions, ballots, user_max, factor),
        ),
{
    let results = spec_compute_results(submissions, ballots, user_max, factor);
    assert(names(results) =~= names(ballots));
    if crate::model::distinct_names(ballots) {
        assert forall|i: int, j: int| 0 <= i < j < results.len() implies (#[trigger] results[i]).0
            != (#[trigger] results[j]).0 by {
            assert(results[i].0 == ballots[i].0);
            assert(results[j].0 == ballots[j].0);
        }
    }
}

/// What is picked for a participant: no more places than the limit, in
/// order of merit, each with room left and none holding a set of their own.
pub proof fn lemma_picks(
    ranked: Seq<EntryView>,
    room: Seq<int>,
    own: Seq<EntryView>,
    limit: int,
    upto: int,
)
    requires
        0 <= upto <= ranked.len(),
    ensures
        picks(ranked, room, own, limit, upto).len() <= upto,
        limit >= 0 ==> picks(ranked, room, own, limit, upto).len() <= limit,
        limit <= 0 ==> picks(ranked, room, own, limit, upto).len() == 0,
        forall|k: int|
            0 <= k < picks(ranked, room, own, limit, upto).len() ==> {
                let place = #[trigger] picks(ranked, room, own, limit, upto)[k];
                &&& 0 <= place < upto
                &&& room[place] > 0
                &&& !own.contains(ranked[place])
            },
        forall|k: int, l: int|
            0 <= k < l < picks(ranked, room, own, limit, upto).len() ==> #[trigger] picks(
                ranked,
                room,
                own,
                limit,
                upto,
            )[k] < #[trigger] picks(ranked, room, own, limit, upto)[l],
    decreases upto,
{
    if upto > 0 {
        lemma_picks(ranked, room, own, limit, upto - 1);
    }
}

/// Nobody is given more entries than the limit allows, and nobody is given a
/// set equal to one that they handed in.
pub proof fn lemma_share_is_fair(
    ranked: Seq<EntryView>,
    room: Seq<int>,
    submissions: Seq<Row<EntryView>>,
    voters: Seq<Seq<char>>,
    limit: int,
    voter: int,
)
    requires
        0 <= voter < voters.len(),
        limit >= 0,
    ensures
        share(ranked, room, submissions, voters, limit, voter).len() <= limit,
        forall|k: int|
            0 <= k < share(ranked, room, submissions, voters, limit, voter).len() ==> !kept_under(
                submissions,
                voters[voter],
            ).contains(#[trigger] share(ranked, room, submissions, voters, limit, voter)[k]),
{
    let left = room_before(ranked, room, submissions, voters, limit, voter);
    lemma_picks(
        ranked,
        left,
        kept_under(submissions, voters[voter]),
        limit,
        ranked.len() as int,
    );
}

/// To how many of the first `upto` voters the entry at `place` goes.
pub open spec fn times_given(
    ranked: Seq<EntryView>,
    room: Seq<int>,
    submissions: Seq<Row<EntryView>>,
    voters: Seq<Seq<char>>,
    limit: int,
    place: int,
    upto: int,
) -> int
    decreases upto,
{
    if upto <= 0 {
        0
    } else {
        let left = room_before(ranked, room, submissions, voters, limit, upto - 1);
        let picked = picks(
            ranked,
            left,
            kept_under(submissions, voters[upto - 1]),
            limit,
            ranked.len() as int,
        );
        times_given(ranked, room, submissions, voters, limit, place, upto - 1) + (if picked.contains(
            place,
        ) {
            1int
        } else {
            0int
        })
    }
}

/// No entry goes to more participants than it has room for: the room that is
/// left is the room it started with less the times it was given, and never
/// drops below zero.
pub proof fn lemma_room_is_respected(
    ranked: Seq<EntryView>,
    room: Seq<int>,
    submissions: Seq<Row<EntryView>>,
    voters: Seq<Seq<char>>,
    limit: int,
    place: int,
    upto: int,
)
    requires
        room.len() == ranked.len(),
        0 <= place < ranked.len(),
        room[place] >= 0,
        0 <= upto <= voters.len(),
    ensures
        room_before(ranked, room, submissions, voters, limit, upto).len() == room.len(),
        room_before(ranked, room, submissions, voters, limit, upto)[place] == room[place]
            - times_given(ranked, room, submissions, voters, limit, place, upto),
        room_before(ranked, room, submissions, voters, limit, upto)[place] >= 0,
        0 <= times_given(ranked, room, submissions, voters, limit, place, upto) <= room[place],
    decreases upto,
{
    if upto > 0 {
        lemma_room_is_respected(ranked, room, submissions, voters, limit, place, upto - 1);
        let left = room_before(ranked, room, submissions, voters, limit, upto - 1);
        let own = kept_under(submissions, voters[upto - 1]);
        let picked = picks(ranked, left, own, limit, ranked.len() as int);
        lemma_picks(ranked, left, own, limit, ranked.len() as int);
        if picked.contains(place) {
            let k = choose|k: int| 0 <= k < picked.len() && picked[k] == place;
            assert(left[picked[k]] > 0);
        }
    }
}

} // verus!
