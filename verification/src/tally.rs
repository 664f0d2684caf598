//! Counting the ballots: for every entry that somebody voted for, how many
//! ballots name it and with which priorities.

use crate::entry::{Entry, EntryView, Vote, VoteView};
use crate::model::{flatten, views, Row};
use crate::name_map::NameMap;
use crate::reconcile::{lemma_merge_contains, lemma_merge_no_duplicates, merge};
use vstd::prelude::*;

verus! {

/// The mathematical value of a [`Count`].
pub struct CountView {
    pub entry: EntryView,
    pub votes: int,
    pub priorities: Seq<int>,
}

/// What the ballots say about one entry.
#[derive(Debug)]
pub struct Count {
    /// The entry that was voted for.
    pub entry: Entry,
    /// How many ballots name the entry.
    pub votes: usize,
    /// The priority of every vote for the entry, in the order of the ballots
    /// and, within a ballot, of its votes.
    pub priorities: Vec<i32>,
}

impl View for Count {
    type V = CountView;

    open spec fn view(&self) -> CountView {
        CountView {
            entry: self.entry@,
            votes: self.votes as int,
            priorities: Seq::new(self.priorities@.len(), |i: int| self.priorities@[i] as int),
        }
    }
}

/// The test that a vote is for `entry`.
pub open spec fn names_entry(entry: EntryView) -> spec_fn(VoteView) -> bool {
    |vote: VoteView| vote.entry == entry
}

/// Whether some vote of `ballot` is for `entry`.
pub open spec fn voted_for(ballot: Seq<VoteView>, entry: EntryView) -> bool {
    exists|i: int| 0 <= i < ballot.len() && (#[trigger] ballot[i]).entry == entry
}

/// The test that a voter's ballot holds a vote for `entry`.
pub open spec fn chooses(entry: EntryView) -> spec_fn(Row<VoteView>) -> bool {
    |row: Row<VoteView>| voted_for(row.1, entry)
}

/// How many of `ballots` hold a vote for `entry`.
pub open spec fn ballot_count(ballots: Seq<Row<VoteView>>, entry: EntryView) -> nat {
    ballots.filter(chooses(entry)).len()
}

/// The priorities of the votes for `entry` among `votes`, in order.
pub open spec fn priorities_of(votes: Seq<VoteView>, entry: EntryView) -> Seq<int> {
    votes.filter(names_entry(entry)).map_values(|vote: VoteView| vote.priority)
}

/// The entries that `votes` are for, vote by vote.
pub open spec fn entries_of(votes: Seq<VoteView>) -> Seq<EntryView> {
    votes.map_values(|vote: VoteView| vote.entry)
}

/// The entries that `votes` are for, each once, in the order in which they
/// first come up.
pub open spec fn candidates(votes: Seq<VoteView>) -> Seq<EntryView> {
    merge(Seq::<EntryView>::empty(), entries_of(votes))
}

/// What `ballots` say about `entry`.
pub open spec fn count_of(ballots: Seq<Row<VoteView>>, entry: EntryView) -> CountView {
    CountView {
        entry,
        votes: ballot_count(ballots, entry) as int,
        priorities: priorities_of(flatten(ballots), entry),
    }
}

/// The tally of `ballots`: one count for every entry voted for, in the order
/// in which the entries first come up when the ballots are read one after the
/// other.
pub open spec fn spec_count_votes(ballots: Seq<Row<VoteView>>) -> Seq<CountView> {
    let found = candidates(flatten(ballots));
    Seq::new(found.len(), |k: int| count_of(ballots, found[k]))
}

/// The votes of every ballot are among the votes of all ballots.
pub proof fn lemma_flatten_contains<V>(rows: Seq<Row<V>>, row: int, at: int)
    requires
        0 <= row < rows.len(),
        0 <= at < rows[row].1.len(),
    ensures
        flatten(rows).contains(rows[row].1[at]),
    decreases rows.len(),
{
    let front = rows.drop_last();
    let all = flatten(rows);
    if row == rows.len() - 1 {
        assert(all[flatten(front).len() + at] == rows[row].1[at]);
    } else {
        assert(front[row] == rows[row]);
        lemma_flatten_contains(front, row, at);
        let i = choose|i: int| 0 <= i < flatten(front).len() && flatten(front)[i] == rows[row].1[at];
        assert(all[i] == rows[row].1[at]);
    }
}

/// An entry that no vote is for is named by no ballot.
pub proof fn lemma_unseen_entry(ballots: Seq<Row<VoteView>>, entry: EntryView)
    requires
        !candidates(flatten(ballots)).contains(entry),
    ensures
        ballot_count(ballots, entry) == 0,
        forall|row: int| 0 <= row < ballots.len() ==> !voted_for((#[trigger] ballots[row]).1, entry),
{
    let all = flatten(ballots);
    lemma_merge_contains(Seq::<EntryView>::empty(), entries_of(all), entry);
    assert forall|row: int| 0 <= row < ballots.len() implies !chooses(entry)(
        #[trigger] ballots[row],
    ) by {
        if voted_for(ballots[row].1, entry) {
            let at = choose|i: int|
                0 <= i < ballots[row].1.len() && (#[trigger] ballots[row].1[i]).entry == entry;
            lemma_flatten_contains(ballots, row, at);
            let i = choose|i: int| 0 <= i < all.len() && all[i] == ballots[row].1[at];
            assert(entries_of(all)[i] == entry);
        }
    }
    crate::model::lemma_filter_none(ballots, chooses(entry));
}

/// The ballots read so far, with the ballot that is being read cut off after
/// its first `read` votes.
pub open spec fn reading(
    done: Seq<Row<VoteView>>,
    voter: Seq<char>,
    ballot: Seq<VoteView>,
    read: int,
) -> Seq<Row<VoteView>> {
    done.push((voter, ballot.take(read)))
}

/// Opening a ballot changes nothing yet.
pub proof fn lemma_reading_start(done: Seq<Row<VoteView>>, voter: Seq<char>, ballot: Seq<VoteView>)
    ensures
        spec_count_votes(reading(done, voter, ballot, 0)) == spec_count_votes(done),
        flatten(reading(done, voter, ballot, 0)) == flatten(done),
{
    reveal(Seq::filter);
    let now = reading(done, voter, ballot, 0);
    assert(now.drop_last() =~= done);
    assert(flatten(now) =~= flatten(done));
    let found = candidates(flatten(done));
    assert forall|k: int| 0 <= k < found.len() implies count_of(now, found[k]) == count_of(
        done,
        found[k],
    ) by {
        assert(!voted_for(ballot.take(0), found[k]));
    }
    assert(spec_count_votes(now) =~= spec_count_votes(done));
}

/// What reading one vote more does to the votes read, to the entries found and
/// to what is known about any entry.
pub proof fn lemma_reading_step(
    done: Seq<Row<VoteView>>,
    voter: Seq<char>,
    ballot: Seq<VoteView>,
    read: int,
    entry: EntryView,
)
    requires
        0 <= read < ballot.len(),
    ensures
        flatten(reading(done, voter, ballot, read + 1)) == flatten(
            reading(done, voter, ballot, read),
        ).push(ballot[read]),
        candidates(flatten(reading(done, voter, ballot, read + 1))) == ({
            let found = candidates(flatten(reading(done, voter, ballot, read)));
            if found.contains(ballot[read].entry) {
                found
            } else {
                found.push(ballot[read].entry)
            }
        }),
        priorities_of(flatten(reading(done, voter, ballot, read + 1)), entry) == ({
            let before = priorities_of(flatten(reading(done, voter, ballot, read)), entry);
            if ballot[read].entry == entry {
                before.push(ballot[read].priority)
            } else {
                before
            }
        }),
        ballot_count(reading(done, voter, ballot, read + 1), entry) == ballot_count(
            reading(done, voter, ballot, read),
            entry,
        ) + (if ballot[read].entry == entry && !voted_for(ballot.take(read), entry) {
            1nat
        } else {
            0nat
        }),
        ballot_count(reading(done, voter, ballot, read + 1), entry) <= done.len() + 1,
{
    reveal(Seq::filter);
    let before = reading(done, voter, ballot, read);
    let after = reading(done, voter, ballot, read + 1);
    let vote = ballot[read];
    assert(before.drop_last() =~= done);
    assert(after.drop_last() =~= done);
    assert(ballot.take(read + 1) =~= ballot.take(read).push(vote));
    assert(flatten(after) =~= flatten(before).push(vote));
    // the entries found
    let votes = flatten(before);
    assert(entries_of(votes.push(vote)) =~= entries_of(votes).push(vote.entry));
    assert(entries_of(votes).push(vote.entry).drop_last() =~= entries_of(votes));
    // the priorities
    assert(votes.push(vote).drop_last() =~= votes);
    let hits = votes.filter(names_entry(entry));
    if vote.entry == entry {
        assert(votes.push(vote).filter(names_entry(entry)) == hits.push(vote));
        assert(priorities_of(votes.push(vote), entry) =~= priorities_of(votes, entry).push(
            vote.priority,
        ));
    } else {
        assert(votes.push(vote).filter(names_entry(entry)) == hits);
    }
    // the ballots
    if voted_for(ballot.take(read), entry) {
        let i = choose|i: int|
            0 <= i < ballot.take(read).len() && (#[trigger] ballot.take(read)[i]).entry == entry;
        assert(ballot.take(read + 1)[i].entry == entry);
    }
    if vote.entry == entry {
        assert(ballot.take(read + 1)[read].entry == entry);
    }
    if voted_for(ballot.take(read + 1), entry) {
        let i = choose|i: int|
            0 <= i < ballot.take(read + 1).len() && (#[trigger] ballot.take(read + 1)[i]).entry
                == entry;
        if i < read {
            assert(ballot.take(read)[i].entry == entry);
        }
    }
    done.lemma_filter_len(chooses(entry));
}

/// An entry that is not among the entries found has no vote yet.
pub proof fn lemma_unseen_priorities(votes: Seq<VoteView>, entry: EntryView)
    requires
        !candidates(votes).contains(entry),
    ensures
        priorities_of(votes, entry) == Seq::<int>::empty(),
{
    lemma_merge_contains(Seq::<EntryView>::empty(), entries_of(votes), entry);
    assert forall|i: int| 0 <= i < votes.len() implies !names_entry(entry)(#[trigger] votes[i]) by {
        if votes[i].entry == entry {
            assert(entries_of(votes)[i] == entry);
        }
    }
    crate::model::lemma_filter_none(votes, names_entry(entry));
    assert(priorities_of(votes, entry) =~= Seq::<int>::empty());
}

/// Where the count for `entry` stands in `tally`, if there is one.
pub fn find_count(tally: &Vec<Count>, entry: &Entry) -> (at: Option<usize>)
    ensures
        match at {
            Some(index) => {
                &&& index < tally.len()
                &&& tally[index as int].entry@ == entry@
                &&& forall|k: int| 0 <= k < index ==> (#[trigger] tally[k]).entry@ != entry@
            },
            None => forall|k: int| 0 <= k < tally.len() ==> (#[trigger] tally[k]).entry@ != entry@,
        },
{
    let mut i: usize = 0;
    while i < tally.len()
        invariant
            i <= tally.len(),
            forall|k: int| 0 <= k < i ==> (#[trigger] tally[k]).entry@ != entry@,
        decreases tally.len() - i,
    {
        if tally[i].entry == *entry {
            return Some(i);
        }
        i = i + 1;
    }
    None
}

/// Whether one of the first `upto` votes of `ballot` is for `entry`.
pub fn voted_before(ballot: &Vec<Vote>, upto: usize, entry: &Entry) -> (found: bool)
    requires
        upto <= ballot.len(),
    ensures
        found == voted_for(views(ballot@).take(upto as int), entry@),
{
    let ghost read = views(ballot@).take(upto as int);
    let mut i: usize = 0;
    while i < upto
        invariant
            i <= upto <= ballot.len(),
            read == views(ballot@).take(upto as int),
            forall|k: int| 0 <= k < i ==> (#[trigger] read[k]).entry != entry@,
        decreases upto - i,
    {
        if ballot[i].entry == *entry {
            assert(read[i as int].entry == entry@);
            return true;
        }
        i = i + 1;
    }
    false
}

/// Tallies the ballots.
///
/// The tally holds one count for every entry that some vote is for, in the
/// order in which the entries first come up when the ballots are read one
/// after the other. A count says how many ballots name the entry, and lists
/// the priority of every vote for it. A ballot that names an entry twice
/// counts once and adds both priorities.
pub fn count_votes(votes: &NameMap<Vote>) -> (tally: Vec<Count>)
    ensures
        views(tally@) == spec_count_votes(votes@),
{
    let mut tally: Vec<Count> = Vec::new();
    let voters = votes.len();
    let mut b: usize = 0;
    proof {
        assert(votes@.take(0) =~= Seq::<Row<VoteView>>::empty());
        assert(views(tally@) =~= spec_count_votes(votes@.take(0)));
    }
    while b < voters
        invariant
            b <= voters == votes@.len(),
            views(tally@) == spec_count_votes(votes@.take(b as int)),
        decreases voters - b,
    {
        let ballot = votes.items_at(b);
        let ghost done = votes@.take(b as int);
        let ghost voter = votes@[b as int].0;
        let ghost cast = views(ballot@);
        proof {
            lemma_reading_start(done, voter, cast);
        }
        let mut j: usize = 0;
        while j < ballot.len()
            invariant
                j <= ballot.len(),
                b < voters == votes@.len(),
                done == votes@.take(b as int),
                cast == views(ballot@),
                views(tally@) == spec_count_votes(reading(done, voter, cast, j as int)),
            decreases ballot.len() - j,
        {
            let vote = &ballot[j];
            let ghost before = reading(done, voter, cast, j as int);
            let ghost after = reading(done, voter, cast, j + 1);
            let ghost found = candidates(flatten(before));
            let ghost old_tally = views(tally@);
            proof {
                lemma_merge_no_duplicates(
                    Seq::<EntryView>::empty(),
                    entries_of(flatten(before)),
                );
                lemma_reading_step(done, voter, cast, j as int, vote.entry@);
                assert forall|k: int| 0 <= k < found.len() implies #[trigger] count_of(
                    after,
                    found[k],
                ) == (if found[k] == vote.entry@ {
                    CountView {
                        entry: found[k],
                        votes: count_of(before, found[k]).votes + (if voted_for(
                            cast.take(j as int),
                            found[k],
                        ) {
                            0int
                        } else {
                            1int
                        }),
                        priorities: count_of(before, found[k]).priorities.push(
                            vote.priority as int,
                        ),
                    }
                } else {
                    count_of(before, found[k])
                }) by {
                    lemma_reading_step(done, voter, cast, j as int, found[k]);
                }
            }
            match find_count(&tally, &vote.entry) {
                Some(k) => {
                    assert(old_tally.len() == found.len());
                    assert(old_tally[k as int] == tally[k as int]@);
                    assert(old_tally[k as int] == count_of(before, found[k as int]));
                    assert(found[k as int] == vote.entry@);
                    let seen = voted_before(ballot, j, &vote.entry);
                    let named = tally[k].votes;
                    assert(named == count_of(before, found[k as int]).votes);
                    assert(count_of(after, found[k as int]).votes <= done.len() + 1);
                    tally[k].priorities.push(vote.priority);
                    if !seen {
                        tally[k].votes = named + 1;
                    }
                    proof {
                        let new_tally = views(tally@);
                        assert(new_tally.len() == found.len());
                        assert forall|r: int| 0 <= r < found.len() implies new_tally[r]
                            == count_of(after, found[r]) by {
                            assert(old_tally[r] == count_of(before, found[r]));
                            if r == k {
                                assert(new_tally[r].priorities =~= old_tally[r].priorities.push(
                                    vote.priority as int,
                                ));
                            } else {
                                assert(found[r] != found[k as int]);
                                assert(new_tally[r] == old_tally[r]);
                            }
                        }
                        assert(new_tally =~= spec_count_votes(after));
                    }
                },
                None => {
                    proof {
                        assert(old_tally.len() == found.len());
                        assert(!found.contains(vote.entry@)) by {
                            if found.contains(vote.entry@) {
                                let i = choose|i: int|
                                    0 <= i < found.len() && found[i] == vote.entry@;
                                assert(old_tally[i].entry == vote.entry@);
                            }
                        }
                        lemma_unseen_priorities(flatten(before), vote.entry@);
                        lemma_unseen_entry(before, vote.entry@);
                        assert(before[before.len() - 1].1 == cast.take(j as int));
                    }
                    let mut priorities: Vec<i32> = Vec::new();
                    priorities.push(vote.priority);
                    tally.push(Count { entry: vote.entry.clone(), votes: 1, priorities });
                    proof {
                        let new_tally = views(tally@);
                        let now = found.push(vote.entry@);
                        assert(new_tally.len() == now.len());
                        assert forall|r: int| 0 <= r < now.len() implies new_tally[r] == count_of(
                            after,
                            now[r],
                        ) by {
                            if r < found.len() {
                                assert(old_tally[r] == count_of(before, found[r]));
                                assert(found[r] != vote.entry@);
                                assert(new_tally[r] == old_tally[r]);
                            } else {
                                assert(new_tally[r].priorities =~= Seq::<int>::empty().push(
                                    vote.priority as int,
                                ));
                            }
                        }
                        assert(new_tally =~= spec_count_votes(after));
                    }
                },
            }
            j = j + 1;
        }
        proof {
            assert(cast.take(ballot.len() as int) =~= cast);
            assert(reading(done, voter, cast, ballot.len() as int) =~= votes@.take(b + 1));
        }
        b = b + 1;
    }
    assert(votes@.take(votes@.len() as int) =~= votes@);
    tally
}

/// The tally lists every entry that a vote is for, each once, and no other
/// entry; and no entry is named by more ballots than there are.
pub proof fn lemma_tally_lists_each_entry_once(ballots: Seq<Row<VoteView>>, entry: EntryView)
    ensures
        candidates(flatten(ballots)).no_duplicates(),
        spec_count_votes(ballots).len() == candidates(flatten(ballots)).len(),
        candidates(flatten(ballots)).contains(entry) <==> entries_of(flatten(ballots)).contains(
            entry,
        ),
        ballot_count(ballots, entry) <= ballots.len(),
{
    lemma_merge_no_duplicates(Seq::<EntryView>::empty(), entries_of(flatten(ballots)));
    lemma_merge_contains(Seq::<EntryView>::empty(), entries_of(flatten(ballots)), entry);
    ballots.lemma_filter_len(chooses(entry));
}

} // verus!
