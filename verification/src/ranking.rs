//! Scoring the entries of a tally and putting them in order of merit.
//!
//! An entry's score blends how many ballots name it with how strongly the
//! voters want it. The assignment factor, counted in thousandths, is the
//! weight of the first; what is left of a whole is the weight of the second.
//!
//! A lower priority number is a stronger wish. With `highest` the largest
//! priority number on any ballot, a vote of priority `p` has the strength
//! `highest - p + 1`: the least wanted vote has strength 1, and every step
//! towards the front adds one.

use crate::entry::{Vote, VoteView};
use crate::model::{flatten, numbers, views, Row};
use crate::name_map::NameMap;
use crate::tally::{lemma_reading_start, lemma_reading_step, reading, Count, CountView};
use vstd::prelude::*;

verus! {

/// The assignment factor that gives all weight to the number of ballots.
pub const FACTOR_SCALE: u32 = 1000;

/// The largest priority number among `votes`; without votes, the least number
/// there is.
pub open spec fn highest_priority(votes: Seq<VoteView>) -> int
    decreases votes.len(),
{
    if votes.len() == 0 {
        i32::MIN as int
    } else {
        let rest = highest_priority(votes.drop_last());
        if votes.last().priority > rest {
            votes.last().priority
        } else {
            rest
        }
    }
}

/// The smallest priority number among `votes`; without votes, the largest
/// number there is.
pub open spec fn lowest_priority(votes: Seq<VoteView>) -> int
    decreases votes.len(),
{
    if votes.len() == 0 {
        i32::MAX as int
    } else {
        let rest = lowest_priority(votes.drop_last());
        if votes.last().priority < rest {
            votes.last().priority
        } else {
            rest
        }
    }
}

/// How strong a vote of the given priority is where `highest` is the largest
/// priority number in use.
pub open spec fn strength(priority: int, highest: int) -> int {
    highest - priority + 1
}

/// The strengths of the votes with the given priorities, added up.
pub open spec fn total_strength(priorities: Seq<int>, highest: int) -> int
    decreases priorities.len(),
{
    if priorities.len() == 0 {
        0
    } else {
        total_strength(priorities.drop_last(), highest) + strength(priorities.last(), highest)
    }
}

/// The score of an entry, in thousandths.
///
/// `factor` thousandths of the weight go to popularity: the number of ballots
/// that name the entry, each counted as a vote of full strength (the strength
/// of the most wanted priority in use). The rest goes to preference: the
/// added strengths of the votes that the entry did get.
pub open spec fn score(count: CountView, factor: int, lowest: int, highest: int) -> int {
    factor * (count.votes * strength(lowest, highest)) + (FACTOR_SCALE - factor) * total_strength(
        count.priorities,
        highest,
    )
}

/// The scores of the entries of `tally`, in the order of the tally.
pub open spec fn spec_scores(tally: Seq<CountView>, factor: int, lowest: int, highest: int) -> Seq<
    int,
> {
    Seq::new(tally.len(), |k: int| score(tally[k], factor, lowest, highest))
}

/// Where `item` goes in `order`, looking from `from` on: behind every entry
/// that scores at least as much.
pub open spec fn slot(scores: Seq<int>, order: Seq<int>, item: int, from: int) -> int
    decreases order.len() - from,
{
    if 0 <= from < order.len() && scores[order[from]] >= scores[item] {
        slot(scores, order, item, from + 1)
    } else {
        from
    }
}

/// The first `upto` entries in order of merit: the higher score first, and
/// among equal scores the entry that was found first. Entries are given by
/// their place in the tally.
pub open spec fn ranking(scores: Seq<int>, upto: int) -> Seq<int>
    decreases upto,
{
    if upto <= 0 {
        Seq::empty()
    } else {
        let order = ranking(scores, upto - 1);
        order.insert(slot(scores, order, upto - 1, 0), upto - 1)
    }
}

/// The smallest and the largest priority number on the ballots.
pub fn priority_range(votes: &NameMap<Vote>) -> (range: (i32, i32))
    ensures
        range.0 == lowest_priority(flatten(votes@)),
        range.1 == highest_priority(flatten(votes@)),
{
    let mut lowest: i32 = i32::MAX;
    let mut highest: i32 = i32::MIN;
    let voters = votes.len();
    let mut b: usize = 0;
    proof {
        assert(votes@.take(0) =~= Seq::<Row<VoteView>>::empty());
    }
    while b < voters
        invariant
            b <= voters == votes@.len(),
            lowest == lowest_priority(flatten(votes@.take(b as int))),
            highest == highest_priority(flatten(votes@.take(b as int))),
        decreases voters - b,
    {
        let ballot = votes.items_at(b);
        let ghost done = votes@.take(b as int);
        let ghost voter = votes@[b as int].0;
        let ghost cast = views(ballot@);
        proof {
            lemma_reading_start(done, voter, cast);
        }
        let mut j: usize = 0;
        while j < ballot.len()
            invariant
                j <= ballot.len(),
                cast == views(ballot@),
                lowest == lowest_priority(flatten(reading(done, voter, cast, j as int))),
                highest == highest_priority(flatten(reading(done, voter, cast, j as int))),
            decreases ballot.len() - j,
        {
            let priority = ballot[j].priority;
            proof {
                lemma_reading_step(done, voter, cast, j as int, cast[j as int].entry);
                let read = flatten(reading(done, voter, cast, j as int));
                assert(read.push(cast[j as int]).drop_last() =~= read);
            }
            if priority < lowest {
                lowest = priority;
            }
            if priority > highest {
                highest = priority;
            }
            j = j + 1;
        }
        proof {
            assert(cast.take(ballot.len() as int) =~= cast);
            assert(reading(done, voter, cast, ballot.len() as int) =~= votes@.take(b + 1));
        }
        b = b + 1;
    }
    assert(votes@.take(votes@.len() as int) =~= votes@);
    (lowest, highest)
}

/// The score of one entry of the tally.
pub fn score_of(count: &Count, factor: u32, lowest: i32, highest: i32) -> (points: i128)
    requires
        factor <= FACTOR_SCALE,
    ensures
        points == score(count@, factor as int, lowest as int, highest as int),
{
    let ghost priorities = count@.priorities;
    let mut total: i128 = 0;
    let mut i: usize = 0;
    while i < count.priorities.len()
        invariant
            i <= count.priorities.len(),
            priorities == count@.priorities,
            total == total_strength(priorities.take(i as int), highest as int),
            -(i * 0x1_0000_0000) <= total <= i * 0x1_0000_0000,
        decreases count.priorities.len() - i,
    {
        proof {
            assert(priorities.take(i + 1).drop_last() =~= priorities.take(i as int));
        }
        total = total + (highest as i128 - count.priorities[i] as i128 + 1);
        i = i + 1;
    }
    proof {
        assert(priorities.take(count.priorities.len() as int) =~= priorities);
    }
    let full: i128 = highest as i128 - lowest as i128 + 1;
    let named: i128 = count.votes as i128;
    let weight: i128 = factor as i128;
    let rest: i128 = FACTOR_SCALE as i128 - weight;
    assert(-0x2_0000_0000_0000_0000_0000_0000 <= named * full <= 0x2_0000_0000_0000_0000_0000_0000)
        by (nonlinear_arith)
        requires
            0 <= named <= 0xffff_ffff_ffff_ffff,
            -0x1_0000_0000 <= full <= 0x1_0000_0000,
    ;
    let popularity: i128 = named * full;
    assert(-2000 * 0x1_0000_0000_0000_0000_0000_0000 <= weight * popularity <= 2000
        * 0x1_0000_0000_0000_0000_0000_0000) by (nonlinear_arith)
        requires
            0 <= weight <= 1000,
            -0x2_0000_0000_0000_0000_0000_0000 <= popularity <= 0x2_0000_0000_0000_0000_0000_0000,
    ;
    assert(-1000 * 0x1_0000_0000_0000_0000_0000_0000 <= rest * total <= 1000
        * 0x1_0000_0000_0000_0000_0000_0000) by (nonlinear_arith)
        requires
            0 <= rest <= 1000,
            -(0xffff_ffff_ffff_ffff * 0x1_0000_0000) <= total <= 0xffff_ffff_ffff_ffff
                * 0x1_0000_0000,
    ;
    weight * popularity + rest * total
}

/// The scores of the entries of the tally, in the order of the tally.
pub fn scores_of(tally: &Vec<Count>, factor: u32, lowest: i32, highest: i32) -> (scores: Vec<i128>)
    requires
        factor <= FACTOR_SCALE,
    ensures
        scores.len() == tally.len(),
        forall|k: int|
            0 <= k < scores.len() ==> #[trigger] scores[k] == spec_scores(
                views(tally@),
                factor as int,
                lowest as int,
                highest as int,
            )[k],
{
    let mut scores: Vec<i128> = Vec::new();
    let mut k: usize = 0;
    while k < tally.len()
        invariant
            k <= tally.len(),
            factor <= FACTOR_SCALE,
            scores.len() == k,
            forall|r: int|
                0 <= r < k ==> #[trigger] scores[r] == spec_scores(
                    views(tally@),
                    factor as int,
                    lowest as int,
                    highest as int,
                )[r],
        decreases tally.len() - k,
    {
        scores.push(score_of(&tally[k], factor, lowest, highest));
        k = k + 1;
    }
    scores
}

/// Puts the entries of the tally in order of merit: the higher score first,
/// and among equal scores the entry that was found first. The result lists
/// the entries by their place in the tally.
pub fn rank(tally: &Vec<Count>, factor: u32, lowest: i32, highest: i32) -> (order: Vec<usize>)
    requires
        factor <= FACTOR_SCALE,
    ensures
        order.len() == tally.len(),
        forall|i: int| 0 <= i < order.len() ==> (#[trigger] order[i]) < tally.len(),
        numbers(order@) == ranking(
            spec_scores(views(tally@), factor as int, lowest as int, highest as int),
            tally.len() as int,
        ),
{
    let scores = scores_of(tally, factor, lowest, highest);
    let ghost points = spec_scores(views(tally@), factor as int, lowest as int, highest as int);
    let mut order: Vec<usize> = Vec::new();
    let mut item: usize = 0;
    proof {
        assert(numbers(order@) =~= ranking(points, 0));
    }
    while item < scores.len()
        invariant
            item <= scores.len() == tally.len() == points.len(),
            forall|k: int| 0 <= k < scores.len() ==> #[trigger] scores[k] == points[k],
            order.len() == item,
            forall|i: int| 0 <= i < order.len() ==> (#[trigger] order[i]) < item,
            numbers(order@) == ranking(points, item as int),
        decreases scores.len() - item,
    {
        let ghost before = numbers(order@);
        let mut at: usize = 0;
        while at < order.len() && scores[order[at]] >= scores[item]
            invariant
                at <= order.len() == item < scores.len() == points.len(),
                forall|k: int| 0 <= k < scores.len() ==> #[trigger] scores[k] == points[k],
                forall|i: int| 0 <= i < order.len() ==> (#[trigger] order[i]) < item,
                before == numbers(order@),
                slot(points, before, item as int, at as int) == slot(points, before, item as int, 0),
            decreases order.len() - at,
        {
            assert(before[at as int] == order[at as int]);
            at = at + 1;
        }
        proof {
            if at < order.len() {
                assert(before[at as int] == order[at as int]);
            }
            assert(slot(points, before, item as int, at as int) == at);
        }
        order.insert(at, item);
        proof {
            assert(numbers(order@) =~= before.insert(at as int, item as int));
            assert forall|i: int| 0 <= i < order.len() implies (#[trigger] order[i]) < item + 1 by {
                if i < at {
                    assert(order[i] == before[i]);
                } else if i > at {
                    assert(order[i] == before[i - 1]);
                }
            }
        }
        item = item + 1;
    }
    order
}

/// Whether the entry at place `one` of the tally comes before the entry at
/// place `other`: it scores more, or as much and was found earlier.
pub open spec fn outranks(scores: Seq<int>, one: int, other: int) -> bool {
    scores[one] > scores[other] || (scores[one] == scores[other] && one < other)
}

/// Whether `order` lists places of the tally in order of merit.
pub open spec fn in_order_of_merit(scores: Seq<int>, order: Seq<int>) -> bool {
    forall|a: int, b: int|
        0 <= a < b < order.len() ==> outranks(scores, #[trigger] order[a], #[trigger] order[b])
}

/// The slot of an item lies behind everything that scores at least as much
/// and before whatever scores less.
pub proof fn lemma_slot(scores: Seq<int>, order: Seq<int>, item: int, from: int)
    requires
        0 <= from <= order.len(),
    ensures
        from <= slot(scores, order, item, from) <= order.len(),
        forall|k: int|
            from <= k < slot(scores, order, item, from) ==> scores[#[trigger] order[k]]
                >= scores[item],
        slot(scores, order, item, from) < order.len() ==> scores[order[slot(
            scores,
            order,
            item,
            from,
        )]] < scores[item],
    decreases order.len() - from,
{
    if from < order.len() && scores[order[from]] >= scores[item] {
        lemma_slot(scores, order, item, from + 1);
    }
}

/// The ranking lists every entry of the tally once, the higher score first
/// and, among equal scores, the entry that was found first.
pub proof fn lemma_ranking_ordered(scores: Seq<int>, upto: int)
    requires
        0 <= upto <= scores.len(),
    ensures
        ranking(scores, upto).len() == upto,
        forall|a: int| 0 <= a < upto ==> 0 <= #[trigger] ranking(scores, upto)[a] < upto,
        in_order_of_merit(scores, ranking(scores, upto)),
        forall|place: int| 0 <= place < upto ==> ranking(scores, upto).contains(place),
    decreases upto,
{
    if upto > 0 {
        let item = upto - 1;
        let before = ranking(scores, item);
        let at = slot(scores, before, item, 0);
        let order = ranking(scores, upto);
        lemma_ranking_ordered(scores, item);
        lemma_slot(scores, before, item, 0);
        assert(order == before.insert(at, item));
        assert forall|a: int| 0 <= a < upto implies 0 <= #[trigger] order[a] < upto by {
            if a < at {
                assert(order[a] == before[a]);
            } else if a > at {
                assert(order[a] == before[a - 1]);
            }
        }
        assert forall|a: int, b: int| 0 <= a < b < order.len() implies outranks(
            scores,
            #[trigger] order[a],
            #[trigger] order[b],
        ) by {
            if b < at {
                assert(order[a] == before[a] && order[b] == before[b]);
            } else if a > at {
                assert(order[a] == before[a - 1] && order[b] == before[b - 1]);
            } else if a == at {
                assert(order[b] == before[b - 1]);
                if b - 1 > at {
                    assert(outranks(scores, before[at], before[b - 1]));
                }
            } else if b == at {
                assert(order[a] == before[a]);
                assert(scores[before[a]] >= scores[item]);
            } else {
                assert(order[a] == before[a] && order[b] == before[b - 1]);
            }
        }
        assert forall|place: int| 0 <= place < upto implies order.contains(place) by {
            if place == item {
                assert(order[at] == place);
            } else {
                assert(before.contains(place));
                let k = choose|k: int| 0 <= k < before.len() && before[k] == place;
                if k < at {
                    assert(order[k] == place);
                } else {
                    assert(order[k + 1] == place);
                }
            }
        }
    }
}

} // verus!
