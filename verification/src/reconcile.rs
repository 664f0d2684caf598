//! Bringing a participant's submissions up to date: merging what comes in
//! with what is kept, and deleting sets from everybody's lists.

use crate::entry::{Entry, EntryView};
use crate::model::{
    distinct_names, has_name, lemma_filter_distinct, lemma_filter_step, views, Row,
};
use crate::name_map::NameMap;
use vstd::prelude::*;

verus! {

/// `existing` followed by those items of `incoming` that are not in the list
/// by the time their turn comes: neither kept before nor appended earlier in
/// the same merge.
pub open spec fn merge<A>(existing: Seq<A>, incoming: Seq<A>) -> Seq<A>
    decreases incoming.len(),
{
    if incoming.len() == 0 {
        existing
    } else {
        let so_far = merge(existing, incoming.drop_last());
        if so_far.contains(incoming.last()) {
            so_far
        } else {
            so_far.push(incoming.last())
        }
    }
}

/// A participant's list after `incoming` was handed in. Somebody who keeps
/// nothing yet gets `incoming` as it is, repetitions included; otherwise
/// `incoming` is merged into what is kept.
pub open spec fn spec_reconcile<A>(existing: Seq<A>, incoming: Seq<A>) -> Seq<A> {
    if existing.len() == 0 {
        incoming
    } else {
        merge(existing, incoming)
    }
}

/// The test that an entry is none of `doomed`.
pub open spec fn survives(doomed: Seq<EntryView>) -> spec_fn(EntryView) -> bool {
    |entry: EntryView| !doomed.contains(entry)
}

/// What is left of a row once the `doomed` entries are gone.
pub open spec fn strip(doomed: Seq<EntryView>) -> spec_fn(Row<EntryView>) -> Row<EntryView> {
    |row: Row<EntryView>| (row.0, row.1.filter(survives(doomed)))
}

/// The test that a row still holds something.
pub open spec fn holds_something() -> spec_fn(Row<EntryView>) -> bool {
    |row: Row<EntryView>| row.1.len() > 0
}

/// Every row with the `doomed` entries taken out of its list.
pub open spec fn stripped(rows: Seq<Row<EntryView>>, doomed: Seq<EntryView>) -> Seq<
    Row<EntryView>,
> {
    rows.map_values(strip(doomed))
}

/// The submissions after the `doomed` entries were deleted: every list loses
/// the entries equal to one of them, and a participant left with nothing
/// loses their row.
pub open spec fn spec_delete(rows: Seq<Row<EntryView>>, doomed: Seq<EntryView>) -> Seq<
    Row<EntryView>,
> {
    stripped(rows, doomed).filter(holds_something())
}

/// Whether `entries` holds an entry equal to `wanted`.
pub fn contains_entry(entries: &Vec<Entry>, wanted: &Entry) -> (found: bool)
    ensures
        found == views(entries@).contains(wanted@),
{
    let mut i: usize = 0;
    while i < entries.len()
        invariant
            i <= entries.len(),
            forall|k: int| 0 <= k < i ==> views(entries@)[k] != wanted@,
        decreases entries.len() - i,
    {
        if entries[i] == *wanted {
            assert(views(entries@)[i as int] == wanted@);
            return true;
        }
        i = i + 1;
    }
    false
}

/// A copy of `entries`.
pub fn copy_entries(entries: &Vec<Entry>) -> (copy: Vec<Entry>)
    ensures
        views(copy@) == views(entries@),
{
    let mut copy: Vec<Entry> = Vec::new();
    let mut i: usize = 0;
    while i < entries.len()
        invariant
            i <= entries.len(),
            views(copy@) == views(entries@).take(i as int),
        decreases entries.len() - i,
    {
        let ghost before = views(copy@);
        copy.push(entries[i].clone());
        assert(views(copy@) =~= before.push(entries@[i as int]@));
        assert(views(entries@).take(i + 1) =~= before.push(entries@[i as int]@));
        i = i + 1;
    }
    assert(views(entries@).take(entries.len() as int) =~= views(entries@));
    copy
}

/// Merges the sets that a participant hands in with the ones kept for them.
///
/// What is kept stays in front, in its order. Each incoming set is appended
/// unless an equal one is in the list by then. A participant who keeps
/// nothing gets the incoming sets as their list, as they are.
pub fn reconcile(existing: &Vec<Entry>, incoming: &Vec<Entry>) -> (merged: Vec<Entry>)
    ensures
        views(merged@) == spec_reconcile(views(existing@), views(incoming@)),
{
    if existing.len() == 0 {
        return copy_entries(incoming);
    }
    let mut merged = copy_entries(existing);
    let mut i: usize = 0;
    while i < incoming.len()
        invariant
            i <= incoming.len(),
            views(merged@) == merge(views(existing@), views(incoming@).take(i as int)),
        decreases incoming.len() - i,
    {
        proof {
            assert(views(incoming@).take(i + 1).drop_last() =~= views(incoming@).take(i as int));
        }
        if !contains_entry(&merged, &incoming[i]) {
            let ghost before = views(merged@);
            merged.push(incoming[i].clone());
            assert(views(merged@) =~= before.push(incoming@[i as int]@));
        }
        i = i + 1;
    }
    assert(views(incoming@).take(incoming.len() as int) =~= views(incoming@));
    merged
}

/// The entries of `entries` that equal none of `doomed`, in their order.
pub fn remove_entries(entries: &Vec<Entry>, doomed: &Vec<Entry>) -> (left: Vec<Entry>)
    ensures
        views(left@) == views(entries@).filter(survives(views(doomed@))),
{
    let mut left: Vec<Entry> = Vec::new();
    let mut i: usize = 0;
    proof {
        reveal(Seq::filter);
        assert(views(entries@).take(0) =~= Seq::<EntryView>::empty());
    }
    while i < entries.len()
        invariant
            i <= entries.len(),
            views(left@) == views(entries@).take(i as int).filter(survives(views(doomed@))),
        decreases entries.len() - i,
    {
        proof {
            lemma_filter_step(views(entries@), survives(views(doomed@)), i as int);
        }
        if !contains_entry(doomed, &entries[i]) {
            let ghost before = views(left@);
            left.push(entries[i].clone());
            assert(views(left@) =~= before.push(entries@[i as int]@));
        }
        i = i + 1;
    }
    assert(views(entries@).take(entries.len() as int) =~= views(entries@));
    left
}

/// Deletes the `doomed` sets from everybody's submissions.
///
/// Every participant loses the sets equal to one of `doomed`; a participant
/// left without any set loses their row. The rows that stay keep their order.
/// The submissions handed in are not touched: the result is a new mapping.
pub fn delete(submissions: &NameMap<Entry>, doomed: &Vec<Entry>) -> (left: NameMap<Entry>)
    ensures
        left@ == spec_delete(submissions@, views(doomed@)),
        submissions.wf() ==> left.wf(),
{
    let ghost all = stripped(submissions@, views(doomed@));
    let mut left: NameMap<Entry> = NameMap::new();
    let mut i: usize = 0;
    proof {
        reveal(Seq::filter);
        assert(all.take(0) =~= Seq::<Row<EntryView>>::empty());
    }
    while i < submissions.len()
        invariant
            i <= submissions@.len(),
            all == stripped(submissions@, views(doomed@)),
            left@ == all.take(i as int).filter(holds_something()),
        decreases submissions@.len() - i,
    {
        let entries = remove_entries(submissions.items_at(i), doomed);
        proof {
            lemma_filter_step(all, holds_something(), i as int);
        }
        if entries.len() > 0 {
            left.append(submissions.name_at(i).clone(), entries);
        }
        i = i + 1;
    }
    proof {
        assert(all.take(submissions@.len() as int) =~= all);
        if submissions.wf() {
            lemma_stripped_distinct(submissions@, views(doomed@));
            lemma_filter_distinct(all, holds_something());
        }
    }
    left
}

/// Taking entries out of the lists leaves the names as they are.
pub proof fn lemma_stripped_distinct(rows: Seq<Row<EntryView>>, doomed: Seq<EntryView>)
    requires
        distinct_names(rows),
    ensures
        distinct_names(stripped(rows, doomed)),
{
    let all = stripped(rows, doomed);
    assert forall|i: int, j: int| 0 <= i < j < all.len() implies (#[trigger] all[i]).0 != (
    #[trigger] all[j]).0 by {
        assert(all[i].0 == rows[i].0);
        assert(all[j].0 == rows[j].0);
    }
}

/// The test that an item is `wanted`.
pub open spec fn is_item<A>(wanted: A) -> spec_fn(A) -> bool {
    |item: A| item == wanted
}

/// How often `wanted` occurs in `items`.
pub open spec fn occurrences<A>(items: Seq<A>, wanted: A) -> nat {
    items.filter(is_item(wanted)).len()
}

/// Merging appends nothing where everything that comes in is kept already.
pub proof fn lemma_merge_known<A>(existing: Seq<A>, incoming: Seq<A>)
    requires
        forall|i: int| 0 <= i < incoming.len() ==> existing.contains(#[trigger] incoming[i]),
    ensures
        merge(existing, incoming) == existing,
    decreases incoming.len(),
{
    if incoming.len() > 0 {
        let front = incoming.drop_last();
        assert forall|i: int| 0 <= i < front.len() implies existing.contains(
            #[trigger] front[i],
        ) by {
            assert(front[i] == incoming[i]);
        }
        lemma_merge_known(existing, front);
        assert(existing.contains(incoming[incoming.len() - 1]));
    }
}

/// What is kept stays in front, in its order: the kept list is the beginning
/// of the merged one.
pub proof fn lemma_merge_keeps_front<A>(existing: Seq<A>, incoming: Seq<A>)
    ensures
        existing.len() <= merge(existing, incoming).len(),
        merge(existing, incoming).take(existing.len() as int) == existing,
    decreases incoming.len(),
{
    if incoming.len() > 0 {
        lemma_merge_keeps_front(existing, incoming.drop_last());
        let so_far = merge(existing, incoming.drop_last());
        assert(so_far.push(incoming.last()).take(existing.len() as int) =~= so_far.take(
            existing.len() as int,
        ));
    } else {
        assert(existing.take(existing.len() as int) =~= existing);
    }
}

/// Merging never repeats an item that it appends: a list without repetitions
/// stays one.
pub proof fn lemma_merge_no_duplicates<A>(existing: Seq<A>, incoming: Seq<A>)
    requires
        existing.no_duplicates(),
    ensures
        merge(existing, incoming).no_duplicates(),
    decreases incoming.len(),
{
    if incoming.len() > 0 {
        lemma_merge_no_duplicates(existing, incoming.drop_last());
    }
}

/// A merged list holds whatever was kept and whatever came in.
pub proof fn lemma_merge_contains<A>(existing: Seq<A>, incoming: Seq<A>, item: A)
    ensures
        merge(existing, incoming).contains(item) <==> existing.contains(item) || incoming.contains(
            item,
        ),
    decreases incoming.len(),
{
    if incoming.len() > 0 {
        let front = incoming.drop_last();
        lemma_merge_contains(existing, front, item);
        let so_far = merge(existing, front);
        if incoming.contains(item) {
            let i = choose|i: int| 0 <= i < incoming.len() && incoming[i] == item;
            if i < front.len() {
                assert(front[i] == item);
            }
        }
        if front.contains(item) {
            let i = choose|i: int| 0 <= i < front.len() && front[i] == item;
            assert(incoming[i] == item);
        }
        if !so_far.contains(incoming.last()) {
            let after = so_far.push(incoming.last());
            if so_far.contains(item) {
                let i = choose|i: int| 0 <= i < so_far.len() && so_far[i] == item;
                assert(after[i] == item);
            }
            if item == incoming.last() {
                assert(after[so_far.len() as int] == item);
                assert(incoming[incoming.len() - 1] == item);
            }
        }
    } else {
        assert(!incoming.contains(item));
    }
}

/// Reconciling keeps the order of what is kept: the list that a participant
/// had is the beginning of the list that they have afterwards.
pub proof fn lemma_reconcile_keeps_order<A>(existing: Seq<A>, incoming: Seq<A>)
    ensures
        existing.len() <= spec_reconcile(existing, incoming).len(),
        spec_reconcile(existing, incoming).take(existing.len() as int) == existing,
        forall|i: int|
            0 <= i < existing.len() ==> spec_reconcile(existing, incoming)[i] == existing[i],
{
    if existing.len() == 0 {
        assert(incoming.take(0) =~= existing);
    } else {
        lemma_merge_keeps_front(existing, incoming);
        let merged = merge(existing, incoming);
        assert forall|i: int| 0 <= i < existing.len() implies merged[i] == existing[i] by {
            assert(merged.take(existing.len() as int)[i] == merged[i]);
        }
    }
}

/// A list without repetitions stays one when sets are reconciled into it.
/// Repetitions can only come from the sets that somebody who keeps nothing
/// yet hands in.
pub proof fn lemma_reconcile_no_duplicates<A>(existing: Seq<A>, incoming: Seq<A>)
    requires
        existing.no_duplicates(),
        existing.len() == 0 ==> incoming.no_duplicates(),
    ensures
        spec_reconcile(existing, incoming).no_duplicates(),
{
    if existing.len() > 0 {
        lemma_merge_no_duplicates(existing, incoming);
    }
}

/// Handing in the same sets a second time changes nothing: the list after
/// the second call is the list after the first.
pub proof fn lemma_reconcile_again<A>(existing: Seq<A>, incoming: Seq<A>)
    ensures
        spec_reconcile(spec_reconcile(existing, incoming), incoming) == spec_reconcile(
            existing,
            incoming,
        ),
{
    let once = spec_reconcile(existing, incoming);
    if once.len() > 0 {
        if existing.len() == 0 {
            assert forall|i: int| 0 <= i < incoming.len() implies once.contains(
                #[trigger] incoming[i],
            ) by {}
        } else {
            assert forall|i: int| 0 <= i < incoming.len() implies once.contains(
                #[trigger] incoming[i],
            ) by {
                lemma_merge_contains(existing, incoming, incoming[i]);
            }
        }
        lemma_merge_known(once, incoming);
    } else if existing.len() > 0 {
        lemma_merge_keeps_front(existing, incoming);
    }
}

/// A list holds an item exactly if the item occurs in it at least once.
pub proof fn lemma_occurrences_contains<A>(items: Seq<A>, wanted: A)
    ensures
        items.contains(wanted) <==> occurrences(items, wanted) > 0,
{
    let hits = items.filter(is_item(wanted));
    if items.contains(wanted) {
        let i = choose|i: int| 0 <= i < items.len() && items[i] == wanted;
        items.lemma_filter_contains(is_item(wanted), i);
    }
    if hits.len() > 0 {
        assert(hits.contains(hits[0]));
        items.lemma_filter_contains_rev(is_item(wanted), hits[0]);
    }
}

/// A set that is handed in twice, in two calls, is kept once: for a
/// participant who does not keep the set more than once already, the list
/// after the two calls holds it exactly once.
pub proof fn lemma_handed_in_twice_kept_once<A>(existing: Seq<A>, set: Seq<A>, item: A)
    requires
        set == seq![item],
        occurrences(existing, item) <= 1,
    ensures
        occurrences(spec_reconcile(spec_reconcile(existing, set), set), item) == 1,
{
    reveal(Seq::filter);
    lemma_reconcile_again(existing, set);
    lemma_occurrences_contains(existing, item);
    let once = spec_reconcile(existing, set);
    assert(set.drop_last() =~= Seq::<A>::empty());
    assert(set.last() == item);
    if existing.len() == 0 {
        assert(set.drop_last().filter(is_item(item)) =~= Seq::<A>::empty());
    } else {
        assert(merge(existing, set.drop_last()) == existing);
        if !existing.contains(item) {
            assert(existing.push(item).drop_last() =~= existing);
        }
    }
}

/// Deleting sets moves no row: a participant's row after the deletion is
/// their row before it without the deleted sets, and it is there exactly if
/// something is left in it.
pub proof fn lemma_delete_row(rows: Seq<Row<EntryView>>, doomed: Seq<EntryView>, at: int)
    requires
        distinct_names(rows),
        0 <= at < rows.len(),
    ensures
        crate::model::lookup(spec_delete(rows, doomed), rows[at].0) == (if rows[at].1.filter(
            survives(doomed),
        ).len() > 0 {
            Some(rows[at].1.filter(survives(doomed)))
        } else {
            None::<Seq<EntryView>>
        }),
{
    let name = rows[at].0;
    let all = stripped(rows, doomed);
    let left = spec_delete(rows, doomed);
    lemma_stripped_distinct(rows, doomed);
    lemma_filter_distinct(all, holds_something());
    crate::model::lemma_lookup_some(left, name);
    assert forall|i: int| 0 <= i < left.len() && (#[trigger] left[i]).0 == name implies left[i]
        == all[at] by {
        let k = crate::model::lemma_filter_from(all, holds_something(), i);
        assert(all[k].0 == rows[k].0);
        if k < at {
            assert(rows[k].0 != rows[at].0);
        } else if k > at {
            assert(rows[at].0 != rows[k].0);
        }
    }
    if all[at].1.len() > 0 {
        all.lemma_filter_contains(holds_something(), at);
        let i = choose|i: int| 0 <= i < left.len() && left[i] == all[at];
        assert forall|j: int| 0 <= j < i implies (#[trigger] left[j]).0 != name by {
            assert(left[j].0 != left[i].0);
        }
        crate::model::lemma_lookup_first(left, name, i);
    } else {
        if has_name(left, name) {
            let i = choose|i: int| 0 <= i < left.len() && (#[trigger] left[i]).0 == name;
            let k = crate::model::lemma_filter_from(all, holds_something(), i);
            assert(left[i] == all[at]);
        }
    }
}

/// A participant whose sets are all deleted loses their row.
pub proof fn lemma_delete_drops_emptied(
    rows: Seq<Row<EntryView>>,
    doomed: Seq<EntryView>,
    at: int,
)
    requires
        distinct_names(rows),
        0 <= at < rows.len(),
        forall|i: int| 0 <= i < rows[at].1.len() ==> doomed.contains(#[trigger] rows[at].1[i]),
    ensures
        !has_name(spec_delete(rows, doomed), rows[at].0),
{
    lemma_delete_row(rows, doomed, at);
    assert forall|i: int| 0 <= i < rows[at].1.len() implies !survives(doomed)(
        #[trigger] rows[at].1[i],
    ) by {}
    crate::model::lemma_filter_none(rows[at].1, survives(doomed));
    crate::model::lemma_lookup_some(spec_delete(rows, doomed), rows[at].0);
}

/// A participant with sets of whom none is deleted keeps their list as it is.
pub proof fn lemma_delete_leaves_others(
    rows: Seq<Row<EntryView>>,
    doomed: Seq<EntryView>,
    at: int,
)
    requires
        distinct_names(rows),
        0 <= at < rows.len(),
        rows[at].1.len() > 0,
        forall|i: int| 0 <= i < rows[at].1.len() ==> !doomed.contains(#[trigger] rows[at].1[i]),
    ensures
        crate::model::lookup(spec_delete(rows, doomed), rows[at].0) == Some(rows[at].1),
{
    lemma_delete_row(rows, doomed, at);
    assert forall|i: int| 0 <= i < rows[at].1.len() implies survives(doomed)(
        #[trigger] rows[at].1[i],
    ) by {}
    crate::model::lemma_filter_all(rows[at].1, survives(doomed));
}

} // verus!
