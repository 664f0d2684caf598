//! The mathematical vocabulary of the crate: lists of values and lists of
//! named lists, with the facts about them that the proofs rest on.
//!
//! A mapping from participants to lists is modelled as a sequence of rows,
//! each a name with its list, in the order in which the participants first
//! appeared. A well-formed mapping names nobody twice.

use vstd::prelude::*;

verus! {

/// A participant's name with the list kept under it.
pub type Row<V> = (Seq<char>, Seq<V>);

/// The values of a list of items, in order.
pub open spec fn views<T: View>(items: Seq<T>) -> Seq<T::V> {
    Seq::new(items.len(), |i: int| items[i]@)
}

/// The values of a list of counts or places, as numbers.
pub open spec fn numbers(values: Seq<usize>) -> Seq<int> {
    Seq::new(values.len(), |i: int| values[i] as int)
}

/// The names of the rows, in order.
pub open spec fn names<V>(rows: Seq<Row<V>>) -> Seq<Seq<char>> {
    Seq::new(rows.len(), |i: int| rows[i].0)
}

/// Whether some row of `rows` is kept under `name`.
pub open spec fn has_name<V>(rows: Seq<Row<V>>, name: Seq<char>) -> bool {
    exists|i: int| 0 <= i < rows.len() && (#[trigger] rows[i]).0 == name
}

/// Whether no two rows of `rows` share a name.
pub open spec fn distinct_names<V>(rows: Seq<Row<V>>) -> bool {
    forall|i: int, j: int|
        0 <= i < j < rows.len() ==> (#[trigger] rows[i]).0 != (#[trigger] rows[j]).0
}

/// The list kept under `name`: that of the first row of that name, if any.
pub open spec fn lookup<V>(rows: Seq<Row<V>>, name: Seq<char>) -> Option<Seq<V>>
    decreases rows.len(),
{
    if rows.len() == 0 {
        None
    } else if rows[0].0 == name {
        Some(rows[0].1)
    } else {
        lookup(rows.drop_first(), name)
    }
}

/// What is kept under `name`: nothing, for a name that does not occur.
pub open spec fn kept_under<V>(rows: Seq<Row<V>>, name: Seq<char>) -> Seq<V> {
    match lookup(rows, name) {
        Some(items) => items,
        None => Seq::empty(),
    }
}

/// `rows` with `items` kept under `name`: in place of the list that was there,
/// or in a new last row for a name not seen before.
pub open spec fn put<V>(rows: Seq<Row<V>>, name: Seq<char>, items: Seq<V>) -> Seq<Row<V>> {
    if has_name(rows, name) {
        Seq::new(rows.len(), |i: int| if rows[i].0 == name { (name, items) } else { rows[i] })
    } else {
        rows.push((name, items))
    }
}

/// The test that a row is kept under another name than `name`.
pub open spec fn not_named<V>(name: Seq<char>) -> spec_fn(Row<V>) -> bool {
    |row: Row<V>| row.0 != name
}

/// `rows` without the rows kept under `name`.
pub open spec fn without<V>(rows: Seq<Row<V>>, name: Seq<char>) -> Seq<Row<V>> {
    rows.filter(not_named(name))
}

/// All items of all rows, row after row.
pub open spec fn flatten<V>(rows: Seq<Row<V>>) -> Seq<V>
    decreases rows.len(),
{
    if rows.len() == 0 {
        Seq::empty()
    } else {
        flatten(rows.drop_last()) + rows.last().1
    }
}

/// The first row of a given name is the one that `lookup` finds.
pub proof fn lemma_lookup_first<V>(rows: Seq<Row<V>>, name: Seq<char>, at: int)
    requires
        0 <= at < rows.len(),
        rows[at].0 == name,
        forall|j: int| 0 <= j < at ==> (#[trigger] rows[j]).0 != name,
    ensures
        lookup(rows, name) == Some(rows[at].1),
    decreases rows.len(),
{
    if at > 0 {
        assert(rows[0].0 != name);
        let rest = rows.drop_first();
        assert forall|j: int| 0 <= j < at - 1 implies (#[trigger] rest[j]).0 != name by {
            assert(rest[j] == rows[j + 1]);
        }
        lemma_lookup_first(rest, name, at - 1);
    }
}

/// `lookup` finds a list exactly for the names that occur.
pub proof fn lemma_lookup_some<V>(rows: Seq<Row<V>>, name: Seq<char>)
    ensures
        lookup(rows, name) is Some <==> has_name(rows, name),
    decreases rows.len(),
{
    if rows.len() == 0 {
    } else if rows[0].0 == name {
    } else {
        let rest = rows.drop_first();
        lemma_lookup_some(rest, name);
        if has_name(rest, name) {
            let i = choose|i: int| 0 <= i < rest.len() && (#[trigger] rest[i]).0 == name;
            assert(rows[i + 1] == rest[i]);
        }
        if has_name(rows, name) {
            let i = choose|i: int| 0 <= i < rows.len() && (#[trigger] rows[i]).0 == name;
            assert(rest[i - 1] == rows[i]);
        }
    }
}

/// Keeping a list under a name leaves a well-formed mapping well-formed.
pub proof fn lemma_put_distinct<V>(rows: Seq<Row<V>>, name: Seq<char>, items: Seq<V>)
    requires
        distinct_names(rows),
    ensures
        distinct_names(put(rows, name, items)),
        has_name(put(rows, name, items), name),
        lookup(put(rows, name, items), name) == Some(items),
{
    let after = put(rows, name, items);
    if has_name(rows, name) {
        let at = choose|i: int| 0 <= i < rows.len() && (#[trigger] rows[i]).0 == name;
        assert forall|i: int, j: int| 0 <= i < j < after.len() implies (#[trigger] after[i]).0 != (
        #[trigger] after[j]).0 by {
            assert(after[i].0 == rows[i].0);
            assert(after[j].0 == rows[j].0);
        }
        assert(after[at].0 == name);
        assert forall|j: int| 0 <= j < at implies (#[trigger] after[j]).0 != name by {
            assert(rows[j].0 != rows[at].0);
        }
        lemma_lookup_first(after, name, at);
    } else {
        let at = rows.len() as int;
        assert(after[at].0 == name);
        assert forall|j: int| 0 <= j < at implies (#[trigger] after[j]).0 != name by {
            assert(after[j] == rows[j]);
        }
        lemma_lookup_first(after, name, at);
    }
}

/// Every row that passes a filter is a row of the mapping that was filtered.
pub proof fn lemma_filter_from<A>(items: Seq<A>, keep: spec_fn(A) -> bool, i: int) -> (at: int)
    requires
        0 <= i < items.filter(keep).len(),
    ensures
        0 <= at < items.len(),
        items[at] == items.filter(keep)[i],
        keep(items[at]),
{
    let kept = items.filter(keep);
    assert(kept.contains(kept[i]));
    items.lemma_filter_contains_rev(keep, kept[i]);
    choose|at: int| 0 <= at < items.len() && items[at] == kept[i]
}

/// Filtering rows keeps a well-formed mapping well-formed, and no name
/// appears that was not there.
pub proof fn lemma_filter_distinct<V>(rows: Seq<Row<V>>, keep: spec_fn(Row<V>) -> bool)
    requires
        distinct_names(rows),
    ensures
        distinct_names(rows.filter(keep)),
        forall|name: Seq<char>| has_name(rows.filter(keep), name) ==> has_name(rows, name),
    decreases rows.len(),
{
    reveal(Seq::filter);
    let all = rows.filter(keep);
    assert forall|name: Seq<char>| has_name(all, name) implies has_name(rows, name) by {
        let i = choose|i: int| 0 <= i < all.len() && (#[trigger] all[i]).0 == name;
        let at = lemma_filter_from(rows, keep, i);
        assert(rows[at].0 == name);
    }
    if rows.len() > 0 {
        let front = rows.drop_last();
        let last = rows.len() - 1;
        assert forall|i: int, j: int| 0 <= i < j < front.len() implies (#[trigger] front[i]).0 != (
        #[trigger] front[j]).0 by {
            assert(front[i] == rows[i]);
            assert(front[j] == rows[j]);
        }
        lemma_filter_distinct(front, keep);
        let kept = front.filter(keep);
        if keep(rows.last()) {
            assert(all == kept.push(rows.last()));
            assert forall|i: int, j: int| 0 <= i < j < all.len() implies (#[trigger] all[i]).0 != (
            #[trigger] all[j]).0 by {
                if j == kept.len() {
                    assert(all[i] == kept[i]);
                    let k = lemma_filter_from(front, keep, i);
                    assert(rows[k] == front[k]);
                    assert(rows[k].0 != rows[last].0);
                } else {
                    assert(all[i] == kept[i]);
                    assert(all[j] == kept[j]);
                }
            }
        } else {
            assert(all == kept);
        }
    }
}

/// A filter that every item passes changes nothing.
pub proof fn lemma_filter_all<A>(items: Seq<A>, keep: spec_fn(A) -> bool)
    requires
        forall|i: int| 0 <= i < items.len() ==> keep(#[trigger] items[i]),
    ensures
        items.filter(keep) == items,
    decreases items.len(),
{
    reveal(Seq::filter);
    if items.len() > 0 {
        lemma_filter_all(items.drop_last(), keep);
        assert(items.drop_last().push(items.last()) =~= items);
    }
}

/// A filter that no item passes leaves nothing.
pub proof fn lemma_filter_none<A>(items: Seq<A>, keep: spec_fn(A) -> bool)
    requires
        forall|i: int| 0 <= i < items.len() ==> !keep(#[trigger] items[i]),
    ensures
        items.filter(keep) == Seq::<A>::empty(),
    decreases items.len(),
{
    reveal(Seq::filter);
    if items.len() > 0 {
        lemma_filter_none(items.drop_last(), keep);
    }
}

/// Filtering one item more: the filtered front, and the item if it passes.
pub proof fn lemma_filter_step<A>(items: Seq<A>, keep: spec_fn(A) -> bool, upto: int)
    requires
        0 <= upto < items.len(),
    ensures
        items.take(upto + 1).filter(keep) == if keep(items[upto]) {
            items.take(upto).filter(keep).push(items[upto])
        } else {
            items.take(upto).filter(keep)
        },
{
    reveal(Seq::filter);
    assert(items.take(upto + 1).drop_last() =~= items.take(upto));
}

/// In a well-formed mapping, taking out the one row of a name is the same as
/// dropping every row of that name.
pub proof fn lemma_without_is_remove<V>(rows: Seq<Row<V>>, name: Seq<char>, at: int)
    requires
        distinct_names(rows),
        0 <= at < rows.len(),
        rows[at].0 == name,
    ensures
        without(rows, name) == rows.remove(at),
    decreases rows.len(),
{
    reveal(Seq::filter);
    let keep = not_named::<V>(name);
    let front = rows.drop_last();
    let last = rows.len() - 1;
    assert forall|i: int, j: int| 0 <= i < j < front.len() implies (#[trigger] front[i]).0 != (
    #[trigger] front[j]).0 by {
        assert(front[i] == rows[i]);
        assert(front[j] == rows[j]);
    }
    if at == last {
        assert(!keep(rows.last()));
        assert forall|i: int| 0 <= i < front.len() implies keep(#[trigger] front[i]) by {
            assert(front[i] == rows[i]);
            assert(rows[i].0 != rows[last].0);
        }
        lemma_filter_all(front, keep);
        assert(rows.remove(at) =~= front);
    } else {
        assert(front[at] == rows[at]);
        lemma_without_is_remove(front, name, at);
        assert(rows[at].0 != rows[last].0);
        assert(keep(rows.last()));
        assert(rows.remove(at) =~= front.remove(at).push(rows.last()));
    }
}

/// Flattening one row more appends that row's items.
pub proof fn lemma_flatten_step<V>(rows: Seq<Row<V>>, upto: int)
    requires
        0 <= upto < rows.len(),
    ensures
        flatten(rows.take(upto + 1)) == flatten(rows.take(upto)) + rows[upto].1,
{
    assert(rows.take(upto + 1).drop_last() =~= rows.take(upto));
}

} // verus!
