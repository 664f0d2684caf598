//! A mapping from participants to lists that remembers the order in which
//! the participants first appeared.

use crate::model::{
    distinct_names, has_name, lemma_filter_all, lemma_filter_distinct, lemma_lookup_first,
    lemma_lookup_some, lemma_put_distinct, lemma_without_is_remove, lookup, not_named, put, views,
    without, Row,
};
use vstd::prelude::*;

verus! {

/// A mapping from names to lists of `T`, in the order in which the names were
/// first entered. Walking it always visits the rows in that order.
///
/// Its value is the sequence of its rows, each a name with the values of its
/// list. A well-formed mapping holds no name twice.
#[derive(Debug)]
pub struct NameMap<T> {
    rows: Vec<(String, Vec<T>)>,
}

impl<T: View> View for NameMap<T> {
    type V = Seq<Row<T::V>>;

    closed spec fn view(&self) -> Seq<Row<T::V>> {
        Seq::new(self.rows@.len(), |i: int| (self.rows@[i].0@, views(self.rows@[i].1@)))
    }
}

impl<T: View> NameMap<T> {
    /// Whether no name occurs twice.
    pub open spec fn wf(&self) -> bool {
        distinct_names(self@)
    }

    /// The mapping without rows.
    pub fn new() -> (map: Self)
        ensures
            map@ == Seq::<Row<T::V>>::empty(),
            map.wf(),
    {
        let map = NameMap { rows: Vec::new() };
        assert(map@ =~= Seq::<Row<T::V>>::empty());
        map
    }

    /// The number of rows.
    pub fn len(&self) -> (count: usize)
        ensures
            count == self@.len(),
    {
        self.rows.len()
    }

    /// Whether there is no row.
    pub fn is_empty(&self) -> (empty: bool)
        ensures
            empty == (self@.len() == 0),
    {
        self.rows.len() == 0
    }

    /// The name of the row at `index`.
    pub fn name_at(&self, index: usize) -> (name: &String)
        requires
            index < self@.len(),
        ensures
            name@ == self@[index as int].0,
    {
        &self.rows[index].0
    }

    /// The list of the row at `index`.
    pub fn items_at(&self, index: usize) -> (items: &Vec<T>)
        requires
            index < self@.len(),
        ensures
            views(items@) == self@[index as int].1,
    {
        &self.rows[index].1
    }

    /// Where the first row kept under `name` stands.
    pub fn position(&self, name: &String) -> (at: Option<usize>)
        ensures
            match at {
                Some(index) => {
                    &&& index < self@.len()
                    &&& self@[index as int].0 == name@
                    &&& forall|j: int| 0 <= j < index ==> (#[trigger] self@[j]).0 != name@
                },
                None => !has_name(self@, name@),
            },
    {
        let mut i: usize = 0;
        while i < self.rows.len()
            invariant
                i <= self.rows.len(),
                forall|j: int| 0 <= j < i ==> (#[trigger] self@[j]).0 != name@,
            decreases self.rows.len() - i,
        {
            if self.rows[i].0 == *name {
                return Some(i);
            }
            i = i + 1;
        }
        None
    }

    /// Whether no name occurs twice, found out by looking.
    pub fn has_distinct_names(&self) -> (distinct: bool)
        ensures
            distinct == self.wf(),
    {
        let mut j: usize = 0;
        while j < self.rows.len()
            invariant
                j <= self.rows.len(),
                forall|a: int, b: int|
                    0 <= a < b < j ==> (#[trigger] self@[a]).0 != (#[trigger] self@[b]).0,
            decreases self.rows.len() - j,
        {
            let mut i: usize = 0;
            while i < j
                invariant
                    i <= j < self.rows.len(),
                    forall|a: int| 0 <= a < i ==> (#[trigger] self@[a]).0 != self@[j as int].0,
                decreases j - i,
            {
                if self.rows[i].0 == self.rows[j].0 {
                    assert(self@[i as int].0 == self@[j as int].0);
                    return false;
                }
                i = i + 1;
            }
            j = j + 1;
        }
        true
    }

    /// Whether a row is kept under `name`.
    pub fn contains_name(&self, name: &String) -> (found: bool)
        ensures
            found == has_name(self@, name@),
    {
        self.position(name).is_some()
    }

    /// The list kept under `name`, if there is one.
    pub fn get(&self, name: &String) -> (items: Option<&Vec<T>>)
        ensures
            match items {
                Some(list) => lookup(self@, name@) == Some(views(list@)),
                None => lookup(self@, name@) is None,
            },
            items is Some <==> has_name(self@, name@),
    {
        proof {
            lemma_lookup_some(self@, name@);
        }
        match self.position(name) {
            Some(index) => {
                proof {
                    lemma_lookup_first(self@, name@, index as int);
                }
                Some(&self.rows[index].1)
            },
            None => None,
        }
    }

    /// Keeps `items` under `name`. A list that was kept under that name is
    /// replaced as a whole and its row stays where it is; a new name gets a
    /// new last row.
    pub fn insert(&mut self, name: String, items: Vec<T>)
        requires
            old(self).wf(),
        ensures
            final(self).wf(),
            final(self)@ == put(old(self)@, name@, views(items@)),
    {
        proof {
            lemma_put_distinct(self@, name@, views(items@));
        }
        match self.position(&name) {
            Some(index) => {
                self.rows[index] = (name, items);
                assert(self@ =~= put(old(self)@, name@, views(items@))) by {
                    assert forall|i: int| 0 <= i < self@.len() && i != index implies old(
                        self,
                    )@[i].0 != name@ by {
                        if i < index {
                        } else {
                            assert(old(self)@[index as int].0 != old(self)@[i].0);
                        }
                    }
                }
            },
            None => {
                self.rows.push((name, items));
                assert(self@ =~= put(old(self)@, name@, views(items@)));
            },
        }
    }

    /// Adds a last row. The mapping stays well-formed if the name is new to
    /// it; a name that it holds already is then held twice.
    pub fn append(&mut self, name: String, items: Vec<T>)
        ensures
            final(self)@ == old(self)@.push((name@, views(items@))),
            old(self).wf() && !has_name(old(self)@, name@) ==> final(self).wf(),
    {
        self.rows.push((name, items));
        assert(self@ =~= old(self)@.push((name@, views(items@))));
        assert(old(self).wf() && !has_name(old(self)@, name@) ==> self.wf()) by {
            if old(self).wf() && !has_name(old(self)@, name@) {
                assert forall|i: int, j: int| 0 <= i < j < self@.len() implies (
                #[trigger] self@[i]).0 != (#[trigger] self@[j]).0 by {
                    assert(self@[i] == old(self)@[i]);
                    if j < old(self)@.len() {
                        assert(self@[j] == old(self)@[j]);
                    }
                }
            }
        }
    }

    /// Takes out the list kept under `name` and hands it back, or reports
    /// that there is none.
    pub fn remove(&mut self, name: &String) -> (taken: Option<Vec<T>>)
        requires
            old(self).wf(),
        ensures
            final(self).wf(),
            final(self)@ == without(old(self)@, name@),
            match taken {
                Some(list) => lookup(old(self)@, name@) == Some(views(list@)),
                None => !has_name(old(self)@, name@) && final(self)@ == old(self)@,
            },
    {
        proof {
            lemma_filter_distinct(self@, not_named(name@));
        }
        match self.position(name) {
            Some(index) => {
                proof {
                    lemma_lookup_first(self@, name@, index as int);
                    lemma_without_is_remove(self@, name@, index as int);
                }
                let row = self.rows.remove(index);
                assert(self@ =~= old(self)@.remove(index as int));
                Some(row.1)
            },
            None => {
                proof {
                    assert forall|i: int| 0 <= i < self@.len() implies not_named(name@)(
                        #[trigger] self@[i],
                    ) by {}
                    lemma_filter_all(self@, not_named(name@));
                }
                None
            },
        }
    }

    /// Takes out every row.
    pub fn clear(&mut self)
        ensures
            final(self)@ == Seq::<Row<T::V>>::empty(),
            final(self).wf(),
    {
        self.rows.clear();
        assert(self@ =~= Seq::<Row<T::V>>::empty());
    }
}

} // verus!
