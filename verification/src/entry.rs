//! Entries and votes: the values that participants exchange.

use vstd::prelude::*;
use vstd::std_specs::cmp::PartialEqSpecImpl;

verus! {

/// The mathematical value of an [`Entry`]: its item identifiers, in order.
pub type EntryView = Seq<Seq<char>>;

/// One candidate set that a participant offers: an ordered list of item
/// identifiers. Two entries are equal when they list the same identifiers in
/// the same order.
#[derive(Debug)]
pub struct Entry {
    pub stories: Vec<String>,
}

impl View for Entry {
    type V = EntryView;

    open spec fn view(&self) -> EntryView {
        Seq::new(self.stories@.len(), |i: int| self.stories@[i]@)
    }
}

impl Entry {
    /// An entry that lists `stories` in the order given.
    pub fn new(stories: Vec<String>) -> (entry: Entry)
        ensures
            entry.stories == stories,
    {
        Entry { stories }
    }
}

impl Clone for Entry {
    fn clone(&self) -> (copy: Entry)
        ensures
            copy@ == self@,
    {
        let mut stories: Vec<String> = Vec::new();
        let mut i: usize = 0;
        while i < self.stories.len()
            invariant
                i <= self.stories.len(),
                stories.len() == i,
                forall|k: int| 0 <= k < i ==> stories@[k]@ == self.stories@[k]@,
            decreases self.stories.len() - i,
        {
            stories.push(self.stories[i].clone());
            i = i + 1;
        }
        let copy = Entry { stories };
        assert(copy@ =~= self@);
        copy
    }
}

impl PartialEq for Entry {
    fn eq(&self, other: &Entry) -> (same: bool) {
        if self.stories.len() != other.stories.len() {
            assert(self@.len() != other@.len());
            return false;
        }
        let mut i: usize = 0;
        while i < self.stories.len()
            invariant
                i <= self.stories.len(),
                self.stories.len() == other.stories.len(),
                forall|k: int| 0 <= k < i ==> self@[k] == other@[k],
            decreases self.stories.len() - i,
        {
            if self.stories[i] != other.stories[i] {
                assert(self@[i as int] != other@[i as int]);
                return false;
            }
            i = i + 1;
        }
        assert(self@ =~= other@);
        true
    }
}

impl Eq for Entry {}

impl PartialEqSpecImpl for Entry {
    open spec fn obeys_eq_spec() -> bool {
        true
    }

    open spec fn eq_spec(&self, other: &Entry) -> bool {
        self@ == other@
    }
}

/// The mathematical value of a [`Vote`].
pub struct VoteView {
    pub priority: int,
    pub entry: EntryView,
}

/// One line of a ballot: an entry and how much the voter wants it. A lower
/// priority number means a stronger preference, so priority 1 is a first
/// choice.
#[derive(Debug)]
pub struct Vote {
    pub priority: i32,
    pub entry: Entry,
}

impl View for Vote {
    type V = VoteView;

    open spec fn view(&self) -> VoteView {
        VoteView { priority: self.priority as int, entry: self.entry@ }
    }
}

impl Vote {
    /// A vote for `entry` at the given priority.
    pub fn new(priority: i32, entry: Entry) -> (vote: Vote)
        ensures
            vote.priority == priority,
            vote.entry == entry,
    {
        Vote { priority, entry }
    }
}

impl Clone for Vote {
    fn clone(&self) -> (copy: Vote)
        ensures
            copy@ == self@,
    {
        Vote { priority: self.priority, entry: self.entry.clone() }
    }
}

impl PartialEq for Vote {
    fn eq(&self, other: &Vote) -> (same: bool) {
        self.priority == other.priority && self.entry == other.entry
    }
}

impl Eq for Vote {}

impl PartialEqSpecImpl for Vote {
    open spec fn obeys_eq_spec() -> bool {
        true
    }

    open spec fn eq_spec(&self, other: &Vote) -> bool {
        self@ == other@
    }
}

} // verus!
