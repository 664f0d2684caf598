//! What a reader may see of an exchange at each stage.
//!
//! A projection holds the title, the id and the stage, and on top of that
//! only what the stage releases: the sets to vote on during the voting, the
//! results once they are frozen. It has no place for the secret or for the
//! ballots.

use crate::entry::{Entry, EntryView};
use crate::exchange::{Exchange, ExchangeView};
use crate::model::{flatten, kept_under, lemma_filter_all, lemma_flatten_step, views, Row};
use crate::name_map::NameMap;
use crate::reconcile::{copy_entries, remove_entries, survives};
use crate::stage::Stage;
use vstd::prelude::*;

verus! {

/// The mathematical value of an [`ExchangeReturn`].
pub struct ExchangeReturnView {
    pub title: Seq<char>,
    pub id: int,
    pub stage: Stage,
    pub submissions: Option<Seq<EntryView>>,
    pub results: Option<Seq<Row<EntryView>>>,
}

/// The part of an exchange that is shown to a reader.
#[derive(Debug)]
pub struct ExchangeReturn {
    pub title: String,
    pub id: i32,
    pub stage: Stage,
    /// The sets that the reader can vote for; given in the voting stage.
    pub submissions: Option<Vec<Entry>>,
    /// Who was given what; given once the exchange is frozen.
    pub results: Option<NameMap<Entry>>,
}

impl View for ExchangeReturn {
    type V = ExchangeReturnView;

    open spec fn view(&self) -> ExchangeReturnView {
        ExchangeReturnView {
            title: self.title@,
            id: self.id as int,
            stage: self.stage,
            submissions: match self.submissions {
                Some(entries) => Some(views(entries@)),
                None => None,
            },
            results: match self.results {
                Some(results) => Some(results@),
                None => None,
            },
        }
    }
}

/// The name that a reader gave, if any.
pub open spec fn named(requester: Option<&String>) -> Option<Seq<char>> {
    match requester {
        Some(name) => Some(name@),
        None => None,
    }
}

/// The sets that a reader can vote for: all sets of all participants, row
/// after row, without those equal to a set that the reader handed in.
pub open spec fn options(submissions: Seq<Row<EntryView>>, requester: Option<Seq<char>>) -> Seq<
    EntryView,
> {
    match requester {
        Some(name) => flatten(submissions).filter(survives(kept_under(submissions, name))),
        None => flatten(submissions),
    }
}

/// What is shown of an exchange to a reader who may have given their name.
pub open spec fn spec_project(model: ExchangeView, requester: Option<Seq<char>>) -> ExchangeReturnView {
    ExchangeReturnView {
        title: model.title,
        id: model.id,
        stage: model.stage,
        submissions: if model.stage == Stage::Voting {
            Some(options(model.submissions, requester))
        } else {
            None
        },
        results: if model.stage == Stage::Frozen {
            Some(model.results)
        } else {
            None
        },
    }
}

/// All sets of all participants, row after row.
pub fn all_entries(submissions: &NameMap<Entry>) -> (entries: Vec<Entry>)
    ensures
        views(entries@) == flatten(submissions@),
{
    let mut entries: Vec<Entry> = Vec::new();
    let rows = submissions.len();
    let mut row: usize = 0;
    proof {
        assert(submissions@.take(0) =~= Seq::<Row<EntryView>>::empty());
        assert(views(entries@) =~= flatten(submissions@.take(0)));
    }
    while row < rows
        invariant
            row <= rows == submissions@.len(),
            views(entries@) == flatten(submissions@.take(row as int)),
        decreases rows - row,
    {
        let items = submissions.items_at(row);
        let ghost front = views(entries@);
        let mut i: usize = 0;
        while i < items.len()
            invariant
                i <= items.len(),
                views(entries@) == front + views(items@).take(i as int),
            decreases items.len() - i,
        {
            let ghost before = views(entries@);
            entries.push(items[i].clone());
            assert(views(entries@) =~= before.push(items@[i as int]@));
            assert(views(items@).take(i + 1) =~= views(items@).take(i as int).push(
                items@[i as int]@,
            ));
            i = i + 1;
        }
        proof {
            assert(views(items@).take(items.len() as int) =~= views(items@));
            lemma_flatten_step(submissions@, row as int);
        }
        row = row + 1;
    }
    assert(submissions@.take(rows as int) =~= submissions@);
    entries
}

/// A copy of a mapping from participants to sets.
pub fn copy_rows(rows: &NameMap<Entry>) -> (copy: NameMap<Entry>)
    ensures
        copy@ == rows@,
{
    let mut copy: NameMap<Entry> = NameMap::new();
    let count = rows.len();
    let mut row: usize = 0;
    proof {
        assert(copy@ =~= rows@.take(0));
    }
    while row < count
        invariant
            row <= count == rows@.len(),
            copy@ == rows@.take(row as int),
        decreases count - row,
    {
        let name = rows.name_at(row).clone();
        let items = copy_entries(rows.items_at(row));
        copy.append(name, items);
        assert(copy@ =~= rows@.take(row + 1));
        row = row + 1;
    }
    assert(rows@.take(count as int) =~= rows@);
    copy
}

/// Shows an exchange to a reader who may have given their name.
///
/// Title, id and stage are always shown. During the voting the reader also
/// gets the sets to vote on: everything that was handed in, except what
/// equals a set of their own. Once the exchange is frozen the reader gets the
/// results. Nothing else is ever shown; the secret and the ballots are not
/// part of a projection.
pub fn project(exchange: &Exchange, requester: Option<&String>) -> (shown: ExchangeReturn)
    ensures
        shown@ == spec_project(exchange@, named(requester)),
{
    let stage = exchange.stage();
    let submissions = match stage {
        Stage::Voting => {
            let all = all_entries(exchange.submissions());
            let open = match requester {
                Some(name) => match exchange.submissions().get(name) {
                    Some(own) => remove_entries(&all, own),
                    None => {
                        proof {
                            let none = Seq::<EntryView>::empty();
                            assert forall|i: int| 0 <= i < views(all@).len() implies survives(none)(
                                #[trigger] views(all@)[i],
                            ) by {}
                            lemma_filter_all(views(all@), survives(none));
                        }
                        all
                    },
                },
                None => all,
            };
            Some(open)
        },
        _ => None,
    };
    let results = match stage {
        Stage::Frozen => Some(copy_rows(exchange.results())),
        _ => None,
    };
    ExchangeReturn { title: exchange.title().clone(), id: exchange.id(), stage, submissions, results }
}

/// What is shown does not depend on the secret, the ballots or the settings:
/// two exchanges that agree in title, id, stage, submissions and results
/// look the same to every reader.
pub proof fn lemma_projection_hides_secret(
    one: ExchangeView,
    other: ExchangeView,
    requester: Option<Seq<char>>,
)
    requires
        one.title == other.title,
        one.id == other.id,
        one.stage == other.stage,
        one.submissions == other.submissions,
        one.results == other.results,
    ensures
        spec_project(one, requester) == spec_project(other, requester),
{
}

/// Nothing is shown before its time: sets to vote on in the voting stage
/// only, results in a frozen exchange only.
pub proof fn lemma_projection_by_stage(model: ExchangeView, requester: Option<Seq<char>>)
    ensures
        spec_project(model, requester).submissions is Some <==> model.stage == Stage::Voting,
        spec_project(model, requester).results is Some <==> model.stage == Stage::Frozen,
        model.stage == Stage::Frozen ==> spec_project(model, requester).results == Some(
            model.results,
        ),
{
}

/// A reader who gave their name is never shown a set equal to one that they
/// handed in, and is shown every other set that was handed in.
pub proof fn lemma_own_sets_left_out(
    submissions: Seq<Row<EntryView>>,
    name: Seq<char>,
    entry: EntryView,
)
    ensures
        options(submissions, Some(name)).contains(entry) <==> flatten(submissions).contains(entry)
            && !kept_under(submissions, name).contains(entry),
{
    let all = flatten(submissions);
    let own = kept_under(submissions, name);
    let open = options(submissions, Some(name));
    if open.contains(entry) {
        all.lemma_filter_contains_rev(survives(own), entry);
    }
    if all.contains(entry) && !own.contains(entry) {
        let i = choose|i: int| 0 <= i < all.len() && all[i] == entry;
        all.lemma_filter_contains(survives(own), i);
    }
}

} // verus!
