//! The store: every exchange of a service, filed under its id, and the
//! commands that clients give.

use crate::entry::{Entry, Vote};
use crate::exchange::{
    carried_out, spec_add_submission, spec_cast_votes, spec_delete_submission, spec_delete_votes,
    spec_new, spec_transition, spec_update_results, valid, Exchange, ExchangeView,
};
use crate::model::views;
use crate::passphrase::{generate_passphrase, is_passphrase};
use crate::projection::{named, project, spec_project, ExchangeReturn};
use crate::ranking::FACTOR_SCALE;
use crate::stage::{ExchangeError, Stage};
use std::collections::HashMap;
use vstd::prelude::*;

verus! {

/// The mathematical value of a store: the value of every exchange, by id.
pub type StoreView = Map<i32, ExchangeView>;

/// Whether every exchange of `store` is valid and filed under its own id.
pub open spec fn valid_store(store: StoreView) -> bool {
    forall|id: i32| store.contains_key(id) ==> valid(#[trigger] store[id]) && store[id].id == id
}

/// Whether `id` is the id that the next exchange of `store` gets: 1 in an
/// empty store, and otherwise one more than the largest id in use.
pub open spec fn is_next_id(store: StoreView, id: int) -> bool {
    &&& forall|used: i32| store.contains_key(used) ==> used < id
    &&& if exists|used: i32| store.contains_key(used) {
        i32::MIN < id <= i32::MAX + 1 && store.contains_key((id - 1) as i32)
    } else {
        id == 1
    }
}

/// What a command on the exchange `id` does to the store. An id that is not in
/// use is not found. A command that has to show the secret is unauthorized
/// if it shows another. Otherwise the exchange becomes what the command
/// `planned` for it, or the store stays as it is where the exchange refuses.
pub open spec fn filed(
    store: StoreView,
    id: i32,
    secret: Option<Seq<char>>,
    planned: Result<ExchangeView, ExchangeError>,
) -> Result<StoreView, ExchangeError> {
    if !store.contains_key(id) {
        Err(ExchangeError::NotFound)
    } else if secret is Some && secret->0 != store[id].passphrase {
        Err(ExchangeError::Unauthorized)
    } else {
        match planned {
            Ok(next) => Ok(store.insert(id, next)),
            Err(error) => Err(error),
        }
    }
}

/// What deleting the exchange `id` does to the store.
pub open spec fn spec_delete_exchange(store: StoreView, id: i32, secret: Seq<char>) -> Result<
    StoreView,
    ExchangeError,
> {
    if !store.contains_key(id) {
        Err(ExchangeError::NotFound)
    } else if secret != store[id].passphrase {
        Err(ExchangeError::Unauthorized)
    } else {
        Ok(store.remove(id))
    }
}

/// All exchanges of a service, each under its id.
pub struct ExchangeStore {
    exchanges: HashMap<i32, Exchange>,
}

impl View for ExchangeStore {
    type V = StoreView;

    closed spec fn view(&self) -> StoreView {
        Map::new(|id: i32| self.exchanges@.contains_key(id), |id: i32| self.exchanges@[id]@)
    }
}

impl ExchangeStore {
    /// Whether every exchange is valid and filed under its own id.
    pub open spec fn wf(&self) -> bool {
        valid_store(self@)
    }

    /// The store without exchanges.
    pub fn new() -> (store: ExchangeStore)
        ensures
            store.wf(),
            store@ == Map::<i32, ExchangeView>::empty(),
    {
        let store = ExchangeStore { exchanges: HashMap::new() };
        assert(store@ =~= Map::<i32, ExchangeView>::empty());
        store
    }

    /// The largest id in use, if any is.
    pub fn highest_id(&self) -> (highest: Option<i32>)
        ensures
            match highest {
                Some(id) => self@.contains_key(id) && forall|used: i32|
                    self@.contains_key(used) ==> used <= id,
                None => forall|used: i32| !self@.contains_key(used),
            },
    {
        let mut highest: Option<i32> = None;
        for key in it: self.exchanges.keys()
            invariant
                match highest {
                    Some(id) => self@.contains_key(id) && forall|k: int|
                        0 <= k < it.index() ==> *(#[trigger] it.seq()[k]) <= id,
                    None => it.index() == 0,
                },
        {
            let larger = match highest {
                Some(id) => *key > id,
                None => true,
            };
            if larger {
                highest = Some(*key);
            }
        }
        highest
    }

    /// The id that the next exchange gets: 1 in an empty store, otherwise one
    /// more than the largest id in use. There is none once the largest
    /// number is in use.
    pub fn next_id(&self) -> (next: Option<i32>)
        ensures
            match next {
                Some(id) => is_next_id(self@, id as int),
                None => self@.contains_key(i32::MAX),
            },
    {
        match self.highest_id() {
            Some(id) => if id < i32::MAX {
                assert(((id + 1) - 1) as i32 == id);
                Some(id + 1)
            } else {
                None
            },
            None => Some(1),
        }
    }

    /// Whether an exchange is filed under `id`.
    pub fn contains(&self, id: i32) -> (found: bool)
        ensures
            found == self@.contains_key(id),
    {
        self.exchanges.contains_key(&id)
    }

    /// The exchange filed under `id`, if there is one.
    pub fn get(&self, id: i32) -> (found: Option<&Exchange>)
        ensures
            match found {
                Some(exchange) => self@.contains_key(id) && exchange@ == self@[id],
                None => !self@.contains_key(id),
            },
    {
        self.exchanges.get(&id)
    }

    /// Files an exchange under its id, in place of one that was filed there.
    /// This is how the exchanges of an earlier run come back into the store.
    pub fn insert(&mut self, exchange: Exchange)
        requires
            old(self).wf(),
            exchange.wf(),
        ensures
            final(self).wf(),
            final(self)@ == old(self)@.insert(exchange@.id as i32, exchange@),
    {
        let id = exchange.id();
        let ghost model = exchange@;
        self.exchanges.insert(id, exchange);
        assert(self@ =~= old(self)@.insert(id, model));
    }

    /// Creates an exchange with the given secret and files it under the next
    /// id. The exchange starts in the submission stage with nothing handed
    /// in. An assignment factor above 1000 thousandths is refused as a
    /// validation error.
    pub fn create_exchange_with(
        &mut self,
        title: String,
        passphrase: String,
        user_max: Option<i32>,
        assignment_factor: Option<u32>,
    ) -> (outcome: Result<i32, ExchangeError>)
        requires
            old(self).wf(),
            !old(self)@.contains_key(i32::MAX),
        ensures
            final(self).wf(),
            match outcome {
                Ok(id) => {
                    &&& is_next_id(old(self)@, id as int)
                    &&& final(self)@ == old(self)@.insert(id, final(self)@[id])
                    &&& spec_new(id as int, title@, passphrase@, user_max, assignment_factor)
                        == Ok::<ExchangeView, ExchangeError>(final(self)@[id])
                },
                Err(error) => {
                    &&& error == ExchangeError::ValidationError
                    &&& assignment_factor is Some
                    &&& assignment_factor->0 > FACTOR_SCALE
                    &&& final(self)@ == old(self)@
                },
            },
    {
        let id = match self.next_id() {
            Some(id) => id,
            None => {
                return Err(ExchangeError::ValidationError);
            },
        };
        assert(id > 0) by {
            if id != 1 {
                assert(valid(self@[(id - 1) as i32]));
            }
        }
        match Exchange::new(id, title, passphrase, user_max, assignment_factor) {
            Ok(exchange) => {
                let ghost model = exchange@;
                self.exchanges.insert(id, exchange);
                assert(self@ =~= old(self)@.insert(id, model));
                Ok(id)
            },
            Err(error) => Err(error),
        }
    }

    /// Creates an exchange with a fresh secret and files it under the next
    /// id. The secret is drawn at random; otherwise the exchange is the one
    /// that [`ExchangeStore::create_exchange_with`] makes.
    pub fn create_exchange(
        &mut self,
        title: String,
        user_max: Option<i32>,
        assignment_factor: Option<u32>,
    ) -> (outcome: Result<i32, ExchangeError>)
        requires
            old(self).wf(),
            !old(self)@.contains_key(i32::MAX),
        ensures
            final(self).wf(),
            match outcome {
                Ok(id) => {
                    &&& is_next_id(old(self)@, id as int)
                    &&& final(self)@ == old(self)@.insert(id, final(self)@[id])
                    &&& is_passphrase(final(self)@[id].passphrase)
                    &&& spec_new(
                        id as int,
                        title@,
                        final(self)@[id].passphrase,
                        user_max,
                        assignment_factor,
                    ) == Ok::<ExchangeView, ExchangeError>(final(self)@[id])
                },
                Err(error) => {
                    &&& error == ExchangeError::ValidationError
                    &&& assignment_factor is Some
                    &&& assignment_factor->0 > FACTOR_SCALE
                    &&& final(self)@ == old(self)@
                },
            },
    {
        let passphrase = generate_passphrase();
        self.create_exchange_with(title, passphrase, user_max, assignment_factor)
    }

    /// Moves the exchange `id` to the `requested` stage, for a client who
    /// shows the secret.
    pub fn change_stage(&mut self, id: i32, secret: &String, requested: Stage) -> (outcome: Result<
        (),
        ExchangeError,
    >)
        requires
            old(self).wf(),
        ensures
            final(self).wf(),
            carried_out(
                filed(
                    old(self)@,
                    id,
                    Some(secret@),
                    spec_transition(old(self)@[id], requested),
                ),
                outcome,
                old(self)@,
                final(self)@,
            ),
    {
        let mut exchange = match self.exchanges.remove(&id) {
            Some(exchange) => exchange,
            None => {
                assert(self@ =~= old(self)@);
                return Err(ExchangeError::NotFound);
            },
        };
        assert(exchange@ == old(self)@[id]);
        let outcome = match exchange.authorize(secret) {
            Ok(_) => exchange.transition(requested),
            Err(error) => Err(error),
        };
        let ghost after = exchange@;
        self.exchanges.insert(id, exchange);
        assert(self@ =~= old(self)@.insert(id, after));
        assert(outcome is Err ==> self@ =~= old(self)@);
        outcome
    }
    /// Tunes the selection of the exchange `id` and computes its results
    /// again, for a client who shows the secret.
    pub fn update_results(
        &mut self,
        id: i32,
        secret: &String,
        user_max: Option<i32>,
        assignment_factor: Option<u32>,
    ) -> (outcome: Result<(), ExchangeError>)
        requires
            old(self).wf(),
        ensures
            final(self).wf(),
            carried_out(
                filed(old(self)@, id, Some(secret@), spec_update_results(old(self)@[id], user_max, assignment_factor)),
                outcome,
                old(self)@,
                final(self)@,
            ),
    {
        let mut exchange = match self.exchanges.remove(&id) {
            Some(exchange) => exchange,
            None => {
                assert(self@ =~= old(self)@);
                return Err(ExchangeError::NotFound);
            },
        };
        assert(exchange@ == old(self)@[id]);
        let outcome = match exchange.authorize(secret) {
            Ok(_) => exchange.update_results(user_max, assignment_factor),
            Err(error) => Err(error),
        };
        let ghost after = exchange@;
        self.exchanges.insert(id, exchange);
        assert(self@ =~= old(self)@.insert(id, after));
        assert(outcome is Err ==> self@ =~= old(self)@);
        outcome
    }

    /// Hands in sets for the participant called `name` of the exchange `id`.
    /// No secret is asked for.
    pub fn add_submission(&mut self, id: i32, name: String, incoming: Vec<Entry>) -> (outcome: Result<(), ExchangeError>)
        requires
            old(self).wf(),
        ensures
            final(self).wf(),
            carried_out(
                filed(old(self)@, id, None, spec_add_submission(old(self)@[id], name@, views(incoming@))),
                outcome,
                old(self)@,
                final(self)@,
            ),
    {
        let mut exchange = match self.exchanges.remove(&id) {
            Some(exchange) => exchange,
            None => {
                assert(self@ =~= old(self)@);
                return Err(ExchangeError::NotFound);
            },
        };
        assert(exchange@ == old(self)@[id]);
        let outcome = exchange.add_submission(name, incoming);
        let ghost after = exchange@;
        self.exchanges.insert(id, exchange);
        assert(self@ =~= old(self)@.insert(id, after));
        assert(outcome is Err ==> self@ =~= old(self)@);
        outcome
    }

    /// Deletes sets from everybody's submissions to the exchange `id`, for a
    /// client who shows the secret.
    pub fn delete_submission(&mut self, id: i32, secret: &String, doomed: &Vec<Entry>) -> (outcome: Result<(), ExchangeError>)
        requires
            old(self).wf(),
        ensures
            final(self).wf(),
            carried_out(
                filed(old(self)@, id, Some(secret@), spec_delete_submission(old(self)@[id], views(doomed@))),
                outcome,
                old(self)@,
                final(self)@,
            ),
    {
        let mut exchange = match self.exchanges.remove(&id) {
            Some(exchange) => exchange,
            None => {
                assert(self@ =~= old(self)@);
                return Err(ExchangeError::NotFound);
            },
        };
        assert(exchange@ == old(self)@[id]);
        let outcome = match exchange.authorize(secret) {
            Ok(_) => exchange.delete_submission(doomed),
            Err(error) => Err(error),
        };
        let ghost after = exchange@;
        self.exchanges.insert(id, exchange);
        assert(self@ =~= old(self)@.insert(id, after));
        assert(outcome is Err ==> self@ =~= old(self)@);
        outcome
    }

    /// Casts the ballot of the voter called `name` in the exchange `id`. No
    /// secret is asked for.
    pub fn cast_votes(&mut self, id: i32, name: String, ballot: Vec<Vote>) -> (outcome: Result<(), ExchangeError>)
        requires
            old(self).wf(),
        ensures
            final(self).wf(),
            carried_out(
                filed(old(self)@, id, None, spec_cast_votes(old(self)@[id], name@, views(ballot@))),
                outcome,
                old(self)@,
                final(self)@,
            ),
    {
        let mut exchange = match self.exchanges.remove(&id) {
            Some(exchange) => exchange,
            None => {
                assert(self@ =~= old(self)@);
                return Err(ExchangeError::NotFound);
            },
        };
        assert(exchange@ == old(self)@[id]);
        let outcome = exchange.cast_votes(name, ballot);
        let ghost after = exchange@;
        self.exchanges.insert(id, exchange);
        assert(self@ =~= old(self)@.insert(id, after));
        assert(outcome is Err ==> self@ =~= old(self)@);
        outcome
    }

    /// Deletes the ballot of the voter called `name` from the exchange `id`,
    /// for a client who shows the secret.
    pub fn delete_votes(&mut self, id: i32, secret: &String, name: &String) -> (outcome: Result<(), ExchangeError>)
        requires
            old(self).wf(),
        ensures
            final(self).wf(),
            carried_out(
                filed(old(self)@, id, Some(secret@), spec_delete_votes(old(self)@[id], name@)),
                outcome,
                old(self)@,
                final(self)@,
            ),
    {
        let mut exchange = match self.exchanges.remove(&id) {
            Some(exchange) => exchange,
            None => {
                assert(self@ =~= old(self)@);
                return Err(ExchangeError::NotFound);
            },
        };
        assert(exchange@ == old(self)@[id]);
        let outcome = match exchange.authorize(secret) {
            Ok(_) => exchange.delete_votes(name),
            Err(error) => Err(error),
        };
        let ghost after = exchange@;
        self.exchanges.insert(id, exchange);
        assert(self@ =~= old(self)@.insert(id, after));
        assert(outcome is Err ==> self@ =~= old(self)@);
        outcome
    }

    /// Deletes the exchange `id`, for a client who shows the secret. This is
    /// the one change that a frozen exchange allows.
    pub fn delete_exchange(&mut self, id: i32, secret: &String) -> (outcome: Result<
        (),
        ExchangeError,
    >)
        requires
            old(self).wf(),
        ensures
            final(self).wf(),
            carried_out(
                spec_delete_exchange(old(self)@, id, secret@),
                outcome,
                old(self)@,
                final(self)@,
            ),
    {
        let authorized = match self.exchanges.get(&id) {
            Some(exchange) => exchange.authorize(secret),
            None => Err(ExchangeError::NotFound),
        };
        match authorized {
            Ok(_) => {
                self.exchanges.remove(&id);
                assert(self@ =~= old(self)@.remove(id));
                Ok(())
            },
            Err(error) => Err(error),
        }
    }

    /// The whole exchange `id`, for a client who shows the secret.
    pub fn get_exchange_admin(&self, id: i32, secret: &String) -> (outcome: Result<
        &Exchange,
        ExchangeError,
    >)
        ensures
            match outcome {
                Ok(exchange) => {
                    &&& self@.contains_key(id)
                    &&& exchange@ == self@[id]
                    &&& secret@ == self@[id].passphrase
                },
                Err(error) => error == (if !self@.contains_key(id) {
                    ExchangeError::NotFound
                } else {
                    ExchangeError::Unauthorized
                }) && (self@.contains_key(id) ==> secret@ != self@[id].passphrase),
            },
    {
        match self.exchanges.get(&id) {
            Some(exchange) => match exchange.authorize(secret) {
                Ok(_) => Ok(exchange),
                Err(error) => Err(error),
            },
            None => Err(ExchangeError::NotFound),
        }
    }

    /// What a reader may see of the exchange `id`; the reader may have given
    /// their name. An id that is not in use is not found.
    pub fn get_exchange(&self, id: i32, requester: Option<&String>) -> (outcome: Result<
        ExchangeReturn,
        ExchangeError,
    >)
        ensures
            match outcome {
                Ok(shown) => self@.contains_key(id) && shown@ == spec_project(
                    self@[id],
                    named(requester),
                ),
                Err(error) => error == ExchangeError::NotFound && !self@.contains_key(id),
            },
    {
        match self.exchanges.get(&id) {
            Some(exchange) => {
                assert(exchange@ == self@[id]);
                Ok(project(exchange, requester))
            },
            None => Err(ExchangeError::NotFound),
        }
    }

    /// Whether no id is left for another exchange.
    pub fn is_full(&self) -> (full: bool)
        ensures
            full == self@.contains_key(i32::MAX),
    {
        self.exchanges.contains_key(&i32::MAX)
    }

    /// The number of exchanges.
    pub fn len(&self) -> (count: usize)
        ensures
            count == self@.dom().len(),
    {
        proof {
            assert(self@.dom() =~= self.exchanges@.dom());
        }
        self.exchanges.len()
    }
}

/// A command on one exchange leaves every other exchange as it is, and
/// leaves the exchange itself under its id.
pub proof fn lemma_filed_touches_one(
    store: StoreView,
    id: i32,
    secret: Option<Seq<char>>,
    planned: Result<ExchangeView, ExchangeError>,
    other: i32,
)
    requires
        filed(store, id, secret, planned) is Ok,
        other != id,
    ensures
        filed(store, id, secret, planned)->Ok_0.contains_key(id),
        filed(store, id, secret, planned)->Ok_0.contains_key(other) == store.contains_key(other),
        store.contains_key(other) ==> filed(store, id, secret, planned)->Ok_0[other]
            == store[other],
{
}

/// A command that does not show the right secret changes nothing, whatever
/// it was meant to do.
pub proof fn lemma_wrong_secret_refused(
    store: StoreView,
    id: i32,
    secret: Seq<char>,
    planned: Result<ExchangeView, ExchangeError>,
)
    requires
        store.contains_key(id),
        secret != store[id].passphrase,
    ensures
        filed(store, id, Some(secret), planned) == Err::<StoreView, ExchangeError>(
            ExchangeError::Unauthorized,
        ),
        spec_delete_exchange(store, id, secret) == Err::<StoreView, ExchangeError>(
            ExchangeError::Unauthorized,
        ),
{
}

} // verus!
