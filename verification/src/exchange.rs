//! The exchange: one run of the workflow from submission to frozen results,
//! with the rules for every command that changes it.

use crate::assignment::{compute_results, spec_compute_results};
use crate::entry::{Entry, EntryView, Vote, VoteView};
use crate::model::{
    distinct_names, has_name, kept_under, lemma_filter_distinct, lemma_put_distinct, not_named, put,
    views, without, Row,
};
use crate::name_map::NameMap;
use crate::ranking::FACTOR_SCALE;
use crate::reconcile::{delete, reconcile, spec_delete, spec_reconcile};
use crate::stage::{ExchangeError, Stage};
use vstd::prelude::*;

verus! {

/// The limit of entries per participant of an exchange made without one.
pub const DEFAULT_USER_MAX: i32 = 2;

/// The assignment factor, in thousandths, of an exchange made without one:
/// popularity and preference weigh the same.
pub const DEFAULT_ASSIGNMENT_FACTOR: u32 = 500;

/// The mathematical value of an [`Exchange`].
pub struct ExchangeView {
    pub title: Seq<char>,
    pub id: int,
    pub passphrase: Seq<char>,
    pub stage: Stage,
    pub user_max: int,
    pub assignment_factor: int,
    pub submissions: Seq<Row<EntryView>>,
    pub votes: Seq<Row<VoteView>>,
    pub results: Seq<Row<EntryView>>,
}

/// What holds of every exchange: its id is positive, its assignment factor a
/// number of thousandths, nobody is named twice in its submissions, ballots
/// or results, there are no ballots before voting starts, and no results
/// before the selection.
pub open spec fn valid(model: ExchangeView) -> bool {
    &&& model.id > 0
    &&& 0 <= model.assignment_factor <= FACTOR_SCALE
    &&& distinct_names(model.submissions)
    &&& distinct_names(model.votes)
    &&& distinct_names(model.results)
    &&& model.stage == Stage::Submission ==> model.votes.len() == 0
    &&& model.stage == Stage::Submission || model.stage == Stage::Voting ==> model.results.len()
        == 0
}

/// One exchange: its settings, its stage, and what the participants have
/// handed in, voted for and been given.
#[derive(Debug)]
pub struct Exchange {
    title: String,
    id: i32,
    passphrase: String,
    stage: Stage,
    user_max: i32,
    assignment_factor: u32,
    submissions: NameMap<Entry>,
    votes: NameMap<Vote>,
    results: NameMap<Entry>,
}

impl View for Exchange {
    type V = ExchangeView;

    closed spec fn view(&self) -> ExchangeView {
        ExchangeView {
            title: self.title@,
            id: self.id as int,
            passphrase: self.passphrase@,
            stage: self.stage,
            user_max: self.user_max as int,
            assignment_factor: self.assignment_factor as int,
            submissions: self.submissions@,
            votes: self.votes@,
            results: self.results@,
        }
    }
}

/// The exchange made of the given parts.
pub open spec fn assembled(
    title: Seq<char>,
    id: i32,
    passphrase: Seq<char>,
    stage: Stage,
    user_max: i32,
    assignment_factor: u32,
    submissions: Seq<Row<EntryView>>,
    votes: Seq<Row<VoteView>>,
    results: Seq<Row<EntryView>>,
) -> ExchangeView {
    ExchangeView {
        title,
        id: id as int,
        passphrase,
        stage,
        user_max: user_max as int,
        assignment_factor: assignment_factor as int,
        submissions,
        votes,
        results,
    }
}

/// The exchange that a creation command asks for: in the submission stage,
/// with nothing handed in yet.
pub open spec fn spec_new(
    id: int,
    title: Seq<char>,
    passphrase: Seq<char>,
    user_max: Option<i32>,
    assignment_factor: Option<u32>,
) -> Result<ExchangeView, ExchangeError> {
    let factor = match assignment_factor {
        Some(factor) => factor,
        None => DEFAULT_ASSIGNMENT_FACTOR,
    };
    if id <= 0 || factor > FACTOR_SCALE {
        Err(ExchangeError::ValidationError)
    } else {
        Ok(
            ExchangeView {
                title,
                id,
                passphrase,
                stage: Stage::Submission,
                user_max: match user_max {
                    Some(limit) => limit as int,
                    None => DEFAULT_USER_MAX as int,
                },
                assignment_factor: factor as int,
                submissions: Seq::empty(),
                votes: Seq::empty(),
                results: Seq::empty(),
            },
        )
    }
}

/// What a request for another stage does. A frozen exchange refuses every
/// request, and no exchange moves to the stage it is in. Voting starts once
/// something was handed in. Going back from voting throws the ballots away.
/// The selection starts once a ballot was cast, and computes the results;
/// going back from it throws them away. A selection can be frozen. Every
/// other request is refused.
pub open spec fn spec_transition(model: ExchangeView, requested: Stage) -> Result<
    ExchangeView,
    ExchangeError,
> {
    if model.stage == Stage::Frozen {
        Err(ExchangeError::Locked)
    } else if model.stage == requested {
        Err(ExchangeError::InvalidTransition)
    } else {
        match (model.stage, requested) {
            (Stage::Submission, Stage::Voting) => if model.submissions.len() == 0 {
                Err(ExchangeError::InvalidState)
            } else {
                Ok(ExchangeView { stage: Stage::Voting, ..model })
            },
            (Stage::Voting, Stage::Submission) => Ok(
                ExchangeView { stage: Stage::Submission, votes: Seq::empty(), ..model },
            ),
            (Stage::Voting, Stage::Selection) => if model.votes.len() == 0 {
                Err(ExchangeError::InvalidState)
            } else {
                Ok(
                    ExchangeView {
                        stage: Stage::Selection,
                        results: spec_compute_results(
                            model.submissions,
                            model.votes,
                            model.user_max,
                            model.assignment_factor,
                        ),
                        ..model
                    },
                )
            },
            (Stage::Selection, Stage::Voting) => Ok(
                ExchangeView { stage: Stage::Voting, results: Seq::empty(), ..model },
            ),
            (Stage::Selection, Stage::Frozen) => Ok(ExchangeView { stage: Stage::Frozen, ..model }),
            _ => Err(ExchangeError::InvalidTransition),
        }
    }
}

/// What handing in `incoming` under `name` does: in the submission stage the
/// participant's list becomes what is kept for them reconciled with
/// `incoming`.
pub open spec fn spec_add_submission(
    model: ExchangeView,
    name: Seq<char>,
    incoming: Seq<EntryView>,
) -> Result<ExchangeView, ExchangeError> {
    if model.stage == Stage::Frozen {
        Err(ExchangeError::Locked)
    } else if model.stage != Stage::Submission {
        Err(ExchangeError::InvalidState)
    } else {
        Ok(
            ExchangeView {
                submissions: put(
                    model.submissions,
                    name,
                    spec_reconcile(kept_under(model.submissions, name), incoming),
                ),
                ..model
            },
        )
    }
}

/// What deleting the `doomed` sets does: in the submission stage, given sets
/// to delete and submissions to delete them from, every list loses them.
pub open spec fn spec_delete_submission(model: ExchangeView, doomed: Seq<EntryView>) -> Result<
    ExchangeView,
    ExchangeError,
> {
    if model.stage == Stage::Frozen {
        Err(ExchangeError::Locked)
    } else if model.stage != Stage::Submission {
        Err(ExchangeError::InvalidState)
    } else if doomed.len() == 0 || model.submissions.len() == 0 {
        Err(ExchangeError::ValidationError)
    } else {
        Ok(ExchangeView { submissions: spec_delete(model.submissions, doomed), ..model })
    }
}

/// What casting `ballot` under `name` does: in the voting stage it becomes
/// the voter's ballot, in place of an earlier one.
pub open spec fn spec_cast_votes(
    model: ExchangeView,
    name: Seq<char>,
    ballot: Seq<VoteView>,
) -> Result<ExchangeView, ExchangeError> {
    if model.stage == Stage::Frozen {
        Err(ExchangeError::Locked)
    } else if model.stage != Stage::Voting {
        Err(ExchangeError::InvalidState)
    } else {
        Ok(ExchangeView { votes: put(model.votes, name, ballot), ..model })
    }
}

/// What deleting the ballot of `name` does: unless the exchange is frozen,
/// the ballot is gone; a voter without a ballot is not found.
pub open spec fn spec_delete_votes(model: ExchangeView, name: Seq<char>) -> Result<
    ExchangeView,
    ExchangeError,
> {
    if model.stage == Stage::Frozen {
        Err(ExchangeError::Locked)
    } else if !has_name(model.votes, name) {
        Err(ExchangeError::NotFound)
    } else {
        Ok(ExchangeView { votes: without(model.votes, name), ..model })
    }
}

/// What tuning the selection does: the settings that are given replace the
/// ones in force, and the results are computed again.
pub open spec fn spec_update_results(
    model: ExchangeView,
    user_max: Option<i32>,
    assignment_factor: Option<u32>,
) -> Result<ExchangeView, ExchangeError> {
    let limit = match user_max {
        Some(limit) => limit as int,
        None => model.user_max,
    };
    let factor = match assignment_factor {
        Some(factor) => factor as int,
        None => model.assignment_factor,
    };
    if model.stage == Stage::Frozen {
        Err(ExchangeError::Locked)
    } else if model.stage != Stage::Selection {
        Err(ExchangeError::InvalidState)
    } else if factor > FACTOR_SCALE {
        Err(ExchangeError::ValidationError)
    } else {
        Ok(
            ExchangeView {
                user_max: limit,
                assignment_factor: factor,
                results: spec_compute_results(model.submissions, model.votes, limit, factor),
                ..model
            },
        )
    }
}

/// Whether `outcome` is what the command `planned`: on success the state is
/// the planned one, and a refusal is the planned refusal and leaves the state
/// as it was.
pub open spec fn carried_out<S>(
    planned: Result<S, ExchangeError>,
    outcome: Result<(), ExchangeError>,
    before: S,
    after: S,
) -> bool {
    match outcome {
        Ok(_) => planned == Ok::<S, ExchangeError>(after),
        Err(error) => planned == Err::<S, ExchangeError>(error) && after == before,
    }
}

impl Exchange {
    /// Whether the exchange is one that the commands can have produced.
    pub open spec fn wf(&self) -> bool {
        valid(self@)
    }

    /// Makes an exchange in the submission stage. Without a limit per
    /// participant the limit is 2; without an assignment factor it is 500
    /// thousandths. An id that is not positive or a factor above 1000 is
    /// refused as a validation error.
    pub fn new(
        id: i32,
        title: String,
        passphrase: String,
        user_max: Option<i32>,
        assignment_factor: Option<u32>,
    ) -> (made: Result<Exchange, ExchangeError>)
        ensures
            match made {
                Ok(exchange) => exchange.wf() && spec_new(
                    id as int,
                    title@,
                    passphrase@,
                    user_max,
                    assignment_factor,
                ) == Ok::<ExchangeView, ExchangeError>(exchange@),
                Err(error) => spec_new(id as int, title@, passphrase@, user_max, assignment_factor)
                    == Err::<ExchangeView, ExchangeError>(error),
            },
    {
        let factor = match assignment_factor {
            Some(factor) => factor,
            None => DEFAULT_ASSIGNMENT_FACTOR,
        };
        if id <= 0 || factor > FACTOR_SCALE {
            return Err(ExchangeError::ValidationError);
        }
        let limit = match user_max {
            Some(limit) => limit,
            None => DEFAULT_USER_MAX,
        };
        Ok(
            Exchange {
                title,
                id,
                passphrase,
                stage: Stage::Submission,
                user_max: limit,
                assignment_factor: factor,
                submissions: NameMap::new(),
                votes: NameMap::new(),
                results: NameMap::new(),
            },
        )
    }

    /// Puts an exchange together from its parts, as they come from a stored
    /// snapshot. Parts that do not make a valid exchange are refused as a
    /// validation error.
    pub fn restore(
        title: String,
        id: i32,
        passphrase: String,
        stage: Stage,
        user_max: i32,
        assignment_factor: u32,
        submissions: NameMap<Entry>,
        votes: NameMap<Vote>,
        results: NameMap<Entry>,
    ) -> (made: Result<Exchange, ExchangeError>)
        ensures
            match made {
                Ok(exchange) => exchange.wf() && exchange@ == assembled(
                    title@,
                    id,
                    passphrase@,
                    stage,
                    user_max,
                    assignment_factor,
                    submissions@,
                    votes@,
                    results@,
                ),
                Err(error) => error == ExchangeError::ValidationError && !valid(
                    assembled(
                        title@,
                        id,
                        passphrase@,
                        stage,
                        user_max,
                        assignment_factor,
                        submissions@,
                        votes@,
                        results@,
                    ),
                ),
            },
    {
        if id <= 0 || assignment_factor > FACTOR_SCALE {
            return Err(ExchangeError::ValidationError);
        }
        if !submissions.has_distinct_names() || !votes.has_distinct_names()
            || !results.has_distinct_names() {
            return Err(ExchangeError::ValidationError);
        }
        if stage == Stage::Submission && !votes.is_empty() {
            return Err(ExchangeError::ValidationError);
        }
        if (stage == Stage::Submission || stage == Stage::Voting) && !results.is_empty() {
            return Err(ExchangeError::ValidationError);
        }
        Ok(
            Exchange {
                title,
                id,
                passphrase,
                stage,
                user_max,
                assignment_factor,
                submissions,
                votes,
                results,
            },
        )
    }

    /// The display name.
    pub fn title(&self) -> (title: &String)
        ensures
            title@ == self@.title,
    {
        &self.title
    }

    /// The id.
    pub fn id(&self) -> (id: i32)
        ensures
            id == self@.id,
    {
        self.id
    }

    /// The secret that administrative commands must show.
    pub fn passphrase(&self) -> (passphrase: &String)
        ensures
            passphrase@ == self@.passphrase,
    {
        &self.passphrase
    }

    /// The current stage.
    pub fn stage(&self) -> (stage: Stage)
        ensures
            stage == self@.stage,
    {
        self.stage
    }

    /// The limit of entries per participant.
    pub fn user_max(&self) -> (limit: i32)
        ensures
            limit == self@.user_max,
    {
        self.user_max
    }

    /// The assignment factor, in thousandths.
    pub fn assignment_factor(&self) -> (factor: u32)
        ensures
            factor == self@.assignment_factor,
    {
        self.assignment_factor
    }

    /// What the participants have handed in.
    pub fn submissions(&self) -> (submissions: &NameMap<Entry>)
        ensures
            submissions@ == self@.submissions,
    {
        &self.submissions
    }

    /// The ballots.
    pub fn votes(&self) -> (votes: &NameMap<Vote>)
        ensures
            votes@ == self@.votes,
    {
        &self.votes
    }

    /// What the participants have been given.
    pub fn results(&self) -> (results: &NameMap<Entry>)
        ensures
            results@ == self@.results,
    {
        &self.results
    }

    /// Moves the exchange to the `requested` stage, if the rules allow it.
    ///
    /// A frozen exchange is locked. Asking for the current stage, or for a
    /// stage that cannot be reached from it, is an invalid transition. Voting
    /// cannot start without submissions, nor the selection without ballots:
    /// both are refused as an invalid state. Going back to the submission
    /// stage throws the ballots away, going back to voting the results; the
    /// step from voting to selection computes the results.
    pub fn transition(&mut self, requested: Stage) -> (outcome: Result<(), ExchangeError>)
        requires
            old(self).wf(),
        ensures
            final(self).wf(),
            carried_out(
                spec_transition(old(self)@, requested),
                outcome,
                old(self)@,
                final(self)@,
            ),
    {
        if self.stage == Stage::Frozen {
            return Err(ExchangeError::Locked);
        }
        if self.stage == requested {
            return Err(ExchangeError::InvalidTransition);
        }
        match (self.stage, requested) {
            (Stage::Submission, Stage::Voting) => {
                if self.submissions.is_empty() {
                    return Err(ExchangeError::InvalidState);
                }
            },
            (Stage::Voting, Stage::Submission) => {
                self.votes.clear();
            },
            (Stage::Voting, Stage::Selection) => {
                if self.votes.is_empty() {
                    return Err(ExchangeError::InvalidState);
                }
                self.results = compute_results(
                    &self.submissions,
                    &self.votes,
                    self.user_max,
                    self.assignment_factor,
                );
            },
            (Stage::Selection, Stage::Voting) => {
                self.results.clear();
            },
            (Stage::Selection, Stage::Frozen) => {},
            _ => {
                return Err(ExchangeError::InvalidTransition);
            },
        }
        self.stage = requested;
        Ok(())
    }

    /// Hands in sets for the participant called `name`.
    ///
    /// Sets are taken in the submission stage only. What is kept for the
    /// participant stays in front; an incoming set is appended unless an
    /// equal one is in the list by then. A participant who keeps nothing yet
    /// gets the incoming sets as they are.
    pub fn add_submission(&mut self, name: String, incoming: Vec<Entry>) -> (outcome: Result<
        (),
        ExchangeError,
    >)
        requires
            old(self).wf(),
        ensures
            final(self).wf(),
            carried_out(
                spec_add_submission(old(self)@, name@, views(incoming@)),
                outcome,
                old(self)@,
                final(self)@,
            ),
    {
        if self.stage == Stage::Frozen {
            return Err(ExchangeError::Locked);
        }
        if self.stage != Stage::Submission {
            return Err(ExchangeError::InvalidState);
        }
        let merged = match self.submissions.get(&name) {
            Some(existing) => reconcile(existing, &incoming),
            None => incoming,
        };
        self.submissions.insert(name, merged);
        Ok(())
    }

    /// Deletes sets from everybody's submissions.
    ///
    /// Sets are deleted in the submission stage only. A command without sets
    /// to delete, or given when nothing has been handed in, is refused as a
    /// validation error. Every participant loses the sets equal to one of
    /// `doomed`, and a participant left without any set is dropped.
    pub fn delete_submission(&mut self, doomed: &Vec<Entry>) -> (outcome: Result<
        (),
        ExchangeError,
    >)
        requires
            old(self).wf(),
        ensures
            final(self).wf(),
            carried_out(
                spec_delete_submission(old(self)@, views(doomed@)),
                outcome,
                old(self)@,
                final(self)@,
            ),
    {
        if self.stage == Stage::Frozen {
            return Err(ExchangeError::Locked);
        }
        if self.stage != Stage::Submission {
            return Err(ExchangeError::InvalidState);
        }
        if doomed.len() == 0 || self.submissions.is_empty() {
            return Err(ExchangeError::ValidationError);
        }
        self.submissions = delete(&self.submissions, doomed);
        Ok(())
    }

    /// Casts the ballot of the voter called `name`, in place of an earlier
    /// one. Ballots are taken in the voting stage only.
    pub fn cast_votes(&mut self, name: String, ballot: Vec<Vote>) -> (outcome: Result<
        (),
        ExchangeError,
    >)
        requires
            old(self).wf(),
        ensures
            final(self).wf(),
            carried_out(
                spec_cast_votes(old(self)@, name@, views(ballot@)),
                outcome,
                old(self)@,
                final(self)@,
            ),
    {
        if self.stage == Stage::Frozen {
            return Err(ExchangeError::Locked);
        }
        if self.stage != Stage::Voting {
            return Err(ExchangeError::InvalidState);
        }
        self.votes.insert(name, ballot);
        Ok(())
    }

    /// Deletes the ballot of the voter called `name`. A frozen exchange is
    /// locked; a voter without a ballot is not found.
    pub fn delete_votes(&mut self, name: &String) -> (outcome: Result<(), ExchangeError>)
        requires
            old(self).wf(),
        ensures
            final(self).wf(),
            carried_out(spec_delete_votes(old(self)@, name@), outcome, old(self)@, final(self)@),
    {
        if self.stage == Stage::Frozen {
            return Err(ExchangeError::Locked);
        }
        match self.votes.remove(name) {
            Some(_) => {
                proof {
                    crate::model::lemma_lookup_some(old(self)@.votes, name@);
                }
                Ok(())
            },
            None => Err(ExchangeError::NotFound),
        }
    }

    /// Tunes the selection: puts the settings that are given in force and
    /// computes the results again. This is for the selection stage only, and
    /// an assignment factor above 1000 thousandths is refused as a
    /// validation error.
    pub fn update_results(
        &mut self,
        user_max: Option<i32>,
        assignment_factor: Option<u32>,
    ) -> (outcome: Result<(), ExchangeError>)
        requires
            old(self).wf(),
        ensures
            final(self).wf(),
            carried_out(
                spec_update_results(old(self)@, user_max, assignment_factor),
                outcome,
                old(self)@,
                final(self)@,
            ),
    {
        if self.stage == Stage::Frozen {
            return Err(ExchangeError::Locked);
        }
        if self.stage != Stage::Selection {
            return Err(ExchangeError::InvalidState);
        }
        let factor = match assignment_factor {
            Some(factor) => factor,
            None => self.assignment_factor,
        };
        if factor > FACTOR_SCALE {
            return Err(ExchangeError::ValidationError);
        }
        if let Some(limit) = user_max {
            self.user_max = limit;
        }
        self.assignment_factor = factor;
        self.results = compute_results(
            &self.submissions,
            &self.votes,
            self.user_max,
            self.assignment_factor,
        );
        Ok(())
    }

    /// Checks the secret of an administrative command.
    pub fn authorize(&self, secret: &String) -> (checked: Result<(), ExchangeError>)
        ensures
            checked == (if secret@ == self@.passphrase {
                Ok::<(), ExchangeError>(())
            } else {
                Err::<(), ExchangeError>(ExchangeError::Unauthorized)
            }),
    {
        if *secret == self.passphrase {
            Ok(())
        } else {
            Err(ExchangeError::Unauthorized)
        }
    }
}

/// A frozen exchange refuses every request for a stage, as locked.
pub proof fn lemma_frozen_refuses_every_stage(model: ExchangeView, requested: Stage)
    requires
        model.stage == Stage::Frozen,
    ensures
        spec_transition(model, requested) == Err::<ExchangeView, ExchangeError>(
            ExchangeError::Locked,
        ),
{
}

/// A frozen exchange refuses every command that would change it, as locked.
pub proof fn lemma_frozen_is_locked(
    model: ExchangeView,
    name: Seq<char>,
    entries: Seq<EntryView>,
    ballot: Seq<VoteView>,
    user_max: Option<i32>,
    assignment_factor: Option<u32>,
)
    requires
        model.stage == Stage::Frozen,
    ensures
        spec_add_submission(model, name, entries) == Err::<ExchangeView, ExchangeError>(
            ExchangeError::Locked,
        ),
        spec_delete_submission(model, entries) == Err::<ExchangeView, ExchangeError>(
            ExchangeError::Locked,
        ),
        spec_cast_votes(model, name, ballot) == Err::<ExchangeView, ExchangeError>(
            ExchangeError::Locked,
        ),
        spec_delete_votes(model, name) == Err::<ExchangeView, ExchangeError>(
            ExchangeError::Locked,
        ),
        spec_update_results(model, user_max, assignment_factor) == Err::<
            ExchangeView,
            ExchangeError,
        >(ExchangeError::Locked),
{
}

/// No exchange moves to the stage that it is in.
pub proof fn lemma_current_stage_refused(model: ExchangeView)
    ensures
        spec_transition(model, model.stage) is Err,
        model.stage != Stage::Frozen ==> spec_transition(model, model.stage) == Err::<
            ExchangeView,
            ExchangeError,
        >(ExchangeError::InvalidTransition),
{
}

/// Voting starts exactly if something was handed in, and the selection
/// exactly if a ballot was cast; otherwise the request is refused as an
/// invalid state.
pub proof fn lemma_guarded_steps(model: ExchangeView)
    ensures
        model.stage == Stage::Submission ==> (spec_transition(model, Stage::Voting) is Ok
            <==> model.submissions.len() > 0),
        model.stage == Stage::Submission && model.submissions.len() == 0 ==> spec_transition(
            model,
            Stage::Voting,
        ) == Err::<ExchangeView, ExchangeError>(ExchangeError::InvalidState),
        model.stage == Stage::Voting ==> (spec_transition(model, Stage::Selection) is Ok
            <==> model.votes.len() > 0),
        model.stage == Stage::Voting && model.votes.len() == 0 ==> spec_transition(
            model,
            Stage::Selection,
        ) == Err::<ExchangeView, ExchangeError>(ExchangeError::InvalidState),
{
}

/// A request that is granted puts the exchange in the requested stage and
/// leaves title, id, secret, settings and submissions as they are.
pub proof fn lemma_step_reaches_stage(model: ExchangeView, requested: Stage)
    requires
        spec_transition(model, requested) is Ok,
    ensures
        spec_transition(model, requested)->Ok_0.stage == requested,
        spec_transition(model, requested)->Ok_0.title == model.title,
        spec_transition(model, requested)->Ok_0.id == model.id,
        spec_transition(model, requested)->Ok_0.passphrase == model.passphrase,
        spec_transition(model, requested)->Ok_0.user_max == model.user_max,
        spec_transition(model, requested)->Ok_0.assignment_factor == model.assignment_factor,
        spec_transition(model, requested)->Ok_0.submissions == model.submissions,
{
}

/// Going back throws away what the later stage built on: from voting to
/// submission the ballots, from selection to voting the results.
pub proof fn lemma_going_back_clears(model: ExchangeView)
    ensures
        model.stage == Stage::Voting ==> spec_transition(model, Stage::Submission) is Ok
            && spec_transition(model, Stage::Submission)->Ok_0.votes.len() == 0,
        model.stage == Stage::Selection ==> spec_transition(model, Stage::Voting) is Ok
            && spec_transition(model, Stage::Voting)->Ok_0.results.len() == 0,
{
}

/// Whatever a command does to a valid exchange, the exchange stays valid:
/// there are still no ballots before the voting and no results before the
/// selection.
pub proof fn lemma_commands_keep_valid(
    model: ExchangeView,
    requested: Stage,
    name: Seq<char>,
    entries: Seq<EntryView>,
    ballot: Seq<VoteView>,
)
    requires
        valid(model),
    ensures
        spec_transition(model, requested) is Ok ==> valid(
            spec_transition(model, requested)->Ok_0,
        ),
        spec_add_submission(model, name, entries) is Ok ==> valid(
            spec_add_submission(model, name, entries)->Ok_0,
        ),
        spec_delete_submission(model, entries) is Ok ==> valid(
            spec_delete_submission(model, entries)->Ok_0,
        ),
        spec_cast_votes(model, name, ballot) is Ok ==> valid(
            spec_cast_votes(model, name, ballot)->Ok_0,
        ),
        spec_delete_votes(model, name) is Ok ==> valid(spec_delete_votes(model, name)->Ok_0),
{
    crate::assignment::lemma_results_name_the_voters(
        model.submissions,
        model.votes,
        model.user_max,
        model.assignment_factor,
    );
    lemma_put_distinct(
        model.submissions,
        name,
        spec_reconcile(kept_under(model.submissions, name), entries),
    );
    lemma_put_distinct(model.votes, name, ballot);
    lemma_filter_distinct(model.votes, not_named(name));
    crate::reconcile::lemma_stripped_distinct(model.submissions, entries);
    lemma_filter_distinct(
        crate::reconcile::stripped(model.submissions, entries),
        crate::reconcile::holds_something(),
    );
    assert(model.stage == Stage::Submission ==> spec_delete_votes(model, name) is Err);
}

/// Handing in the same sets under the same name a second time changes
/// nothing any more.
pub proof fn lemma_submitting_again(model: ExchangeView, name: Seq<char>, incoming: Seq<EntryView>)
    requires
        valid(model),
        model.stage == Stage::Submission,
    ensures
        spec_add_submission(model, name, incoming) is Ok,
        spec_add_submission(spec_add_submission(model, name, incoming)->Ok_0, name, incoming)
            == spec_add_submission(model, name, incoming),
{
    let kept = kept_under(model.submissions, name);
    let once = spec_reconcile(kept, incoming);
    let rows = put(model.submissions, name, once);
    lemma_put_distinct(model.submissions, name, once);
    crate::reconcile::lemma_reconcile_again(kept, incoming);
    assert(kept_under(rows, name) == once);
    assert(put(rows, name, once) =~= rows);
}

} // verus!
