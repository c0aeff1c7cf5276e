//! The submission pipeline: processes units strictly in sequence, recording
//! one tagged result per unit. The network round trip itself happens outside;
//! the pipeline decides which unit is next and records what came back, so a
//! failed unit never prevents the remaining units from being attempted.
use vstd::prelude::*;

use crate::BATCH_SIZE;
use crate::batch::{BatchUnit, build_batches, chunked, units_models};
use crate::controller::Session;
use crate::directory::selected_models;
use crate::errors::SweepError;

verus! {

/// What the ledger reported for one dispatched unit.
#[derive(Debug)]
pub enum UnitOutcome {
    /// The unit was confirmed; the ledger's signature text.
    Confirmed { signature: Vec<u8> },
    /// Dispatch or confirmation failed; the cause, as text.
    Failed { cause: Vec<u8> },
}

/// The result recorded for one unit, tagged with the unit's index.
#[derive(Debug)]
pub struct SubmissionResult {
    pub unit_index: usize,
    pub outcome: UnitOutcome,
}

impl SubmissionResult {
    /// The per-unit error a failed result surfaces to the caller: the unit's
    /// index together with the cause; nothing for a confirmed unit.
    pub fn to_error(&self) -> (e: Option<SweepError>)
        ensures
            (e is Some) == (self.outcome is Failed),
            self.outcome matches UnitOutcome::Failed { cause } ==> (e matches Some(
                SweepError::Submission { unit_index, cause: c },
            ) && unit_index == self.unit_index && c@ == cause@),
    {
        match &self.outcome {
            UnitOutcome::Failed { cause } => Some(
                SweepError::Submission {
                    unit_index: self.unit_index,
                    cause: crate::record::clone_bytes(cause),
                },
            ),
            UnitOutcome::Confirmed { .. } => None,
        }
    }
}

/// The results sequence determined by a sequence of outcomes: entry `i` is
/// outcome `i` tagged with index `i`.
pub open spec fn results_of(outcomes: Seq<UnitOutcome>) -> Seq<SubmissionResult> {
    Seq::new(
        outcomes.len(),
        |i: int| (SubmissionResult { unit_index: i as usize, outcome: outcomes[i] }),
    )
}

/// The outcomes recorded in a results sequence.
pub open spec fn outcomes_of(results: Seq<SubmissionResult>) -> Seq<UnitOutcome> {
    results.map_values(|r: SubmissionResult| r.outcome)
}

/// Law: each unit's recorded result is a function of that unit's own outcome
/// alone — two runs that agree on unit `k`'s outcome record the same result
/// for unit `k`, whatever happened to any other unit.
pub proof fn lemma_results_independent(a: Seq<UnitOutcome>, b: Seq<UnitOutcome>, k: int)
    requires
        0 <= k < a.len(),
        0 <= k < b.len(),
        a[k] == b[k],
    ensures
        results_of(a)[k] == results_of(b)[k],
{
}

/// The in-flight state of one submission run.
#[derive(Debug)]
pub struct Pipeline {
    /// The units to submit, in order.
    pub units: Vec<BatchUnit>,
    /// The index of the next unit to dispatch.
    pub next_unit: usize,
    /// One result per already-processed unit, in unit order.
    pub results: Vec<SubmissionResult>,
}

impl Pipeline {
    /// The pipeline's invariant: exactly the units before `next_unit` have a
    /// result, and each result is tagged with its own unit's index.
    pub open spec fn wf(self) -> bool {
        &&& self.next_unit == self.results@.len()
        &&& self.next_unit <= self.units@.len()
        &&& forall|i: int|
            0 <= i < self.results@.len() ==> (#[trigger] self.results@[i]).unit_index == i
    }

    /// A run over the given units, with nothing dispatched yet.
    pub fn start(units: Vec<BatchUnit>) -> (r: Pipeline)
        ensures
            r.wf(),
            r.units == units,
            r.next_unit == 0,
            r.results@ == Seq::<SubmissionResult>::empty(),
    {
        let p = Pipeline { units, next_unit: 0, results: Vec::new() };
        proof {
            assert(p.results@ =~= Seq::<SubmissionResult>::empty());
        }
        p
    }

    /// Whether every unit has been processed.
    pub fn done(&self) -> (r: bool)
        ensures
            r == (self.next_unit == self.units@.len()),
    {
        self.next_unit == self.units.len()
    }

    /// The index of the next unit to dispatch, or none when the run is done.
    pub fn next_index(&self) -> (r: Option<usize>)
        requires
            self.wf(),
        ensures
            r == (if self.next_unit < self.units@.len() {
                Some(self.next_unit)
            } else {
                None::<usize>
            }),
    {
        if self.next_unit < self.units.len() {
            Some(self.next_unit)
        } else {
            None
        }
    }

    /// Records what the ledger reported for the unit just dispatched and
    /// moves on to the next one. The result is tagged with the unit's index
    /// and appended whatever the outcome was: a failure neither rolls back
    /// earlier results nor stops later units from being attempted.
    pub fn record_outcome(&mut self, outcome: UnitOutcome)
        requires
            old(self).wf(),
            old(self).next_unit < old(self).units@.len(),
        ensures
            final(self).wf(),
            final(self).units == old(self).units,
            final(self).next_unit == old(self).next_unit + 1,
            final(self).results@ == old(self).results@.push(
                (SubmissionResult { unit_index: old(self).next_unit, outcome }),
            ),
    {
        let bound = self.units.len();
        let index = self.next_unit;
        proof {
            assert(index < bound);
        }
        self.results.push(SubmissionResult { unit_index: index, outcome });
        self.next_unit = index + 1;
    }

    /// Law: in a well-formed pipeline the recorded results are exactly the
    /// recorded outcomes, each tagged with its own unit's index.
    pub proof fn lemma_results_are_tagged(self)
        requires
            self.wf(),
        ensures
            self.results@ == results_of(outcomes_of(self.results@)),
    {
        assert(self.results@ =~= results_of(outcomes_of(self.results@)));
    }
}

impl Session {
    /// Builds the submission run for the currently selected records:
    /// partitions them into units of at most `BATCH_SIZE` in directory
    /// order, or reports an empty selection — in which case nothing is
    /// dispatched and no result is ever produced.
    pub fn request_processing(&self) -> (r: Result<Pipeline, SweepError>)
        ensures
            (r is Err) == (selected_models(self.directory@).len() == 0),
            r is Err ==> r == Err::<Pipeline, SweepError>(SweepError::EmptySelection),
            r is Ok ==> {
                let p = r.unwrap();
                &&& p.wf()
                &&& p.next_unit == 0
                &&& p.results@ == Seq::<SubmissionResult>::empty()
                &&& units_models(p.units@) == chunked(
                    selected_models(self.directory@),
                    BATCH_SIZE as int,
                )
            },
    {
        let selected = self.selected_records();
        match build_batches(selected) {
            Err(e) => Err(e),
            Ok(units) => Ok(Pipeline::start(units)),
        }
    }
}

} // verus!
