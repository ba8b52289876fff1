//! The sweep engine as a state machine.
//!
//! A sweep walks the resolution cursor from the configured start towards
//! the end, one round per step. The unverified shell performs each
//! round's outside work - starting the resolution-setter, waiting the
//! settle delay, running the sampler, killing stray setters - and hands
//! the round's outcome back; every decision about what that outcome
//! means for the sweep is made here.
//!
//! Rounds run strictly in ascending resolution order. A sampler failure
//! or an unparsable output aborts the sweep at once; a degenerate sample
//! (a zero mean or a zero deviation) only drops its round from the
//! record; a round whose resolution-setter merely failed to start still
//! measures and still counts.

use vstd::prelude::*;
use crate::params::SweepParameters;
use crate::measurement::MeasurementSample;
use crate::measurement::ParseError;
use crate::store::ResultRecord;
use vstd::arithmetic::div_mod::lemma_fundamental_div_mod_converse;

verus! {

/// Where a sweep stands.
#[derive(Clone, Copy, Debug, PartialEq, Eq, Structural)]
pub enum SweepStatus {
    /// Rounds are still owed.
    Running,
    /// The cursor has passed the end; every round was attempted.
    Complete,
    /// A fatal round error stopped the sweep early.
    Aborted,
}

/// What the shell is to do next.
#[derive(Clone, Copy, Debug, PartialEq, Eq, Structural)]
pub enum RoundAction {
    /// Run one round: set this resolution, settle, then sample this
    /// many times.
    Measure { resolution_ticks: u64, samples: i32 },
    /// Nothing is left to run.
    Done,
}

/// What one round's outside work came to.
#[derive(Clone, Copy, Debug, PartialEq, Eq, Structural)]
pub enum RoundOutcome {
    /// The sampler ran and its output parsed.
    Measured(MeasurementSample),
    /// The sampler could not be run or its output not captured. Fatal.
    SamplerFailed,
    /// The sampler's output did not parse. Fatal.
    OutputUnparsable(ParseError),
}

/// What the engine did with one round's outcome.
#[derive(Clone, Copy, Debug, PartialEq, Eq, Structural)]
pub enum RoundDisposition {
    /// The sample was valid; this record was appended and must now be
    /// persisted.
    Recorded(ResultRecord),
    /// The sample was degenerate (a zero field); the round is dropped
    /// and the sweep goes on.
    Degenerate,
    /// The outcome was fatal; the sweep is aborted.
    Fatal,
}

/// A sweep in progress: the immutable parameters, the cursor, and what
/// has been recorded so far.
pub struct SweepState {
    pub params: SweepParameters,
    pub current_ticks: u64,
    pub rounds_done: u64,
    pub records: Vec<ResultRecord>,
    pub status: SweepStatus,
}

impl SweepState {
    /// The state invariant: the cursor always stands exactly
    /// `rounds_done` increments past the start, a running sweep's cursor
    /// has not passed the end, a complete sweep's cursor has just passed
    /// it, and the records climb strictly in resolution, each below the
    /// cursor.
    pub open spec fn wf(self) -> bool {
        &&& self.params.wf()
        &&& self.current_ticks == self.params.start_ticks + self.rounds_done
            * self.params.increment_ticks
        &&& (self.status is Running ==> self.current_ticks <= self.params.end_ticks)
        &&& (self.status is Complete ==> {
            &&& self.rounds_done >= 1
            &&& self.current_ticks > self.params.end_ticks
            &&& self.current_ticks - self.params.increment_ticks <= self.params.end_ticks
        })
        &&& (self.status is Aborted ==> self.current_ticks <= self.params.end_ticks)
        &&& forall|i: int|
            0 <= i < self.records@.len() ==> #[trigger] self.records@[i].resolution_ticks
                < self.current_ticks
        &&& forall|i: int, j: int|
            0 <= i < j < self.records@.len() ==> self.records@[i].resolution_ticks
                < self.records@[j].resolution_ticks
    }

    /// Opens a sweep at the configured start.
    pub fn begin(params: SweepParameters) -> (s: SweepState)
        requires
            params.wf(),
        ensures
            s.wf(),
            s.params == params,
            s.status is Running,
            s.rounds_done == 0,
            s.current_ticks == params.start_ticks,
            s.records@ == Seq::<ResultRecord>::empty(),
    {
        let s = SweepState {
            params,
            current_ticks: params.start_ticks,
            rounds_done: 0,
            records: Vec::new(),
            status: SweepStatus::Running,
        };
        proof {
            assert(s.current_ticks == params.start_ticks + 0 * params.increment_ticks);
        }
        s
    }

    /// What to do next: measure at the cursor while the sweep runs,
    /// nothing once it is complete or aborted.
    pub fn next_action(&self) -> (a: RoundAction)
        requires
            self.wf(),
        ensures
            self.status is Running ==> a == (RoundAction::Measure {
                resolution_ticks: self.current_ticks,
                samples: self.params.samples,
            }),
            !(self.status is Running) ==> a is Done,
    {
        match self.status {
            SweepStatus::Running => RoundAction::Measure {
                resolution_ticks: self.current_ticks,
                samples: self.params.samples,
            },
            _ => RoundAction::Done,
        }
    }

    /// Takes one round's outcome. A fatal outcome aborts on the spot:
    /// nothing is recorded, the cursor stays, and no round follows. A
    /// valid sample is appended as a record at the cursor's resolution;
    /// a degenerate one is dropped; either way the cursor advances one
    /// increment and the sweep completes once it passes the end.
    pub fn apply_round(&mut self, outcome: RoundOutcome) -> (d: RoundDisposition)
        requires
            old(self).wf(),
            old(self).status is Running,
        ensures
            final(self).wf(),
            final(self).params == old(self).params,
            match outcome {
                RoundOutcome::Measured(m) => {
                    &&& (m.mean_ticks > 0 && m.stdev_ticks > 0) ==> {
                        &&& d == RoundDisposition::Recorded(
                            ResultRecord {
                                resolution_ticks: old(self).current_ticks,
                                delta_ticks: m.mean_ticks,
                                stdev_ticks: m.stdev_ticks,
                            },
                        )
                        &&& final(self).records@ == old(self).records@.push(
                            ResultRecord {
                                resolution_ticks: old(self).current_ticks,
                                delta_ticks: m.mean_ticks,
                                stdev_ticks: m.stdev_ticks,
                            },
                        )
                    }
                    &&& (m.mean_ticks == 0 || m.stdev_ticks == 0) ==> d
                        == RoundDisposition::Degenerate && final(self).records@ == old(
                        self,
                    ).records@
                    &&& final(self).rounds_done == old(self).rounds_done + 1
                    &&& final(self).current_ticks == old(self).current_ticks + old(
                        self,
                    ).params.increment_ticks
                    &&& final(self).status == (if final(self).current_ticks <= old(
                        self,
                    ).params.end_ticks {
                        SweepStatus::Running
                    } else {
                        SweepStatus::Complete
                    })
                },
                _ => {
                    &&& d == RoundDisposition::Fatal
                    &&& final(self).status is Aborted
                    &&& final(self).records@ == old(self).records@
                    &&& final(self).rounds_done == old(self).rounds_done
                    &&& final(self).current_ticks == old(self).current_ticks
                },
            },
    {
        match outcome {
            RoundOutcome::Measured(m) => {
                let d = if m.mean_ticks > 0 && m.stdev_ticks > 0 {
                    let rec = ResultRecord {
                        resolution_ticks: self.current_ticks,
                        delta_ticks: m.mean_ticks,
                        stdev_ticks: m.stdev_ticks,
                    };
                    self.records.push(rec);
                    RoundDisposition::Recorded(rec)
                } else {
                    RoundDisposition::Degenerate
                };
                proof {
                    let rd = old(self).rounds_done as int;
                    let inc = old(self).params.increment_ticks as int;
                    assert(rd * inc >= 0);
                    assert((rd + 1) * inc == rd * inc + inc) by (nonlinear_arith);
                    assert(rd <= rd * inc) by (nonlinear_arith)
                        requires
                            rd >= 0,
                            inc >= 1,
                    ;
                    assert(old(self).params.start_ticks + rd * inc <= old(
                        self,
                    ).params.end_ticks);
                    assert(rd < u64::MAX as int);
                }
                self.current_ticks = self.current_ticks + self.params.increment_ticks;
                self.rounds_done = self.rounds_done + 1;
                if self.current_ticks > self.params.end_ticks {
                    self.status = SweepStatus::Complete;
                }
                d
            },
            _ => {
                self.status = SweepStatus::Aborted;
                RoundDisposition::Fatal
            },
        }
    }
}

/// Law: a sweep that ran to completion attempted exactly
/// `floor((end - start) / increment) + 1` rounds - with an exact
/// integer cursor there is no drift, and the final point at the end of
/// the range is always evaluated.
pub proof fn lemma_complete_round_count(s: SweepState)
    requires
        s.wf(),
        s.status is Complete,
    ensures
        s.rounds_done == s.params.spec_planned_rounds(),
{
    let start = s.params.start_ticks as int;
    let inc = s.params.increment_ticks as int;
    let end = s.params.end_ticks as int;
    let n = s.rounds_done as int;
    let span = end - start;
    assert(start + n * inc > end);
    assert(start + n * inc - inc <= end);
    assert((n - 1) * inc == n * inc - inc) by (nonlinear_arith);
    assert(span == (n - 1) * inc + (span - (n - 1) * inc));
    assert(0 <= span - (n - 1) * inc < inc);
    lemma_fundamental_div_mod_converse(span, inc, n - 1, span - (n - 1) * inc);
    assert(span / inc == n - 1);
}

} // verus!
