//! One attempt at a scenario: the hooks before, the steps, the hooks after,
//! and what the attempt comes to.
//!
//! The attempt runs nothing itself. Its caller asks it what to do next,
//! does it, and reports how it went.

use vstd::prelude::*;
use crate::event::{Failure, Outcome};
use crate::step::context::Context;
use crate::step::error::AmbiguousMatchError;
use crate::step::location::Location;

verus! {

/// What an attempt is at.
#[derive(Clone, Copy, Debug, PartialEq, Eq)]
pub enum Phase {
    /// The hooks before the steps.
    Before,
    /// The steps.
    Steps,
    /// The hooks after the steps.
    After,
    /// Nothing is left to do.
    Done,
}

/// What the caller is to do next.
#[derive(Clone, Copy, Debug, PartialEq, Eq)]
pub enum Action {
    /// Run the applicable hook before the steps that has this number.
    Before(usize),
    /// Resolve and run the step that has this number.
    Step(usize),
    /// Run the applicable hook after the steps that has this number.
    After(usize),
    /// The attempt is over, with this outcome.
    Finish(Outcome),
}

/// The state of an attempt at a scenario with `before` applicable hooks
/// before its steps, `steps` steps and `after` applicable hooks after them.
#[derive(Clone, Copy, Debug, PartialEq, Eq)]
pub struct Attempt {
    /// The number of applicable hooks before the steps.
    pub before: usize,
    /// The number of steps.
    pub steps: usize,
    /// The number of applicable hooks after the steps.
    pub after: usize,
    /// What the attempt is at.
    pub phase: Phase,
    /// The number, within the phase, of what is done next.
    pub at: usize,
    /// The number of steps that were run.
    pub executed: usize,
    /// The first failure, if anything has failed.
    pub failure: Option<Failure>,
}

impl Attempt {
    /// The state is one that an attempt can be in.
    pub open spec fn wf(self) -> bool {
        match self.phase {
            Phase::Before => self.at < self.before && self.executed == 0 && self.failure is None,
            Phase::Steps => self.at < self.steps && self.executed == self.at
                && self.failure is None,
            Phase::After => self.at < self.after && self.executed <= self.steps,
            Phase::Done => self.at == self.after && self.executed <= self.steps,
        }
    }

    /// The attempt goes on to the hooks after the steps, or ends if there is
    /// none.
    pub open spec fn to_after(self) -> Self {
        if self.after > 0 {
            Attempt { phase: Phase::After, at: 0, ..self }
        } else {
            Attempt { phase: Phase::Done, at: 0, ..self }
        }
    }

    /// The attempt goes on to the steps, or past them if there is none.
    pub open spec fn to_steps(self) -> Self {
        if self.steps > 0 {
            Attempt { phase: Phase::Steps, at: 0, ..self }
        } else {
            self.to_after()
        }
    }

    /// The state in which an attempt starts.
    pub open spec fn start(before: usize, steps: usize, after: usize) -> Self {
        let fresh = Attempt {
            before,
            steps,
            after,
            phase: Phase::Before,
            at: 0,
            executed: 0,
            failure: None,
        };
        if before > 0 {
            fresh
        } else {
            fresh.to_steps()
        }
    }

    /// What the attempt has come to so far: passed unless something failed.
    pub open spec fn outcome(self) -> Outcome {
        match self.failure {
            Some(failure) => Outcome::Failed(failure),
            None => Outcome::Passed,
        }
    }

    /// What the caller is to do next.
    pub open spec fn action(self) -> Action {
        match self.phase {
            Phase::Before => Action::Before(self.at),
            Phase::Steps => Action::Step(self.at),
            Phase::After => Action::After(self.at),
            Phase::Done => Action::Finish(self.outcome()),
        }
    }

    /// The state after the caller has done what was next and reports
    /// `failure`: `None` where it passed, else why it did not. `cancelled`
    /// says whether the run is cancelled by now.
    ///
    /// A hook before the steps that fails ends the attempt's steps before
    /// the first. A step that fails ends them too. Between two steps a
    /// cancelled run ends them. The hooks after the steps run in every
    /// case, and all of them; the attempt keeps its first failure.
    pub open spec fn recorded(self, failure: Option<Failure>, cancelled: bool) -> Self {
        match self.phase {
            Phase::Before => match failure {
                Some(_) => Attempt { failure, ..self }.to_after(),
                None => if self.at + 1 < self.before {
                    Attempt { at: (self.at + 1) as usize, ..self }
                } else {
                    self.to_steps()
                },
            },
            Phase::Steps => {
                let ran = Attempt { executed: (self.executed + 1) as usize, ..self };
                match failure {
                    Some(_) => Attempt { failure, ..ran }.to_after(),
                    None => if self.at + 1 < self.steps {
                        if cancelled {
                            Attempt { failure: Some(Failure::Cancelled), ..ran }.to_after()
                        } else {
                            Attempt { at: (self.at + 1) as usize, ..ran }
                        }
                    } else {
                        ran.to_after()
                    },
                }
            },
            Phase::After => {
                let kept = Attempt {
                    failure: if self.failure is Some {
                        self.failure
                    } else {
                        failure
                    },
                    ..self
                };
                if self.at + 1 < self.after {
                    Attempt { at: (self.at + 1) as usize, ..kept }
                } else {
                    Attempt { phase: Phase::Done, at: self.after, ..kept }
                }
            },
            Phase::Done => self,
        }
    }

    /// Starts an attempt at a scenario with `before` applicable hooks
    /// before its steps, `steps` steps and `after` applicable hooks after
    /// them.
    pub fn new(before: usize, steps: usize, after: usize) -> (r: Self)
        ensures
            r == Self::start(before, steps, after),
            r.wf(),
    {
        let phase = if before > 0 {
            Phase::Before
        } else if steps > 0 {
            Phase::Steps
        } else if after > 0 {
            Phase::After
        } else {
            Phase::Done
        };
        Attempt { before, steps, after, phase, at: 0, executed: 0, failure: None }
    }

    /// What the caller is to do next.
    pub fn next_action(&self) -> (r: Action)
        ensures
            r == self.action(),
    {
        match self.phase {
            Phase::Before => Action::Before(self.at),
            Phase::Steps => Action::Step(self.at),
            Phase::After => Action::After(self.at),
            Phase::Done => Action::Finish(
                match self.failure {
                    Some(failure) => Outcome::Failed(failure),
                    None => Outcome::Passed,
                },
            ),
        }
    }

    /// Takes note of how what was next went: `failure` is `None` where it
    /// passed, else why it did not; `cancelled` says whether the run is
    /// cancelled by now.
    pub fn record(&mut self, failure: Option<Failure>, cancelled: bool)
        requires
            old(self).wf(),
        ensures
            *final(self) == old(self).recorded(failure, cancelled),
            final(self).wf(),
    {
        match self.phase {
            Phase::Before => {
                if failure.is_some() {
                    self.failure = failure;
                    self.enter_after();
                } else if self.at + 1 < self.before {
                    self.at = self.at + 1;
                } else if self.steps > 0 {
                    self.phase = Phase::Steps;
                    self.at = 0;
                } else {
                    self.enter_after();
                }
            },
            Phase::Steps => {
                self.executed = self.executed + 1;
                if failure.is_some() {
                    self.failure = failure;
                    self.enter_after();
                } else if self.at + 1 < self.steps {
                    if cancelled {
                        self.failure = Some(Failure::Cancelled);
                        self.enter_after();
                    } else {
                        self.at = self.at + 1;
                    }
                } else {
                    self.enter_after();
                }
            },
            Phase::After => {
                if self.failure.is_none() {
                    self.failure = failure;
                }
                if self.at + 1 < self.after {
                    self.at = self.at + 1;
                } else {
                    self.phase = Phase::Done;
                    self.at = self.after;
                }
            },
            Phase::Done => {},
        }
    }

    /// Goes on to the hooks after the steps, or ends the attempt if there
    /// is none.
    fn enter_after(&mut self)
        ensures
            *final(self) == old(self).to_after(),
    {
        self.at = 0;
        if self.after > 0 {
            self.phase = Phase::After;
        } else {
            self.phase = Phase::Done;
        }
    }

    /// Whether the step with this number was run in this attempt; a step
    /// that was not run was skipped, or is yet to come.
    pub fn was_executed(&self, step: usize) -> (r: bool)
        ensures
            r == (step < self.executed),
    {
        step < self.executed
    }
}

/// What the search for a step's definition means for the attempt: no
/// failure where exactly one definition was found, an undefined step where
/// none was, an ambiguous step where several were.
pub open spec fn resolution_of<H>(
    found: Result<
        Option<(&H, Vec<Option<(usize, usize)>>, Option<Location>, Context)>,
        AmbiguousMatchError,
    >,
) -> Option<Failure> {
    match found {
        Ok(Some(_)) => None,
        Ok(None) => Some(Failure::UndefinedStep),
        Err(_) => Some(Failure::AmbiguousStep),
    }
}

/// Decides `resolution_of`.
pub fn resolution<H>(
    found: &Result<
        Option<(&H, Vec<Option<(usize, usize)>>, Option<Location>, Context)>,
        AmbiguousMatchError,
    >,
) -> (r: Option<Failure>)
    ensures
        r == resolution_of(*found),
{
    match found {
        Ok(Some(_)) => None,
        Ok(None) => Some(Failure::UndefinedStep),
        Err(_) => Some(Failure::AmbiguousStep),
    }
}

/// The hooks after the steps are never passed over: whatever is reported,
/// an attempt that is not over cannot end while a hook after the steps is
/// still to run, and from one such hook it goes on to the very next.
pub proof fn lemma_after_hooks_always_run(a: Attempt, failure: Option<Failure>, cancelled: bool)
    requires
        a.wf(),
        a.phase != Phase::Done,
    ensures
        a.recorded(failure, cancelled).wf(),
        a.phase != Phase::After && a.after > 0 ==> a.recorded(failure, cancelled).phase
            != Phase::Done,
        a.phase != Phase::After && a.recorded(failure, cancelled).phase == Phase::After
            ==> a.recorded(failure, cancelled).at == 0,
        a.phase == Phase::After && a.at + 1 < a.after ==> a.recorded(failure, cancelled).phase
            == Phase::After && a.recorded(failure, cancelled).at == a.at + 1,
        a.phase == Phase::After && a.at + 1 == a.after ==> a.recorded(failure, cancelled).phase
            == Phase::Done,
{
}

/// A hook before the steps that fails lets no step run: the attempt goes on
/// to the hooks after the steps, with that failure and no step run, and
/// from there on no step runs any more.
pub proof fn lemma_before_failure_skips_steps(
    a: Attempt,
    failure: Failure,
    cancelled: bool,
    later: Option<Failure>,
    later_cancelled: bool,
)
    requires
        a.wf(),
        a.phase == Phase::Before,
    ensures
        ({
            let b = a.recorded(Some(failure), cancelled);
            let c = b.recorded(later, later_cancelled);
            &&& b.phase == Phase::After || b.phase == Phase::Done
            &&& b.executed == 0
            &&& b.outcome() == Outcome::Failed(failure)
            &&& c.phase == Phase::After || c.phase == Phase::Done
            &&& c.executed == 0
            &&& c.outcome() == Outcome::Failed(failure)
        }),
{
}

/// A step that fails is the last step that runs in the attempt, and its
/// failure is what the attempt comes to.
pub proof fn lemma_step_failure_ends_steps(a: Attempt, failure: Failure, cancelled: bool)
    requires
        a.wf(),
        a.phase == Phase::Steps,
    ensures
        ({
            let b = a.recorded(Some(failure), cancelled);
            &&& b.phase == Phase::After || b.phase == Phase::Done
            &&& b.executed == a.at + 1
            &&& b.outcome() == Outcome::Failed(failure)
        }),
{
}

/// What is left to do gets less with each report: an attempt is over after
/// at most as many reports as it has hooks and steps.
pub open spec fn left_to_do(a: Attempt) -> nat {
    match a.phase {
        Phase::Before => (a.before - a.at + a.steps + a.after) as nat,
        Phase::Steps => (a.steps - a.at + a.after) as nat,
        Phase::After => (a.after - a.at) as nat,
        Phase::Done => 0,
    }
}

/// Every report brings an attempt nearer to its end.
pub proof fn lemma_attempt_ends(a: Attempt, failure: Option<Failure>, cancelled: bool)
    requires
        a.wf(),
        a.phase != Phase::Done,
    ensures
        left_to_do(a.recorded(failure, cancelled)) < left_to_do(a),
{
}

} // verus!
