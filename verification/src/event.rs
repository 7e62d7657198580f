//! What is reported of scenarios: how attempts end, and how often a scenario
//! has been and may still be tried.

use vstd::prelude::*;

verus! {

/// How many times a scenario has been retried, and how many retries are left
/// to it.
#[derive(Clone, Copy, Debug, PartialEq, Eq, Hash)]
pub struct Retries {
    /// The number of the current retry; 0 for the first attempt.
    pub current: usize,
    /// The number of retries left.
    pub left: usize,
}

impl Retries {
    /// The count at the first attempt, with `left` retries to come.
    #[must_use]
    pub fn initial(left: usize) -> (r: Self)
        ensures
            r.current == 0,
            r.left == left,
    {
        Retries { left, current: 0 }
    }

    /// The count at the next attempt, if a retry is left: one retry less to
    /// come, one more made.
    #[must_use]
    pub fn next_try(self) -> (r: Option<Self>)
        requires
            self.current + self.left <= usize::MAX,
        ensures
            self.left == 0 ==> r is None,
            self.left > 0 ==> r == Some(
                Retries { current: (self.current + 1) as usize, left: (self.left - 1) as usize },
            ),
    {
        if self.left == 0 {
            None
        } else {
            Some(Retries { left: self.left - 1, current: self.current + 1 })
        }
    }
}

/// Why an attempt at a scenario did not pass.
#[derive(Clone, Copy, Debug, PartialEq, Eq, Hash)]
pub enum Failure {
    /// No definition matches a step.
    UndefinedStep,
    /// More than one definition matches a step.
    AmbiguousStep,
    /// A handler or a hook signalled failure.
    HandlerFailure,
    /// Time ran out: for the attempt, or for retrying it.
    DeadlineExceeded,
    /// The run was cancelled.
    Cancelled,
}

/// How an attempt at a scenario, or the scenario itself, ended.
#[derive(Clone, Copy, Debug, PartialEq, Eq, Hash)]
pub enum Outcome {
    /// Every hook and step passed.
    Passed,
    /// Something did not pass.
    Failed(Failure),
}

/// How a whole run ended.
#[derive(Clone, Copy, Debug, PartialEq, Eq, Hash)]
pub enum RunOutcome {
    /// Every scenario ran and passed.
    Passed,
    /// Some scenario did not pass in the end.
    Failed,
    /// The run was cancelled before every scenario had run.
    Incomplete,
}

/// Whether a failure of this kind may go away when the scenario is tried
/// again. A step without a definition, or with several, is a defect of the
/// suite; a cancelled run is not to go on.
pub open spec fn retry_eligible(failure: Failure) -> bool {
    failure == Failure::HandlerFailure || failure == Failure::DeadlineExceeded
}

/// Decides `retry_eligible`.
pub fn is_retry_eligible(failure: Failure) -> (r: bool)
    ensures
        r == retry_eligible(failure),
{
    match failure {
        Failure::HandlerFailure => true,
        Failure::DeadlineExceeded => true,
        _ => false,
    }
}

} // verus!
