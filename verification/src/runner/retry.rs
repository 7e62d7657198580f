//! Whether and when a scenario that did not pass is tried again.

use std::time::Duration;
use vstd::prelude::*;
use crate::event::{is_retry_eligible, retry_eligible, Failure, Outcome, Retries};

verus! {

/// The retries granted to a scenario.
#[derive(Clone, Copy, Debug, PartialEq, Eq)]
pub struct RetryOptions {
    /// How many retries were made and are left.
    pub retries: Retries,
    /// How long to wait before a retry, if at all.
    pub after: Option<Duration>,
}

/// The retries granted to a scenario, with the time after which none is
/// started any more. Times are counted in ticks of the caller's clock since
/// the run began.
#[derive(Clone, Copy, Debug, PartialEq, Eq)]
pub struct RetryOptionsWithDeadline {
    /// How many retries were made and are left.
    pub retries: Retries,
    /// How long to wait before a retry, if at all.
    pub after: Option<Duration>,
    /// The tick from which on no retry is started, if there is one.
    pub deadline: Option<u64>,
}

/// What follows an attempt at a scenario.
#[derive(Clone, Copy, Debug, PartialEq, Eq)]
pub enum Verdict {
    /// The scenario is tried again with these options, after waiting as long
    /// as they say.
    Retry(RetryOptionsWithDeadline),
    /// The scenario has ended, in this way.
    Final(Outcome),
}

impl RetryOptions {
    /// The options for the next attempt, if a retry is left.
    #[must_use]
    pub fn next_try(self) -> (r: Option<Self>)
        requires
            self.retries.current + self.retries.left <= usize::MAX,
        ensures
            self.retries.left == 0 ==> r is None,
            self.retries.left > 0 ==> r == Some(
                RetryOptions {
                    retries: Retries {
                        current: (self.retries.current + 1) as usize,
                        left: (self.retries.left - 1) as usize,
                    },
                    after: self.after,
                },
            ),
    {
        match self.retries.next_try() {
            Some(retries) => Some(RetryOptions { retries, after: self.after }),
            None => None,
        }
    }

    /// The same options, with a deadline.
    #[must_use]
    pub fn with_deadline(self, deadline: u64) -> (r: RetryOptionsWithDeadline)
        ensures
            r == (RetryOptionsWithDeadline {
                retries: self.retries,
                after: self.after,
                deadline: Some(deadline),
            }),
    {
        RetryOptionsWithDeadline {
            retries: self.retries,
            after: self.after,
            deadline: Some(deadline),
        }
    }

    /// The same options, without a deadline.
    #[must_use]
    pub fn without_deadline(self) -> (r: RetryOptionsWithDeadline)
        ensures
            r == (RetryOptionsWithDeadline {
                retries: self.retries,
                after: self.after,
                deadline: None,
            }),
    {
        RetryOptionsWithDeadline { retries: self.retries, after: self.after, deadline: None }
    }
}

impl RetryOptionsWithDeadline {
    /// The counts fit the machine: what was retried and what is left make no
    /// more than `usize::MAX` together. Options made from
    /// [`Retries::initial`] are so, and stay so from attempt to attempt.
    pub open spec fn fits(&self) -> bool {
        self.retries.current + self.retries.left <= usize::MAX
    }

    /// The deadline has come at tick `now`.
    pub open spec fn expired(&self, now: u64) -> bool {
        self.deadline matches Some(deadline) && now >= deadline
    }

    /// The options of the attempt after this one.
    pub open spec fn following(&self) -> Self {
        RetryOptionsWithDeadline {
            retries: Retries {
                current: (self.retries.current + 1) as usize,
                left: (self.retries.left - 1) as usize,
            },
            after: self.after,
            deadline: self.deadline,
        }
    }

    /// What follows an attempt that ended with `outcome` at tick `now`.
    ///
    /// An attempt that passed ends the scenario. One that did not is tried
    /// again only if its failure is of a kind that a retry can mend, a retry
    /// is left, and the deadline has not come; the deadline counts for more
    /// than the retries that are left, and the scenario then ends with
    /// `DeadlineExceeded`.
    pub open spec fn verdict(&self, outcome: Outcome, now: u64) -> Verdict {
        match outcome {
            Outcome::Passed => Verdict::Final(Outcome::Passed),
            Outcome::Failed(failure) => if !retry_eligible(failure) || self.retries.left == 0 {
                Verdict::Final(outcome)
            } else if self.expired(now) {
                Verdict::Final(Outcome::Failed(Failure::DeadlineExceeded))
            } else {
                Verdict::Retry(self.following())
            },
        }
    }

    /// Decides what follows an attempt that ended with `outcome` at tick
    /// `now`.
    #[must_use]
    pub fn after_attempt(self, outcome: Outcome, now: u64) -> (r: Verdict)
        requires
            self.fits(),
        ensures
            r == self.verdict(outcome, now),
            r matches Verdict::Retry(next) ==> next.fits(),
    {
        match outcome {
            Outcome::Passed => Verdict::Final(Outcome::Passed),
            Outcome::Failed(failure) => {
                if !is_retry_eligible(failure) {
                    return Verdict::Final(outcome);
                }
                match self.retries.next_try() {
                    None => Verdict::Final(outcome),
                    Some(retries) => {
                        let expired = match self.deadline {
                            Some(deadline) => now >= deadline,
                            None => false,
                        };
                        if expired {
                            Verdict::Final(Outcome::Failed(Failure::DeadlineExceeded))
                        } else {
                            Verdict::Retry(
                                RetryOptionsWithDeadline {
                                    retries,
                                    after: self.after,
                                    deadline: self.deadline,
                                },
                            )
                        }
                    },
                }
            },
        }
    }
}

/// How a scenario goes whose attempts end, one after the other, with the
/// outcomes `attempts`, each at its tick: the number of attempts that are
/// made, and the outcome of the scenario, if the attempts given are enough
/// to reach it.
pub open spec fn settled(options: RetryOptionsWithDeadline, attempts: Seq<(Outcome, u64)>) -> (
    nat,
    Option<Outcome>,
)
    decreases attempts.len(),
{
    if attempts.len() == 0 {
        (0, None)
    } else {
        match options.verdict(attempts[0].0, attempts[0].1) {
            Verdict::Final(outcome) => (1, Some(outcome)),
            Verdict::Retry(next) => {
                let rest = settled(next, attempts.drop_first());
                (rest.0 + 1, rest.1)
            },
        }
    }
}

/// The attempt failed in a way that a retry can mend, before the deadline.
pub open spec fn mendable(options: RetryOptionsWithDeadline, attempt: (Outcome, u64)) -> bool {
    match attempt.0 {
        Outcome::Failed(failure) => retry_eligible(failure) && !options.expired(attempt.1),
        Outcome::Passed => false,
    }
}

/// A scenario whose attempts all fail in a way that a retry can mend, and
/// whose deadline does not come, is tried once and then as often as it has
/// retries, and ends with the failure of its last attempt.
pub proof fn lemma_retries_exhausted(
    options: RetryOptionsWithDeadline,
    attempts: Seq<(Outcome, u64)>,
)
    requires
        options.fits(),
        attempts.len() > options.retries.left,
        forall|i: int| 0 <= i < attempts.len() ==> mendable(options, #[trigger] attempts[i]),
    ensures
        settled(options, attempts) == (
            (options.retries.left + 1) as nat,
            Some(attempts[options.retries.left as int].0),
        ),
    decreases attempts.len(),
{
    let first = attempts[0];
    assert(mendable(options, first));
    if options.retries.left > 0 {
        let next = options.following();
        let rest = attempts.drop_first();
        assert forall|i: int| 0 <= i < rest.len() implies mendable(next, #[trigger] rest[i]) by {
            assert(rest[i] == attempts[i + 1]);
            assert(mendable(options, attempts[i + 1]));
        }
        assert(mendable(options, first));
        lemma_retries_exhausted(next, rest);
        assert(rest[next.retries.left as int] == attempts[options.retries.left as int]);
    }
}

/// An attempt that passes ends the scenario at once, whatever retries are
/// left; so does one that fails in a way that no retry can mend.
pub proof fn lemma_no_retry_without_cause(
    options: RetryOptionsWithDeadline,
    outcome: Outcome,
    now: u64,
)
    requires
        outcome matches Outcome::Failed(failure) ==> !retry_eligible(failure),
    ensures
        options.verdict(outcome, now) == Verdict::Final(outcome),
{
}

/// Once the deadline has come, no retry is started, however many are left.
pub proof fn lemma_deadline_wins(options: RetryOptionsWithDeadline, outcome: Outcome, now: u64)
    requires
        options.expired(now),
    ensures
        options.verdict(outcome, now) is Final,
{
}

} // verus!
