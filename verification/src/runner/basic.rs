//! The settings of a run, and how scenarios are told apart.

use std::time::Duration;
use vstd::prelude::*;
use crate::event::Retries;
use crate::runner::retry::RetryOptionsWithDeadline;
use crate::tag::{applies, applies_to, tag_set, TagExpr};

verus! {

/// Whether a scenario may run beside others.
#[derive(Clone, Copy, Debug, PartialEq, Eq, Hash)]
pub enum ScenarioType {
    /// Runs alone: nothing else runs while it does.
    Serial,
    /// Runs beside other concurrent scenarios.
    Concurrent,
}

/// The number of a scenario in a run: 0 for the first that was admitted, 1
/// for the next, and so on. It is also the scenario's position in the order
/// of results.
#[derive(Clone, Copy, Debug, PartialEq, Eq, Hash, PartialOrd, Ord)]
pub struct ScenarioId(pub u64);

/// The settings of a run. They are fixed before the run starts.
#[derive(Debug)]
pub struct Basic {
    /// How many scenarios may run at once; `None` for as many as there are.
    /// Since one at least must run, 0 counts as 1.
    pub max_concurrent_scenarios: Option<usize>,
    /// How many results may wait for an earlier one before no further
    /// scenario is admitted; `None` for no limit.
    pub max_pending_results: Option<usize>,
    /// Whether the first scenario that fails for good stops the admission of
    /// further scenarios.
    pub fail_fast: bool,
    /// How often a scenario that fails is tried again.
    pub retries: usize,
    /// How long to wait before a retry.
    pub retry_after: Option<Duration>,
    /// The tick of the caller's clock from which on no retry is started.
    pub retry_deadline: Option<u64>,
    /// The rule for the scenarios that run alone; without it none does.
    pub serial: Option<TagExpr>,
    /// The rule for the scenarios that may be retried; without it all may.
    pub retry_filter: Option<TagExpr>,
}

impl Basic {
    /// The number of scenarios that may run at once: what was set, but at
    /// least one; without a setting, as many as can be counted.
    pub open spec fn limit(&self) -> usize {
        match self.max_concurrent_scenarios {
            Some(max) => if max == 0 {
                1
            } else {
                max
            },
            None => usize::MAX,
        }
    }

    /// The kind of a scenario with the tags `tags`: serial where there is a
    /// serial rule and it holds of the tags, concurrent otherwise.
    pub open spec fn kind_of(&self, tags: Set<Seq<char>>) -> ScenarioType {
        match self.serial {
            Some(rule) => if rule.holds(tags) {
                ScenarioType::Serial
            } else {
                ScenarioType::Concurrent
            },
            None => ScenarioType::Concurrent,
        }
    }

    /// The retries granted to a scenario with the tags `tags`: those of
    /// these settings where the retry rule holds of the tags, none where it
    /// does not; the delay and the deadline in either case.
    pub open spec fn retries_for(&self, tags: Set<Seq<char>>) -> RetryOptionsWithDeadline {
        RetryOptionsWithDeadline {
            retries: Retries {
                current: 0,
                left: if applies_to(self.retry_filter, tags) {
                    self.retries
                } else {
                    0
                },
            },
            after: self.retry_after,
            deadline: self.retry_deadline,
        }
    }

    /// Settings for a run of up to 64 scenarios at once, without retries,
    /// that goes on after failures, and in which the scenarios tagged
    /// `serial` run alone.
    pub fn new() -> (r: Self)
        ensures
            r.max_concurrent_scenarios == Some(64usize),
            r.max_pending_results is None,
            !r.fail_fast,
            r.retries == 0,
            r.retry_after is None,
            r.retry_deadline is None,
            r.serial matches Some(TagExpr::Tag(tag)) && tag@ == "serial"@,
            r.retry_filter is None,
    {
        Basic {
            max_concurrent_scenarios: Some(64),
            max_pending_results: None,
            fail_fast: false,
            retries: 0,
            retry_after: None,
            retry_deadline: None,
            serial: Some(TagExpr::Tag("serial".to_owned())),
            retry_filter: None,
        }
    }

    /// Sets how many scenarios may run at once.
    #[must_use]
    pub fn max_concurrent_scenarios(self, max: Option<usize>) -> (r: Self)
        ensures
            r == (Basic { max_concurrent_scenarios: max, ..self }),
    {
        Basic { max_concurrent_scenarios: max, ..self }
    }

    /// Sets how many results may wait for an earlier one before admission
    /// stops.
    #[must_use]
    pub fn max_pending_results(self, max: Option<usize>) -> (r: Self)
        ensures
            r == (Basic { max_pending_results: max, ..self }),
    {
        Basic { max_pending_results: max, ..self }
    }

    /// Makes the first scenario that fails for good stop the admission of
    /// further scenarios.
    #[must_use]
    pub fn fail_fast(self) -> (r: Self)
        ensures
            r == (Basic { fail_fast: true, ..self }),
    {
        Basic { fail_fast: true, ..self }
    }

    /// Sets how often a scenario that fails is tried again.
    #[must_use]
    pub fn retries(self, retries: usize) -> (r: Self)
        ensures
            r == (Basic { retries, ..self }),
    {
        Basic { retries, ..self }
    }

    /// Sets how long to wait before a retry.
    #[must_use]
    pub fn retry_after(self, after: Option<Duration>) -> (r: Self)
        ensures
            r == (Basic { retry_after: after, ..self }),
    {
        Basic { retry_after: after, ..self }
    }

    /// Sets the tick from which on no retry is started.
    #[must_use]
    pub fn retry_deadline(self, deadline: Option<u64>) -> (r: Self)
        ensures
            r == (Basic { retry_deadline: deadline, ..self }),
    {
        Basic { retry_deadline: deadline, ..self }
    }

    /// Sets the rule for the scenarios that may be retried.
    #[must_use]
    pub fn retry_filter(self, rule: Option<TagExpr>) -> (r: Self)
        ensures
            r == (Basic { retry_filter: rule, ..self }),
    {
        Basic { retry_filter: rule, ..self }
    }

    /// Sets the rule for the scenarios that run alone.
    #[must_use]
    pub fn which_scenario(self, rule: Option<TagExpr>) -> (r: Self)
        ensures
            r == (Basic { serial: rule, ..self }),
    {
        Basic { serial: rule, ..self }
    }

    /// The number of scenarios that may run at once.
    pub fn concurrency(&self) -> (r: usize)
        ensures
            r == self.limit(),
            r >= 1,
    {
        match self.max_concurrent_scenarios {
            Some(max) => if max == 0 {
                1
            } else {
                max
            },
            None => usize::MAX,
        }
    }

    /// The kind of a scenario with the tags `tags`.
    pub fn scenario_type(&self, tags: &Vec<String>) -> (r: ScenarioType)
        ensures
            r == self.kind_of(tag_set(tags@)),
    {
        match &self.serial {
            Some(rule) => if rule.eval(tags) {
                ScenarioType::Serial
            } else {
                ScenarioType::Concurrent
            },
            None => ScenarioType::Concurrent,
        }
    }

    /// The retries granted to a scenario with the tags `tags`.
    pub fn retry_options(&self, tags: &Vec<String>) -> (r: RetryOptionsWithDeadline)
        ensures
            r == self.retries_for(tag_set(tags@)),
            r.fits(),
    {
        let left = if applies(&self.retry_filter, tags) {
            self.retries
        } else {
            0
        };
        RetryOptionsWithDeadline {
            retries: Retries::initial(left),
            after: self.retry_after,
            deadline: self.retry_deadline,
        }
    }
}

impl Default for Basic {
    fn default() -> (r: Self)
        ensures
            r.max_concurrent_scenarios == Some(64usize),
            r.max_pending_results is None,
            !r.fail_fast,
            r.retries == 0,
            r.retry_after is None,
            r.retry_deadline is None,
            r.serial matches Some(TagExpr::Tag(tag)) && tag@ == "serial"@,
            r.retry_filter is None,
    {
        Basic::new()
    }
}

impl Clone for Basic {
    fn clone(&self) -> (r: Self)
        ensures
            r == *self,
    {
        Basic {
            max_concurrent_scenarios: self.max_concurrent_scenarios,
            max_pending_results: self.max_pending_results,
            fail_fast: self.fail_fast,
            retries: self.retries,
            retry_after: self.retry_after,
            retry_deadline: self.retry_deadline,
            serial: match &self.serial {
                Some(rule) => Some(rule.clone()),
                None => None,
            },
            retry_filter: match &self.retry_filter {
                Some(rule) => Some(rule.clone()),
                None => None,
            },
        }
    }
}

} // verus!
