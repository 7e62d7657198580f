//! How scenarios are run: retries, admission under the concurrency rules, and
//! the reordering of results into declaration order.

pub mod attempt;
pub mod backlog;
pub mod basic;
pub mod ordering;
pub mod retry;
pub mod scheduler;

pub use self::attempt::{Action, Attempt, Phase};
pub use self::basic::{Basic, ScenarioId, ScenarioType};
pub use self::ordering::OrderingBuffer;
pub use self::retry::{RetryOptions, RetryOptionsWithDeadline, Verdict};
pub use self::scheduler::{Admission, Scheduler};
