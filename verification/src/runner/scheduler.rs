//! The scheduler: which scenario is admitted when, under the limit on
//! scenarios that run at once, the rule that a serial scenario runs alone,
//! fail-fast, cancellation and the limit on results that wait.
//!
//! The scheduler runs nothing itself. Its caller asks it whether the next
//! scenario of the backlog may start, runs what was admitted, and tells it
//! how each scenario ended; the scheduler hands back the results that can be
//! reported, in the order in which the scenarios were declared.

use vstd::prelude::*;
use crate::event::{Failure, Outcome, RunOutcome};
use crate::runner::basic::{Basic, ScenarioId, ScenarioType};
use crate::runner::ordering::{accepts, is_run, lemma_run_exists, lemma_run_unique, run_items, run_of, without_below, OrderingBuffer};

verus! {

/// The answer to a request for admission.
#[derive(Clone, Copy, Debug, PartialEq, Eq)]
pub enum Admission {
    /// The next scenario of the backlog starts now, under this number and
    /// of this kind.
    Admitted(ScenarioId, ScenarioType),
    /// Nothing can start before a running scenario has ended.
    Wait,
    /// Nothing is left to start and nothing runs: the run is over.
    Finished,
}

/// The state of a run, as the rules of admission see it.
pub struct Schedule<T> {
    /// How many scenarios may run at once.
    pub limit: usize,
    /// Whether a scenario that fails stops further admission.
    pub fail_fast: bool,
    /// How many results may wait before admission stops.
    pub watermark: Option<usize>,
    /// The kinds of all scenarios, in the order of declaration.
    pub backlog: Seq<ScenarioType>,
    /// How many scenarios of the backlog have been admitted.
    pub admitted: nat,
    /// The scenarios that run, in the order of admission.
    pub running: Seq<(ScenarioId, ScenarioType)>,
    /// Some scenario did not pass in the end.
    pub failed: bool,
    /// The run was cancelled.
    pub cancelled: bool,
    /// Some scenario ended because the run was cancelled.
    pub aborted: bool,
    /// The position whose result is reported next.
    pub next: u64,
    /// The results that wait for an earlier one, by position.
    pub pending: Map<u64, T>,
}

impl<T> Schedule<T> {
    /// The scenario `id` runs.
    pub open spec fn is_running(self, id: ScenarioId) -> bool {
        exists|i: int| 0 <= i < self.running.len() && (#[trigger] self.running[i]).0 == id
    }

    /// A serial scenario runs.
    pub open spec fn serial_running(self) -> bool {
        exists|i: int|
            0 <= i < self.running.len() && (#[trigger] self.running[i]).1 == ScenarioType::Serial
    }

    /// The state is one that a run can be in.
    ///
    /// No more scenarios run than the limit allows. A serial scenario that
    /// runs is the only one that runs. Every scenario that was admitted has
    /// had its result reported, or its result waits, or it runs, and only
    /// one of these.
    pub open spec fn inv(self) -> bool {
        &&& 1 <= self.limit
        &&& self.running.len() <= self.limit
        &&& forall|i: int|
            0 <= i < self.running.len() && (#[trigger] self.running[i]).1 == ScenarioType::Serial
                ==> self.running.len() == 1
        &&& self.admitted <= self.backlog.len() <= usize::MAX
        &&& self.next <= self.admitted
        &&& forall|i: int, j: int|
            0 <= i < j < self.running.len() ==> (#[trigger] self.running[i]).0 != (
            #[trigger] self.running[j]).0
        &&& forall|i: int|
            0 <= i < self.running.len() ==> {
                &&& self.next <= (#[trigger] self.running[i]).0.0 < self.admitted
                &&& !self.pending.contains_key(self.running[i].0.0)
                &&& self.running[i].1 == self.backlog[self.running[i].0.0 as int]
            }
        &&& self.pending.dom().finite()
        &&& forall|k: u64| #[trigger] self.pending.contains_key(k) ==> self.next < k < self.admitted
        &&& forall|p: u64|
            self.next <= p < self.admitted ==> #[trigger] self.pending.contains_key(p)
                || self.is_running(ScenarioId(p))
    }

    /// No further scenario is admitted: the run was cancelled, or it stops
    /// at the first failure and a scenario has failed.
    pub open spec fn stopped(self) -> bool {
        self.cancelled || (self.fail_fast && self.failed)
    }

    /// More results wait for an earlier one than may.
    pub open spec fn saturated(self) -> bool {
        self.watermark matches Some(most) && self.pending.dom().len() > most
    }

    /// A scenario of kind `ty` can start beside what runs: a serial one only
    /// when nothing runs, a concurrent one when no serial one runs and the
    /// limit is not reached.
    pub open spec fn room_for(self, ty: ScenarioType) -> bool {
        match ty {
            ScenarioType::Serial => self.running.len() == 0,
            ScenarioType::Concurrent => self.running.len() < self.limit && !self.serial_running(),
        }
    }

    /// The answer to a request for admission in this state.
    pub open spec fn admission(self) -> Admission {
        if self.stopped() || self.admitted >= self.backlog.len() {
            if self.running.len() == 0 {
                Admission::Finished
            } else {
                Admission::Wait
            }
        } else if self.saturated() || !self.room_for(self.backlog[self.admitted as int]) {
            Admission::Wait
        } else {
            Admission::Admitted(
                ScenarioId(self.admitted as u64),
                self.backlog[self.admitted as int],
            )
        }
    }

    /// The state after a request for admission.
    pub open spec fn after_admission(self) -> Self {
        match self.admission() {
            Admission::Admitted(id, ty) => Schedule {
                admitted: self.admitted + 1,
                running: self.running.push((id, ty)),
                ..self
            },
            _ => self,
        }
    }

    /// Where in the list of running scenarios `id` stands.
    pub open spec fn index_of(self, id: ScenarioId) -> int {
        choose|i: int| 0 <= i < self.running.len() && (#[trigger] self.running[i]).0 == id
    }

    /// The state after the running scenario `id` has ended with `outcome`
    /// and the result `item`.
    pub open spec fn after_finish(self, id: ScenarioId, outcome: Outcome, item: T) -> Self {
        let filled = self.pending.insert(id.0, item);
        let upto = (self.next + run_of(filled, self.next)) as u64;
        Schedule {
            running: self.running.remove(self.index_of(id)),
            failed: self.failed || outcome != Outcome::Passed,
            aborted: self.aborted || outcome == Outcome::Failed(Failure::Cancelled),
            next: upto,
            pending: without_below(filled, upto),
            ..self
        }
    }

    /// The results that are reported when the running scenario `id` ends
    /// with the result `item`: those from the next position on, as far as
    /// they are there without a gap.
    pub open spec fn released_by(self, id: ScenarioId, item: T) -> Seq<(u64, T)> {
        let filled = self.pending.insert(id.0, item);
        run_items(filled, self.next, run_of(filled, self.next))
    }

    /// The state after the run was cancelled.
    pub open spec fn after_cancel(self) -> Self {
        Schedule { cancelled: true, ..self }
    }

    /// How the run has ended, or would end if it ended now: incomplete
    /// where cancellation kept a scenario from running or from ending,
    /// else failed where a scenario did not pass, else passed.
    pub open spec fn outcome(self) -> RunOutcome {
        if self.cancelled && (self.admitted < self.backlog.len() || self.aborted) {
            RunOutcome::Incomplete
        } else if self.failed {
            RunOutcome::Failed
        } else {
            RunOutcome::Passed
        }
    }
}

/// A request for admission leaves the state one that a run can be in.
pub proof fn lemma_admission_keeps_inv<T>(s: Schedule<T>)
    requires
        s.inv(),
    ensures
        s.after_admission().inv(),
{
    let t = s.after_admission();
    match s.admission() {
        Admission::Admitted(id, ty) => {
            let last = s.running.len() as int;
            assert(t.running[last] == (id, ty));
            assert forall|i: int| 0 <= i < last implies #[trigger] t.running[i] == s.running[i] by {}
            assert forall|i: int|
                0 <= i < t.running.len() && (#[trigger] t.running[i]).1
                    == ScenarioType::Serial implies t.running.len() == 1 by {
                if i < last {
                    assert(s.running[i].1 == ScenarioType::Serial);
                    assert(s.serial_running());
                }
            }
            assert forall|i: int, j: int| 0 <= i < j < t.running.len() implies (
            #[trigger] t.running[i]).0 != (#[trigger] t.running[j]).0 by {
                if j == last {
                    assert(s.running[i].0.0 < s.admitted);
                }
            }
            assert forall|p: u64| t.next <= p < t.admitted implies #[trigger] t.pending.contains_key(
                p,
            ) || t.is_running(ScenarioId(p)) by {
                if p < s.admitted {
                    if !s.pending.contains_key(p) {
                        let i = s.index_of(ScenarioId(p));
                        assert(t.running[i].0 == ScenarioId(p));
                    }
                } else {
                    assert(t.running[last].0 == ScenarioId(p));
                }
            }
        },
        _ => {},
    }
}

/// The end of a running scenario leaves the state one that a run can be in,
/// and the results it lets go are those from the next position on.
pub proof fn lemma_finish_keeps_inv<T>(s: Schedule<T>, id: ScenarioId, outcome: Outcome, item: T)
    requires
        s.inv(),
        s.is_running(id),
    ensures
        s.after_finish(id, outcome, item).inv(),
        accepts(s.pending, s.next, id.0),
        is_run(s.pending.insert(id.0, item), s.next, run_of(s.pending.insert(id.0, item), s.next)),
{
    let at = s.index_of(id);
    let filled = s.pending.insert(id.0, item);
    assert(s.running[at].0 == id);
    lemma_run_exists(filled, s.next);
    let n = run_of(filled, s.next);
    let upto = (s.next + n) as u64;
    let t = s.after_finish(id, outcome, item);
    assert(upto <= s.admitted) by {
        if n > 0 {
            assert(filled.contains_key((s.next + n - 1) as u64));
        }
    }
    assert forall|i: int| 0 <= i < t.running.len() implies #[trigger] t.running[i] == s.running[if i
        < at {
        i
    } else {
        i + 1
    }] by {}
    assert forall|i: int, j: int| 0 <= i < j < t.running.len() implies (#[trigger] t.running[i]).0
        != (#[trigger] t.running[j]).0 by {
        let a = if i < at {
            i
        } else {
            i + 1
        };
        let b = if j < at {
            j
        } else {
            j + 1
        };
        assert(s.running[a].0 != s.running[b].0);
    }
    assert forall|i: int| 0 <= i < t.running.len() implies {
        &&& t.next <= (#[trigger] t.running[i]).0.0 < t.admitted
        &&& !t.pending.contains_key(t.running[i].0.0)
        &&& t.running[i].1 == t.backlog[t.running[i].0.0 as int]
    } by {
        let a = if i < at {
            i
        } else {
            i + 1
        };
        let r = s.running[a].0.0;
        if a < at {
            assert(s.running[a].0 != s.running[at].0);
        } else {
            assert(s.running[at].0 != s.running[a].0);
        }
        assert(!filled.contains_key(r));
        if r < upto {
            assert(filled.contains_key(r));
        }
    }
    assert(t.pending.dom().finite()) by {
        assert(t.pending.dom().subset_of(filled.dom()));
        vstd::set_lib::lemma_len_subset(t.pending.dom(), filled.dom());
    }
    assert forall|k: u64| #[trigger] t.pending.contains_key(k) implies t.next < k < t.admitted by {
        assert(filled.contains_key(k));
    }
    assert forall|p: u64| t.next <= p < t.admitted implies #[trigger] t.pending.contains_key(p)
        || t.is_running(ScenarioId(p)) by {
        if !filled.contains_key(p) {
            assert(s.is_running(ScenarioId(p)));
            let i = s.index_of(ScenarioId(p));
            assert(i != at);
            let j = if i < at {
                i
            } else {
                i - 1
            };
            assert(t.running[j].0 == ScenarioId(p));
        }
    }
    assert forall|i: int|
        0 <= i < t.running.len() && (#[trigger] t.running[i]).1
            == ScenarioType::Serial implies t.running.len() == 1 by {
        let a = if i < at {
            i
        } else {
            i + 1
        };
        assert(s.running[a].1 == ScenarioType::Serial);
    }
}

/// Cancellation leaves the state one that a run can be in.
pub proof fn lemma_cancel_keeps_inv<T>(s: Schedule<T>)
    requires
        s.inv(),
    ensures
        s.after_cancel().inv(),
{
    let t = s.after_cancel();
    assert forall|p: u64| t.next <= p < t.admitted implies #[trigger] t.pending.contains_key(p)
        || t.is_running(ScenarioId(p)) by {
        if !s.pending.contains_key(p) {
            let i = s.index_of(ScenarioId(p));
            assert(t.running[i].0 == ScenarioId(p));
        }
    }
}

/// What can happen to a run.
pub enum Happening<T> {
    /// The caller asks for admission.
    Request,
    /// A scenario ends with an outcome and a result.
    End(ScenarioId, Outcome, T),
    /// The run is cancelled.
    Cancel,
}

/// The state after `what` has happened in the state `s`. The end of a
/// scenario that does not run changes nothing.
pub open spec fn step<T>(s: Schedule<T>, what: Happening<T>) -> Schedule<T> {
    match what {
        Happening::Request => s.after_admission(),
        Happening::End(id, outcome, item) => if s.is_running(id) {
            s.after_finish(id, outcome, item)
        } else {
            s
        },
        Happening::Cancel => s.after_cancel(),
    }
}

/// The state after all of `history` has happened, from the state `s` on.
pub open spec fn run<T>(s: Schedule<T>, history: Seq<Happening<T>>) -> Schedule<T>
    decreases history.len(),
{
    if history.len() == 0 {
        s
    } else {
        step(run(s, history.drop_last()), history.last())
    }
}

/// Whatever happens, the state stays one that a run can be in, and the
/// settings and the backlog stay what they were.
pub proof fn lemma_run_keeps_inv<T>(s: Schedule<T>, history: Seq<Happening<T>>)
    requires
        s.inv(),
    ensures
        run(s, history).inv(),
        run(s, history).limit == s.limit,
        run(s, history).fail_fast == s.fail_fast,
        run(s, history).watermark == s.watermark,
        run(s, history).backlog == s.backlog,
        run(s, history).admitted >= s.admitted,
        s.failed ==> run(s, history).failed,
        s.cancelled ==> run(s, history).cancelled,
    decreases history.len(),
{
    if history.len() > 0 {
        lemma_run_keeps_inv(s, history.drop_last());
        let before = run(s, history.drop_last());
        match history.last() {
            Happening::Request => {
                lemma_admission_keeps_inv(before);
            },
            Happening::End(id, outcome, item) => {
                if before.is_running(id) {
                    lemma_finish_keeps_inv(before, id, outcome, item);
                }
            },
            Happening::Cancel => {
                lemma_cancel_keeps_inv(before);
            },
        }
    }
}

/// At no time do more scenarios run than the limit allows, whatever
/// happens and in whatever order.
pub proof fn lemma_never_over_limit<T>(s: Schedule<T>, history: Seq<Happening<T>>)
    requires
        s.inv(),
    ensures
        run(s, history).running.len() <= s.limit,
{
    lemma_run_keeps_inv(s, history);
}

/// At no time does a serial scenario run beside another scenario, of
/// whatever kind.
pub proof fn lemma_serial_runs_alone<T>(s: Schedule<T>, history: Seq<Happening<T>>)
    requires
        s.inv(),
    ensures
        run(s, history).serial_running() ==> run(s, history).running.len() == 1,
{
    lemma_run_keeps_inv(s, history);
    let t = run(s, history);
    if t.serial_running() {
        let i = choose|i: int|
            0 <= i < t.running.len() && (#[trigger] t.running[i]).1 == ScenarioType::Serial;
    }
}

/// Once a scenario has failed in a run that stops at the first failure, or
/// once the run is cancelled, no scenario is admitted any more, whatever
/// happens: the scenarios that have been admitted stay the same number, and
/// no request is answered with an admission.
pub proof fn lemma_stopped_admits_no_more<T>(s: Schedule<T>, history: Seq<Happening<T>>)
    requires
        s.inv(),
        s.stopped(),
    ensures
        run(s, history).stopped(),
        run(s, history).admitted == s.admitted,
        !(run(s, history).admission() is Admitted),
    decreases history.len(),
{
    lemma_run_keeps_inv(s, history);
    if history.len() > 0 {
        lemma_stopped_admits_no_more(s, history.drop_last());
    }
}

/// A scenario that runs can always end, also after admission has stopped:
/// it then runs no more, and the others that ran still do.
pub proof fn lemma_running_can_end<T>(s: Schedule<T>, id: ScenarioId, outcome: Outcome, item: T)
    requires
        s.inv(),
        s.is_running(id),
    ensures
        !s.after_finish(id, outcome, item).is_running(id),
        s.after_finish(id, outcome, item).running.len() == s.running.len() - 1,
        forall|other: ScenarioId|
            other != id && s.is_running(other) ==> #[trigger] s.after_finish(
                id,
                outcome,
                item,
            ).is_running(other),
{
    let at = s.index_of(id);
    let t = s.after_finish(id, outcome, item);
    assert forall|i: int| 0 <= i < t.running.len() implies #[trigger] t.running[i] == s.running[if i
        < at {
        i
    } else {
        i + 1
    }] by {}
    if t.is_running(id) {
        let i = t.index_of(id);
        let a = if i < at {
            i
        } else {
            i + 1
        };
        assert(s.running[a].0 == id);
        if a < at {
            assert(s.running[a].0 != s.running[at].0);
        } else {
            assert(s.running[at].0 != s.running[a].0);
        }
    }
    assert forall|other: ScenarioId| other != id && s.is_running(other) implies #[trigger] t.is_running(
        other,
    ) by {
        let i = s.index_of(other);
        let j = if i < at {
            i
        } else {
            i - 1
        };
        assert(t.running[j].0 == other);
    }
}

/// A request is answered with `Wait` only while something runs: as long as
/// the caller lets what runs end, the run goes on.
pub proof fn lemma_wait_only_while_running<T>(s: Schedule<T>)
    requires
        s.inv(),
        s.admission() == Admission::Wait,
    ensures
        s.running.len() > 0,
{
    if s.running.len() == 0 {
        assert(!s.serial_running());
        assert(s.pending.dom() =~= Set::empty()) by {
            assert forall|k: u64| !s.pending.contains_key(k) by {
                if s.pending.contains_key(k) {
                    assert(s.next < k < s.admitted);
                    assert(s.pending.contains_key(s.next) || s.is_running(ScenarioId(s.next)));
                }
            }
        }
    }
}

/// All results that were handed out for reporting while `history`
/// happened, from the state `s` on, in the order in which they were handed
/// out.
pub open spec fn reported<T>(s: Schedule<T>, history: Seq<Happening<T>>) -> Seq<(u64, T)>
    decreases history.len(),
{
    if history.len() == 0 {
        Seq::empty()
    } else {
        let before = run(s, history.drop_last());
        let so_far = reported(s, history.drop_last());
        match history.last() {
            Happening::End(id, outcome, item) => if before.is_running(id) {
                so_far + before.released_by(id, item)
            } else {
                so_far
            },
            _ => so_far,
        }
    }
}

/// In whatever order the scenarios of a run end, their results are reported
/// in the order in which the scenarios were declared: the result reported
/// as number `i` is that of the scenario at position `i`, and as many have
/// been reported as the next position says.
pub proof fn lemma_reported_in_declaration_order<T>(s: Schedule<T>, history: Seq<Happening<T>>)
    requires
        s.inv(),
        s.next == 0,
    ensures
        reported(s, history).len() == run(s, history).next,
        forall|i: int|
            0 <= i < reported(s, history).len() ==> (#[trigger] reported(s, history)[i]).0 == i,
    decreases history.len(),
{
    if history.len() > 0 {
        let earlier = history.drop_last();
        lemma_reported_in_declaration_order(s, earlier);
        lemma_run_keeps_inv(s, earlier);
        let before = run(s, earlier);
        let so_far = reported(s, earlier);
        match history.last() {
            Happening::End(id, outcome, item) => {
                if before.is_running(id) {
                    lemma_finish_keeps_inv(before, id, outcome, item);
                    let more = before.released_by(id, item);
                    let all = so_far + more;
                    assert forall|i: int| 0 <= i < all.len() implies (#[trigger] all[i]).0 == i by {
                        if i >= so_far.len() {
                            assert(all[i] == more[i - so_far.len()]);
                        }
                    }
                }
            },
            _ => {},
        }
    }
}

/// When nothing runs, the result of every scenario that was admitted has
/// been reported, and none waits.
pub proof fn lemma_all_reported_when_idle<T>(s: Schedule<T>)
    requires
        s.inv(),
        s.running.len() == 0,
    ensures
        s.next == s.admitted,
        s.pending == Map::<u64, T>::empty(),
{
    if s.next < s.admitted {
        assert(s.pending.contains_key(s.next) || s.is_running(ScenarioId(s.next)));
    }
    assert(s.pending =~= Map::<u64, T>::empty());
}

/// The scheduler of one run.
pub struct Scheduler<T> {
    limit: usize,
    fail_fast: bool,
    watermark: Option<usize>,
    backlog: Vec<ScenarioType>,
    admitted: usize,
    running: Vec<(ScenarioId, ScenarioType)>,
    failed: bool,
    cancelled: bool,
    aborted: bool,
    buffer: OrderingBuffer<T>,
}

impl<T> View for Scheduler<T> {
    type V = Schedule<T>;

    closed spec fn view(&self) -> Schedule<T> {
        Schedule {
            limit: self.limit,
            fail_fast: self.fail_fast,
            watermark: self.watermark,
            backlog: self.backlog@,
            admitted: self.admitted as nat,
            running: self.running@,
            failed: self.failed,
            cancelled: self.cancelled,
            aborted: self.aborted,
            next: self.buffer.next(),
            pending: self.buffer.pending(),
        }
    }
}

impl<T> Scheduler<T> {
    /// The scheduler is in a state that a run can be in. Every scheduler
    /// that [`Scheduler::new`] made is, and stays so.
    pub closed spec fn wf(&self) -> bool {
        self.buffer.wf() && self@.inv()
    }

    /// A scheduler for a run with the settings `config` over the scenarios
    /// whose kinds are `backlog`, in the order of declaration. Nothing is
    /// admitted yet.
    pub fn new(config: &Basic, backlog: Vec<ScenarioType>) -> (r: Self)
        ensures
            r.wf(),
            r@ == (Schedule {
                limit: config.limit(),
                fail_fast: config.fail_fast,
                watermark: config.max_pending_results,
                backlog: backlog@,
                admitted: 0,
                running: Seq::empty(),
                failed: false,
                cancelled: false,
                aborted: false,
                next: 0,
                pending: Map::<u64, T>::empty(),
            }),
    {
        let total = backlog.len();
        let r = Scheduler {
            limit: config.concurrency(),
            fail_fast: config.fail_fast,
            watermark: config.max_pending_results,
            backlog,
            admitted: 0,
            running: Vec::new(),
            failed: false,
            cancelled: false,
            aborted: false,
            buffer: OrderingBuffer::new(),
        };
        proof {
            assert(r@.running =~= Seq::empty());
            assert(r@.backlog.len() == total);
        }
        r
    }

    /// Asks whether the next scenario of the backlog may start, and admits
    /// it if so.
    pub fn next_admission(&mut self) -> (r: Admission)
        requires
            old(self).wf(),
        ensures
            final(self).wf(),
            r == old(self)@.admission(),
            final(self)@ == old(self)@.after_admission(),
    {
        proof {
            lemma_admission_keeps_inv(self@);
        }
        if self.cancelled || (self.fail_fast && self.failed) || self.admitted
            >= self.backlog.len() {
            return if self.running.len() == 0 {
                Admission::Finished
            } else {
                Admission::Wait
            };
        }
        let saturated = match self.watermark {
            Some(most) => self.buffer.pending_len() > most,
            None => false,
        };
        if saturated {
            return Admission::Wait;
        }
        let ty = self.backlog[self.admitted];
        let serial_runs = self.running.len() > 0 && match self.running[0].1 {
            ScenarioType::Serial => true,
            ScenarioType::Concurrent => false,
        };
        proof {
            if self@.serial_running() {
                let i = choose|i: int|
                    0 <= i < self@.running.len() && (#[trigger] self@.running[i]).1
                        == ScenarioType::Serial;
                assert(self@.running.len() == 1);
            }
            if serial_runs {
                assert(self@.running[0].1 == ScenarioType::Serial);
            }
            assert(serial_runs == self@.serial_running());
        }
        let room = match ty {
            ScenarioType::Serial => self.running.len() == 0,
            ScenarioType::Concurrent => self.running.len() < self.limit && !serial_runs,
        };
        if !room {
            return Admission::Wait;
        }
        let id = ScenarioId(self.admitted as u64);
        self.running.push((id, ty));
        self.admitted = self.admitted + 1;
        Admission::Admitted(id, ty)
    }

    /// Takes note that the running scenario `id` has ended with `outcome`
    /// and the result `item`, and hands out the results that can now be
    /// reported, each with its position, in the order of the positions.
    ///
    /// # Errors
    ///
    /// Hands `item` back, and changes nothing, where `id` does not run.
    pub fn finish(&mut self, id: ScenarioId, outcome: Outcome, item: T) -> (r: Result<
        Vec<(u64, T)>,
        T,
    >)
        requires
            old(self).wf(),
        ensures
            final(self).wf(),
            match r {
                Err(back) => {
                    &&& !old(self)@.is_running(id)
                    &&& back == item
                    &&& final(self)@ == old(self)@
                },
                Ok(released) => {
                    &&& old(self)@.is_running(id)
                    &&& final(self)@ == old(self)@.after_finish(id, outcome, item)
                    &&& released@ == old(self)@.released_by(id, item)
                },
            },
    {
        let mut at: usize = 0;
        let mut found = false;
        while !found && at < self.running.len()
            invariant
                at <= self.running.len(),
                *self == *old(self),
                forall|i: int| 0 <= i < at ==> (#[trigger] self.running@[i]).0 != id,
                found ==> at < self.running.len() && self.running@[at as int].0 == id,
            decreases self.running.len() - at + (if found { 0int } else { 1int }),
        {
            if self.running[at].0.0 == id.0 {
                found = true;
            } else {
                at += 1;
            }
        }
        if !found {
            return Err(item);
        }
        let ghost before = self@;
        proof {
            assert(before.is_running(id));
            let chosen = before.index_of(id);
            if chosen < at {
                assert(before.running[chosen].0 != id);
            } else if at < chosen {
                assert(before.running[at as int].0 != before.running[chosen].0);
            }
            lemma_finish_keeps_inv(before, id, outcome, item);
        }
        self.running.remove(at);
        match outcome {
            Outcome::Passed => {},
            Outcome::Failed(failure) => {
                self.failed = true;
                match failure {
                    Failure::Cancelled => {
                        self.aborted = true;
                    },
                    _ => {},
                }
            },
        }
        match self.buffer.push(id.0, item) {
            Ok(released) => {
                proof {
                    let filled = before.pending.insert(id.0, item);
                    lemma_run_unique(
                        filled,
                        before.next,
                        released@.len(),
                        run_of(filled, before.next),
                    );
                }
                Ok(released)
            },
            Err(back) => {
                proof {
                    assert(false);
                }
                Err(back.1)
            },
        }
    }

    /// Takes note that the run was cancelled: nothing is admitted from now
    /// on. What runs may still end.
    pub fn cancel(&mut self)
        requires
            old(self).wf(),
        ensures
            final(self).wf(),
            final(self)@ == old(self)@.after_cancel(),
    {
        proof {
            lemma_cancel_keeps_inv(self@);
        }
        self.cancelled = true;
    }

    /// Whether the run was cancelled.
    pub fn is_cancelled(&self) -> (r: bool)
        ensures
            r == self@.cancelled,
    {
        self.cancelled
    }

    /// The number of scenarios that run.
    pub fn in_flight(&self) -> (r: usize)
        ensures
            r == self@.running.len(),
    {
        self.running.len()
    }

    /// The number of results that wait for an earlier one.
    pub fn waiting(&self) -> (r: usize)
        ensures
            self@.pending.dom().finite(),
            r == self@.pending.dom().len(),
    {
        self.buffer.pending_len()
    }

    /// How the run has ended, or would end if it ended now.
    pub fn outcome(&self) -> (r: RunOutcome)
        ensures
            r == self@.outcome(),
    {
        if self.cancelled && (self.admitted < self.backlog.len() || self.aborted) {
            RunOutcome::Incomplete
        } else if self.failed {
            RunOutcome::Failed
        } else {
            RunOutcome::Passed
        }
    }
}

} // verus!
