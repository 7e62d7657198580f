//! The buffer that turns results, which arrive in the order in which
//! scenarios end, into the order in which the scenarios were declared.
//!
//! Every scenario has a position: 0 for the first that was admitted, 1 for
//! the next, and so on. A result is held back until the results of all
//! earlier positions have been released.

use std::collections::HashMap;
use vstd::prelude::*;

verus! {

broadcast use vstd::std_specs::hash::group_hash_axioms;

/// The results that wait for an earlier one, by position, and the position
/// that is released next.
pub struct OrderingBuffer<T> {
    next: u64,
    pending: HashMap<u64, T>,
}

/// A result for `position` can be taken: the position is not released yet,
/// is not waiting already, and is not the last number there is.
pub open spec fn accepts<T>(pending: Map<u64, T>, next: u64, position: u64) -> bool {
    next <= position < u64::MAX && !pending.contains_key(position)
}

/// In `pending` the `n` positions from `from` on are all there, and the one
/// after them is not.
pub open spec fn is_run<T>(pending: Map<u64, T>, from: u64, n: nat) -> bool {
    &&& from + n <= u64::MAX
    &&& forall|k: u64| from <= k < from + n ==> #[trigger] pending.contains_key(k)
    &&& !pending.contains_key((from + n) as u64)
}

/// The `n` results from position `from` on, each with its position.
pub open spec fn run_items<T>(pending: Map<u64, T>, from: u64, n: nat) -> Seq<(u64, T)> {
    Seq::new(n, |i: int| ((from + i) as u64, pending[(from + i) as u64]))
}

/// The length of the run of positions that starts at `from`.
pub open spec fn run_of<T>(pending: Map<u64, T>, from: u64) -> nat {
    choose|n: nat| is_run(pending, from, n)
}

/// What is left waiting once the positions below `upto` are gone.
pub open spec fn without_below<T>(pending: Map<u64, T>, upto: u64) -> Map<u64, T> {
    pending.remove_keys(Set::new(|k: u64| k < upto))
}

/// A run has one length only.
pub proof fn lemma_run_unique<T>(pending: Map<u64, T>, from: u64, n: nat, m: nat)
    requires
        is_run(pending, from, n),
        is_run(pending, from, m),
    ensures
        n == m,
{
    if n < m {
        assert(pending.contains_key((from + n) as u64));
    } else if m < n {
        assert(pending.contains_key((from + m) as u64));
    }
}

impl<T> OrderingBuffer<T> {
    /// The buffer is in order: nothing waits at a position that was
    /// released, or at `u64::MAX`. Every buffer that [`OrderingBuffer::new`]
    /// made and [`OrderingBuffer::push`] changed is.
    pub closed spec fn wf(&self) -> bool {
        forall|k: u64| #[trigger] self.pending@.contains_key(k) ==> self.next <= k < u64::MAX
    }

    /// The position that is released next: all below it have been released.
    pub closed spec fn next(&self) -> u64 {
        self.next
    }

    /// The results that wait, by position.
    pub closed spec fn pending(&self) -> Map<u64, T> {
        self.pending@
    }

    /// An empty buffer that releases position 0 first.
    pub fn new() -> (r: Self)
        ensures
            r.wf(),
            r.next() == 0,
            r.pending() == Map::<u64, T>::empty(),
    {
        OrderingBuffer { next: 0, pending: HashMap::new() }
    }

    /// The position that is released next.
    pub fn next_position(&self) -> (r: u64)
        ensures
            r == self.next(),
    {
        self.next
    }

    /// The number of results that wait for an earlier one.
    pub fn pending_len(&self) -> (r: usize)
        ensures
            self.pending().dom().finite(),
            r == self.pending().dom().len(),
    {
        self.pending.len()
    }

    /// Takes the result `item` of the scenario at `position`, and releases
    /// what can now be released: the results from the next position on, as
    /// far as they are there without a gap, in the order of their positions.
    ///
    /// # Errors
    ///
    /// Hands the result back, and changes nothing, where the position was
    /// released before, is waiting already, or is `u64::MAX`.
    pub fn push(&mut self, position: u64, item: T) -> (r: Result<Vec<(u64, T)>, (u64, T)>)
        requires
            old(self).wf(),
        ensures
            final(self).wf(),
            match r {
                Err(back) => {
                    &&& !accepts(old(self).pending(), old(self).next(), position)
                    &&& back == (position, item)
                    &&& final(self).next() == old(self).next()
                    &&& final(self).pending() == old(self).pending()
                },
                Ok(released) => {
                    let filled = old(self).pending().insert(position, item);
                    &&& accepts(old(self).pending(), old(self).next(), position)
                    &&& is_run(filled, old(self).next(), released@.len())
                    &&& released@ == run_items(filled, old(self).next(), released@.len())
                    &&& final(self).next() == old(self).next() + released@.len()
                    &&& final(self).pending() == without_below(filled, final(self).next())
                },
            },
    {
        if position < self.next || position == u64::MAX || self.pending.contains_key(&position) {
            return Err((position, item));
        }
        let ghost from = self.next;
        let ghost filled = self.pending@.insert(position, item);
        self.pending.insert(position, item);
        let mut released: Vec<(u64, T)> = Vec::new();
        let mut more = true;
        while more
            invariant
                from <= self.next,
                self.next - from == released@.len(),
                forall|k: u64| #[trigger] filled.contains_key(k) ==> from <= k < u64::MAX,
                forall|k: u64| #[trigger]
                    self.pending@.contains_key(k) ==> self.next <= k < u64::MAX,
                self.pending@ == without_below(filled, self.next),
                self.pending@.dom().finite(),
                forall|k: u64| from <= k < self.next ==> #[trigger] filled.contains_key(k),
                released@ == run_items(filled, from, released@.len()),
                !more ==> !filled.contains_key(self.next),
            decreases self.pending@.dom().len() + (if more { 1nat } else { 0nat }),
        {
            let at = self.next;
            match self.pending.remove(&at) {
                Some(item) => {
                    released.push((at, item));
                    self.next = at + 1;
                    proof {
                        assert(self.pending@ =~= without_below(filled, self.next));
                        assert(released@ =~= run_items(filled, from, released@.len()));
                    }
                },
                None => {
                    more = false;
                },
            }
        }
        Ok(released)
    }
}

/// Where finitely many results wait, none at `u64::MAX`, there is a run
/// from every position on.
pub proof fn lemma_run_exists<T>(pending: Map<u64, T>, from: u64)
    requires
        pending.dom().finite(),
        !pending.contains_key(u64::MAX),
    ensures
        is_run(pending, from, run_of(pending, from)),
    decreases pending.dom().len(),
{
    if !pending.contains_key(from) {
        assert(is_run(pending, from, 0));
    } else {
        let rest = pending.remove(from);
        let after = (from + 1) as u64;
        lemma_run_exists(rest, after);
        let n = run_of(rest, after);
        assert forall|k: u64| from <= k < from + n + 1 implies #[trigger] pending.contains_key(
            k,
        ) by {
            if k > from {
                assert(rest.contains_key(k));
            }
        }
        assert(!rest.contains_key((after + n) as u64));
        assert(is_run(pending, from, n + 1));
    }
}

/// What has happened once the results `pushes` were pushed, one after the
/// other, into an empty buffer: the position that is released next, the
/// results that wait, and all that was released, in the order of release.
pub open spec fn replay<T>(pushes: Seq<(u64, T)>) -> (u64, Map<u64, T>, Seq<(u64, T)>)
    decreases pushes.len(),
{
    if pushes.len() == 0 {
        (0, Map::empty(), Seq::empty())
    } else {
        let (next, pending, out) = replay(pushes.drop_last());
        let (position, item) = pushes.last();
        if accepts(pending, next, position) {
            let filled = pending.insert(position, item);
            let n = run_of(filled, next);
            let upto = (next + n) as u64;
            (upto, without_below(filled, upto), out + run_items(filled, next, n))
        } else {
            (next, pending, out)
        }
    }
}

/// With `pushes` pushed, `next` is the position released next, `pending`
/// waits and `out` was released, and all is in order: the result released as
/// number `i` is one that was pushed for position `i`; what waits was pushed
/// for a position above the next one; and every position that was pushed has
/// been released or waits.
pub open spec fn in_order<T>(
    pushes: Seq<(u64, T)>,
    next: u64,
    pending: Map<u64, T>,
    out: Seq<(u64, T)>,
) -> bool {
    &&& out.len() == next
    &&& forall|i: int| 0 <= i < out.len() ==> (#[trigger] out[i]).0 == i
    &&& forall|i: int| 0 <= i < out.len() ==> pushes.contains(#[trigger] out[i])
    &&& pending.dom().finite()
    &&& forall|k: u64| #[trigger]
        pending.contains_key(k) ==> next < k < u64::MAX && pushes.contains((k, pending[k]))
    &&& forall|j: int|
        0 <= j < pushes.len() ==> (#[trigger] pushes[j]).0 < next || pending.contains_key(
            pushes[j].0,
        ) || pushes[j].0 == u64::MAX
}

/// Whatever the order in which results arrive, they are released in the
/// order of their positions, without a gap and each once: the result
/// released as number `i` is one that was pushed for position `i`. What
/// waits is above the next position, and every position that was pushed has
/// been released or waits.
pub proof fn lemma_released_in_order<T>(pushes: Seq<(u64, T)>)
    ensures
        in_order(pushes, replay(pushes).0, replay(pushes).1, replay(pushes).2),
    decreases pushes.len(),
{
    if pushes.len() == 0 {
        assert(replay(pushes).1.dom() =~= Set::empty());
    } else {
        let before = pushes.drop_last();
        lemma_released_in_order(before);
        let next = replay(before).0;
        let pending = replay(before).1;
        let out = replay(before).2;
        let position = pushes.last().0;
        let item = pushes.last().1;
        assert forall|x: (u64, T)| before.contains(x) implies pushes.contains(x) by {
            let j = choose|j: int| 0 <= j < before.len() && before[j] == x;
            assert(pushes[j] == x);
        }
        assert(pushes.contains(pushes.last())) by {
            assert(pushes[pushes.len() - 1] == pushes.last());
        }
        if accepts(pending, next, position) {
            let filled = pending.insert(position, item);
            lemma_run_exists(filled, next);
            let n = run_of(filled, next);
            let upto = (next + n) as u64;
            let after = without_below(filled, upto);
            let grown = out + run_items(filled, next, n);
            assert(replay(pushes) == (upto, after, grown));
            assert forall|i: int| 0 <= i < grown.len() implies (#[trigger] grown[i]).0 == i
                && pushes.contains(grown[i]) by {
                if i >= out.len() {
                    let k = (next + (i - out.len())) as u64;
                    assert(grown[i] == run_items(filled, next, n)[i - out.len()]);
                    assert(grown[i] == (k, filled[k]));
                    assert(filled.contains_key(k));
                    if k != position {
                        assert(pending.contains_key(k));
                    }
                }
            }
            assert forall|k: u64| #[trigger] after.contains_key(k) implies upto < k < u64::MAX
                && pushes.contains((k, after[k])) by {
                assert(filled.contains_key(k));
                if k != position {
                    assert(pending.contains_key(k));
                }
            }
            assert forall|j: int| 0 <= j < pushes.len() implies (#[trigger] pushes[j]).0 < upto
                || after.contains_key(pushes[j].0) || pushes[j].0 == u64::MAX by {
                if j < pushes.len() - 1 {
                    assert(pushes[j] == before[j]);
                    if pending.contains_key(before[j].0) {
                        assert(filled.contains_key(before[j].0));
                    }
                }
            }
            assert(after.dom().finite()) by {
                assert(after.dom().subset_of(filled.dom()));
                vstd::set_lib::lemma_len_subset(after.dom(), filled.dom());
            }
        } else {
            assert(replay(pushes) == (next, pending, out));
            assert forall|j: int| 0 <= j < pushes.len() implies (#[trigger] pushes[j]).0 < next
                || pending.contains_key(pushes[j].0) || pushes[j].0 == u64::MAX by {
                if j < pushes.len() - 1 {
                    assert(pushes[j] == before[j]);
                }
            }
        }
    }
}

/// Among `pushes` is a result for `position`.
pub open spec fn pushed<T>(pushes: Seq<(u64, T)>, position: u64) -> bool {
    exists|j: int| 0 <= j < pushes.len() && (#[trigger] pushes[j]).0 == position
}

/// Once a result has been pushed for each of the first `n` positions, in
/// whatever order, the first `n` results that were released are theirs, in
/// the order of the positions.
pub proof fn lemma_all_released<T>(pushes: Seq<(u64, T)>, n: u64)
    requires
        forall|p: u64| p < n ==> #[trigger] pushed(pushes, p),
    ensures
        replay(pushes).2.len() >= n,
        forall|i: int| 0 <= i < n ==> (#[trigger] replay(pushes).2[i]).0 == i,
{
    lemma_released_in_order(pushes);
    let next = replay(pushes).0;
    let pending = replay(pushes).1;
    if next < n {
        assert(pushed(pushes, next));
        let j = choose|j: int| 0 <= j < pushes.len() && (#[trigger] pushes[j]).0 == next;
        assert(pushes[j].0 < next || pending.contains_key(pushes[j].0) || pushes[j].0 == u64::MAX);
        assert(false);
    }
}

/// A push makes the step that `replay` makes: the length of what it
/// releases is the length of the run.
pub proof fn lemma_push_is_replay_step<T>(filled: Map<u64, T>, from: u64, n: nat)
    requires
        is_run(filled, from, n),
    ensures
        n == run_of(filled, from),
{
    lemma_run_unique(filled, from, n, run_of(filled, from));
}

} // verus!
