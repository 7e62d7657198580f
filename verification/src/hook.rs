//! Hooks: what runs before and after the steps of a scenario, for the
//! scenarios whose tags a hook's rule holds of.

use vstd::prelude::*;
use crate::tag::{applies, applies_to, tag_set, TagExpr};

verus! {

/// Something to run around the steps of a scenario.
#[derive(Debug)]
pub struct Hook<F> {
    /// The rule for the scenarios the hook is for; without it, all.
    pub filter: Option<TagExpr>,
    /// What to run.
    pub run: F,
}

/// The hooks of a run, in the order in which they were registered.
#[derive(Debug)]
pub struct HookExecutor<F> {
    /// The hooks that run before the steps.
    pub before: Vec<Hook<F>>,
    /// The hooks that run after the steps.
    pub after: Vec<Hook<F>>,
}

/// The indices of the hooks among `hooks` that are for a scenario with the
/// tags `tags`, in the order of registration.
pub open spec fn applicable<F>(hooks: Seq<Hook<F>>, tags: Set<Seq<char>>) -> Seq<usize>
    decreases hooks.len(),
{
    if hooks.len() == 0 {
        Seq::empty()
    } else {
        let earlier = applicable(hooks.drop_last(), tags);
        if applies_to(hooks.last().filter, tags) {
            earlier.push((hooks.len() - 1) as usize)
        } else {
            earlier
        }
    }
}

/// The applicable hooks are exactly those whose rule holds of the tags, each
/// once, in the order of registration.
pub proof fn lemma_applicable_in_order<F>(hooks: Seq<Hook<F>>, tags: Set<Seq<char>>)
    requires
        hooks.len() <= usize::MAX,
    ensures
        forall|a: int, b: int|
            0 <= a < b < applicable(hooks, tags).len() ==> applicable(hooks, tags)[a] < applicable(
                hooks,
                tags,
            )[b],
        forall|a: int|
            0 <= a < applicable(hooks, tags).len() ==> (#[trigger] applicable(hooks, tags)[a])
                < hooks.len() && applies_to(hooks[applicable(hooks, tags)[a] as int].filter, tags),
        forall|i: int|
            0 <= i < hooks.len() && applies_to((#[trigger] hooks[i]).filter, tags) ==> applicable(
                hooks,
                tags,
            ).contains(i as usize),
    decreases hooks.len(),
{
    if hooks.len() > 0 {
        let shorter = hooks.drop_last();
        lemma_applicable_in_order(shorter, tags);
        let earlier = applicable(shorter, tags);
        let all = applicable(hooks, tags);
        let last = (hooks.len() - 1) as usize;
        assert forall|a: int| 0 <= a < earlier.len() implies earlier[a] < last && applies_to(
            hooks[earlier[a] as int].filter,
            tags,
        ) by {
            assert(shorter[earlier[a] as int] == hooks[earlier[a] as int]);
        }
        assert forall|i: int|
            0 <= i < hooks.len() && applies_to((#[trigger] hooks[i]).filter, tags) implies all.contains(
            i as usize,
        ) by {
            if i < hooks.len() - 1 {
                assert(shorter[i] == hooks[i]);
                let a = choose|a: int| 0 <= a < earlier.len() && earlier[a] == i as usize;
                assert(all[a] == i as usize);
            } else {
                assert(all[all.len() - 1] == last);
            }
        }
    }
}

impl<F> HookExecutor<F> {
    /// No hooks.
    pub fn new() -> (r: Self)
        ensures
            r.before@ == Seq::<Hook<F>>::empty(),
            r.after@ == Seq::<Hook<F>>::empty(),
    {
        HookExecutor { before: Vec::new(), after: Vec::new() }
    }

    /// Registers a hook to run before the steps.
    #[must_use]
    pub fn before(self, filter: Option<TagExpr>, run: F) -> (r: Self)
        ensures
            r.before@ == self.before@.push(Hook { filter, run }),
            r.after@ == self.after@,
    {
        let HookExecutor { mut before, after } = self;
        before.push(Hook { filter, run });
        HookExecutor { before, after }
    }

    /// Registers a hook to run after the steps.
    #[must_use]
    pub fn after(self, filter: Option<TagExpr>, run: F) -> (r: Self)
        ensures
            r.before@ == self.before@,
            r.after@ == self.after@.push(Hook { filter, run }),
    {
        let HookExecutor { before, mut after } = self;
        after.push(Hook { filter, run });
        HookExecutor { before, after }
    }

    /// The hooks to run before the steps of a scenario with the tags
    /// `tags`, by their indices, in the order in which to run them.
    pub fn applicable_before(&self, tags: &Vec<String>) -> (r: Vec<usize>)
        ensures
            r@ == applicable(self.before@, tag_set(tags@)),
    {
        select(&self.before, tags)
    }

    /// The hooks to run after the steps of a scenario with the tags `tags`,
    /// by their indices, in the order in which to run them.
    pub fn applicable_after(&self, tags: &Vec<String>) -> (r: Vec<usize>)
        ensures
            r@ == applicable(self.after@, tag_set(tags@)),
    {
        select(&self.after, tags)
    }
}

/// The indices of the hooks among `hooks` that are for a scenario with the
/// tags `tags`, in the order of registration.
pub fn select<F>(hooks: &Vec<Hook<F>>, tags: &Vec<String>) -> (r: Vec<usize>)
    ensures
        r@ == applicable(hooks@, tag_set(tags@)),
{
    let mut chosen: Vec<usize> = Vec::new();
    let mut i: usize = 0;
    proof {
        assert(hooks@.subrange(0, 0) =~= Seq::empty());
    }
    while i < hooks.len()
        invariant
            i <= hooks.len(),
            chosen@ == applicable(hooks@.subrange(0, i as int), tag_set(tags@)),
        decreases hooks.len() - i,
    {
        proof {
            let grown = hooks@.subrange(0, i + 1);
            assert(grown.drop_last() =~= hooks@.subrange(0, i as int));
            assert(grown.last() == hooks@[i as int]);
        }
        if applies(&hooks[i].filter, tags) {
            chosen.push(i);
        }
        i += 1;
    }
    proof {
        assert(hooks@.subrange(0, hooks@.len() as int) =~= hooks@);
    }
    chosen
}

} // verus!
