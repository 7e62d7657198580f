//! Registries built piece by piece: each part of a suite registers its own
//! step definitions, and the parts are put together.

use vstd::prelude::*;
use crate::step::collection::Collection;

verus! {

/// A part of a suite that registers its own step definitions.
pub trait StepBuilder<H> {
    /// Adds this part's step definitions to `collection`.
    fn register_steps(collection: Collection<H>) -> Collection<H>;

    /// The name of this part, for people.
    fn domain_name() -> &'static str;
}

/// `result` is what comes of an empty registry when the builders are applied
/// to it one after the other, from the first to the last.
pub open spec fn composed_by<H, F: Fn(Collection<H>) -> Collection<H>>(
    builders: Seq<F>,
    result: Collection<H>,
) -> bool
    decreases builders.len(),
{
    if builders.len() == 0 {
        result.is_empty()
    } else {
        exists|before: Collection<H>|
            composed_by(builders.drop_last(), before) && #[trigger] builders.last().ensures(
                (before,),
                result,
            )
    }
}

/// Applies the builders to an empty registry, one after the other, from the
/// first to the last.
pub fn compose_step_builders<H, F: Fn(Collection<H>) -> Collection<H>>(builders: Vec<F>) -> (r:
    Collection<H>)
    requires
        forall|i: int, c: Collection<H>|
            0 <= i < builders@.len() ==> #[trigger] builders@[i].requires((c,)),
    ensures
        composed_by(builders@, r),
{
    let mut built: Collection<H> = Collection::new();
    let mut i: usize = 0;
    proof {
        assert(builders@.subrange(0, 0) =~= Seq::empty());
    }
    while i < builders.len()
        invariant
            i <= builders.len(),
            composed_by(builders@.subrange(0, i as int), built),
            forall|j: int, c: Collection<H>|
                0 <= j < builders@.len() ==> #[trigger] builders@[j].requires((c,)),
        decreases builders.len() - i,
    {
        let ghost before = built;
        let builder = &builders[i];
        built = builder(built);
        proof {
            let grown = builders@.subrange(0, i + 1);
            assert(grown.drop_last() =~= builders@.subrange(0, i as int));
            assert(grown.last() == builders@[i as int]);
            assert(grown.last().ensures((before,), built));
        }
        i += 1;
    }
    proof {
        assert(builders@.subrange(0, builders@.len() as int) =~= builders@);
    }
    built
}

} // verus!
