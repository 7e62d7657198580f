//! The backlog of a run: the scenarios of all features, in the order in
//! which they were declared.

use vstd::prelude::*;
use crate::runner::basic::{Basic, ScenarioType};
use crate::tag::tag_set;

verus! {

/// One scenario of the backlog.
#[derive(Clone, Copy, Debug, PartialEq, Eq)]
pub struct Entry {
    /// The number of the scenario's feature among the features.
    pub feature: usize,
    /// The number of the scenario within its feature.
    pub scenario: usize,
    /// Whether the scenario runs alone.
    pub ty: ScenarioType,
}

/// The entries for the first `count` scenarios of feature number `feature`,
/// whose scenarios have the tags `scenarios`.
pub open spec fn entries_of(config: Basic, feature: usize, scenarios: Seq<Vec<String>>, count: nat) -> Seq<
    Entry,
>
    decreases count,
{
    if count == 0 {
        Seq::empty()
    } else {
        let scenario = (count - 1) as usize;
        entries_of(config, feature, scenarios, (count - 1) as nat).push(
            Entry { feature, scenario, ty: config.kind_of(tag_set(scenarios[scenario as int]@)) },
        )
    }
}

/// The backlog for the first `count` features of `features`: the entries of
/// the first feature, then those of the second, and so on.
pub open spec fn backlog_of(config: Basic, features: Seq<Vec<Vec<String>>>, count: nat) -> Seq<Entry>
    decreases count,
{
    if count == 0 {
        Seq::empty()
    } else {
        let feature = (count - 1) as usize;
        backlog_of(config, features, (count - 1) as nat) + entries_of(
            config,
            feature,
            features[feature as int]@,
            features[feature as int]@.len(),
        )
    }
}

/// One entry stands before another in the order of declaration: it is of an
/// earlier feature, or of the same feature and an earlier scenario.
pub open spec fn declared_before(a: Entry, b: Entry) -> bool {
    a.feature < b.feature || (a.feature == b.feature && a.scenario < b.scenario)
}

/// The backlog has an entry for scenario number `scenario` of feature number
/// `feature`.
pub open spec fn has_entry(backlog: Seq<Entry>, feature: int, scenario: int) -> bool {
    exists|i: int|
        0 <= i < backlog.len() && (#[trigger] backlog[i]).feature == feature && backlog[i].scenario
            == scenario
}

/// The entries of a feature are its scenarios, each once, in order.
pub proof fn lemma_entries_in_order(
    config: Basic,
    feature: usize,
    scenarios: Seq<Vec<String>>,
    count: nat,
)
    requires
        count <= scenarios.len() <= usize::MAX,
    ensures
        entries_of(config, feature, scenarios, count).len() == count,
        forall|i: int|
            0 <= i < count ==> (#[trigger] entries_of(config, feature, scenarios, count)[i]) == (
            Entry {
                feature,
                scenario: i as usize,
                ty: config.kind_of(tag_set(scenarios[i]@)),
            }),
    decreases count,
{
    if count > 0 {
        lemma_entries_in_order(config, feature, scenarios, (count - 1) as nat);
    }
}

/// The backlog holds every scenario of every feature, and holds them in the
/// order of declaration: each entry stands before all that follow it.
pub proof fn lemma_backlog_in_declaration_order(
    config: Basic,
    features: Seq<Vec<Vec<String>>>,
    count: nat,
)
    requires
        count <= features.len() <= usize::MAX,
    ensures
        forall|i: int, j: int|
            0 <= i < j < backlog_of(config, features, count).len() ==> declared_before(
                backlog_of(config, features, count)[i],
                backlog_of(config, features, count)[j],
            ),
        forall|i: int|
            0 <= i < backlog_of(config, features, count).len() ==> {
                let e = #[trigger] backlog_of(config, features, count)[i];
                &&& e.feature < count
                &&& e.scenario < features[e.feature as int]@.len()
                &&& e.ty == config.kind_of(tag_set(features[e.feature as int]@[e.scenario as int]@))
            },
        forall|f: int, s: int|
            0 <= f < count && 0 <= s < features[f]@.len() ==> #[trigger] has_entry(
                backlog_of(config, features, count),
                f,
                s,
            ),
    decreases count,
{
    if count > 0 {
        let feature = (count - 1) as usize;
        let earlier = backlog_of(config, features, (count - 1) as nat);
        let scenarios = features[feature as int]@;
        let added = entries_of(config, feature, scenarios, scenarios.len());
        let all = backlog_of(config, features, count);
        lemma_backlog_in_declaration_order(config, features, (count - 1) as nat);
        assert(features[feature as int].len() == scenarios.len());
        lemma_entries_in_order(config, feature, scenarios, scenarios.len());
        assert(all == earlier + added);
        assert forall|i: int| 0 <= i < all.len() implies #[trigger] all[i] == (if i < earlier.len() {
            earlier[i]
        } else {
            added[i - earlier.len()]
        }) by {}
        assert forall|i: int, j: int| 0 <= i < j < all.len() implies declared_before(
            all[i],
            all[j],
        ) by {
            if j < earlier.len() {
            } else if i < earlier.len() {
                assert(earlier[i].feature < count - 1);
                assert(added[j - earlier.len()].feature == feature);
            } else {
                assert(added[i - earlier.len()].scenario == i - earlier.len());
                assert(added[j - earlier.len()].scenario == j - earlier.len());
            }
        }
        assert forall|f: int, s: int|
            0 <= f < count && 0 <= s < features[f]@.len() implies #[trigger] has_entry(all, f, s) by {
            if f < count - 1 {
                assert(has_entry(earlier, f, s));
                let i = choose|i: int|
                    0 <= i < earlier.len() && (#[trigger] earlier[i]).feature == f
                        && earlier[i].scenario == s;
                assert(all[i].feature == f && all[i].scenario == s);
            } else {
                let i = earlier.len() + s;
                assert(all[i] == added[s]);
                assert(all[i].feature == f && all[i].scenario == s);
            }
        }
    }
}

/// Collects the backlog of a run with the settings `config`: for every
/// scenario of every feature one entry, in the order of declaration.
/// `features` holds the tags of each scenario of each feature.
pub fn collect(config: &Basic, features: &Vec<Vec<Vec<String>>>) -> (r: Vec<Entry>)
    ensures
        r@ == backlog_of(*config, features@, features@.len()),
{
    let mut backlog: Vec<Entry> = Vec::new();
    let mut f: usize = 0;
    while f < features.len()
        invariant
            f <= features.len(),
            backlog@ == backlog_of(*config, features@, f as nat),
        decreases features.len() - f,
    {
        let scenarios = &features[f];
        let ghost earlier = backlog@;
        let mut s: usize = 0;
        while s < scenarios.len()
            invariant
                s <= scenarios.len(),
                f < features.len(),
                scenarios == &features@[f as int],
                backlog@ == earlier + entries_of(*config, f, scenarios@, s as nat),
            decreases scenarios.len() - s,
        {
            let ty = config.scenario_type(&scenarios[s]);
            backlog.push(Entry { feature: f, scenario: s, ty });
            proof {
                assert(backlog@ =~= earlier + entries_of(*config, f, scenarios@, (s + 1) as nat));
            }
            s += 1;
        }
        f += 1;
    }
    backlog
}

/// The kinds of the scenarios of a backlog, in its order.
pub fn kinds(backlog: &Vec<Entry>) -> (r: Vec<ScenarioType>)
    ensures
        r@ == Seq::new(backlog@.len(), |i: int| backlog@[i].ty),
{
    let mut kinds: Vec<ScenarioType> = Vec::new();
    let mut i: usize = 0;
    while i < backlog.len()
        invariant
            i <= backlog.len(),
            kinds@ == Seq::new(i as nat, |j: int| backlog@[j].ty),
        decreases backlog.len() - i,
    {
        kinds.push(backlog[i].ty);
        proof {
            assert(kinds@ =~= Seq::new((i + 1) as nat, |j: int| backlog@[j].ty));
        }
        i += 1;
    }
    kinds
}

} // verus!
