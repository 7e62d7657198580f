//! The error of a step that more than one definition matches.

use vstd::prelude::*;
use crate::step::location::Location;
use crate::step::order::{key_lt, StepKey, lemma_key_lt_irreflexive, lemma_key_lt_total, lemma_key_lt_transitive, rank_keys, Rank};

verus! {

/// A step's text is matched by more than one definition of its kind.
#[derive(Clone, Debug, PartialEq, Eq)]
pub struct AmbiguousMatchError {
    /// Pattern text and location of every definition that matched, in key
    /// order.
    pub possible_matches: Vec<(String, Option<Location>)>,
}

/// The key that a listed definition stands for.
pub open spec fn key_view(key: (String, Option<Location>)) -> StepKey {
    (key.0@, key.1)
}

/// The keys that a list of definitions stands for.
pub open spec fn keys_view(keys: Seq<(String, Option<Location>)>) -> Seq<StepKey> {
    Seq::new(keys.len(), |i: int| key_view(keys[i]))
}

/// Every key comes before all that follow it.
pub open spec fn strictly_sorted(keys: Seq<StepKey>) -> bool {
    forall|i: int, j: int| 0 <= i < j < keys.len() ==> key_lt(keys[i], keys[j])
}

impl AmbiguousMatchError {
    /// The listed keys.
    pub open spec fn keys(&self) -> Seq<StepKey> {
        keys_view(self.possible_matches@)
    }
}

/// Two strictly sorted lists that hold the same keys are the same list: the
/// order in which matching definitions are listed depends on nothing but
/// which definitions match.
pub proof fn lemma_sorted_listing_unique(
    a: Seq<StepKey>,
    b: Seq<StepKey>,
)
    requires
        strictly_sorted(a),
        strictly_sorted(b),
        a.to_set() == b.to_set(),
    ensures
        a == b,
    decreases a.len(),
{
    if a.len() == 0 {
        if b.len() > 0 {
            assert(b.to_set().contains(b[0]));
            assert(a.to_set().contains(b[0]));
        }
        assert(a =~= b);
    } else {
        assert(a.to_set().contains(a[0]));
        assert(b.to_set().contains(a[0]));
        assert(b.len() > 0);
        assert(b.to_set().contains(b[0]));
        assert(a.to_set().contains(b[0]));
        let i = choose|i: int| 0 <= i < b.len() && b[i] == a[0];
        let j = choose|j: int| 0 <= j < a.len() && a[j] == b[0];
        lemma_key_lt_irreflexive(a[0]);
        if i > 0 && j > 0 {
            lemma_key_lt_transitive(a[0], a[j], b[i]);
        }
        assert(a[0] == b[0]);
        let ta = a.drop_first();
        let tb = b.drop_first();
        assert(strictly_sorted(ta)) by {
            assert forall|x: int, y: int| 0 <= x < y < ta.len() implies key_lt(ta[x], ta[y]) by {
                assert(ta[x] == a[x + 1] && ta[y] == a[y + 1]);
            }
        }
        assert(strictly_sorted(tb)) by {
            assert forall|x: int, y: int| 0 <= x < y < tb.len() implies key_lt(tb[x], tb[y]) by {
                assert(tb[x] == b[x + 1] && tb[y] == b[y + 1]);
            }
        }
        assert(ta.to_set() =~= tb.to_set()) by {
            assert forall|k: StepKey| ta.to_set().contains(k)
                == tb.to_set().contains(k) by {
                if ta.to_set().contains(k) {
                    let x = choose|x: int| 0 <= x < ta.len() && ta[x] == k;
                    assert(a[x + 1] == k);
                    assert(key_lt(a[0], a[x + 1]));
                    assert(a.to_set().contains(k));
                    assert(b.to_set().contains(k));
                    let y = choose|y: int| 0 <= y < b.len() && b[y] == k;
                    assert(y != 0);
                    assert(tb[y - 1] == k);
                }
                if tb.to_set().contains(k) {
                    let x = choose|x: int| 0 <= x < tb.len() && tb[x] == k;
                    assert(b[x + 1] == k);
                    assert(key_lt(b[0], b[x + 1]));
                    assert(b.to_set().contains(k));
                    assert(a.to_set().contains(k));
                    let y = choose|y: int| 0 <= y < a.len() && a[y] == k;
                    assert(y != 0);
                    assert(ta[y - 1] == k);
                }
            }
        }
        lemma_sorted_listing_unique(ta, tb);
        assert(a =~= b) by {
            assert forall|x: int| 0 <= x < a.len() implies a[x] == b[x] by {
                if x > 0 {
                    assert(ta[x - 1] == a[x]);
                    assert(tb[x - 1] == b[x]);
                }
            }
        }
    }
}

/// Puts `key` at its place in a strictly sorted list that does not hold it.
pub fn insert_sorted(keys: &mut Vec<(String, Option<Location>)>, key: (String, Option<Location>))
    requires
        strictly_sorted(keys_view(old(keys)@)),
        !keys_view(old(keys)@).contains(key_view(key)),
    ensures
        strictly_sorted(keys_view(final(keys)@)),
        keys_view(final(keys)@).to_set() == keys_view(old(keys)@).to_set().insert(key_view(key)),
        final(keys)@.len() == old(keys)@.len() + 1,
{
    let ghost before = keys_view(keys@);
    let ghost k = key_view(key);
    let mut at: usize = 0;
    let mut placed = false;
    while !placed && at < keys.len()
        invariant
            at <= keys.len(),
            keys@ == old(keys)@,
            before == keys_view(keys@),
            k == key_view(key),
            forall|j: int| 0 <= j < at ==> key_lt(before[j], k),
            placed ==> at < keys.len() && !key_lt(before[at as int], k),
        decreases keys.len() - at + (if placed { 0int } else { 1int }),
    {
        assert(before[at as int] == key_view(keys@[at as int]));
        let r = rank_keys(keys[at].0.as_str(), keys[at].1, key.0.as_str(), key.1);
        match r {
            Rank::Before => {
                at += 1;
            },
            _ => {
                placed = true;
            },
        }
    }
    proof {
        if at < keys.len() {
            assert(before.contains(before[at as int]));
            lemma_key_lt_total(before[at as int], k);
        }
    }
    keys.insert(at, key);
    proof {
        let after = keys_view(keys@);
        assert(after.len() == before.len() + 1);
        assert forall|j: int| 0 <= j < after.len() implies after[j] == (if j < at {
            before[j]
        } else if j == at {
            k
        } else {
            before[j - 1]
        }) by {}
        assert forall|i: int, j: int| 0 <= i < j < after.len() implies key_lt(
            after[i],
            after[j],
        ) by {
            if j < at {
            } else if j == at {
            } else if i == at {
                if j - 1 > at {
                    lemma_key_lt_transitive(k, before[at as int], before[j - 1]);
                }
            } else if i < at {
                if j - 1 > at {
                    lemma_key_lt_transitive(before[i], k, before[at as int]);
                    lemma_key_lt_transitive(before[i], before[at as int], before[j - 1]);
                } else {
                    lemma_key_lt_transitive(before[i], k, before[at as int]);
                }
            } else {
            }
        }
        assert(after.to_set() =~= before.to_set().insert(k)) by {
            assert forall|x: StepKey| after.to_set().contains(x)
                == before.to_set().insert(k).contains(x) by {
                if after.to_set().contains(x) {
                    let j = choose|j: int| 0 <= j < after.len() && after[j] == x;
                    if j < at {
                        assert(before[j] == x);
                    } else if j > at {
                        assert(before[j - 1] == x);
                    }
                }
                if before.to_set().contains(x) {
                    let j = choose|j: int| 0 <= j < before.len() && before[j] == x;
                    if j < at {
                        assert(after[j] == x);
                    } else {
                        assert(after[j + 1] == x);
                    }
                }
                if x == k {
                    assert(after[at as int] == x);
                }
            }
        }
    }
}

} // verus!
