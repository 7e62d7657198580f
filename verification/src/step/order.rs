//! The order in which step definitions are listed: by the bytes of the
//! pattern's text, then by location.

use vstd::prelude::*;
use vstd::utf8::*;
use crate::step::location::{location_before, location_lt, Location};

verus! {

/// What identifies a step definition among those of its kind: the text of
/// its pattern, and where it was written.
pub type StepKey = (Seq<char>, Option<Location>);

/// `a` and `b` agree on their first `i` bytes, and at `i` either `a` ends
/// while `b` goes on, or `a` holds the smaller byte.
pub open spec fn bytes_lt_at(a: Seq<u8>, b: Seq<u8>, i: int) -> bool {
    &&& 0 <= i <= a.len()
    &&& i < b.len()
    &&& forall|j: int| 0 <= j < i ==> a[j] == b[j]
    &&& (i < a.len() ==> a[i] < b[i])
}

/// Strict lexicographic order on byte strings.
pub open spec fn bytes_lt(a: Seq<u8>, b: Seq<u8>) -> bool {
    exists|i: int| bytes_lt_at(a, b, i)
}

/// Strict order on texts: lexicographic on their UTF-8 encodings.
pub open spec fn text_lt(a: Seq<char>, b: Seq<char>) -> bool {
    bytes_lt(encode_utf8(a), encode_utf8(b))
}

/// Strict order on the keys of step definitions: by pattern text, then by
/// location.
pub open spec fn key_lt(a: StepKey, b: StepKey) -> bool {
    text_lt(a.0, b.0) || (a.0 == b.0 && location_lt(a.1, b.1))
}

/// How one value stands to another in a strict total order.
#[derive(Clone, Copy, Debug, PartialEq, Eq)]
pub enum Rank {
    /// The first comes before the second.
    Before,
    /// The two are the same.
    Same,
    /// The first comes after the second.
    After,
}

/// No byte string comes before itself.
pub proof fn lemma_bytes_lt_irreflexive(a: Seq<u8>)
    ensures
        !bytes_lt(a, a),
{
}

/// The order on byte strings is transitive.
pub proof fn lemma_bytes_lt_transitive(a: Seq<u8>, b: Seq<u8>, c: Seq<u8>)
    requires
        bytes_lt(a, b),
        bytes_lt(b, c),
    ensures
        bytes_lt(a, c),
{
    let i = choose|i: int| bytes_lt_at(a, b, i);
    let j = choose|j: int| bytes_lt_at(b, c, j);
    if i <= j {
        assert(bytes_lt_at(a, c, i));
    } else {
        assert(bytes_lt_at(a, c, j));
    }
}

/// Two byte strings that agree on their first `i` bytes are the same, or
/// one comes before the other.
proof fn lemma_bytes_total_from(a: Seq<u8>, b: Seq<u8>, i: int)
    requires
        0 <= i <= a.len(),
        i <= b.len(),
        forall|j: int| 0 <= j < i ==> a[j] == b[j],
    ensures
        bytes_lt(a, b) || a == b || bytes_lt(b, a),
    decreases a.len() - i,
{
    if i == a.len() {
        if i == b.len() {
            assert(a =~= b);
        } else {
            assert(bytes_lt_at(a, b, i));
        }
    } else if i == b.len() {
        assert(bytes_lt_at(b, a, i));
    } else if a[i] < b[i] {
        assert(bytes_lt_at(a, b, i));
    } else if b[i] < a[i] {
        assert(bytes_lt_at(b, a, i));
    } else {
        lemma_bytes_total_from(a, b, i + 1);
    }
}

/// Of two different byte strings one comes before the other.
pub proof fn lemma_bytes_lt_total(a: Seq<u8>, b: Seq<u8>)
    ensures
        bytes_lt(a, b) || a == b || bytes_lt(b, a),
{
    lemma_bytes_total_from(a, b, 0);
}

/// Two texts with the same encoding are the same text.
pub proof fn lemma_encoding_injective(a: Seq<char>, b: Seq<char>)
    requires
        encode_utf8(a) == encode_utf8(b),
    ensures
        a == b,
{
    encode_utf8_decode_utf8(a);
    encode_utf8_decode_utf8(b);
}

/// No key comes before itself.
pub proof fn lemma_key_lt_irreflexive(a: StepKey)
    ensures
        !key_lt(a, a),
{
    lemma_bytes_lt_irreflexive(encode_utf8(a.0));
}

/// The order on keys is transitive.
pub proof fn lemma_key_lt_transitive(
    a: StepKey,
    b: StepKey,
    c: StepKey,
)
    requires
        key_lt(a, b),
        key_lt(b, c),
    ensures
        key_lt(a, c),
{
    if text_lt(a.0, b.0) && text_lt(b.0, c.0) {
        lemma_bytes_lt_transitive(encode_utf8(a.0), encode_utf8(b.0), encode_utf8(c.0));
    }
}

/// Of two different keys one comes before the other.
pub proof fn lemma_key_lt_total(a: StepKey, b: StepKey)
    ensures
        key_lt(a, b) || a == b || key_lt(b, a),
{
    lemma_bytes_lt_total(encode_utf8(a.0), encode_utf8(b.0));
    if encode_utf8(a.0) == encode_utf8(b.0) {
        lemma_encoding_injective(a.0, b.0);
    }
}

/// Compares two byte strings lexicographically.
pub fn rank_bytes(a: &[u8], b: &[u8]) -> (r: Rank)
    ensures
        r == Rank::Before <==> bytes_lt(a@, b@),
        r == Rank::Same <==> a@ == b@,
        r == Rank::After <==> bytes_lt(b@, a@),
{
    proof {
        lemma_bytes_lt_irreflexive(a@);
    }
    let mut i: usize = 0;
    while i < a.len() && i < b.len()
        invariant
            i <= a.len(),
            i <= b.len(),
            forall|j: int| 0 <= j < i ==> a@[j] == b@[j],
        decreases a.len() - i,
    {
        if a[i] < b[i] {
            proof {
                assert(bytes_lt_at(a@, b@, i as int));
                lemma_asymmetric(a@, b@);
            }
            return Rank::Before;
        }
        if b[i] < a[i] {
            proof {
                assert(bytes_lt_at(b@, a@, i as int));
                lemma_asymmetric(b@, a@);
            }
            return Rank::After;
        }
        i += 1;
    }
    if i < b.len() {
        proof {
            assert(bytes_lt_at(a@, b@, i as int));
            lemma_asymmetric(a@, b@);
        }
        Rank::Before
    } else if i < a.len() {
        proof {
            assert(bytes_lt_at(b@, a@, i as int));
            lemma_asymmetric(b@, a@);
        }
        Rank::After
    } else {
        proof {
            assert(a@ =~= b@);
        }
        Rank::Same
    }
}

/// Of two byte strings at most one comes before the other.
proof fn lemma_asymmetric(a: Seq<u8>, b: Seq<u8>)
    requires
        bytes_lt(a, b),
    ensures
        !bytes_lt(b, a),
        a != b,
{
    lemma_bytes_lt_irreflexive(a);
    if bytes_lt(b, a) {
        lemma_bytes_lt_transitive(a, b, a);
    }
}

/// Compares two keys: by pattern text, then by location.
pub fn rank_keys(a_text: &str, a_at: Option<Location>, b_text: &str, b_at: Option<Location>) -> (r:
    Rank)
    ensures
        r == Rank::Before <==> key_lt((a_text@, a_at), (b_text@, b_at)),
        r == Rank::Same <==> (a_text@, a_at) == (b_text@, b_at),
        r == Rank::After <==> key_lt((b_text@, b_at), (a_text@, a_at)),
{
    proof {
        lemma_key_lt_irreflexive((a_text@, a_at));
        lemma_key_lt_total((a_text@, a_at), (b_text@, b_at));
        if key_lt((a_text@, a_at), (b_text@, b_at)) && key_lt((b_text@, b_at), (a_text@, a_at)) {
            lemma_key_lt_transitive((a_text@, a_at), (b_text@, b_at), (a_text@, a_at));
        }
        if encode_utf8(a_text@) == encode_utf8(b_text@) {
            lemma_encoding_injective(a_text@, b_text@);
        }
    }
    match rank_bytes(a_text.as_bytes(), b_text.as_bytes()) {
        Rank::Before => Rank::Before,
        Rank::After => Rank::After,
        Rank::Same => {
            if location_before(a_at, b_at) {
                Rank::Before
            } else if location_before(b_at, a_at) {
                Rank::After
            } else {
                Rank::Same
            }
        },
    }
}

} // verus!
