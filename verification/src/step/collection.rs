//! The registry of step definitions, and the search for the one definition
//! that matches a step.

use vstd::prelude::*;
use vstd::pervasive::cloned;
use vstd::utf8::{encode_utf8, encode_utf8_decode_utf8, encode_utf8_valid_utf8, is_char_boundary_start_end_of_seq};
use crate::step::context::{build_matches, is_whole_match, matches_of, matches_view, pattern_matches, span_text, whole_matches, Context, Step, StepType};
use crate::step::error::lemma_sorted_listing_unique;
use crate::step::error::{insert_sorted, key_view, keys_view, strictly_sorted, AmbiguousMatchError};
use crate::step::location::{location_same, Location};
use crate::step::order::{key_lt, lemma_key_lt_irreflexive, StepKey};
use crate::step::pattern::{anchored, name_view, capture_names, captures_read, found_view, in_shape_of, regex_capture_names, regex_captures, Pattern};

verus! {

/// One step definition: a pattern, where it was written, and its handler.
#[derive(Debug)]
struct Entry<H> {
    pattern: Pattern,
    location: Option<Location>,
    handler: H,
}

/// A registry of step definitions with handlers of type `H`, one bucket for
/// each kind of step. Within a bucket a definition is identified by its
/// pattern's text and its location: no two entries share both.
#[derive(Debug)]
pub struct Collection<H> {
    givens: Vec<Entry<H>>,
    whens: Vec<Entry<H>>,
    thens: Vec<Entry<H>>,
}

/// The key of an entry.
spec fn key_of<H>(e: Entry<H>) -> StepKey {
    (e.pattern@, e.location)
}

/// No two entries have the same key.
spec fn distinct<H>(s: Seq<Entry<H>>) -> bool {
    forall|i: int, j: int| 0 <= i < j < s.len() ==> key_of(s[i]) != key_of(s[j])
}

/// Some entry has the key `k`.
spec fn holds<H>(s: Seq<Entry<H>>, k: StepKey) -> bool {
    exists|i: int| 0 <= i < s.len() && key_of(#[trigger] s[i]) == k
}

/// Where an entry with the key `k` stands.
spec fn index_of<H>(s: Seq<Entry<H>>, k: StepKey) -> int {
    choose|i: int| 0 <= i < s.len() && key_of(#[trigger] s[i]) == k
}

/// The handlers of a bucket, by key.
spec fn steps_of<H>(s: Seq<Entry<H>>) -> Map<StepKey, H> {
    Map::new(
        |k: StepKey| holds(s, k),
        |k: StepKey| s[index_of(s, k)].handler,
    )
}

/// The keys of `steps` whose pattern matches `text`.
pub open spec fn matching_keys<H>(steps: Map<StepKey, H>, text: Seq<char>) -> Set<StepKey> {
    Set::new(
        |k: StepKey| steps.dom().contains(k) && pattern_matches(k.0, text),
    )
}

/// Under the key of an entry a bucket holds that entry's handler.
proof fn lemma_lookup<H>(s: Seq<Entry<H>>, i: int)
    requires
        distinct(s),
        0 <= i < s.len(),
    ensures
        steps_of(s).dom().contains(key_of(s[i])),
        steps_of(s)[key_of(s[i])] == s[i].handler,
        index_of(s, key_of(s[i])) == i,
{
    let k = key_of(s[i]);
    assert(holds(s, k));
    let j = index_of(s, k);
    assert(0 <= j < s.len() && key_of(s[j]) == k);
    if j < i {
        assert(key_of(s[j]) != key_of(s[i]));
    } else if i < j {
        assert(key_of(s[i]) != key_of(s[j]));
    }
}

/// An entry with a new key, put at the end, is an insertion.
proof fn lemma_steps_push<H>(s: Seq<Entry<H>>, e: Entry<H>)
    requires
        distinct(s),
        !holds(s, key_of(e)),
    ensures
        distinct(s.push(e)),
        steps_of(s.push(e)) == steps_of(s).insert(key_of(e), e.handler),
{
    let t = s.push(e);
    assert forall|i: int, j: int| 0 <= i < j < t.len() implies key_of(t[i]) != key_of(t[j]) by {
        if j == s.len() {
            assert(t[i] == s[i]);
            if key_of(s[i]) == key_of(e) {
                assert(holds(s, key_of(e)));
            }
        } else {
            assert(t[i] == s[i] && t[j] == s[j]);
        }
    }
    assert forall|k: StepKey| holds(t, k) == (holds(s, k) || k == key_of(
        e,
    )) by {
        if holds(t, k) {
            let i = index_of(t, k);
            if i < s.len() {
                assert(key_of(s[i]) == k);
            }
        }
        if holds(s, k) {
            let i = index_of(s, k);
            assert(key_of(t[i]) == k);
        }
        if k == key_of(e) {
            assert(key_of(t[s.len() as int]) == k);
        }
    }
    assert forall|k: StepKey| holds(t, k) implies steps_of(t)[k]
        == steps_of(s).insert(key_of(e), e.handler)[k] by {
        let i = index_of(t, k);
        lemma_lookup(t, i);
        if i < s.len() {
            assert(t[i] == s[i]);
            lemma_lookup(s, i);
        }
    }
    assert(steps_of(t) =~= steps_of(s).insert(key_of(e), e.handler));
}

/// An entry put in place of the one with its key is an insertion.
proof fn lemma_steps_update<H>(s: Seq<Entry<H>>, at: int, e: Entry<H>)
    requires
        distinct(s),
        0 <= at < s.len(),
        key_of(s[at]) == key_of(e),
    ensures
        distinct(s.update(at, e)),
        steps_of(s.update(at, e)) == steps_of(s).insert(key_of(e), e.handler),
{
    let t = s.update(at, e);
    assert forall|i: int| 0 <= i < s.len() implies key_of(#[trigger] t[i]) == key_of(s[i]) by {}
    assert forall|i: int, j: int| 0 <= i < j < t.len() implies key_of(t[i]) != key_of(t[j]) by {
        assert(key_of(t[i]) == key_of(s[i]));
        assert(key_of(t[j]) == key_of(s[j]));
    }
    assert forall|k: StepKey| holds(t, k) == holds(s, k) by {
        if holds(t, k) {
            let i = index_of(t, k);
            assert(key_of(t[i]) == key_of(s[i]));
        }
        if holds(s, k) {
            let i = index_of(s, k);
            assert(key_of(t[i]) == key_of(s[i]));
        }
    }
    lemma_lookup(s, at);
    assert forall|k: StepKey| holds(t, k) implies steps_of(t)[k]
        == steps_of(s).insert(key_of(e), e.handler)[k] by {
        let i = index_of(t, k);
        lemma_lookup(t, i);
        assert(key_of(t[i]) == key_of(s[i]));
        lemma_lookup(s, i);
    }
    assert(steps_of(t) =~= steps_of(s).insert(key_of(e), e.handler));
}

/// A bucket holds as many keys as it has entries.
proof fn lemma_steps_len<H>(s: Seq<Entry<H>>)
    requires
        distinct(s),
    ensures
        steps_of(s).dom().finite(),
        steps_of(s).dom().len() == s.len(),
    decreases s.len(),
{
    if s.len() == 0 {
        assert(steps_of(s).dom() =~= Set::empty());
    } else {
        let t = s.drop_last();
        let e = s.last();
        assert(distinct(t)) by {
            assert forall|i: int, j: int| 0 <= i < j < t.len() implies key_of(t[i]) != key_of(
                t[j],
            ) by {
                assert(t[i] == s[i] && t[j] == s[j]);
            }
        }
        assert(!holds(t, key_of(e))) by {
            if holds(t, key_of(e)) {
                let i = index_of(t, key_of(e));
                assert(t[i] == s[i]);
                assert(key_of(s[i]) != key_of(s[s.len() - 1]));
            }
        }
        lemma_steps_len(t);
        lemma_steps_push(t, e);
        assert(t.push(e) =~= s);
        assert(steps_of(s).dom() =~= steps_of(t).dom().insert(key_of(e)));
    }
}

/// Where in `entries` the definition with this pattern text and location
/// stands, if it is there.
fn position<H>(entries: &Vec<Entry<H>>, pattern: &Pattern, location: Option<Location>) -> (r:
    Option<usize>)
    ensures
        match r {
            Some(i) => i < entries.len() && key_of(entries@[i as int]) == (pattern@, location),
            None => !holds(entries@, (pattern@, location)),
        },
{
    let mut i: usize = 0;
    while i < entries.len()
        invariant
            i <= entries.len(),
            forall|j: int| 0 <= j < i ==> key_of(entries@[j]) != (pattern@, location),
        decreases entries.len() - i,
    {
        if entries[i].pattern.same_text(pattern) && location_same(
            entries[i].location,
            location,
        ) {
            return Some(i);
        }
        i += 1;
    }
    None
}

/// Adds `entry`, in place of the entry with the same key if there is one.
fn put<H>(entries: &mut Vec<Entry<H>>, entry: Entry<H>)
    requires
        distinct(old(entries)@),
    ensures
        distinct(final(entries)@),
        steps_of(final(entries)@) == steps_of(old(entries)@).insert(key_of(entry), entry.handler),
{
    match position(entries, &entry.pattern, entry.location) {
        Some(at) => {
            proof {
                lemma_steps_update(entries@, at as int, entry);
            }
            entries.set(at, entry);
        },
        None => {
            proof {
                lemma_steps_push(entries@, entry);
            }
            entries.push(entry);
        },
    }
}

/// The two parts of a bucket that is cut in two share no key.
proof fn lemma_distinct_prefix<H>(s: Seq<Entry<H>>, n: int)
    requires
        distinct(s),
        0 <= n <= s.len(),
    ensures
        distinct(s.subrange(0, n)),
        distinct(s.subrange(n, s.len() as int)),
        forall|k: StepKey|
            !(holds(s.subrange(0, n), k) && holds(s.subrange(n, s.len() as int), k)),
{
    let a = s.subrange(0, n);
    let b = s.subrange(n, s.len() as int);
    assert forall|i: int, j: int| 0 <= i < j < a.len() implies key_of(a[i]) != key_of(a[j]) by {
        assert(a[i] == s[i] && a[j] == s[j]);
    }
    assert forall|i: int, j: int| 0 <= i < j < b.len() implies key_of(b[i]) != key_of(b[j]) by {
        assert(b[i] == s[i + n] && b[j] == s[j + n]);
    }
    assert forall|k: StepKey| !(holds(a, k) && holds(b, k)) by {
        if holds(a, k) && holds(b, k) {
            let i = index_of(a, k);
            let j = index_of(b, k);
            assert(a[i] == s[i] && b[j] == s[j + n]);
            assert(key_of(s[i]) != key_of(s[j + n]));
        }
    }
}

/// Adds every entry of `more`, each in place of the entry with the same key
/// if there is one.
fn put_all<H>(entries: &mut Vec<Entry<H>>, more: Vec<Entry<H>>)
    requires
        distinct(old(entries)@),
        distinct(more@),
    ensures
        distinct(final(entries)@),
        steps_of(final(entries)@) == steps_of(old(entries)@).union_prefer_right(steps_of(more@)),
{
    let ghost all = more@;
    let mut more = more;
    proof {
        assert(all.subrange(all.len() as int, all.len() as int) =~= Seq::empty());
        assert(steps_of(Seq::<Entry<H>>::empty()) =~= Map::empty());
        assert(steps_of(entries@) =~= steps_of(entries@).union_prefer_right(Map::empty()));
    }
    while more.len() > 0
        invariant
            distinct(entries@),
            distinct(all),
            more@ == all.subrange(0, more.len() as int),
            more.len() <= all.len(),
            steps_of(entries@) == steps_of(old(entries)@).union_prefer_right(
                steps_of(all.subrange(more.len() as int, all.len() as int)),
            ),
        decreases more.len(),
    {
        let ghost n = more.len() as int;
        let ghost done = all.subrange(n, all.len() as int);
        let ghost next = all.subrange(n - 1, all.len() as int);
        let entry = more.pop().unwrap();
        proof {
            assert(entry == all[n - 1]);
            lemma_distinct_prefix(all, n);
            lemma_distinct_prefix(all, n - 1);
            let k = key_of(entry);
            assert(!holds(done, k)) by {
                if holds(done, k) {
                    let j = index_of(done, k);
                    assert(done[j] == all[j + n]);
                    assert(key_of(all[n - 1]) != key_of(all[j + n]));
                }
            }
            assert forall|x: StepKey| holds(next, x) == (holds(done, x) || x
                == k) by {
                if holds(next, x) {
                    let j = index_of(next, x);
                    if j > 0 {
                        assert(next[j] == done[j - 1]);
                    }
                }
                if holds(done, x) {
                    let j = index_of(done, x);
                    assert(next[j + 1] == done[j]);
                }
                if x == k {
                    assert(key_of(next[0]) == k);
                }
            }
            assert forall|x: StepKey| holds(next, x) implies steps_of(
                next,
            )[x] == steps_of(done).insert(k, entry.handler)[x] by {
                let j = index_of(next, x);
                lemma_lookup(next, j);
                if j > 0 {
                    assert(next[j] == done[j - 1]);
                    lemma_lookup(done, j - 1);
                }
            }
            assert(steps_of(next) =~= steps_of(done).insert(k, entry.handler));
            assert(steps_of(old(entries)@).union_prefer_right(steps_of(next)) =~= steps_of(
                old(entries)@,
            ).union_prefer_right(steps_of(done)).insert(k, entry.handler));
            assert(more@ =~= all.subrange(0, n - 1));
        }
        put(entries, entry);
    }
    proof {
        assert(all.subrange(0, all.len() as int) =~= all);
    }
}

/// Copies a bucket, cloning every handler.
fn clone_entries<H: Clone>(entries: &Vec<Entry<H>>) -> (r: Vec<Entry<H>>)
    requires
        distinct(entries@),
    ensures
        distinct(r@),
        steps_of(r@).dom() == steps_of(entries@).dom(),
        forall|k: StepKey| #[trigger]
            steps_of(r@).dom().contains(k) ==> cloned::<H>(steps_of(entries@)[k], steps_of(r@)[k]),
{
    let mut copy: Vec<Entry<H>> = Vec::new();
    let mut i: usize = 0;
    while i < entries.len()
        invariant
            i <= entries.len(),
            copy.len() == i,
            forall|j: int| 0 <= j < i ==> key_of(#[trigger] copy@[j]) == key_of(entries@[j]),
            forall|j: int|
                0 <= j < i ==> cloned::<H>(entries@[j].handler, (#[trigger] copy@[j]).handler),
        decreases entries.len() - i,
    {
        let entry = &entries[i];
        copy.push(
            Entry {
                pattern: entry.pattern.clone(),
                location: entry.location,
                handler: entry.handler.clone(),
            },
        );
        i += 1;
    }
    proof {
        assert forall|a: int, b: int| 0 <= a < b < copy@.len() implies key_of(copy@[a]) != key_of(
            copy@[b],
        ) by {
            assert(key_of(copy@[a]) == key_of(entries@[a]));
            assert(key_of(copy@[b]) == key_of(entries@[b]));
        }
        assert forall|k: StepKey| holds(copy@, k) == holds(entries@, k) by {
            if holds(copy@, k) {
                let j = index_of(copy@, k);
                assert(key_of(entries@[j]) == k);
            }
            if holds(entries@, k) {
                let j = index_of(entries@, k);
                assert(key_of(copy@[j]) == k);
            }
        }
        assert(steps_of(copy@).dom() =~= steps_of(entries@).dom());
        assert forall|k: StepKey| #[trigger]
            steps_of(copy@).dom().contains(k) implies cloned::<H>(
            steps_of(entries@)[k],
            steps_of(copy@)[k],
        ) by {
            let j = index_of(copy@, k);
            lemma_lookup(copy@, j);
            assert(key_of(copy@[j]) == key_of(entries@[j]));
            lemma_lookup(entries@, j);
        }
    }
    copy
}

/// `find` has found the one definition that matches `step`: that with the
/// text `pattern` at `location`. It hands out the definition's handler, the
/// offsets of the pattern's groups in the step's text, and the context: the
/// step, and for every group its name and the text it captured, the first
/// being the unnamed group of the whole match.
pub open spec fn found_one<H>(
    steps: Map<StepKey, H>,
    step: Step,
    pattern: Seq<char>,
    handler: &H,
    spans: Vec<Option<(usize, usize)>>,
    location: Option<Location>,
    context: Context,
) -> bool {
    let names = regex_capture_names(anchored(pattern));
    &&& matching_keys(steps, step.value@) == set![(pattern, location)]
    &&& *handler == steps[(pattern, location)]
    &&& Some(spans@) == regex_captures(anchored(pattern), step.value@)
    &&& context.step@ == step@
    &&& names.len() == spans@.len()
    &&& names.len() >= 1
    &&& names[0] is None
    &&& matches_view(context.matches@) == matches_of(names, spans@, step.value@)
}

/// What `find` returns for `step` in the bucket `steps`: nothing where no
/// pattern matches the step's text; the handler, the offsets of the capture
/// groups, the location and the context where exactly one does; and the
/// sorted list of all that match where there are more.
pub open spec fn found_as<H>(
    steps: Map<StepKey, H>,
    step: Step,
    r: Result<
        Option<(&H, Vec<Option<(usize, usize)>>, Option<Location>, Context)>,
        AmbiguousMatchError,
    >,
) -> bool {
    let hits = matching_keys(steps, step.value@);
    match r {
        Ok(None) => hits == Set::<StepKey>::empty(),
        Ok(Some((handler, spans, location, context))) => exists|pattern: Seq<char>| #[trigger]
            found_one(steps, step, pattern, handler, spans, location, context),
        Err(e) => {
            &&& e.keys().len() >= 2
            &&& strictly_sorted(e.keys())
            &&& e.keys().to_set() == hits
        },
    }
}

/// The indices in `hit_at` are exactly the entries of `s` before `upto`
/// whose pattern matches `text`, in rising order.
spec fn hits_upto<H>(s: Seq<Entry<H>>, text: Seq<char>, hit_at: Seq<usize>, upto: int) -> bool {
    &&& forall|a: int, b: int| 0 <= a < b < hit_at.len() ==> hit_at[a] < hit_at[b]
    &&& forall|a: int| 0 <= a < hit_at.len() ==> hit_at[a] < upto && pattern_matches(
        key_of(s[hit_at[a] as int]).0,
        text,
    )
    &&& forall|j: int|
        0 <= j < upto && pattern_matches(key_of(s[j]).0, text) ==> exists|a: int|
            0 <= a < hit_at.len() && #[trigger] hit_at[a] == j
}

/// Searches `text` with the pattern of every entry, and returns what each
/// search found, in the order of the entries.
fn search<H>(entries: &Vec<Entry<H>>, text: &str) -> (outcomes: Vec<
    Option<Vec<Option<(usize, usize)>>>,
>)
    ensures
        outcomes@.len() == entries@.len(),
        forall|i: int|
            0 <= i < entries@.len() ==> {
                &&& found_view(#[trigger] outcomes@[i]) == regex_captures(
                    anchored(key_of(entries@[i]).0),
                    text@,
                )
                &&& in_shape_of(anchored(key_of(entries@[i]).0), found_view(outcomes@[i]))
            },
{
    let mut outcomes: Vec<Option<Vec<Option<(usize, usize)>>>> = Vec::new();
    let mut i: usize = 0;
    while i < entries.len()
        invariant
            i <= entries.len(),
            outcomes@.len() == i,
            forall|j: int|
                0 <= j < i ==> {
                    &&& found_view(#[trigger] outcomes@[j]) == regex_captures(
                        anchored(key_of(entries@[j]).0),
                        text@,
                    )
                    &&& in_shape_of(anchored(key_of(entries@[j]).0), found_view(outcomes@[j]))
                },
        decreases entries.len() - i,
    {
        let found = captures_read(&entries[i].pattern, text);
        outcomes.push(found);
        i += 1;
    }
    outcomes
}

/// The keys of the entries at `hit_at`, in key order.
fn list_sorted<H>(entries: &Vec<Entry<H>>, hit_at: &Vec<usize>, Ghost(text): Ghost<Seq<char>>) -> (r:
    Vec<(String, Option<Location>)>)
    requires
        distinct(entries@),
        hits_upto(entries@, text, hit_at@, entries@.len() as int),
    ensures
        strictly_sorted(keys_view(r@)),
        keys_view(r@).to_set() == matching_keys(steps_of(entries@), text),
        r@.len() == hit_at@.len(),
{
    let mut listed: Vec<(String, Option<Location>)> = Vec::new();
    let mut n: usize = 0;
    proof {
        assert(keys_view(listed@) =~= Seq::empty());
    }
    while n < hit_at.len()
        invariant
            n <= hit_at.len(),
            distinct(entries@),
            hits_upto(entries@, text, hit_at@, entries@.len() as int),
            listed@.len() == n,
            strictly_sorted(keys_view(listed@)),
            forall|k: StepKey|
                keys_view(listed@).to_set().contains(k) <==> exists|a: int|
                    0 <= a < n && key_of(entries@[#[trigger] hit_at@[a] as int]) == k,
        decreases hit_at.len() - n,
    {
        let at = hit_at[n];
        let entry = &entries[at];
        let key = (entry.pattern.as_str().to_owned(), entry.location);
        let ghost before = keys_view(listed@);
        proof {
            assert(key_view(key) == key_of(entries@[at as int]));
            if before.contains(key_view(key)) {
                assert(before.to_set().contains(key_view(key)));
                let a = choose|a: int|
                    0 <= a < n && key_of(entries@[#[trigger] hit_at@[a] as int]) == key_view(key);
                assert(hit_at@[a] < hit_at@[n as int]);
                assert(key_of(entries@[hit_at@[a] as int]) != key_of(entries@[at as int]));
            }
        }
        insert_sorted(&mut listed, key);
        proof {
            assert forall|k: StepKey|
                keys_view(listed@).to_set().contains(k) <==> exists|a: int|
                    0 <= a < n + 1 && key_of(entries@[#[trigger] hit_at@[a] as int]) == k by {
                if keys_view(listed@).to_set().contains(k) {
                    if before.to_set().contains(k) {
                        let a = choose|a: int|
                            0 <= a < n && key_of(entries@[#[trigger] hit_at@[a] as int]) == k;
                        assert(0 <= a < n + 1 && key_of(entries@[hit_at@[a] as int]) == k);
                    } else {
                        assert(key_of(entries@[hit_at@[n as int] as int]) == k);
                    }
                }
                if exists|a: int|
                    0 <= a < n + 1 && key_of(entries@[#[trigger] hit_at@[a] as int]) == k {
                    let a = choose|a: int|
                        0 <= a < n + 1 && key_of(entries@[#[trigger] hit_at@[a] as int]) == k;
                    if a < n {
                        assert(before.to_set().contains(k));
                    }
                }
            }
        }
        n += 1;
    }
    proof {
        let hits = matching_keys(steps_of(entries@), text);
        assert forall|k: StepKey| keys_view(listed@).to_set().contains(k)
            == hits.contains(k) by {
            if keys_view(listed@).to_set().contains(k) {
                let a = choose|a: int|
                    0 <= a < n && key_of(entries@[#[trigger] hit_at@[a] as int]) == k;
                lemma_lookup(entries@, hit_at@[a] as int);
            }
            if hits.contains(k) {
                let j = index_of(entries@, k);
                assert(pattern_matches(key_of(entries@[j]).0, text));
                let a = choose|a: int| 0 <= a < hit_at@.len() && #[trigger] hit_at@[a] == j;
                assert(key_of(entries@[hit_at@[a] as int]) == k);
            }
        }
        assert(keys_view(listed@).to_set() =~= hits);
    }
    listed
}

/// Finds in one bucket the definition that matches `step`.
fn find_in<'a, H>(entries: &'a Vec<Entry<H>>, step: &Step) -> (r: Result<
    Option<(&'a H, Vec<Option<(usize, usize)>>, Option<Location>, Context)>,
    AmbiguousMatchError,
>)
    requires
        distinct(entries@),
    ensures
        found_as(steps_of(entries@), *step, r),
{
    let text = step.value.as_str();
    let mut outcomes = search(entries, text);
    let hit_at = whole_matches(&outcomes, text);
    let ghost hits = matching_keys(steps_of(entries@), text@);
    proof {
        assert forall|a: int| 0 <= a < hit_at@.len() implies hit_at@[a] < entries@.len()
            && pattern_matches(key_of(entries@[hit_at@[a] as int]).0, text@) by {
            assert(is_whole_match(found_view(outcomes@[hit_at@[a] as int]), text@));
        }
        assert forall|j: int|
            0 <= j < entries@.len() && pattern_matches(
                key_of(entries@[j]).0,
                text@,
            ) implies exists|a: int| 0 <= a < hit_at@.len() && #[trigger] hit_at@[a] == j by {
            assert(is_whole_match(found_view(outcomes@[j]), text@));
            assert(entries.len() == entries@.len());
            assert(hit_at@.contains(j as usize));
            let a = choose|a: int| 0 <= a < hit_at@.len() && hit_at@[a] == j as usize;
            assert(hit_at@[a] == j);
        }
        assert(hits_upto(entries@, text@, hit_at@, entries@.len() as int));
    }
    if hit_at.len() == 0 {
        proof {
            assert forall|k: StepKey| !hits.contains(k) by {
                if hits.contains(k) {
                    let j = index_of(entries@, k);
                    assert(pattern_matches(key_of(entries@[j]).0, text@));
                }
            }
            assert(hits =~= Set::empty());
        }
        let found = Ok(None);
        assert(found_as(steps_of(entries@), *step, found));
        found
    } else if hit_at.len() == 1 {
        let at = hit_at[0];
        let entry = &entries[at];
        proof {
            assert(is_whole_match(found_view(outcomes@[at as int]), text@));
        }
        let spans = outcomes.swap_remove(at).unwrap();
        let names = capture_names(&entry.pattern);
        let matches = build_matches(&names, &spans, text);
        let context = Context { step: step.clone(), matches };
        proof {
            let k = key_of(entries@[at as int]);
            lemma_lookup(entries@, at as int);
            assert forall|x: StepKey| hits.contains(x) == (x == k) by {
                if hits.contains(x) {
                    let j = index_of(entries@, x);
                    assert(pattern_matches(key_of(entries@[j]).0, text@));
                    let a = choose|a: int| 0 <= a < hit_at@.len() && #[trigger] hit_at@[a] == j;
                }
            }
            assert(hits =~= set![k]);
            assert(found_one(
                steps_of(entries@),
                *step,
                k.0,
                &entry.handler,
                spans,
                entry.location,
                context,
            ));
        }
        let found = Ok(Some((&entry.handler, spans, entry.location, context)));
        proof {
            let pattern = key_of(entries@[at as int]).0;
            let one = found->Ok_0->Some_0;
            assert(found_one(steps_of(entries@), *step, pattern, one.0, one.1, one.2, one.3));
        }
        assert(found_as(steps_of(entries@), *step, found));
        found
    } else {
        let possible_matches = list_sorted(entries, &hit_at, Ghost(text@));
        let found = Err(AmbiguousMatchError { possible_matches });
        assert(found_as(steps_of(entries@), *step, found));
        found
    }
}

impl<H> Collection<H> {
    #[verifier::type_invariant]
    spec fn distinct_keys(&self) -> bool {
        &&& distinct(self.givens@)
        &&& distinct(self.whens@)
        &&& distinct(self.thens@)
    }

    /// The definitions for steps of kind `ty`: the handler under each key, a
    /// key being a pattern's text and a location.
    pub closed spec fn steps(&self, ty: StepType) -> Map<StepKey, H> {
        match ty {
            StepType::Given => steps_of(self.givens@),
            StepType::When => steps_of(self.whens@),
            StepType::Then => steps_of(self.thens@),
        }
    }

    /// No definition of any kind.
    pub open spec fn is_empty(&self) -> bool {
        &&& self.steps(StepType::Given) == Map::<StepKey, H>::empty()
        &&& self.steps(StepType::When) == Map::<StepKey, H>::empty()
        &&& self.steps(StepType::Then) == Map::<StepKey, H>::empty()
    }

    /// `self` with the definition `(pattern, location) -> handler` put into
    /// the bucket `ty`, in place of any definition with the same key.
    pub open spec fn with_step(
        &self,
        r: Self,
        ty: StepType,
        key: StepKey,
        handler: H,
    ) -> bool {
        forall|other: StepType|
            r.steps(other) == if other == ty {
                self.steps(other).insert(key, handler)
            } else {
                self.steps(other)
            }
    }

    /// Creates an empty registry.
    #[must_use]
    pub fn new() -> (r: Self)
        ensures
            r.is_empty(),
    {
        let r = Collection { givens: Vec::new(), whens: Vec::new(), thens: Vec::new() };
        proof {
            assert(steps_of(r.givens@) =~= Map::empty());
            assert(steps_of(r.whens@) =~= Map::empty());
            assert(steps_of(r.thens@) =~= Map::empty());
        }
        r
    }

    /// The number of definitions for `Given` steps.
    #[must_use]
    pub fn given_len(&self) -> (n: usize)
        ensures
            self.steps(StepType::Given).dom().finite(),
            n == self.steps(StepType::Given).dom().len(),
    {
        proof {
            use_type_invariant(self);
            lemma_steps_len(self.givens@);
        }
        self.givens.len()
    }

    /// The number of definitions for `When` steps.
    #[must_use]
    pub fn when_len(&self) -> (n: usize)
        ensures
            self.steps(StepType::When).dom().finite(),
            n == self.steps(StepType::When).dom().len(),
    {
        proof {
            use_type_invariant(self);
            lemma_steps_len(self.whens@);
        }
        self.whens.len()
    }

    /// The number of definitions for `Then` steps.
    #[must_use]
    pub fn then_len(&self) -> (n: usize)
        ensures
            self.steps(StepType::Then).dom().finite(),
            n == self.steps(StepType::Then).dom().len(),
    {
        proof {
            use_type_invariant(self);
            lemma_steps_len(self.thens@);
        }
        self.thens.len()
    }

    /// The number of definitions of all three kinds together.
    #[must_use]
    pub fn total_len(&self) -> (n: usize)
        requires
            self.steps(StepType::Given).dom().len() + self.steps(StepType::When).dom().len()
                + self.steps(StepType::Then).dom().len() <= usize::MAX,
        ensures
            n == self.steps(StepType::Given).dom().len() + self.steps(StepType::When).dom().len()
                + self.steps(StepType::Then).dom().len(),
    {
        proof {
            use_type_invariant(self);
            lemma_steps_len(self.givens@);
            lemma_steps_len(self.whens@);
            lemma_steps_len(self.thens@);
        }
        self.givens.len() + self.whens.len() + self.thens.len()
    }

    /// Adds a definition for `Given` steps. A definition with the same
    /// pattern text and location is replaced.
    #[must_use]
    pub fn given(self, loc: Option<Location>, pattern: Pattern, step: H) -> (r: Self)
        ensures
            self.with_step(r, StepType::Given, (pattern@, loc), step),
    {
        proof {
            use_type_invariant(&self);
        }
        let Collection { mut givens, whens, thens } = self;
        put(&mut givens, Entry { pattern, location: loc, handler: step });
        Collection { givens, whens, thens }
    }

    /// Adds a definition for `When` steps. A definition with the same
    /// pattern text and location is replaced.
    #[must_use]
    pub fn when(self, loc: Option<Location>, pattern: Pattern, step: H) -> (r: Self)
        ensures
            self.with_step(r, StepType::When, (pattern@, loc), step),
    {
        proof {
            use_type_invariant(&self);
        }
        let Collection { givens, mut whens, thens } = self;
        put(&mut whens, Entry { pattern, location: loc, handler: step });
        Collection { givens, whens, thens }
    }

    /// Adds a definition for `Then` steps. A definition with the same
    /// pattern text and location is replaced.
    #[must_use]
    pub fn then(self, loc: Option<Location>, pattern: Pattern, step: H) -> (r: Self)
        ensures
            self.with_step(r, StepType::Then, (pattern@, loc), step),
    {
        proof {
            use_type_invariant(&self);
        }
        let Collection { givens, whens, mut thens } = self;
        put(&mut thens, Entry { pattern, location: loc, handler: step });
        Collection { givens, whens, thens }
    }

    /// The union of two registries. Where both hold a definition with the
    /// same pattern text and location, the handler of `other` stays.
    #[must_use]
    pub fn merge(self, other: Self) -> (r: Self)
        ensures
            forall|ty: StepType|
                #[trigger] r.steps(ty) == self.steps(ty).union_prefer_right(other.steps(ty)),
    {
        proof {
            use_type_invariant(&self);
            use_type_invariant(&other);
        }
        let Collection { mut givens, mut whens, mut thens } = self;
        let Collection { givens: more_givens, whens: more_whens, thens: more_thens } = other;
        put_all(&mut givens, more_givens);
        put_all(&mut whens, more_whens);
        put_all(&mut thens, more_thens);
        Collection { givens, whens, thens }
    }

    /// What `compose` makes of a list of registries: they are merged one
    /// after the other into an empty registry, so that of two definitions
    /// with the same key the one from the later registry stays.
    pub open spec fn composed(collections: Seq<Self>, ty: StepType) -> Map<StepKey, H>
        decreases collections.len(),
    {
        if collections.len() == 0 {
            Map::empty()
        } else {
            Self::composed(collections.drop_last(), ty).union_prefer_right(
                collections.last().steps(ty),
            )
        }
    }

    /// Merges a list of registries into one, from the first to the last.
    #[must_use]
    pub fn compose(collections: Vec<Self>) -> (r: Self)
        ensures
            forall|ty: StepType| #[trigger] r.steps(ty) == Self::composed(collections@, ty),
    {
        let ghost all = collections@;
        let mut collections = collections;
        let mut merged = Collection::new();
        proof {
            assert(all.subrange(0, all.len() as int) =~= all);
            assert forall|ty: StepType|
                Self::composed(all, ty) =~= Self::composed(
                    all.subrange(0, all.len() as int),
                    ty,
                ).union_prefer_right(#[trigger] merged.steps(ty)) by {}
        }
        while collections.len() > 0
            invariant
                collections@ == all.subrange(0, collections.len() as int),
                collections.len() <= all.len(),
                forall|ty: StepType|
                    Self::composed(all, ty) == Self::composed(
                        all.subrange(0, collections.len() as int),
                        ty,
                    ).union_prefer_right(#[trigger] merged.steps(ty)),
            decreases collections.len(),
        {
            let ghost n = collections.len() as int;
            let ghost tail = merged;
            let last = collections.pop().unwrap();
            merged = last.merge(merged);
            proof {
                assert(collections@ =~= all.subrange(0, n - 1));
                assert(all.subrange(0, n).drop_last() =~= all.subrange(0, n - 1));
                assert(all.subrange(0, n).last() == last);
                assert forall|ty: StepType|
                    Self::composed(all, ty) == Self::composed(
                        all.subrange(0, n - 1),
                        ty,
                    ).union_prefer_right(#[trigger] merged.steps(ty)) by {
                    let head = Self::composed(all.subrange(0, n - 1), ty);
                    assert(Self::composed(all.subrange(0, n), ty) == head.union_prefer_right(
                        last.steps(ty),
                    ));
                    assert(merged.steps(ty) == last.steps(ty).union_prefer_right(tail.steps(ty)));
                    assert(head.union_prefer_right(last.steps(ty)).union_prefer_right(
                        tail.steps(ty),
                    ) =~= head.union_prefer_right(
                        last.steps(ty).union_prefer_right(tail.steps(ty)),
                    ));
                }
            }
        }
        proof {
            assert(all.subrange(0, 0) =~= Seq::empty());
            assert forall|ty: StepType| #[trigger] merged.steps(ty) == Self::composed(all, ty) by {
                assert(Self::composed(all.subrange(0, 0), ty) == Map::<StepKey, H>::empty());
                assert(Map::<StepKey, H>::empty().union_prefer_right(
                    merged.steps(ty),
                ) =~= merged.steps(ty));
            }
        }
        merged
    }

    /// Finds the definition that matches `step`, among those of the step's
    /// kind. A pattern matches when the step's text as a whole satisfies it;
    /// that a part of the text does is not enough.
    ///
    /// # Errors
    ///
    /// If more than one definition matches.
    pub fn find(&self, step: &Step) -> (r: Result<
        Option<(&H, Vec<Option<(usize, usize)>>, Option<Location>, Context)>,
        AmbiguousMatchError,
    >)
        ensures
            found_as(self.steps(step.ty), *step, r),
    {
        proof {
            use_type_invariant(self);
        }
        match step.ty {
            StepType::Given => find_in(&self.givens, step),
            StepType::When => find_in(&self.whens, step),
            StepType::Then => find_in(&self.thens, step),
        }
    }
}

impl<H> Default for Collection<H> {
    fn default() -> (r: Self)
        ensures
            r.is_empty(),
    {
        Collection::new()
    }
}

impl<H: Clone> Clone for Collection<H> {
    /// A registry with the same keys, and under each key a clone of the
    /// handler.
    fn clone(&self) -> (r: Self)
        ensures
            forall|ty: StepType| #[trigger] r.steps(ty).dom() == self.steps(ty).dom(),
            forall|ty: StepType, k: StepKey| #[trigger]
                r.steps(ty).dom().contains(k) ==> cloned::<H>(self.steps(ty)[k], r.steps(ty)[k]),
    {
        proof {
            use_type_invariant(self);
        }
        Collection {
            givens: clone_entries(&self.givens),
            whens: clone_entries(&self.whens),
            thens: clone_entries(&self.thens),
        }
    }
}

/// Where exactly one definition of the step's kind matches, `find` returns
/// the handler and location of that definition, and a list of matches that
/// has one entry for each group of the pattern; the first of them has no
/// name and holds the whole text of the step.
pub proof fn lemma_find_unique<H>(
    steps: Map<StepKey, H>,
    step: Step,
    r: Result<
        Option<(&H, Vec<Option<(usize, usize)>>, Option<Location>, Context)>,
        AmbiguousMatchError,
    >,
    key: StepKey,
)
    requires
        found_as(steps, step, r),
        matching_keys(steps, step.value@) == set![key],
    ensures
        r matches Ok(Some((handler, spans, location, context))) && {
            &&& found_one(steps, step, key.0, handler, spans, location, context)
            &&& *handler == steps[key]
            &&& location == key.1
            &&& context.matches@.len() == regex_capture_names(anchored(key.0)).len()
            &&& context.matches@.len() >= 1
            &&& context.matches@[0].0 is None
            &&& context.matches@[0].1@ == step.value@
        },
{
    let hits = matching_keys(steps, step.value@);
    assert(hits.contains(key));
    match r {
        Ok(None) => {
            assert(false);
        },
        Ok(Some((handler, spans, location, context))) => {
            let pattern = choose|pattern: Seq<char>| #[trigger]
                found_one(steps, step, pattern, handler, spans, location, context);
            assert(set![(pattern, location)].contains(key));
            assert(key == (pattern, location));
            let text = step.value@;
            let bytes = encode_utf8(text);
            assert(pattern_matches(pattern, text));
            let listed = matches_of(regex_capture_names(anchored(pattern)), spans@, text);
            assert(listed.len() == spans@.len());
            assert(listed[0].1 == span_text(text, spans@[0]));
            encode_utf8_valid_utf8(text);
            is_char_boundary_start_end_of_seq(bytes);
            assert(bytes.subrange(0, bytes.len() as int) =~= bytes);
            encode_utf8_decode_utf8(text);
            assert(matches_view(context.matches@).len() == context.matches@.len());
            assert(matches_view(context.matches@)[0] == (
                name_view(context.matches@[0].0),
                context.matches@[0].1@,
            ));
        },
        Err(e) => {
            assert(e.keys().to_set().contains(e.keys()[0]));
            assert(e.keys().to_set().contains(e.keys()[1]));
            lemma_key_lt_irreflexive(e.keys()[0]);
            assert(key_lt(e.keys()[0], e.keys()[1]));
        },
    }
}

/// Where two or more definitions of the step's kind match, `find` returns
/// the error that lists exactly those definitions, each once, in key order.
pub proof fn lemma_find_ambiguous<H>(
    steps: Map<StepKey, H>,
    step: Step,
    r: Result<
        Option<(&H, Vec<Option<(usize, usize)>>, Option<Location>, Context)>,
        AmbiguousMatchError,
    >,
    one: StepKey,
    other: StepKey,
)
    requires
        found_as(steps, step, r),
        one != other,
        matching_keys(steps, step.value@).contains(one),
        matching_keys(steps, step.value@).contains(other),
    ensures
        r matches Err(e) && {
            &&& e.keys().to_set() == matching_keys(steps, step.value@)
            &&& strictly_sorted(e.keys())
            &&& e.keys().no_duplicates()
        },
{
    match r {
        Ok(None) => {
            assert(false);
        },
        Ok(Some((handler, spans, location, context))) => {
            let pattern = choose|pattern: Seq<char>| #[trigger]
                found_one(steps, step, pattern, handler, spans, location, context);
            assert(set![(pattern, location)].contains(one));
            assert(set![(pattern, location)].contains(other));
            assert(false);
        },
        Err(e) => {
            assert forall|i: int, j: int|
                0 <= i < e.keys().len() && 0 <= j < e.keys().len() && i != j implies e.keys()[i]
                != e.keys()[j] by {
                lemma_key_lt_irreflexive(e.keys()[i]);
                if i < j {
                    assert(key_lt(e.keys()[i], e.keys()[j]));
                } else {
                    assert(key_lt(e.keys()[j], e.keys()[i]));
                }
            }
        },
    }
}

/// Two searches for the same step in registries that hold the same
/// definitions of its kind report an ambiguity in the same way: if one
/// returns the error, so does the other, with the same list in the same
/// order.
pub proof fn lemma_ambiguity_reproducible<H>(
    steps: Map<StepKey, H>,
    step: Step,
    first: Result<
        Option<(&H, Vec<Option<(usize, usize)>>, Option<Location>, Context)>,
        AmbiguousMatchError,
    >,
    second: Result<
        Option<(&H, Vec<Option<(usize, usize)>>, Option<Location>, Context)>,
        AmbiguousMatchError,
    >,
)
    requires
        found_as(steps, step, first),
        found_as(steps, step, second),
        first is Err,
    ensures
        second matches Err(e) && e.keys() == first->Err_0.keys(),
{
    let e = first->Err_0;
    let one = e.keys()[0];
    let other = e.keys()[1];
    assert(e.keys().to_set().contains(one));
    assert(e.keys().to_set().contains(other));
    lemma_key_lt_irreflexive(one);
    assert(key_lt(one, other));
    lemma_find_ambiguous(steps, step, second, one, other);
    lemma_sorted_listing_unique(e.keys(), second->Err_0.keys());
}

/// What `find` returns depends on nothing but the definitions of the
/// step's kind and the step: two searches for the same step in registries
/// that hold the same definitions of its kind return the same.
pub proof fn lemma_find_determined<H>(
    steps: Map<StepKey, H>,
    step: Step,
    first: Result<
        Option<(&H, Vec<Option<(usize, usize)>>, Option<Location>, Context)>,
        AmbiguousMatchError,
    >,
    second: Result<
        Option<(&H, Vec<Option<(usize, usize)>>, Option<Location>, Context)>,
        AmbiguousMatchError,
    >,
)
    requires
        found_as(steps, step, first),
        found_as(steps, step, second),
    ensures
        match (first, second) {
            (Ok(None), Ok(None)) => true,
            (Ok(Some(one)), Ok(Some(other))) => {
                &&& *one.0 == *other.0
                &&& one.1@ == other.1@
                &&& one.2 == other.2
                &&& one.3.step@ == other.3.step@
                &&& matches_view(one.3.matches@) == matches_view(other.3.matches@)
            },
            (Err(one), Err(other)) => one.keys() == other.keys(),
            _ => false,
        },
{
    let hits = matching_keys(steps, step.value@);
    match first {
        Ok(None) => {
            match second {
                Ok(None) => {},
                Ok(Some((handler, spans, location, context))) => {
                    let pattern = choose|pattern: Seq<char>| #[trigger]
                        found_one(steps, step, pattern, handler, spans, location, context);
                    assert(set![(pattern, location)].contains((pattern, location)));
                },
                Err(e) => {
                    assert(e.keys().to_set().contains(e.keys()[0]));
                },
            }
        },
        Ok(Some((handler, spans, location, context))) => {
            let pattern = choose|pattern: Seq<char>| #[trigger]
                found_one(steps, step, pattern, handler, spans, location, context);
            assert(set![(pattern, location)].contains((pattern, location)));
            lemma_find_unique(steps, step, second, (pattern, location));
        },
        Err(e) => {
            lemma_ambiguity_reproducible(steps, step, first, second);
        },
    }
}

/// A merge is biased to the right: a key that both registries hold has the
/// right one's handler afterwards, a key that only the left one holds keeps
/// its handler, and no other key appears.
pub proof fn lemma_merge_right_biased<H>(
    left: Collection<H>,
    right: Collection<H>,
    merged: Collection<H>,
    ty: StepType,
    key: StepKey,
)
    requires
        merged.steps(ty) == left.steps(ty).union_prefer_right(right.steps(ty)),
    ensures
        right.steps(ty).dom().contains(key) ==> merged.steps(ty).dom().contains(key)
            && merged.steps(ty)[key] == right.steps(ty)[key],
        left.steps(ty).dom().contains(key) && !right.steps(ty).dom().contains(key)
            ==> merged.steps(ty).dom().contains(key) && merged.steps(ty)[key] == left.steps(
            ty,
        )[key],
        merged.steps(ty).dom().contains(key) ==> left.steps(ty).dom().contains(key)
            || right.steps(ty).dom().contains(key),
{
}

/// Composing no registry gives the empty one.
pub proof fn lemma_compose_none<H>(ty: StepType)
    ensures
        Collection::<H>::composed(Seq::empty(), ty) == Map::<StepKey, H>::empty(),
{
}

/// Composing a single registry gives a registry with that one's
/// definitions, so that every search in it goes as in that one.
pub proof fn lemma_compose_one<H>(only: Collection<H>, ty: StepType)
    ensures
        Collection::<H>::composed(seq![only], ty) == only.steps(ty),
{
    let list = seq![only];
    assert(list.drop_last() =~= Seq::empty());
    assert(Collection::<H>::composed(list.drop_last(), ty) == Map::<StepKey, H>::empty());
    assert(Map::<StepKey, H>::empty().union_prefer_right(only.steps(ty))
        =~= only.steps(ty));
}

} // verus!
