//! Cross-shard merging: stable descending sort by (possibly biased)
//! importance, first-occurrence deduplication by global identifier, and
//! truncation to the caller's limit.
//!
//! The sort is an insertion sort whose specification is a recursive stable
//! sort: ties keep their original relative order, so the merged order is a
//! pure function of the input sequence.

use vstd::prelude::*;
use crate::text::str_eq;
use crate::types::{GeocoderResult, LocationBias};

verus! {

/// Additive rank bonus a bias match earns: five whole importance units, in
/// fixed point. Bias elevates boundedly — a non-matching result still wins
/// when its importance exceeds a match's by more than this bonus.
pub const BIAS_BONUS_FP: i128 = 5_000_000 * 0x1_0000_0000_0000_0000;

/// Whether a result matches the bias hint.
pub open spec fn matches_bias(r: GeocoderResult, bias: LocationBias) -> bool {
    match bias {
        LocationBias::Unbiased => false,
        LocationBias::Country(code) => match r.country {
            Some(c) => c@ == code@,
            None => false,
        },
    }
}

/// The ranking key: importance, elevated by a fixed bonus on a bias match.
pub open spec fn sort_key(r: GeocoderResult, bias: LocationBias) -> int {
    r.importance + if matches_bias(r, bias) {
        BIAS_BONUS_FP as int
    } else {
        0
    }
}

/// Stable descending insertion: `x` goes in front of the first element whose
/// key does not exceed its own, so earlier input stays in front on ties.
pub open spec fn insert_desc(
    x: GeocoderResult,
    l: Seq<GeocoderResult>,
    bias: LocationBias,
) -> Seq<GeocoderResult>
    decreases l.len(),
{
    if l.len() == 0 {
        seq![x]
    } else if sort_key(l[0], bias) > sort_key(x, bias) {
        seq![l[0]] + insert_desc(x, l.drop_first(), bias)
    } else {
        seq![x] + l
    }
}

/// The stable descending sort of a sequence by its ranking key.
pub open spec fn sort_desc(s: Seq<GeocoderResult>, bias: LocationBias) -> Seq<GeocoderResult>
    decreases s.len(),
{
    if s.len() == 0 {
        Seq::empty()
    } else {
        insert_desc(s[0], sort_desc(s.drop_first(), bias), bias)
    }
}

/// Non-increasing keys.
pub open spec fn sorted_desc(s: Seq<GeocoderResult>, bias: LocationBias) -> bool {
    forall|i: int, j: int| 0 <= i <= j < s.len() ==> sort_key(s[i], bias) >= sort_key(s[j], bias)
}

/// Some element of `s` carries this identifier.
pub open spec fn has_id(s: Seq<GeocoderResult>, id: Seq<char>) -> bool {
    exists|i: int| 0 <= i < s.len() && s[i].gers_id@ == id
}

/// No two elements share an identifier.
pub open spec fn distinct_ids(s: Seq<GeocoderResult>) -> bool {
    forall|i: int, j: int| 0 <= i < j < s.len() ==> s[i].gers_id@ != s[j].gers_id@
}

/// All elements are well-formed results.
pub open spec fn all_wf(s: Seq<GeocoderResult>) -> bool {
    forall|i: int| 0 <= i < s.len() ==> (#[trigger] s[i]).wf()
}

proof fn lemma_insert_desc_props(x: GeocoderResult, l: Seq<GeocoderResult>, bias: LocationBias)
    ensures
        insert_desc(x, l, bias).len() == l.len() + 1,
        forall|id: Seq<char>|
            #[trigger] has_id(insert_desc(x, l, bias), id) <==> (id == x.gers_id@ || has_id(
                l,
                id,
            )),
        all_wf(l) && x.wf() ==> all_wf(insert_desc(x, l, bias)),
    decreases l.len(),
{
    if l.len() == 0 {
        let r = insert_desc(x, l, bias);
        assert forall|id: Seq<char>| #[trigger]
            has_id(r, id) <==> (id == x.gers_id@ || has_id(l, id)) by {
            if id == x.gers_id@ {
                assert(r[0].gers_id@ == id);
            }
        }
    } else if sort_key(l[0], bias) > sort_key(x, bias) {
        lemma_insert_desc_props(x, l.drop_first(), bias);
        let r = insert_desc(x, l, bias);
        let rr = insert_desc(x, l.drop_first(), bias);
        assert forall|id: Seq<char>| #[trigger]
            has_id(r, id) <==> (id == x.gers_id@ || has_id(l, id)) by {
            if has_id(r, id) {
                let i = choose|i: int| 0 <= i < r.len() && r[i].gers_id@ == id;
                if i == 0 {
                    assert(l[0].gers_id@ == id);
                } else {
                    assert(rr[i - 1].gers_id@ == id);
                    assert(has_id(rr, id));
                    if has_id(l.drop_first(), id) {
                        let j = choose|j: int|
                            0 <= j < l.drop_first().len() && l.drop_first()[j].gers_id@ == id;
                        assert(l[j + 1].gers_id@ == id);
                    }
                }
            }
            if id == x.gers_id@ {
                assert(has_id(rr, id));
                let i = choose|i: int| 0 <= i < rr.len() && rr[i].gers_id@ == id;
                assert(r[i + 1].gers_id@ == id);
            }
            if has_id(l, id) {
                let i = choose|i: int| 0 <= i < l.len() && l[i].gers_id@ == id;
                if i == 0 {
                    assert(r[0].gers_id@ == id);
                } else {
                    assert(l.drop_first()[i - 1].gers_id@ == id);
                    assert(has_id(l.drop_first(), id));
                    assert(has_id(rr, id));
                    let j = choose|j: int| 0 <= j < rr.len() && rr[j].gers_id@ == id;
                    assert(r[j + 1].gers_id@ == id);
                }
            }
        }
    } else {
        assert forall|id: Seq<char>| #[trigger]
            has_id(insert_desc(x, l, bias), id) <==> (id == x.gers_id@ || has_id(l, id)) by {
            let r = insert_desc(x, l, bias);
            if has_id(r, id) {
                let i = choose|i: int| 0 <= i < r.len() && r[i].gers_id@ == id;
                if i > 0 {
                    assert(l[i - 1].gers_id@ == id);
                }
            }
            if has_id(l, id) {
                let i = choose|i: int| 0 <= i < l.len() && l[i].gers_id@ == id;
                assert(r[i + 1].gers_id@ == id);
            }
        }
    }
}

proof fn lemma_insert_desc_sorted(x: GeocoderResult, l: Seq<GeocoderResult>, bias: LocationBias)
    requires
        sorted_desc(l, bias),
    ensures
        sorted_desc(insert_desc(x, l, bias), bias),
    decreases l.len(),
{
    if l.len() == 0 {
    } else if sort_key(l[0], bias) > sort_key(x, bias) {
        assert(sorted_desc(l.drop_first(), bias));
        lemma_insert_desc_sorted(x, l.drop_first(), bias);
        let rr = insert_desc(x, l.drop_first(), bias);
        lemma_insert_desc_props(x, l.drop_first(), bias);
        let r = insert_desc(x, l, bias);
        assert forall|i: int, j: int|
            0 <= i <= j < r.len() implies sort_key(r[i], bias) >= sort_key(r[j], bias) by {
            if i > 0 {
                assert(r[i] == rr[i - 1] && r[j] == rr[j - 1]);
            } else if j > 0 {
                // r[0] == l[0] tops every element of rr: each is x or from the tail
                assert(r[j] == rr[j - 1]);
                if rr.len() == 0 {
                } else if l.drop_first().len() == 0 {
                    assert(rr =~= seq![x]);
                } else if sort_key(l.drop_first()[0], bias) > sort_key(x, bias) {
                    if j - 1 == 0 {
                        assert(rr[0] == l.drop_first()[0]);
                        assert(sort_key(l[1], bias) <= sort_key(l[0], bias));
                    } else {
                        // elements past the head of rr are x or tail elements
                        lemma_insert_desc_index(x, l.drop_first(), bias, j - 1);
                    }
                } else {
                    lemma_insert_desc_index(x, l.drop_first(), bias, j - 1);
                }
            }
        }
    } else {
    }
}

/// Every element of an insertion is the inserted element or one of the list.
proof fn lemma_insert_desc_index(
    x: GeocoderResult,
    l: Seq<GeocoderResult>,
    bias: LocationBias,
    i: int,
)
    requires
        0 <= i < insert_desc(x, l, bias).len(),
    ensures
        insert_desc(x, l, bias)[i] == x || l.contains(insert_desc(x, l, bias)[i]),
    decreases l.len(),
{
    lemma_insert_desc_props(x, l, bias);
    if l.len() == 0 {
    } else if sort_key(l[0], bias) > sort_key(x, bias) {
        if i == 0 {
            assert(l.contains(l[0]));
        } else {
            lemma_insert_desc_index(x, l.drop_first(), bias, i - 1);
            let e = insert_desc(x, l.drop_first(), bias)[i - 1];
            if l.drop_first().contains(e) {
                let j = choose|j: int| 0 <= j < l.drop_first().len() && l.drop_first()[j] == e;
                assert(l[j + 1] == e);
            }
        }
    } else {
        if i > 0 {
            assert(l[i - 1] == insert_desc(x, l, bias)[i]);
        }
    }
}

/// The stable sort keeps length, identifiers, well-formedness and yields a
/// non-increasing key order. Re-ranking never drops or invents a result.
pub proof fn lemma_sort_desc_props(s: Seq<GeocoderResult>, bias: LocationBias)
    ensures
        sort_desc(s, bias).len() == s.len(),
        forall|id: Seq<char>| #[trigger] has_id(sort_desc(s, bias), id) <==> has_id(s, id),
        all_wf(s) ==> all_wf(sort_desc(s, bias)),
        sorted_desc(sort_desc(s, bias), bias),
        distinct_ids(s) ==> distinct_ids(sort_desc(s, bias)),
    decreases s.len(),
{
    if s.len() == 0 {
    } else {
        let tail = s.drop_first();
        lemma_sort_desc_props(tail, bias);
        lemma_insert_desc_props(s[0], sort_desc(tail, bias), bias);
        lemma_insert_desc_sorted(s[0], sort_desc(tail, bias), bias);
        assert(all_wf(s) ==> all_wf(tail) && s[0].wf());
        assert forall|id: Seq<char>| #[trigger]
            has_id(sort_desc(s, bias), id) <==> has_id(s, id) by {
            if has_id(s, id) {
                let i = choose|i: int| 0 <= i < s.len() && s[i].gers_id@ == id;
                if i > 0 {
                    assert(tail[i - 1].gers_id@ == id);
                    assert(has_id(tail, id));
                }
            }
            if has_id(tail, id) {
                let i = choose|i: int| 0 <= i < tail.len() && tail[i].gers_id@ == id;
                assert(s[i + 1].gers_id@ == id);
            }
        }
        if distinct_ids(s) {
            assert(distinct_ids(tail)) by {
                assert forall|i: int, j: int|
                    0 <= i < j < tail.len() implies tail[i].gers_id@ != tail[j].gers_id@ by {
                    assert(s[i + 1].gers_id@ != s[j + 1].gers_id@);
                }
            }
            assert(!has_id(tail, s[0].gers_id@)) by {
                if has_id(tail, s[0].gers_id@) {
                    let i = choose|i: int|
                        0 <= i < tail.len() && tail[i].gers_id@ == s[0].gers_id@;
                    assert(s[i + 1].gers_id@ == s[0].gers_id@);
                }
            }
            let sorted_tail = sort_desc(tail, bias);
            let r = sort_desc(s, bias);
            assert forall|i: int, j: int|
                0 <= i < j < r.len() implies r[i].gers_id@ != r[j].gers_id@ by {
                if r[i].gers_id@ == r[j].gers_id@ {
                    lemma_insert_desc_index(s[0], sorted_tail, bias, i);
                    lemma_insert_desc_index(s[0], sorted_tail, bias, j);
                    lemma_distinct_pair(s[0], sorted_tail, bias, i, j);
                }
            }
        }
    }
}

/// Two positions of an insertion into an id-distinct list, where the
/// inserted id is fresh, never share an identifier.
proof fn lemma_distinct_pair(
    x: GeocoderResult,
    l: Seq<GeocoderResult>,
    bias: LocationBias,
    i: int,
    j: int,
)
    requires
        distinct_ids(l),
        !has_id(l, x.gers_id@),
        0 <= i < j < insert_desc(x, l, bias).len(),
    ensures
        insert_desc(x, l, bias)[i].gers_id@ != insert_desc(x, l, bias)[j].gers_id@,
    decreases l.len(),
{
    let r = insert_desc(x, l, bias);
    if l.len() == 0 {
    } else if sort_key(l[0], bias) > sort_key(x, bias) {
        let tail = l.drop_first();
        assert(distinct_ids(tail)) by {
            assert forall|a: int, b: int|
                0 <= a < b < tail.len() implies tail[a].gers_id@ != tail[b].gers_id@ by {
                assert(l[a + 1].gers_id@ != l[b + 1].gers_id@);
            }
        }
        assert(!has_id(tail, x.gers_id@)) by {
            if has_id(tail, x.gers_id@) {
                let a = choose|a: int| 0 <= a < tail.len() && tail[a].gers_id@ == x.gers_id@;
                assert(l[a + 1].gers_id@ == x.gers_id@);
            }
        }
        if i == 0 {
            // r[0] is l[0]; r[j] is x or a tail element, neither carries l[0]'s id
            lemma_insert_desc_index(x, tail, bias, j - 1);
            let e = insert_desc(x, tail, bias)[j - 1];
            if e == x {
                assert(l.contains(l[0]));
                assert(has_id(l, l[0].gers_id@));
            } else {
                let a = choose|a: int| 0 <= a < tail.len() && tail[a] == e;
                assert(l[a + 1] == e);
                assert(l[0].gers_id@ != l[a + 1].gers_id@);
            }
        } else {
            lemma_distinct_pair(x, tail, bias, i - 1, j - 1);
        }
    } else {
        if i == 0 {
            assert(l[j - 1].gers_id@ != x.gers_id@) by {
                if l[j - 1].gers_id@ == x.gers_id@ {
                    assert(has_id(l, x.gers_id@));
                }
            }
        } else {
            assert(r[i] == l[i - 1] && r[j] == l[j - 1]);
        }
    }
}

/// First-occurrence deduplication by identifier: keeps an element only when
/// its id was not seen before it (and is not in the starting `seen` set).
pub open spec fn dedup_by_id(s: Seq<GeocoderResult>, seen: Set<Seq<char>>) -> Seq<GeocoderResult>
    decreases s.len(),
{
    if s.len() == 0 {
        Seq::empty()
    } else if seen.contains(s[0].gers_id@) {
        dedup_by_id(s.drop_first(), seen)
    } else {
        seq![s[0]] + dedup_by_id(s.drop_first(), seen.insert(s[0].gers_id@))
    }
}

/// Deduplication never grows the list, keeps only elements of the input, and
/// leaves no two elements sharing an identifier.
pub proof fn lemma_dedup_props(s: Seq<GeocoderResult>, seen: Set<Seq<char>>)
    ensures
        dedup_by_id(s, seen).len() <= s.len(),
        distinct_ids(dedup_by_id(s, seen)),
        forall|i: int|
            0 <= i < dedup_by_id(s, seen).len() ==> !seen.contains(
                (#[trigger] dedup_by_id(s, seen)[i]).gers_id@,
            ) && s.contains(dedup_by_id(s, seen)[i]),
    decreases s.len(),
{
    if s.len() == 0 {
    } else {
        let tail = s.drop_first();
        let d = dedup_by_id(s, seen);
        if seen.contains(s[0].gers_id@) {
            lemma_dedup_props(tail, seen);
            assert forall|i: int| 0 <= i < d.len() implies !seen.contains(
                (#[trigger] d[i]).gers_id@,
            ) && s.contains(d[i]) by {
                assert(tail.contains(d[i]));
                let a = choose|a: int| 0 <= a < tail.len() && tail[a] == d[i];
                assert(s[a + 1] == d[i]);
            }
        } else {
            let seen2 = seen.insert(s[0].gers_id@);
            lemma_dedup_props(tail, seen2);
            let dd = dedup_by_id(tail, seen2);
            assert forall|i: int| 0 <= i < d.len() implies !seen.contains(
                (#[trigger] d[i]).gers_id@,
            ) && s.contains(d[i]) by {
                if i == 0 {
                    assert(s.contains(s[0]));
                } else {
                    assert(d[i] == dd[i - 1]);
                    assert(tail.contains(dd[i - 1]));
                    let a = choose|a: int| 0 <= a < tail.len() && tail[a] == dd[i - 1];
                    assert(s[a + 1] == dd[i - 1]);
                }
            }
            assert forall|i: int, j: int|
                0 <= i < j < d.len() implies d[i].gers_id@ != d[j].gers_id@ by {
                if i == 0 {
                    assert(d[j] == dd[j - 1]);
                    assert(!seen2.contains(dd[j - 1].gers_id@));
                } else {
                    assert(d[i] == dd[i - 1] && d[j] == dd[j - 1]);
                }
            }
        }
    }
}

/// Deduplication keeps a key-sorted list key-sorted: it only drops
/// elements, never reorders them.
pub proof fn lemma_dedup_sorted(s: Seq<GeocoderResult>, seen: Set<Seq<char>>, bias: LocationBias)
    requires
        sorted_desc(s, bias),
    ensures
        sorted_desc(dedup_by_id(s, seen), bias),
    decreases s.len(),
{
    if s.len() == 0 {
    } else {
        let tail = s.drop_first();
        assert(sorted_desc(tail, bias)) by {
            assert forall|i: int, j: int|
                0 <= i <= j < tail.len() implies sort_key(tail[i], bias) >= sort_key(
                tail[j],
                bias,
            ) by {
                assert(sort_key(s[i + 1], bias) >= sort_key(s[j + 1], bias));
            }
        }
        if seen.contains(s[0].gers_id@) {
            lemma_dedup_sorted(tail, seen, bias);
        } else {
            let seen2 = seen.insert(s[0].gers_id@);
            lemma_dedup_sorted(tail, seen2, bias);
            lemma_dedup_props(tail, seen2);
            let dd = dedup_by_id(tail, seen2);
            let d = dedup_by_id(s, seen);
            assert forall|i: int, j: int|
                0 <= i <= j < d.len() implies sort_key(d[i], bias) >= sort_key(d[j], bias) by {
                if i == 0 && j > 0 {
                    assert(d[j] == dd[j - 1]);
                    assert(tail.contains(dd[j - 1]));
                    let a = choose|a: int| 0 <= a < tail.len() && tail[a] == dd[j - 1];
                    assert(sort_key(s[0], bias) >= sort_key(s[a + 1], bias));
                } else if i > 0 {
                    assert(d[i] == dd[i - 1] && d[j] == dd[j - 1]);
                }
            }
        }
    }
}

/// Ordering law: a merged list is ordered by importance, non-increasing.
pub proof fn lemma_merge_ordered(s: Seq<GeocoderResult>, limit: int)
    requires
        0 <= limit,
    ensures
        sorted_desc(spec_merge(s, limit), LocationBias::Unbiased),
{
    let neutral = LocationBias::Unbiased;
    lemma_sort_desc_props(s, neutral);
    lemma_dedup_sorted(sort_desc(s, neutral), Set::empty(), neutral);
    let d = dedup_by_id(sort_desc(s, neutral), Set::empty());
    if d.len() > limit {
        assert forall|i: int, j: int|
            0 <= i <= j < d.take(limit).len() implies sort_key(d.take(limit)[i], neutral)
            >= sort_key(d.take(limit)[j], neutral) by {
            assert(d.take(limit)[i] == d[i] && d.take(limit)[j] == d[j]);
        }
    }
}

/// Ranking key of a result under a bias hint.
fn sort_key_exec(r: &GeocoderResult, bias: &LocationBias) -> (k: i128)
    requires
        r.wf(),
    ensures
        k == sort_key(*r, *bias),
{
    let matched: bool = match bias {
        LocationBias::Unbiased => false,
        LocationBias::Country(code) => match &r.country {
            Some(c) => str_eq(c.as_str(), code.as_str()),
            None => false,
        },
    };
    if matched {
        r.importance + BIAS_BONUS_FP
    } else {
        r.importance
    }
}

/// Splicing at the first position whose key does not exceed the new key is
/// exactly the recursive stable insertion.
proof fn lemma_insert_desc_at(
    x: GeocoderResult,
    l: Seq<GeocoderResult>,
    bias: LocationBias,
    j: int,
)
    requires
        0 <= j <= l.len(),
        forall|i: int| 0 <= i < j ==> sort_key(#[trigger] l[i], bias) > sort_key(x, bias),
        j < l.len() ==> sort_key(l[j], bias) <= sort_key(x, bias),
    ensures
        insert_desc(x, l, bias) =~= l.take(j) + seq![x] + l.skip(j),
    decreases j,
{
    if j == 0 {
        assert(l.take(0) =~= Seq::<GeocoderResult>::empty());
        assert(l.skip(0) =~= l);
    } else {
        let tail = l.drop_first();
        lemma_insert_desc_at(x, tail, bias, j - 1);
    }
}

/// First position whose key does not exceed the new element's key.
fn find_insert_pos(v: &Vec<GeocoderResult>, x: &GeocoderResult, bias: &LocationBias) -> (j: usize)
    requires
        all_wf(v@),
        x.wf(),
    ensures
        0 <= j <= v@.len(),
        forall|i: int| 0 <= i < j ==> sort_key(#[trigger] v@[i], *bias) > sort_key(*x, *bias),
        j < v@.len() ==> sort_key(v@[j as int], *bias) <= sort_key(*x, *bias),
{
    let xkey = sort_key_exec(x, bias);
    let mut j: usize = 0;
    while j < v.len()
        invariant
            all_wf(v@),
            x.wf(),
            xkey == sort_key(*x, *bias),
            0 <= j <= v@.len(),
            forall|i: int| 0 <= i < j ==> sort_key(#[trigger] v@[i], *bias) > sort_key(*x, *bias),
        decreases v@.len() - j,
    {
        assert(v@[j as int].wf());
        if sort_key_exec(&v[j], bias) <= xkey {
            return j;
        }
        j += 1;
    }
    j
}

/// Insert a result into a key-sorted vector, keeping the stable order.
fn insert_sorted(
    v: Vec<GeocoderResult>,
    x: GeocoderResult,
    bias: &LocationBias,
) -> (out: Vec<GeocoderResult>)
    requires
        all_wf(v@),
        x.wf(),
    ensures
        out@ == insert_desc(x, v@, *bias),
{
    let j = find_insert_pos(&v, &x, bias);
    proof {
        lemma_insert_desc_at(x, v@, *bias, j as int);
    }
    let mut out = v;
    let ghost pre = out@;
    out.insert(j, x);
    proof {
        assert(out@ =~= pre.take(j as int) + seq![x] + pre.skip(j as int));
    }
    out
}

/// Stable descending sort of a result vector by its (possibly biased) key.
pub fn sort_results(v: Vec<GeocoderResult>, bias: &LocationBias) -> (out: Vec<GeocoderResult>)
    requires
        all_wf(v@),
    ensures
        out@ == sort_desc(v@, *bias),
{
    let ghost orig = v@;
    let mut rest = v;
    let mut out: Vec<GeocoderResult> = Vec::new();
    proof {
        assert(orig.skip(rest@.len() as int) =~= Seq::<GeocoderResult>::empty());
        assert(orig.take(rest@.len() as int) =~= orig);
    }
    while rest.len() > 0
        invariant
            rest@.len() <= orig.len(),
            rest@ == orig.take(rest@.len() as int),
            all_wf(orig),
            out@ == sort_desc(orig.skip(rest@.len() as int), *bias),
        decreases rest@.len(),
    {
        proof {
            assert(all_wf(rest@)) by {
                assert forall|i: int| 0 <= i < rest@.len() implies (#[trigger] rest@[i]).wf() by {
                    assert(rest@[i] == orig[i]);
                }
            }
            lemma_sort_desc_props(orig.skip(rest@.len() as int), *bias);
            assert(all_wf(orig.skip(rest@.len() as int))) by {
                assert forall|i: int|
                    0 <= i < orig.skip(rest@.len() as int).len() implies (#[trigger] orig.skip(
                    rest@.len() as int,
                )[i]).wf() by {
                    assert(orig.skip(rest@.len() as int)[i] == orig[rest@.len() + i]);
                }
            }
        }
        let ghost n = rest@.len() as int;
        let x = match rest.pop() {
            Some(x) => x,
            None => {
                proof {
                    assert(false);
                }
                unreached()
            },
        };
        proof {
            assert(x == orig[n - 1]);
            assert(rest@ =~= orig.take(n - 1));
            let suffix = orig.skip(n - 1);
            assert(suffix[0] == orig[n - 1]);
            assert(suffix.drop_first() =~= orig.skip(n));
            assert(sort_desc(suffix, *bias) == insert_desc(
                x,
                sort_desc(orig.skip(n), *bias),
                *bias,
            ));
        }
        out = insert_sorted(out, x, bias);
    }
    proof {
        assert(orig.skip(0) =~= orig);
        assert(orig.take(0) =~= Seq::<GeocoderResult>::empty());
    }
    out
}

/// The set of identifiers a string list holds.
pub open spec fn ids_of(seen: Seq<String>) -> Set<Seq<char>> {
    Set::new(|id: Seq<char>| exists|k: int| 0 <= k < seen.len() && (#[trigger] seen[k])@ == id)
}

fn contains_id(seen: &Vec<String>, id: &String) -> (r: bool)
    ensures
        r == ids_of(seen@).contains(id@),
{
    let mut k: usize = 0;
    while k < seen.len()
        invariant
            0 <= k <= seen@.len(),
            forall|i: int| 0 <= i < k ==> (#[trigger] seen@[i])@ != id@,
        decreases seen@.len() - k,
    {
        if str_eq(seen[k].as_str(), id.as_str()) {
            return true;
        }
        k += 1;
    }
    false
}

/// Deduplicate a vector by identifier, keeping first occurrences.
pub fn dedup_results(v: Vec<GeocoderResult>) -> (out: Vec<GeocoderResult>)
    requires
        all_wf(v@),
    ensures
        out@ == dedup_by_id(v@, Set::empty()),
{
    let ghost orig = v@;
    let mut rest = v;
    let mut out: Vec<GeocoderResult> = Vec::new();
    let mut seen: Vec<String> = Vec::new();
    proof {
        assert(ids_of(seen@) =~= Set::<Seq<char>>::empty());
    }
    while rest.len() > 0
        invariant
            dedup_by_id(orig, Set::empty()) == out@ + dedup_by_id(rest@, ids_of(seen@)),
        decreases rest@.len(),
    {
        let ghost pre = rest@;
        let ghost pre_seen = ids_of(seen@);
        let x = rest.remove(0);
        proof {
            assert(rest@ =~= pre.drop_first());
        }
        if contains_id(&seen, &x.gers_id) {
            proof {
                assert(dedup_by_id(pre, pre_seen) == dedup_by_id(pre.drop_first(), pre_seen));
            }
        } else {
            let id = x.gers_id.clone();
            let ghost old_seen = seen@;
            seen.push(id);
            proof {
                assert(ids_of(seen@) =~= pre_seen.insert(x.gers_id@)) by {
                    assert forall|idv: Seq<char>|
                        ids_of(seen@).contains(idv) <==> pre_seen.insert(x.gers_id@).contains(
                            idv,
                        ) by {
                        if ids_of(seen@).contains(idv) {
                            let k = choose|k: int|
                                0 <= k < seen@.len() && (#[trigger] seen@[k])@ == idv;
                            if k < old_seen.len() {
                                assert((old_seen[k])@ == idv);
                                assert(ids_of(old_seen).contains(idv));
                            } else {
                                assert((seen@[k])@ == x.gers_id@);
                            }
                        }
                        if pre_seen.contains(idv) {
                            let k = choose|k: int|
                                0 <= k < old_seen.len() && (#[trigger] old_seen[k])@ == idv;
                            assert((seen@[k])@ == idv);
                        }
                        if idv == x.gers_id@ {
                            assert((seen@[old_seen.len() as int])@ == idv);
                        }
                    }
                }
                assert(dedup_by_id(pre, pre_seen) == seq![x] + dedup_by_id(
                    pre.drop_first(),
                    pre_seen.insert(x.gers_id@),
                ));
            }
            let ghost old_out = out@;
            out.push(x);
            proof {
                assert(out@ =~= old_out + seq![x]);
                assert(old_out + seq![x] + dedup_by_id(rest@, ids_of(seen@)) =~= old_out + (
                seq![x] + dedup_by_id(rest@, ids_of(seen@))));
            }
        }
    }
    proof {
        assert(rest@.len() == 0);
        assert(out@ + dedup_by_id(rest@, ids_of(seen@)) =~= out@);
    }
    out
}

/// What a merge produces: the concatenation stably sorted by importance,
/// first-occurrence-deduplicated, truncated to the limit.
pub open spec fn spec_merge(s: Seq<GeocoderResult>, limit: int) -> Seq<GeocoderResult> {
    let d = dedup_by_id(sort_desc(s, LocationBias::Unbiased), Set::empty());
    if d.len() <= limit {
        d
    } else {
        d.take(limit)
    }
}

/// The flattening of a sequence of result sets, in order.
pub open spec fn flatten_sets(sets: Seq<Vec<GeocoderResult>>) -> Seq<GeocoderResult>
    decreases sets.len(),
{
    if sets.len() == 0 {
        Seq::empty()
    } else {
        sets[0]@ + flatten_sets(sets.drop_first())
    }
}

/// Merge one or more per-shard result sets: concatenate, sort by importance
/// descending (stable), deduplicate by identifier keeping the
/// highest-ranked occurrence, and truncate to `limit`. The output never
/// exceeds the limit and never repeats an identifier.
pub fn merge_results(sets: Vec<Vec<GeocoderResult>>, limit: usize) -> (out: Vec<GeocoderResult>)
    requires
        forall|i: int| 0 <= i < sets@.len() ==> all_wf((#[trigger] sets@[i])@),
    ensures
        out@ == spec_merge(flatten_sets(sets@), limit as int),
        out@.len() <= limit,
        distinct_ids(out@),
{
    let ghost orig_sets = sets@;
    let mut rest = sets;
    let mut all: Vec<GeocoderResult> = Vec::new();
    while rest.len() > 0
        invariant
            all@ + flatten_sets(rest@) == flatten_sets(orig_sets),
            forall|i: int| 0 <= i < rest@.len() ==> all_wf((#[trigger] rest@[i])@),
            all_wf(all@),
        decreases rest@.len(),
    {
        let ghost pre = rest@;
        let mut s = rest.remove(0);
        proof {
            assert(rest@ =~= pre.drop_first());
            assert(all@ + s@ + flatten_sets(rest@) =~= all@ + (s@ + flatten_sets(rest@)));
            assert forall|i: int| 0 <= i < rest@.len() implies all_wf((#[trigger] rest@[i])@) by {
                assert(rest@[i] == pre[i + 1]);
            }
        }
        all.append(&mut s);
    }
    proof {
        assert(all@ + flatten_sets(rest@) =~= all@);
        assert(all@ == flatten_sets(orig_sets));
    }
    merge_ranked(all, limit)
}

/// Sort, deduplicate and truncate one already-concatenated result list.
pub fn merge_ranked(all: Vec<GeocoderResult>, limit: usize) -> (out: Vec<GeocoderResult>)
    requires
        all_wf(all@),
    ensures
        out@ == spec_merge(all@, limit as int),
        out@.len() <= limit,
        distinct_ids(out@),
{
    let neutral = LocationBias::Unbiased;
    let sorted = sort_results(all, &neutral);
    proof {
        lemma_sort_desc_props(all@, neutral);
    }
    let mut d = dedup_results(sorted);
    proof {
        lemma_dedup_props(sort_desc(all@, neutral), Set::empty());
    }
    if d.len() > limit {
        d.truncate(limit);
        proof {
            let full = dedup_by_id(sort_desc(all@, neutral), Set::empty());
            assert(distinct_ids(full.take(limit as int))) by {
                assert forall|i: int, j: int|
                    0 <= i < j < full.take(limit as int).len() implies full.take(limit as int)[
                    i
                ].gers_id@ != full.take(limit as int)[j].gers_id@ by {
                    assert(full[i] == full.take(limit as int)[i]);
                    assert(full[j] == full.take(limit as int)[j]);
                }
            }
        }
    }
    d
}

/// Determinism law: merging is a pure function of the gathered rows and the
/// limit — two calls over identical inputs produce identical outputs,
/// whatever order the shards answered in.
pub proof fn lemma_merge_deterministic(a: Seq<GeocoderResult>, b: Seq<GeocoderResult>, limit: int)
    requires
        a == b,
    ensures
        spec_merge(a, limit) == spec_merge(b, limit),
{
}

/// Re-rank a result list in place under a bias hint. `Unbiased` is a no-op;
/// a country bias stably re-sorts by the biased key, so matching results
/// move boundedly toward the front and no result is dropped.
pub fn apply_location_bias(results: &mut Vec<GeocoderResult>, bias: &LocationBias)
    requires
        all_wf(old(results)@),
    ensures
        final(results)@ == if *bias is Unbiased {
            old(results)@
        } else {
            sort_desc(old(results)@, *bias)
        },
{
    match bias {
        LocationBias::Unbiased => {
        },
        LocationBias::Country(_) => {
            let mut tmp: Vec<GeocoderResult> = Vec::new();
            core::mem::swap(results, &mut tmp);
            let sorted = sort_results(tmp, bias);
            *results = sorted;
        },
    }
}

} // verus!
