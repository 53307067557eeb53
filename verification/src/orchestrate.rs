//! Federation decisions: the mandatory HEAD shard's results merged with the
//! optional country shard's, biased and truncated; and the reverse-geocode
//! country-first fallback policy.
//!
//! Fetching and querying a shard is the caller's job; an unavailable
//! optional shard simply arrives here as `None`, so a country-shard failure
//! can never fail the whole search.

use vstd::prelude::*;
use crate::merge::{
    all_wf,
    apply_location_bias,
    dedup_by_id,
    dedup_results,
    distinct_ids,
    lemma_dedup_props,
    lemma_sort_desc_props,
    merge_ranked,
    sort_desc,
    sort_results,
};
use crate::scoring::{score_rows, spec_result_of};
use crate::types::{DivisionRow, GeocoderQuery, GeocoderResult, LocationBias, ReverseResult};

verus! {

/// What federation produces: concatenated rows sorted by importance
/// (stable), deduplicated keeping the highest-ranked instance of each
/// identifier, re-ranked under the bias, truncated to the limit.
pub open spec fn spec_federate(all: Seq<GeocoderResult>, bias: LocationBias, limit: int) -> Seq<
    GeocoderResult,
> {
    let d = dedup_by_id(sort_desc(all, LocationBias::Unbiased), Set::empty());
    let b = if bias is Unbiased {
        d
    } else {
        sort_desc(d, bias)
    };
    if b.len() <= limit {
        b
    } else {
        b.take(limit)
    }
}

/// The sequence of rows federation ranks: HEAD's, then the optional country
/// shard's (or nothing, when that shard was unavailable or failed).
pub open spec fn spec_gathered(
    head: Seq<GeocoderResult>,
    country: Option<Vec<GeocoderResult>>,
) -> Seq<GeocoderResult> {
    match country {
        Some(c) => head + c@,
        None => head,
    }
}

/// Merge the mandatory HEAD shard's results with the optional country
/// shard's, then bias and truncate. Never returns more than `query.limit`
/// results, never repeats an identifier, and a missing country shard
/// (`None`) degrades to ranking the HEAD results alone.
pub fn federate_results(
    head: Vec<GeocoderResult>,
    country: Option<Vec<GeocoderResult>>,
    query: &GeocoderQuery,
) -> (out: Vec<GeocoderResult>)
    requires
        all_wf(head@),
        match country {
            Some(c) => all_wf(c@),
            None => true,
        },
        query.wf(),
    ensures
        out@ == spec_federate(spec_gathered(head@, country), query.bias, query.limit as int),
        out@.len() <= query.limit,
        distinct_ids(out@),
{
    let ghost gathered = spec_gathered(head@, country);
    let mut all = head;
    match country {
        Some(mut c) => {
            all.append(&mut c);
        },
        None => {
        },
    }
    proof {
        assert(all@ =~= gathered);
    }
    let neutral = LocationBias::Unbiased;
    let sorted = sort_results(all, &neutral);
    proof {
        lemma_sort_desc_props(gathered, neutral);
    }
    let mut d = dedup_results(sorted);
    proof {
        lemma_dedup_props(sort_desc(gathered, neutral), Set::empty());
        let dd = dedup_by_id(sort_desc(gathered, neutral), Set::empty());
        assert(all_wf(dd)) by {
            assert forall|i: int| 0 <= i < dd.len() implies (#[trigger] dd[i]).wf() by {
                assert(sort_desc(gathered, neutral).contains(dd[i]));
                let j = choose|j: int|
                    0 <= j < sort_desc(gathered, neutral).len() && sort_desc(gathered, neutral)[j]
                        == dd[i];
            }
        }
        lemma_sort_desc_props(dd, query.bias);
    }
    apply_location_bias(&mut d, &query.bias);
    if d.len() > query.limit {
        d.truncate(query.limit);
        proof {
            let b = if query.bias is Unbiased {
                dedup_by_id(sort_desc(gathered, neutral), Set::empty())
            } else {
                sort_desc(dedup_by_id(sort_desc(gathered, neutral), Set::empty()), query.bias)
            };
            let lim = query.limit as int;
            assert(distinct_ids(b.take(lim))) by {
                assert forall|i: int, j: int|
                    0 <= i < j < b.take(lim).len() implies b.take(lim)[i].gers_id@ != b.take(
                    lim,
                )[j].gers_id@ by {
                    assert(b[i] == b.take(lim)[i]);
                    assert(b[j] == b.take(lim)[j]);
                }
            }
        }
    }
    d
}

/// The per-shard compute half of a text search: score raw rows by the
/// boost rule, order them by importance descending (stable), deduplicate by
/// identifier and truncate. The caller supplies rows over-fetched to
/// `fetch_size` and its own limit.
pub fn rank_rows(rows: Vec<DivisionRow>, limit: usize) -> (out: Vec<GeocoderResult>)
    requires
        forall|i: int| 0 <= i < rows@.len() ==> (#[trigger] rows@[i]).wf(),
    ensures
        out@ == crate::merge::spec_merge(
            rows@.map_values(|row: DivisionRow| spec_result_of(row)),
            limit as int,
        ),
        out@.len() <= limit,
        distinct_ids(out@),
{
    let scored = score_rows(rows);
    merge_ranked(scored, limit)
}

/// Ordering law: the federated list is ordered by its ranking key —
/// importance, elevated by the fixed bonus where the bias matches — in
/// non-increasing order. With no bias the key is plain importance.
pub proof fn lemma_federate_ordered(all: Seq<GeocoderResult>, bias: LocationBias, limit: int)
    requires
        0 <= limit,
    ensures
        crate::merge::sorted_desc(spec_federate(all, bias, limit), bias),
{
    let neutral = LocationBias::Unbiased;
    crate::merge::lemma_sort_desc_props(all, neutral);
    crate::merge::lemma_dedup_sorted(sort_desc(all, neutral), Set::empty(), neutral);
    let d = dedup_by_id(sort_desc(all, neutral), Set::empty());
    let b = if bias is Unbiased {
        d
    } else {
        sort_desc(d, bias)
    };
    if !(bias is Unbiased) {
        crate::merge::lemma_sort_desc_props(d, bias);
    } else {
        assert(crate::merge::sorted_desc(b, bias)) by {
            assert forall|i: int, j: int|
                0 <= i <= j < b.len() implies crate::merge::sort_key(b[i], bias)
                >= crate::merge::sort_key(b[j], bias) by {
                assert(crate::merge::sort_key(b[i], neutral) >= crate::merge::sort_key(
                    b[j],
                    neutral,
                ));
            }
        }
    }
    if b.len() > limit {
        assert forall|i: int, j: int|
            0 <= i <= j < b.take(limit).len() implies crate::merge::sort_key(
            b.take(limit)[i],
            bias,
        ) >= crate::merge::sort_key(b.take(limit)[j], bias) by {
            assert(b.take(limit)[i] == b[i] && b.take(limit)[j] == b[j]);
        }
    }
}

/// Determinism law: federation is a pure function of the gathered shard
/// rows, the bias and the limit — identical shard contents and an identical
/// query give the same results in the same order on every call.
pub proof fn lemma_federate_deterministic(
    a: Seq<GeocoderResult>,
    b: Seq<GeocoderResult>,
    bias: LocationBias,
    limit: int,
)
    requires
        a == b,
    ensures
        spec_federate(a, bias, limit) == spec_federate(b, bias, limit),
{
}

/// Select the best reverse-geocode candidate: among the rows whose bounding
/// box contains the point, the first one with the smallest area — a
/// neighborhood beats its city, a city beats its region.
pub fn reverse_pick(rows: Vec<ReverseResult>, lon: i64, lat: i64) -> (out: Option<ReverseResult>)
    ensures
        match out {
            Some(r) => exists|i: int|
                {
                    &&& 0 <= i < rows@.len()
                    &&& #[trigger] rows@[i] == r
                    &&& r.spec_contains_point(lon, lat)
                    &&& forall|j: int|
                        0 <= j < rows@.len() && (#[trigger] rows@[j]).spec_contains_point(lon, lat)
                            ==> r.area <= rows@[j].area
                    &&& forall|j: int|
                        0 <= j < i && (#[trigger] rows@[j]).spec_contains_point(lon, lat)
                            ==> rows@[j].area > r.area
                },
            None => forall|j: int|
                0 <= j < rows@.len() ==> !(#[trigger] rows@[j]).spec_contains_point(lon, lat),
        },
{
    let mut best: usize = 0;
    let mut found = false;
    let mut i: usize = 0;
    while i < rows.len()
        invariant
            0 <= i <= rows@.len(),
            found ==> 0 <= best < i && rows@[best as int].spec_contains_point(lon, lat),
            found ==> forall|j: int|
                0 <= j < i && (#[trigger] rows@[j]).spec_contains_point(lon, lat) ==> rows@[
                    best as int
                ].area <= rows@[j].area,
            found ==> forall|j: int|
                0 <= j < best && (#[trigger] rows@[j]).spec_contains_point(lon, lat) ==> rows@[
                    j
                ].area > rows@[best as int].area,
            !found ==> forall|j: int|
                0 <= j < i ==> !(#[trigger] rows@[j]).spec_contains_point(lon, lat),
        decreases rows@.len() - i,
    {
        if rows[i].contains_point(lon, lat) {
            if !found {
                best = i;
                found = true;
            } else if rows[i].area < rows[best].area {
                best = i;
            }
        }
        i += 1;
    }
    if found {
        let mut rest = rows;
        let r = rest.remove(best);
        Some(r)
    } else {
        None
    }
}

/// The reverse-geocode fallback policy: the country shard is tried first and
/// its hit wins outright; when that shard was unavailable (`None` outside)
/// or empty (`None` inside), the HEAD shard's answer is used outright.
pub fn choose_reverse(
    country: Option<Option<ReverseResult>>,
    head: Option<ReverseResult>,
) -> (out: Option<ReverseResult>)
    ensures
        out == match country {
            Some(Some(r)) => Some(r),
            _ => head,
        },
{
    match country {
        Some(Some(r)) => Some(r),
        _ => head,
    }
}

} // verus!
