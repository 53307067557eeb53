//! Population-aware scoring in exact fixed-point integers.
//!
//! The boost rule is twice the natural logarithm of (population + 1), or a
//! flat penalty of two whole units when no positive population is known.
//! The base-2 logarithm of x is carried exactly as `k*2^64 + m*2^(64-k)`
//! (where `k = floor(log2 x)` and `m = x - 2^k`), and one integer constant
//! folds in the conversion to the doubled natural logarithm, so every score
//! is a single exact integer and monotonicity is a theorem.

use vstd::prelude::*;
use vstd::arithmetic::power2::{
    pow2,
    lemma_pow2_adds,
    lemma_pow2_pos,
    lemma_pow2_strictly_increases,
    lemma2_to64,
    lemma2_to64_rest,
};
use vstd::arithmetic::mul::{
    lemma_mul_inequality,
    lemma_mul_strict_inequality,
    lemma_mul_is_distributive_add_other_way,
    lemma_mul_is_commutative,
    lemma_mul_nonnegative,
    lemma_mul_left_inequality,
};
use vstd::arithmetic::div_mod::lemma_fundamental_div_mod;
use crate::types::{DivisionRow, GeocoderResult, RAW_SCORE_MAX, IMPORTANCE_FP_MAX};

verus! {

/// 2 * ln(2) in micro units: multiplies an exact base-2 logarithm into the
/// doubled natural logarithm the boost rule asks for.
pub const LN2_X2_MICRO: i128 = 1_386_294;

/// Flat boost, in micro units, for a missing or non-positive population.
pub const FLAT_BOOST_MICRO: i128 = 2_000_000;

/// 2^64: one micro unit of importance, in fixed point.
pub const UNIT_FP: i128 = 0x1_0000_0000_0000_0000;

/// Floor of the base-2 logarithm.
pub open spec fn log2(x: nat) -> nat
    decreases x,
{
    if x < 2 {
        0
    } else {
        1 + log2((x / 2) as nat)
    }
}

/// The exact fixed-point base-2 logarithm: `k*2^64 + m*2^(64-k)`, a strictly
/// increasing integer stand-in for `log2(x) * 2^64`.
pub open spec fn log2_fp(x: nat) -> int
    recommends
        1 <= x <= pow2(63),
{
    log2(x) * pow2(64) + (x - pow2(log2(x))) * pow2((64 - log2(x)) as nat)
}

/// The boost a population earns, in fixed point (micro units times 2^64).
pub open spec fn boost_fp(population: Option<i64>) -> int {
    match population {
        Some(p) => if p > 0 {
            (LN2_X2_MICRO as int) * log2_fp((p + 1) as nat)
        } else {
            (FLAT_BOOST_MICRO as int) * pow2(64)
        },
        None => (FLAT_BOOST_MICRO as int) * pow2(64),
    }
}

/// The boosted score: raw relevance minus boost; lower = better.
pub open spec fn boosted_score_fp(raw_score: i64, population: Option<i64>) -> int {
    raw_score * pow2(64) - boost_fp(population)
}

/// Importance: the negated boosted score; higher = better.
pub open spec fn importance_fp(raw_score: i64, population: Option<i64>) -> int {
    boost_fp(population) - raw_score * pow2(64)
}

proof fn lemma_log2_bounds(x: nat)
    requires
        1 <= x,
    ensures
        pow2(log2(x)) <= x < pow2(log2(x) + 1),
    decreases x,
{
    lemma2_to64();
    if x < 2 {
        assert(pow2(0) == 1 && pow2(1) == 2);
    } else {
        lemma_log2_bounds((x / 2) as nat);
        let k = log2((x / 2) as nat);
        lemma_fundamental_div_mod(x as int, 2);
        assert(pow2(k + 1) == 2 * pow2(k)) by {
            lemma_pow2_adds(1, k);
            assert(pow2(1) == 2);
        }
        assert(pow2(k + 2) == 2 * pow2(k + 1)) by {
            lemma_pow2_adds(1, k + 1);
            assert(pow2(1) == 2);
        }
    }
}

proof fn lemma_log2_mono(x: nat, y: nat)
    requires
        1 <= x <= y,
    ensures
        log2(x) <= log2(y),
{
    if log2(x) > log2(y) {
        lemma_log2_bounds(x);
        lemma_log2_bounds(y);
        if log2(y) + 1 < log2(x) {
            lemma_pow2_strictly_increases(log2(y) + 1, log2(x));
        }
        assert(false);
    }
}

proof fn lemma_log2_le_63(x: nat)
    requires
        1 <= x <= pow2(63),
    ensures
        log2(x) <= 63,
{
    if log2(x) > 63 {
        lemma_log2_bounds(x);
        if 64 < log2(x) {
            lemma_pow2_strictly_increases(64, log2(x));
        }
        lemma_pow2_strictly_increases(63, 64);
        assert(false);
    }
}

/// The fixed-point base-2 logarithm never reaches 64 whole units on the
/// population domain.
proof fn lemma_log2_fp_upper(x: nat)
    requires
        1 <= x <= pow2(63),
    ensures
        0 <= log2_fp(x) < 64 * pow2(64),
{
    let k = log2(x);
    lemma_log2_bounds(x);
    lemma_log2_le_63(x);
    let m = (x - pow2(k)) as nat;
    assert(m < pow2(k)) by {
        lemma_pow2_adds(1, k);
        lemma2_to64();
    }
    lemma_pow2_pos((64 - k) as nat);
    lemma_mul_strict_inequality(m as int, pow2(k) as int, pow2((64 - k) as nat) as int);
    lemma_pow2_adds(k, (64 - k) as nat);
    lemma_mul_nonnegative(m as int, pow2((64 - k) as nat) as int);
    lemma_mul_nonnegative(k as int, pow2(64) as int);
    assert((k + 1) * pow2(64) <= 64 * pow2(64)) by {
        lemma_mul_inequality(k + 1 as int, 64, pow2(64) as int);
    }
    assert((k + 1) * pow2(64) == k * pow2(64) + pow2(64)) by {
        lemma_mul_is_distributive_add_other_way(pow2(64) as int, k as int, 1);
    }
}

/// Strict monotonicity of the exact fixed-point logarithm.
proof fn lemma_log2_fp_strict_mono(x: nat, y: nat)
    requires
        1 <= x < y,
        y <= pow2(63),
    ensures
        log2_fp(x) < log2_fp(y),
{
    let kx = log2(x);
    let ky = log2(y);
    lemma_log2_bounds(x);
    lemma_log2_bounds(y);
    lemma_log2_mono(x, y);
    lemma_log2_le_63(x);
    lemma_log2_le_63(y);
    let mx = (x - pow2(kx)) as nat;
    let my = (y - pow2(ky)) as nat;
    lemma_pow2_pos((64 - kx) as nat);
    lemma_pow2_pos((64 - ky) as nat);
    if kx == ky {
        assert(mx < my);
        assert(mx * pow2((64 - kx) as nat) < my * pow2((64 - kx) as nat)) by {
            lemma_mul_strict_inequality(mx as int, my as int, pow2((64 - kx) as nat) as int);
        }
    } else {
        assert(mx < pow2(kx)) by {
            lemma_pow2_adds(1, kx);
            lemma2_to64();
        }
        assert(mx * pow2((64 - kx) as nat) < pow2(kx) * pow2((64 - kx) as nat)) by {
            lemma_mul_strict_inequality(mx as int, pow2(kx) as int, pow2((64 - kx) as nat) as int);
        }
        lemma_pow2_adds(kx, (64 - kx) as nat);
        assert(log2_fp(x) < kx * pow2(64) + pow2(64));
        assert(kx * pow2(64) + pow2(64) == (kx + 1) * pow2(64)) by {
            lemma_mul_is_distributive_add_other_way(pow2(64) as int, kx as int, 1);
        }
        assert((kx + 1) * pow2(64) <= ky * pow2(64)) by {
            lemma_mul_inequality(kx + 1 as int, ky as int, pow2(64) as int);
        }
        lemma_mul_nonnegative(my as int, pow2((64 - ky) as nat) as int);
        lemma_mul_nonnegative(ky as int, pow2(64) as int);
    }
}

/// Scoring law, population side: with the raw score fixed, a strictly larger
/// positive population earns strictly greater importance.
pub proof fn lemma_importance_population_monotone(raw_score: i64, p1: i64, p2: i64)
    requires
        1 <= p1 < p2,
    ensures
        importance_fp(raw_score, Some(p1)) < importance_fp(raw_score, Some(p2)),
{
    lemma2_to64();
    lemma2_to64_rest();
    assert((p2 + 1) as nat <= pow2(63));
    lemma_log2_fp_strict_mono((p1 + 1) as nat, (p2 + 1) as nat);
    lemma_mul_strict_inequality(
        log2_fp((p1 + 1) as nat),
        log2_fp((p2 + 1) as nat),
        LN2_X2_MICRO as int,
    );
    lemma_mul_is_commutative(log2_fp((p1 + 1) as nat), LN2_X2_MICRO as int);
    lemma_mul_is_commutative(log2_fp((p2 + 1) as nat), LN2_X2_MICRO as int);
}

/// Scoring law, relevance side: with the population fixed, a strictly lower
/// (better) raw score earns strictly greater importance.
pub proof fn lemma_importance_score_monotone(raw1: i64, raw2: i64, population: Option<i64>)
    requires
        raw1 < raw2,
    ensures
        importance_fp(raw1, population) > importance_fp(raw2, population),
{
    lemma2_to64();
    lemma_mul_strict_inequality(raw1 as int, raw2 as int, pow2(64) as int);
}

/// Floor of the base-2 logarithm of a positive machine integer.
fn log2_floor(x: u64) -> (k: u64)
    requires
        1 <= x,
    ensures
        k as nat == log2(x as nat),
        k <= 63,
{
    let mut y: u64 = x;
    let mut k: u64 = 0;
    proof {
        lemma2_to64();
    }
    while y >= 2
        invariant
            1 <= y,
            log2(x as nat) == k + log2(y as nat),
            pow2(k as nat) * y <= x,
            k <= 63,
        decreases y,
    {
        proof {
            lemma2_to64();
            lemma_pow2_pos(k as nat);
            lemma_fundamental_div_mod(y as int, 2);
            assert(log2(y as nat) == 1 + log2((y / 2) as nat));
            lemma_pow2_adds(k as nat, 1);
            assert(pow2(1) == 2) by {
                lemma2_to64();
            }
            // pow2(k+1) * (y/2) == pow2(k) * (2 * (y/2)) <= pow2(k) * y
            assert(pow2((k + 1) as nat) * ((y / 2) as nat) == pow2(k as nat) * (2 * ((y / 2)
                as nat))) by {
                lemma_mul_is_commutative(pow2(k as nat) as int, 2);
                vstd::arithmetic::mul::lemma_mul_is_associative(
                    pow2(k as nat) as int,
                    2,
                    (y / 2) as int,
                );
            }
            lemma_mul_left_inequality(pow2(k as nat) as int, 2 * ((y / 2) as int), y as int);
            // pow2(k+1) <= x < pow2(64), so k + 1 <= 63
            lemma_pow2_pos((k + 1) as nat);
            vstd::arithmetic::mul::lemma_mul_ordering(
                pow2((k + 1) as nat) as int,
                (y / 2) as int,
            );
            if k + 1 > 63 {
                if k + 1 > 64 {
                    lemma_pow2_strictly_increases(64, (k + 1) as nat);
                }
                assert(pow2((k + 1) as nat) >= pow2(64));
                assert(x < pow2(64));
                assert(false);
            }
        }
        y = y / 2;
        k = k + 1;
    }
    k
}

/// 2^e as a machine integer.
pub(crate) fn pow2_u128(e: u64) -> (r: u128)
    requires
        e <= 127,
    ensures
        r as nat == pow2(e as nat),
{
    let mut r: u128 = 1;
    let mut i: u64 = 0;
    proof {
        lemma2_to64();
    }
    while i < e
        invariant
            i <= e <= 127,
            r as nat == pow2(i as nat),
        decreases e - i,
    {
        proof {
            lemma_pow2_adds(i as nat, 1);
            assert(pow2(1) == 2) by {
                lemma2_to64();
            }
            lemma_pow2_strictly_increases(i as nat, 128nat);
            assert(pow2(128) == 0x100000000000000000000000000000000) by {
                lemma_pow2_adds(64, 64);
                lemma2_to64();
            }
            if ((i + 1) as nat) < 128 {
                lemma_pow2_strictly_increases((i + 1) as nat, 128nat);
            }
        }
        r = r * 2;
        i = i + 1;
    }
    r
}

/// The exact fixed-point base-2 logarithm as a machine integer.
fn log2_fp_exec(x: u64) -> (r: u128)
    requires
        1 <= x,
        x as nat <= pow2(63),
    ensures
        r as int == log2_fp(x as nat),
        r < 64 * 0x1_0000_0000_0000_0000,
{
    let k = log2_floor(x);
    let pk = pow2_u128(k);
    proof {
        lemma_log2_bounds(x as nat);
        lemma_log2_fp_upper(x as nat);
        lemma2_to64();
        lemma_pow2_adds(k as nat, (64 - k) as nat);
        assert((x as nat - pow2(k as nat)) < pow2(k as nat)) by {
            lemma_pow2_adds(1, k as nat);
        }
        lemma_pow2_pos((64 - k) as nat);
        lemma_mul_strict_inequality(
            (x as nat - pow2(k as nat)) as int,
            pow2(k as nat) as int,
            pow2((64 - k) as nat) as int,
        );
        lemma_mul_inequality(k as int, 63, pow2(64) as int);
    }
    let m = (x as u128) - pk;
    let p64 = pow2_u128(64);
    let high = (k as u128) * p64;
    let prest = pow2_u128(64 - k);
    let low = m * prest;
    high + low
}

/// The boost a population earns, in fixed point.
fn boost_value(population: &Option<i64>) -> (r: i128)
    ensures
        r == boost_fp(*population),
        0 <= r <= LN2_X2_MICRO * 64 * 0x1_0000_0000_0000_0000,
{
    proof {
        lemma2_to64();
        lemma2_to64_rest();
    }
    match population {
        Some(p) => {
            if *p > 0 {
                let x: u64 = (*p as u64) + 1;
                proof {
                    assert(x as nat <= pow2(63));
                }
                let lf = log2_fp_exec(x);
                proof {
                    lemma_mul_inequality(lf as int, (64 * 0x1_0000_0000_0000_0000) as int, LN2_X2_MICRO as int);
                    lemma_mul_is_commutative(lf as int, LN2_X2_MICRO as int);
                    lemma_mul_nonnegative(LN2_X2_MICRO as int, lf as int);
                    vstd::arithmetic::mul::lemma_mul_is_associative(
                        LN2_X2_MICRO as int,
                        64,
                        0x1_0000_0000_0000_0000,
                    );
                }
                LN2_X2_MICRO * (lf as i128)
            } else {
                FLAT_BOOST_MICRO * UNIT_FP
            }
        },
        None => FLAT_BOOST_MICRO * UNIT_FP,
    }
}

/// The boosted score: raw relevance minus the population boost, in fixed
/// point; lower = better. This is the one place raw scores and populations
/// are combined, so rows from different shards stay comparable.
pub fn calculate_boosted_score(raw_score: i64, population: Option<i64>) -> (r: i128)
    requires
        -RAW_SCORE_MAX <= raw_score <= RAW_SCORE_MAX,
    ensures
        r == boosted_score_fp(raw_score, population),
{
    let boost = boost_value(&population);
    proof {
        lemma2_to64();
        lemma_raw_fp_bound(raw_score);
    }
    let raw_fp = (raw_score as i128) * UNIT_FP;
    raw_fp - boost
}

proof fn lemma_raw_fp_bound(raw_score: i64)
    requires
        -RAW_SCORE_MAX <= raw_score <= RAW_SCORE_MAX,
    ensures
        -(RAW_SCORE_MAX as int) * pow2(64) <= raw_score * pow2(64) <= (RAW_SCORE_MAX as int)
            * pow2(64),
        (RAW_SCORE_MAX as int) * pow2(64) < IMPORTANCE_FP_MAX / 2,
{
    lemma2_to64();
    lemma_mul_inequality(raw_score as int, RAW_SCORE_MAX as int, pow2(64) as int);
    lemma_mul_inequality(-(RAW_SCORE_MAX as int), raw_score as int, pow2(64) as int);
}

/// Importance: the negated boosted score; higher = better. Always within
/// the well-formed-result bound.
pub fn importance_value(raw_score: i64, population: Option<i64>) -> (r: i128)
    requires
        -RAW_SCORE_MAX <= raw_score <= RAW_SCORE_MAX,
    ensures
        r == importance_fp(raw_score, population),
        -IMPORTANCE_FP_MAX <= r <= IMPORTANCE_FP_MAX,
{
    let boost = boost_value(&population);
    proof {
        lemma2_to64();
        lemma_raw_fp_bound(raw_score);
    }
    let raw_fp = (raw_score as i128) * UNIT_FP;
    boost - raw_fp
}

/// The result a raw row maps to: its fields carried over, its importance
/// computed by the boost rule.
pub open spec fn spec_result_of(row: DivisionRow) -> GeocoderResult {
    GeocoderResult {
        gers_id: row.gers_id,
        division_type: row.division_type,
        primary_name: row.primary_name,
        lat: row.lat,
        lon: row.lon,
        bbox_xmin: row.bbox_xmin,
        bbox_ymin: row.bbox_ymin,
        bbox_xmax: row.bbox_xmax,
        bbox_ymax: row.bbox_ymax,
        population: row.population,
        country: row.country,
        region: row.region,
        importance: importance_fp(row.raw_score, row.population) as i128,
    }
}

/// Score a batch of raw rows, preserving their order.
pub fn score_rows(rows: Vec<DivisionRow>) -> (out: Vec<GeocoderResult>)
    requires
        forall|i: int| 0 <= i < rows@.len() ==> (#[trigger] rows@[i]).wf(),
    ensures
        out@ == rows@.map_values(|row: DivisionRow| spec_result_of(row)),
        forall|i: int| 0 <= i < out@.len() ==> (#[trigger] out@[i]).wf(),
{
    let ghost orig = rows@;
    let mut rest = rows;
    let mut out: Vec<GeocoderResult> = Vec::new();
    proof {
        assert(out@ =~= orig.take(0).map_values(|row: DivisionRow| spec_result_of(row)));
    }
    while rest.len() > 0
        invariant
            rest@.len() <= orig.len(),
            rest@ == orig.skip(orig.len() - rest@.len()),
            forall|i: int| 0 <= i < orig.len() ==> (#[trigger] orig[i]).wf(),
            out@ == orig.take(orig.len() - rest@.len()).map_values(
                |row: DivisionRow| spec_result_of(row),
            ),
            forall|i: int| 0 <= i < out@.len() ==> (#[trigger] out@[i]).wf(),
        decreases rest@.len(),
    {
        let ghost done = orig.len() - rest@.len();
        let ghost pre_out = out@;
        let row = rest.remove(0);
        proof {
            assert(row == orig[done]);
            assert(row.wf());
            assert(rest@ =~= orig.skip(done + 1));
        }
        let r = row.into_result();
        out.push(r);
        proof {
            assert(out@ =~= orig.take(done + 1).map_values(
                |rw: DivisionRow| spec_result_of(rw),
            )) by {
                assert(orig.take(done + 1) =~= orig.take(done).push(orig[done]));
                assert(out@ =~= pre_out.push(r));
                assert(r == spec_result_of(orig[done]));
                assert(orig.take(done).push(orig[done]).map_values(
                    |rw: DivisionRow| spec_result_of(rw),
                ) =~= orig.take(done).map_values(|rw: DivisionRow| spec_result_of(rw)).push(
                    spec_result_of(orig[done]),
                ));
            }
        }
    }
    proof {
        assert(orig.take(orig.len() as int) =~= orig);
    }
    out
}

impl DivisionRow {
    /// Turn a raw shard row into a public result, computing its importance.
    pub fn into_result(self) -> (r: GeocoderResult)
        requires
            self.wf(),
        ensures
            r.gers_id == self.gers_id,
            r.division_type == self.division_type,
            r.primary_name == self.primary_name,
            r.lat == self.lat,
            r.lon == self.lon,
            r.bbox_xmin == self.bbox_xmin,
            r.bbox_ymin == self.bbox_ymin,
            r.bbox_xmax == self.bbox_xmax,
            r.bbox_ymax == self.bbox_ymax,
            r.population == self.population,
            r.country == self.country,
            r.region == self.region,
            r.importance == importance_fp(self.raw_score, self.population),
            r.wf(),
    {
        let importance = importance_value(self.raw_score, self.population);
        GeocoderResult {
            gers_id: self.gers_id,
            division_type: self.division_type,
            primary_name: self.primary_name,
            lat: self.lat,
            lon: self.lon,
            bbox_xmin: self.bbox_xmin,
            bbox_ymin: self.bbox_ymin,
            bbox_xmax: self.bbox_xmax,
            bbox_ymax: self.bbox_ymax,
            population: self.population,
            country: self.country,
            region: self.region,
            importance,
        }
    }
}

} // verus!
