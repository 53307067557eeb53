//! The data model: queries, bias hints, raw per-shard rows and public results.
//!
//! Coordinates and bounding boxes are held in microdegrees, raw relevance
//! scores in micro score units (lower raw score = better text match), and
//! importance in fixed point: micro units scaled by 2^64. Everything the
//! ranking logic reads is a plain integer or string.

use vstd::prelude::*;

verus! {

/// Largest raw relevance score magnitude the pipeline accepts, in micro
/// units (one million whole score units): keeps the fixed-point importance
/// inside `i128`.
pub const RAW_SCORE_MAX: i64 = 1_000_000_000_000;

/// Bound on the fixed-point importance of a well-formed result; any score a
/// row within `RAW_SCORE_MAX` can produce lies strictly inside it.
pub const IMPORTANCE_FP_MAX: i128 = 40_000_000_000_000_000_000_000_000_000_000;

/// A re-ranking hint: exactly one kind is active at a time.
pub enum LocationBias {
    /// No re-ranking.
    Unbiased,
    /// Elevate results whose country equals this code.
    Country(String),
}

/// A caller's search request.
pub struct GeocoderQuery {
    pub text: String,
    pub limit: usize,
    pub autocomplete: bool,
    pub bias: LocationBias,
}

impl GeocoderQuery {
    /// The request invariant: a positive limit, small enough that the
    /// ten-fold over-fetch size still fits in `usize`.
    pub open spec fn wf(&self) -> bool {
        1 <= self.limit <= usize::MAX / 10
    }

    pub fn new(text: &str) -> (q: Self)
        ensures
            q.text@ == text@,
            q.limit == 10,
            !q.autocomplete,
            q.bias is Unbiased,
            q.wf(),
    {
        GeocoderQuery {
            text: text.to_owned(),
            limit: 10,
            autocomplete: false,
            bias: LocationBias::Unbiased,
        }
    }

    pub fn with_limit(self, limit: usize) -> (q: Self)
        requires
            1 <= limit <= usize::MAX / 10,
        ensures
            q.text == self.text,
            q.limit == limit,
            q.autocomplete == self.autocomplete,
            q.bias == self.bias,
            q.wf(),
    {
        GeocoderQuery {
            text: self.text,
            limit,
            autocomplete: self.autocomplete,
            bias: self.bias,
        }
    }

    pub fn with_bias(self, bias: LocationBias) -> (q: Self)
        ensures
            q.text == self.text,
            q.limit == self.limit,
            q.autocomplete == self.autocomplete,
            q.bias == bias,
    {
        GeocoderQuery {
            text: self.text,
            limit: self.limit,
            autocomplete: self.autocomplete,
            bias,
        }
    }
}

/// One raw full-text match from a single shard.
pub struct DivisionRow {
    pub rowid: i64,
    pub gers_id: String,
    pub division_type: String,
    pub primary_name: String,
    pub lat: i64,
    pub lon: i64,
    pub bbox_xmin: i64,
    pub bbox_ymin: i64,
    pub bbox_xmax: i64,
    pub bbox_ymax: i64,
    pub population: Option<i64>,
    pub country: Option<String>,
    pub region: Option<String>,
    /// Raw relevance score in micro units; lower = better text match.
    pub raw_score: i64,
}

impl DivisionRow {
    /// Rows the scoring pipeline accepts: the raw score within the bound
    /// that keeps fixed-point arithmetic exact.
    pub open spec fn wf(&self) -> bool {
        -RAW_SCORE_MAX <= self.raw_score <= RAW_SCORE_MAX
    }
}

/// A ranked public search result; `importance` is higher-is-better, in
/// fixed point (micro units times 2^64).
pub struct GeocoderResult {
    pub gers_id: String,
    pub division_type: String,
    pub primary_name: String,
    pub lat: i64,
    pub lon: i64,
    pub bbox_xmin: i64,
    pub bbox_ymin: i64,
    pub bbox_xmax: i64,
    pub bbox_ymax: i64,
    pub population: Option<i64>,
    pub country: Option<String>,
    pub region: Option<String>,
    pub importance: i128,
}

impl GeocoderResult {
    /// Results the merging pipeline accepts: importance inside the bound
    /// that keeps the bias bonus free of overflow.
    pub open spec fn wf(&self) -> bool {
        -IMPORTANCE_FP_MAX <= self.importance <= IMPORTANCE_FP_MAX
    }
}

/// A reverse-geocode candidate: one division whose bounding box may contain
/// the queried point. `area` is in micro-degree-squared units.
pub struct ReverseResult {
    pub gers_id: String,
    pub subtype: String,
    pub primary_name: String,
    pub lat: i64,
    pub lon: i64,
    pub bbox_xmin: i64,
    pub bbox_ymin: i64,
    pub bbox_xmax: i64,
    pub bbox_ymax: i64,
    pub area: i64,
    pub population: Option<i64>,
    pub country: Option<String>,
    pub region: Option<String>,
}

impl ReverseResult {
    /// Whether this division's bounding box contains the point.
    pub open spec fn spec_contains_point(&self, lon: i64, lat: i64) -> bool {
        self.bbox_xmin <= lon <= self.bbox_xmax && self.bbox_ymin <= lat <= self.bbox_ymax
    }

    pub fn contains_point(&self, lon: i64, lat: i64) -> (r: bool)
        ensures
            r == self.spec_contains_point(lon, lat),
    {
        self.bbox_xmin <= lon && lon <= self.bbox_xmax && self.bbox_ymin <= lat
            && lat <= self.bbox_ymax
    }
}

} // verus!
