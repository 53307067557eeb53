//! A geocoding core: population-aware ranking of full-text place matches,
//! cross-shard federation with graceful degradation, versioned catalog
//! resolution, tiered cache policy, and reverse-geocode selection.
//!
//! The index engine, object storage and HTTP plumbing are external
//! collaborators; this crate holds the logic that decides, ranks and merges.

pub mod cache;
pub mod catalog;
pub mod ident;
pub mod merge;
pub mod orchestrate;
pub mod prepare;
pub mod scoring;
pub mod text;
pub mod types;

pub use ident::uuid_v4;
pub use merge::{apply_location_bias, merge_results};
pub use orchestrate::{choose_reverse, federate_results, rank_rows, reverse_pick};
pub use prepare::prepare_fts_query;
pub use scoring::calculate_boosted_score;
pub use types::{DivisionRow, GeocoderQuery, GeocoderResult, LocationBias, ReverseResult};

use vstd::prelude::*;

verus! {

/// Per-shard over-fetch size: always request more candidates than the final
/// limit, so that population boosting can promote a row that ranked outside
/// the raw text-relevance top-N.
pub fn fetch_size(limit: usize) -> (r: usize)
    requires
        limit <= usize::MAX / 10,
    ensures
        r == if limit * 10 > 100 { (limit * 10) as int } else { 100int },
        r >= limit,
        r >= 100,
{
    let ten = limit * 10;
    if ten > 100 {
        ten
    } else {
        100
    }
}

} // verus!
