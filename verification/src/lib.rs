//! Aggregation-and-ranking engine for browser bookmark and history search.
//!
//! The library normalizes records from several browser families into one
//! canonical record type, merges and deduplicates them by URL, and ranks
//! them against a text query with a deterministic recency-weighted
//! tie-break.

use vstd::prelude::*;

pub mod alfred;
pub mod bookmarks;
pub mod browser;
pub mod config;
pub mod db;
pub mod epoch;
pub mod history;
pub mod rank;
pub mod search;
pub mod seqs;
pub mod sorting;
pub mod tabs;
pub mod text;

use crate::rank::{rank, spec_rank, spec_take, take, titles_fit};
use crate::search::{concat_batches, merge, spec_deduplicate, SearchResult};

verus! {

/// What one invocation computes from the per-source batches: merge and
/// deduplicate, rank against the query with `now` as the freshness
/// baseline, and cap the output.
pub open spec fn spec_search_pipeline(
    bs: Seq<Seq<SearchResult>>,
    query: Seq<char>,
    now: i64,
    max_results: int,
) -> Seq<SearchResult> {
    spec_take(spec_rank(spec_deduplicate(concat_batches(bs)), query, now), max_results)
}

/// Runs the aggregation-and-ranking pipeline over the batches the
/// enabled sources produced.
pub fn search_pipeline(
    batches: Vec<Vec<SearchResult>>,
    query: &str,
    now: i64,
    max_results: usize,
) -> (r: Vec<SearchResult>)
    requires
        titles_fit(concat_batches(batches.deep_view())),
    ensures
        r@ == spec_search_pipeline(batches.deep_view(), query@, now, max_results as int),
{
    let ghost bs = batches.deep_view();
    let merged = merge(batches);
    proof {
        crate::search::lemma_dedup_keeps_records(concat_batches(bs));
        assert forall|i: int| 0 <= i < merged@.len() implies (#[trigger] merged@[i]).title@.len()
            <= u32::MAX by {
            assert(merged@.contains(merged@[i]));
            assert(concat_batches(bs).contains(merged@[i]));
            let j = choose|j: int|
                0 <= j < concat_batches(bs).len() && concat_batches(bs)[j] == merged@[i];
            assert(concat_batches(bs)[j].title@.len() <= u32::MAX);
        }
    }
    let ranked = rank(merged, query, now);
    take(ranked, max_results)
}

/// An invocation with no enabled sources hands the pipeline no batches
/// and gets an empty result set back — not an error.
pub proof fn lemma_no_sources_empty_result(query: Seq<char>, now: i64, max_results: int)
    requires
        0 <= max_results,
    ensures
        spec_search_pipeline(Seq::empty(), query, now, max_results) =~= Seq::<
            SearchResult,
        >::empty(),
{
    let empty_records = Seq::<SearchResult>::empty();
    assert(concat_batches(Seq::empty()) =~= empty_records);
    assert(crate::sorting::sort_stable(empty_records, crate::search::dedup_order())
        =~= empty_records);
    assert(crate::search::keep_first_by_url(empty_records) =~= empty_records);
    assert(spec_deduplicate(empty_records) =~= empty_records);
    assert(empty_records.filter(crate::rank::score_keeps(query)) =~= empty_records);
    assert(crate::sorting::sort_stable(empty_records, crate::rank::rank_order(query, now))
        =~= empty_records);
    assert(spec_rank(empty_records, query, now) =~= empty_records);
}

} // verus!
