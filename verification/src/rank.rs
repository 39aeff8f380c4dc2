//! The ranker: fuzzy-match scoring against the query, score-descending
//! order, and a deterministic freshness tie-break.
//!
//! Records are scored by a Unicode-aware fuzzy match of the query against
//! the title; non-matches are discarded.  Ties on score are broken by the
//! freshness metric `hours_since_last_visit × visit_count`, larger first,
//! computed against one `now` captured for the whole pass.  The result is
//! a mathematical function of the records, the query and `now`, so
//! repeated runs order identically.

use vstd::prelude::*;

use crate::search::SearchResult;
use crate::sorting::{
    insert_sorted, leq_total, leq_transitive, lemma_insert_sorted_at, lemma_sort_stable_props,
    ordered_by, sort_stable,
};

verus! {

/// The score nucleo's fuzzy matcher assigns to a title for a query, or
/// `None` when the title does not match.  The score is a function of the
/// two character sequences alone.
pub uninterp spec fn fuzzy_score_of(title: Seq<char>, query: Seq<char>) -> Option<u16>;

/// Relies on nucleo's Matcher::fuzzy_match with the default
/// configuration: the score depends on the title and query characters
/// alone.  The matcher supports at most u32::MAX title characters.
#[verifier::external_body]
fn nucleo_fuzzy_match(title: &str, query: &str) -> (r: Option<u16>)
    requires
        title@.len() <= u32::MAX,
    ensures
        r == fuzzy_score_of(title@, query@),
{
    let mut matcher = nucleo::Matcher::new(nucleo::Config::DEFAULT);
    let mut title_buf: Vec<char> = Vec::new();
    let mut query_buf: Vec<char> = Vec::new();
    let title_u32 = nucleo::Utf32Str::new(title, &mut title_buf);
    let query_u32 = nucleo::Utf32Str::new(query, &mut query_buf);
    matcher.fuzzy_match(title_u32, query_u32)
}

/// Whether every title in `s` is short enough for the fuzzy matcher.
pub open spec fn titles_fit(s: Seq<SearchResult>) -> bool {
    forall|i: int| 0 <= i < s.len() ==> (#[trigger] s[i]).title@.len() <= u32::MAX
}

/// A record's score for the query: the fuzzy-match score, or the minimum
/// score when there is no match.
pub open spec fn score_of(r: SearchResult, query: Seq<char>) -> int {
    match fuzzy_score_of(r.title@, query) {
        Option::Some(s) => s as int,
        Option::None => 0,
    }
}

/// Hours elapsed from `lv` to `now`, never negative.
pub open spec fn hours_since(now: i64, lv: i64) -> int {
    if now >= lv {
        (now - lv) / 3600
    } else {
        0
    }
}

/// The freshness tie-break metric: hours since the last visit times the
/// visit count; records lacking either field are minimally fresh.
pub open spec fn freshness_of(r: SearchResult, now: i64) -> int {
    match (r.visit_count, r.last_visit) {
        (Option::Some(vc), Option::Some(lv)) => hours_since(now, lv) * vc,
        _ => 0,
    }
}

/// The rank order: higher score first; on equal scores, higher freshness
/// first.
pub open spec fn rank_le(a: SearchResult, b: SearchResult, query: Seq<char>, now: i64) -> bool {
    score_of(a, query) > score_of(b, query) || (score_of(a, query) == score_of(b, query)
        && freshness_of(a, now) >= freshness_of(b, now))
}

/// The rank order as a value, for the sort.
pub open spec fn rank_order(query: Seq<char>, now: i64) -> spec_fn(
    SearchResult,
    SearchResult,
) -> bool {
    |a: SearchResult, b: SearchResult| rank_le(a, b, query, now)
}

/// Which records the ranker keeps: those with a positive score.
pub open spec fn score_keeps(query: Seq<char>) -> spec_fn(SearchResult) -> bool {
    |r: SearchResult| score_of(r, query) > 0
}

/// What the ranker returns: the matching records, stably sorted by
/// descending score and then descending freshness.
pub open spec fn spec_rank(s: Seq<SearchResult>, query: Seq<char>, now: i64) -> Seq<
    SearchResult,
> {
    sort_stable(s.filter(score_keeps(query)), rank_order(query, now))
}

/// The rank order is total and transitive.
pub proof fn lemma_rank_order_valid(query: Seq<char>, now: i64)
    ensures
        leq_total(rank_order(query, now)),
        leq_transitive(rank_order(query, now)),
{
    let leq = rank_order(query, now);
    assert forall|a: SearchResult, b: SearchResult| #[trigger] leq(a, b) || #[trigger] leq(
        b,
        a,
    ) by {
        assert(rank_le(a, b, query, now) || rank_le(b, a, query, now));
    }
    assert forall|a: SearchResult, b: SearchResult, c: SearchResult|
        #[trigger] leq(a, b) && #[trigger] leq(b, c) implies leq(a, c) by {
        assert(rank_le(a, c, query, now));
    }
}

/// The ranked sequence is ordered under the rank order: along it the
/// score never increases, and within one score group freshness never
/// increases.  It is exactly the matching records: as many as match,
/// and no record appears that did not, nor vice versa.
pub proof fn lemma_rank_ordered(records: Seq<SearchResult>, query: Seq<char>, now: i64)
    ensures
        ordered_by(spec_rank(records, query, now), rank_order(query, now)),
        spec_rank(records, query, now).len() == records.filter(score_keeps(query)).len(),
        forall|y: SearchResult|
            #[trigger] spec_rank(records, query, now).contains(y) <==> records.filter(
                score_keeps(query),
            ).contains(y),
{
    lemma_rank_order_valid(query, now);
    lemma_sort_stable_props(records.filter(score_keeps(query)), rank_order(query, now));
}

/// Ranking is deterministic: the ranked sequence is a function of the
/// record set, the query, and the captured `now` alone, so two passes
/// over the same inputs give identical output.
pub proof fn lemma_rank_deterministic(
    a: Seq<SearchResult>,
    b: Seq<SearchResult>,
    records: Seq<SearchResult>,
    query: Seq<char>,
    now: i64,
)
    requires
        a == spec_rank(records, query, now),
        b == spec_rank(records, query, now),
    ensures
        a == b,
{
}

/// A record's score for the query, decided executably.
fn score_record(r: &SearchResult, query: &str) -> (s: u16)
    requires
        r.title@.len() <= u32::MAX,
    ensures
        s as int == score_of(*r, query@),
{
    match nucleo_fuzzy_match(r.title.as_str(), query) {
        Option::Some(s) => s,
        Option::None => 0,
    }
}

/// A record's freshness for the captured `now`, decided executably.
fn freshness_value(r: &SearchResult, now: i64) -> (f: u128)
    ensures
        f as int == freshness_of(*r, now),
{
    match (r.visit_count, r.last_visit) {
        (Option::Some(vc), Option::Some(lv)) => {
            if lv > now {
                0
            } else {
                let diff: i128 = (now as i128) - (lv as i128);
                let hours: u128 = (diff as u128) / 3600;
                proof {
                    assert(diff == now - lv);
                    assert(hours == (now - lv) / 3600);
                    assert(hours * (vc as u128) == hours_since(now, lv) * vc) by (nonlinear_arith)
                        requires
                            hours == hours_since(now, lv),
                            vc >= 0,
                    ;
                    assert(hours < 0x10000000000000000);
                    assert(hours * (vc as u128) <= hours * 0x100000000) by (nonlinear_arith)
                        requires
                            vc < 0x100000000,
                            hours >= 0,
                    ;
                }
                hours * (vc as u128)
            }
        },
        _ => 0,
    }
}

/// The rank order, decided executably.
fn rank_before(a: &SearchResult, b: &SearchResult, query: &str, now: i64) -> (r: bool)
    requires
        a.title@.len() <= u32::MAX,
        b.title@.len() <= u32::MAX,
    ensures
        r == rank_le(*a, *b, query@, now),
{
    let sa = score_record(a, query);
    let sb = score_record(b, query);
    if sa > sb {
        true
    } else if sa < sb {
        false
    } else {
        let fa = freshness_value(a, now);
        let fb = freshness_value(b, now);
        fa >= fb
    }
}

/// Inserts `x` after every record that may stand before it in rank
/// order.
fn insert_record_rank(v: &mut Vec<SearchResult>, x: SearchResult, query: &str, now: i64)
    requires
        titles_fit(old(v)@),
        x.title@.len() <= u32::MAX,
    ensures
        final(v)@ == insert_sorted(old(v)@, x, rank_order(query@, now)),
        titles_fit(final(v)@),
{
    let n: usize = v.len();
    let mut j: usize = 0;
    while j < n
        invariant_except_break
            j <= n,
            n == v@.len(),
            v@ == old(v)@,
            titles_fit(v@),
            x.title@.len() <= u32::MAX,
            forall|k: int| 0 <= k < j ==> rank_le(#[trigger] v@[k], x, query@, now),
        ensures
            j <= n,
            n == v@.len(),
            v@ == old(v)@,
            forall|k: int| 0 <= k < j ==> rank_le(#[trigger] v@[k], x, query@, now),
            j < n ==> !rank_le(v@[j as int], x, query@, now),
        decreases n - j,
    {
        if !rank_before(&v[j], &x, query, now) {
            break;
        }
        j = j + 1;
    }
    proof {
        let leq = rank_order(query@, now);
        assert(forall|k: int| 0 <= k < j ==> #[trigger] leq(v@[k], x));
        if (j as int) < v@.len() {
            assert(!leq(v@[j as int], x));
        }
        lemma_insert_sorted_at(v@, x, leq, j as int);
    }
    let ghost before = v@;
    v.insert(j, x);
    proof {
        assert(v@ =~= before.subrange(0, j as int) + seq![x] + before.subrange(
            j as int,
            before.len() as int,
        ));
        assert forall|i: int| 0 <= i < v@.len() implies (#[trigger] v@[i]).title@.len()
            <= u32::MAX by {
            if i < j {
                assert(v@[i] == before[i]);
            } else if i > j {
                assert(v@[i] == before[i - 1]);
            }
        }
    }
}

/// Scores records against the query, discards non-matches, groups by
/// score, and orders score groups descending with the freshness
/// tie-break inside each group — all as one stable sort, so the order is
/// reproducible.
pub fn rank(records: Vec<SearchResult>, query: &str, now: i64) -> (r: Vec<SearchResult>)
    requires
        titles_fit(records@),
    ensures
        r@ == spec_rank(records@, query@, now),
{
    let ghost orig = records@;
    let ghost pred = score_keeps(query@);
    let mut input = records;
    let mut kept: Vec<SearchResult> = Vec::new();
    while input.len() > 0
        invariant
            input@.len() <= orig.len(),
            titles_fit(orig),
            input@ =~= orig.subrange(orig.len() - input@.len(), orig.len() as int),
            kept@ == orig.subrange(0, orig.len() - input@.len()).filter(score_keeps(query@)),
            titles_fit(kept@),
        decreases input@.len(),
    {
        let ghost k: int = orig.len() - input@.len();
        let ghost prefix = orig.subrange(0, k);
        let ghost before = input@;
        let x = input.remove(0);
        proof {
            crate::seqs::lemma_suffix_step(orig, k);
            assert(before == orig.subrange(k, orig.len() as int));
            assert(x == orig[k]);
            assert(input@ == before.remove(0));
            assert(input@ =~= orig.subrange(k + 1, orig.len() as int));
            assert(orig.subrange(0, k + 1).drop_last() == prefix);
            assert(orig.subrange(0, k + 1).last() == x);
            assert(x.title@.len() <= u32::MAX);
        }
        let s = score_record(&x, query);
        let ghost kept_before = kept@;
        if s > 0 {
            kept.push(x);
        }
        proof {
            reveal_with_fuel(Seq::<SearchResult>::filter, 2);
            let newpref = orig.subrange(0, k + 1);
            if s > 0 {
                assert(score_keeps(query@)(x));
                assert(kept@ =~= kept_before.push(x));
                assert(kept@ == newpref.filter(score_keeps(query@)));
            } else {
                assert(!(score_keeps(query@)(x)));
                assert(kept@ == newpref.filter(score_keeps(query@)));
            }
            assert forall|i: int| 0 <= i < kept@.len() implies (#[trigger] kept@[i]).title@.len()
                <= u32::MAX by {
                if i < kept_before.len() {
                    assert(kept@[i] == kept_before[i]);
                } else {
                    assert(kept@[i] == x);
                }
            }
        }
    }
    proof {
        crate::seqs::lemma_subrange_all(orig);
    }
    let ghost matching = orig.filter(score_keeps(query@));
    let ghost sorted_goal = sort_stable(matching, rank_order(query@, now));
    let mut tosort = kept;
    let mut out: Vec<SearchResult> = Vec::new();
    while tosort.len() > 0
        invariant
            tosort@.len() <= matching.len(),
            titles_fit(matching),
            tosort@ =~= matching.subrange(
                matching.len() - tosort@.len(),
                matching.len() as int,
            ),
            out@ == sort_stable(
                matching.subrange(0, matching.len() - tosort@.len()),
                rank_order(query@, now),
            ),
            titles_fit(out@),
        decreases tosort@.len(),
    {
        let ghost k: int = matching.len() - tosort@.len();
        let ghost prefix = matching.subrange(0, k);
        let ghost before = tosort@;
        let x = tosort.remove(0);
        proof {
            crate::seqs::lemma_suffix_step(matching, k);
            assert(before == matching.subrange(k, matching.len() as int));
            assert(x == matching[k]);
            assert(tosort@ == before.remove(0));
            assert(tosort@ =~= matching.subrange(k + 1, matching.len() as int));
            assert(matching.subrange(0, k + 1).drop_last() == prefix);
            assert(matching.subrange(0, k + 1).last() == x);
            assert(x.title@.len() <= u32::MAX);
        }
        insert_record_rank(&mut out, x, query, now);
        proof {
            assert(out@ == sort_stable(
                matching.subrange(0, k + 1),
                rank_order(query@, now),
            ));
        }
    }
    proof {
        crate::seqs::lemma_subrange_all(matching);
    }
    out
}

/// The first `n` elements of the ranked sequence, in order.
pub open spec fn spec_take(s: Seq<SearchResult>, n: int) -> Seq<SearchResult> {
    if s.len() <= n {
        s
    } else {
        s.subrange(0, n)
    }
}

/// Caps the ranked output at `n` results: truncation only, no
/// reordering.
pub fn take(ranked: Vec<SearchResult>, n: usize) -> (r: Vec<SearchResult>)
    ensures
        r@ == spec_take(ranked@, n as int),
{
    let mut v = ranked;
    v.truncate(n);
    v
}

/// The freshness order used inside one score group: fresher records
/// first.
pub open spec fn fresh_le(a: SearchResult, b: SearchResult, now: i64) -> bool {
    freshness_of(a, now) >= freshness_of(b, now)
}

/// The freshness order as a value.
pub open spec fn fresh_order(now: i64) -> spec_fn(SearchResult, SearchResult) -> bool {
    |a: SearchResult, b: SearchResult| fresh_le(a, b, now)
}

/// Inserts `x` after every record at least as fresh.
fn insert_record_fresh(v: &mut Vec<SearchResult>, x: SearchResult, now: i64)
    ensures
        final(v)@ == insert_sorted(old(v)@, x, fresh_order(now)),
{
    let n: usize = v.len();
    let mut j: usize = 0;
    while j < n
        invariant_except_break
            j <= n,
            n == v@.len(),
            v@ == old(v)@,
            forall|k: int| 0 <= k < j ==> fresh_le(#[trigger] v@[k], x, now),
        ensures
            j <= n,
            n == v@.len(),
            v@ == old(v)@,
            forall|k: int| 0 <= k < j ==> fresh_le(#[trigger] v@[k], x, now),
            j < n ==> !fresh_le(v@[j as int], x, now),
        decreases n - j,
    {
        let fj = freshness_value(&v[j], now);
        let fx = freshness_value(&x, now);
        if !(fj >= fx) {
            break;
        }
        j = j + 1;
    }
    proof {
        let leq = fresh_order(now);
        assert(forall|k: int| 0 <= k < j ==> #[trigger] leq(v@[k], x));
        if (j as int) < v@.len() {
            assert(!leq(v@[j as int], x));
        }
        lemma_insert_sorted_at(v@, x, leq, j as int);
    }
    let ghost before = v@;
    v.insert(j, x);
    proof {
        assert(v@ =~= before.subrange(0, j as int) + seq![x] + before.subrange(
            j as int,
            before.len() as int,
        ));
    }
}

/// Orders the records of one score tie by descending freshness relative
/// to the captured `now`: fresher-and-more-visited records come first.
pub fn break_a_tie(participants: Vec<SearchResult>, now: i64) -> (r: Vec<SearchResult>)
    ensures
        r@ == sort_stable(participants@, fresh_order(now)),
{
    let ghost orig = participants@;
    let mut input = participants;
    let mut out: Vec<SearchResult> = Vec::new();
    while input.len() > 0
        invariant
            input@.len() <= orig.len(),
            input@ =~= orig.subrange(orig.len() - input@.len(), orig.len() as int),
            out@ == sort_stable(orig.subrange(0, orig.len() - input@.len()), fresh_order(now)),
        decreases input@.len(),
    {
        let ghost k: int = orig.len() - input@.len();
        let ghost prefix = orig.subrange(0, k);
        let ghost before = input@;
        let x = input.remove(0);
        proof {
            crate::seqs::lemma_suffix_step(orig, k);
            assert(before == orig.subrange(k, orig.len() as int));
            assert(x == orig[k]);
            assert(input@ == before.remove(0));
            assert(input@ =~= orig.subrange(k + 1, orig.len() as int));
            assert(orig.subrange(0, k + 1).drop_last() == prefix);
            assert(orig.subrange(0, k + 1).last() == x);
        }
        insert_record_fresh(&mut out, x, now);
        proof {
            assert(out@ == sort_stable(orig.subrange(0, k + 1), fresh_order(now)));
        }
    }
    proof {
        crate::seqs::lemma_subrange_all(orig);
    }
    out
}

} // verus!
