//! The canonical record type, the query matcher, and the
//! merge/deduplication step.
//!
//! A query is a single string: `&`-joined terms must all match,
//! `|`-joined terms need one match, anything else is a plain
//! case-insensitive substring test.  Deduplication keeps one record per
//! URL, preferring Bookmark-origin records over History-origin ones and,
//! within one origin, the first record in title order.

use vstd::prelude::*;

use crate::sorting::{
    insert_sorted, leq_total, leq_transitive, lemma_insert_sorted_at, lemma_sort_stable_props,
    ordered_by, sort_stable,
};
use crate::text::{
    chars_of, contains_char, contains_chars, contains_seq, copy_chars, le_chars,
    lemma_str_le_total, lemma_str_le_trans, lower_of, lowercase_chars, seq_contains_char,
    spec_trim, split_chars, split_seq, str_le, trim_chars,
};

verus! {

/// Where a record came from: a bookmark store or a history store.
#[derive(Debug, Clone, Copy, PartialEq, Eq, Structural)]
pub enum ResultSource {
    Bookmark,
    History,
}

/// The canonical record every extractor produces and the rest of the
/// pipeline operates on.  `url` is the deduplication identity key;
/// `last_visit` is Unix seconds.
#[derive(Debug, Clone, PartialEq)]
pub struct SearchResult {
    pub title: String,
    pub url: String,
    pub subtitle: String,
    pub favicon: Option<String>,
    pub source: ResultSource,
    pub visit_count: Option<u32>,
    pub last_visit: Option<i64>,
}

impl DeepView for SearchResult {
    type V = SearchResult;

    open spec fn deep_view(&self) -> SearchResult {
        *self
    }
}

/// Whether one (trimmed, case-folded) query term occurs in the
/// case-folded text.
pub open spec fn spec_term_matches(term: Seq<char>, text: Seq<char>) -> bool {
    contains_seq(lower_of(text), lower_of(spec_trim(term)))
}

/// What the query matcher decides: an empty query matches everything,
/// `&`-joined terms must all occur, `|`-joined terms need one
/// occurrence, and any other query is a plain substring test — all
/// case-insensitively.
pub open spec fn spec_matches(query: Seq<char>, text: Seq<char>) -> bool {
    if query.len() == 0 {
        true
    } else if seq_contains_char(query, '&') {
        forall|i: int|
            0 <= i < split_seq(query, '&').len() ==> spec_term_matches(
                #[trigger] split_seq(query, '&')[i],
                text,
            )
    } else if seq_contains_char(query, '|') {
        exists|i: int|
            0 <= i < split_seq(query, '|').len() && spec_term_matches(
                #[trigger] split_seq(query, '|')[i],
                text,
            )
    } else {
        contains_seq(lower_of(text), lower_of(query))
    }
}

/// Whether one trimmed, case-folded term occurs in `text_lower`, which
/// must already be the case folding of the text searched.
fn term_matches(term: &Vec<char>, text_lower: &Vec<char>) -> (r: bool)
    ensures
        r == contains_seq(text_lower@, lower_of(spec_trim(term@))),
{
    let trimmed = trim_chars(copy_chars(term));
    let folded = lowercase_chars(&trimmed);
    contains_chars(text_lower, &folded)
}

/// Matches a search query against text, supporting `&` (AND) and `|`
/// (OR) between terms and plain case-insensitive substring search
/// otherwise.
pub fn matches(query: &str, text: &str) -> (r: bool)
    ensures
        r == spec_matches(query@, text@),
{
    if query.is_empty() {
        return true;
    }
    let qv = chars_of(query);
    let tv = chars_of(text);
    let tl = lowercase_chars(&tv);
    if contains_char(&qv, '&') {
        let terms = split_chars(&qv, '&');
        let ghost pieces = split_seq(query@, '&');
        let n: usize = terms.len();
        proof {
            assert(terms.deep_view().len() == terms@.len());
        }
        let mut i: usize = 0;
        while i < n
            invariant
                i <= n,
                n == terms@.len(),
                query@.len() > 0,
                seq_contains_char(query@, '&'),
                terms.deep_view() == pieces,
                pieces == split_seq(query@, '&'),
                tl@ == lower_of(text@),
                forall|t: int| 0 <= t < i ==> spec_term_matches(#[trigger] pieces[t], text@),
            decreases n - i,
        {
            proof {
                assert(pieces[i as int] == terms@[i as int].deep_view());
                assert(terms@[i as int].deep_view() =~= terms@[i as int]@);
            }
            if !term_matches(&terms[i], &tl) {
                proof {
                    assert(seq_contains_char(query@, '&'));
                    assert(!spec_term_matches(split_seq(query@, '&')[i as int], text@));
                }
                return false;
            }
            i = i + 1;
        }
        proof {
            assert forall|t: int| 0 <= t < split_seq(query@, '&').len() implies spec_term_matches(
                #[trigger] split_seq(query@, '&')[t],
                text@,
            ) by {
                assert(split_seq(query@, '&')[t] == pieces[t]);
            }
        }
        true
    } else if contains_char(&qv, '|') {
        let terms = split_chars(&qv, '|');
        let ghost pieces = split_seq(query@, '|');
        let n: usize = terms.len();
        proof {
            assert(terms.deep_view().len() == terms@.len());
        }
        let mut i: usize = 0;
        while i < n
            invariant
                i <= n,
                n == terms@.len(),
                query@.len() > 0,
                !seq_contains_char(query@, '&'),
                seq_contains_char(query@, '|'),
                terms.deep_view() == pieces,
                pieces == split_seq(query@, '|'),
                tl@ == lower_of(text@),
                forall|t: int| 0 <= t < i ==> !spec_term_matches(#[trigger] pieces[t], text@),
            decreases n - i,
        {
            proof {
                assert(pieces[i as int] == terms@[i as int].deep_view());
                assert(terms@[i as int].deep_view() =~= terms@[i as int]@);
            }
            if term_matches(&terms[i], &tl) {
                proof {
                    assert(seq_contains_char(query@, '|'));
                    assert(spec_term_matches(split_seq(query@, '|')[i as int], text@));
                }
                return true;
            }
            i = i + 1;
        }
        proof {
            assert forall|t: int| 0 <= t < split_seq(query@, '|').len() implies !spec_term_matches(
                #[trigger] split_seq(query@, '|')[t],
                text@,
            ) by {
                assert(split_seq(query@, '|')[t] == pieces[t]);
            }
        }
        false
    } else {
        let ql = lowercase_chars(&qv);
        contains_chars(&tl, &ql)
    }
}

/// Whether a record matches the query on any of its searchable fields.
pub open spec fn record_matches(r: SearchResult, q: Seq<char>) -> bool {
    spec_matches(q, r.title@) || spec_matches(q, r.url@) || spec_matches(q, r.subtitle@)
}

/// The records kept by filtering with a query: all of them for an empty
/// query, else exactly those matching on title, URL or subtitle.
pub open spec fn spec_filter_results(s: Seq<SearchResult>, q: Seq<char>) -> Seq<SearchResult> {
    if q.len() == 0 {
        s
    } else {
        s.filter(|x: SearchResult| record_matches(x, q))
    }
}

/// Filter results based on search criteria: a record stays when any of
/// title, URL or subtitle matches the query.
pub fn filter_results(results: Vec<SearchResult>, query: &str) -> (r: Vec<SearchResult>)
    ensures
        r@ == spec_filter_results(results@, query@),
{
    if query.is_empty() {
        return results;
    }
    let ghost orig = results@;
    let mut input = results;
    let mut out: Vec<SearchResult> = Vec::new();
    while input.len() > 0
        invariant
            query@.len() > 0,
            input@.len() <= orig.len(),
            input@ =~= orig.subrange(orig.len() - input@.len(), orig.len() as int),
            out@ == spec_filter_results(orig.subrange(0, orig.len() - input@.len()), query@),
        decreases input@.len(),
    {
        let ghost k: int = orig.len() - input@.len();
        let ghost prefix = orig.subrange(0, k);
        let ghost before = input@;
        let x = input.remove(0);
        proof {
            crate::seqs::lemma_suffix_step(orig, k);
            assert(before == orig.subrange(k, orig.len() as int));
            assert(x == before[0]);
            assert(x == orig[k]);
            assert(input@ == before.remove(0));
            assert(input@ =~= orig.subrange(k + 1, orig.len() as int));
            assert(orig.subrange(0, k + 1).drop_last() =~= prefix);
            assert(orig.subrange(0, k + 1).last() == x);
        }
        let keep = matches(query, x.title.as_str()) || matches(query, x.url.as_str())
            || matches(query, x.subtitle.as_str());
        proof {
            reveal_with_fuel(Seq::<SearchResult>::filter, 2);
            let newpref = orig.subrange(0, k + 1);
            assert(newpref.len() == k + 1);
            assert(newpref.drop_last() == prefix);
            assert(newpref.last() == x);
            assert(keep == record_matches(x, query@));
            if keep {
                assert(spec_filter_results(newpref, query@) == spec_filter_results(
                    prefix,
                    query@,
                ).push(x));
            } else {
                assert(spec_filter_results(newpref, query@) == spec_filter_results(
                    prefix,
                    query@,
                ));
            }
        }
        if keep {
            out.push(x);
        }
    }
    proof {
        assert(orig.subrange(0, orig.len() as int) =~= orig);
    }
    out
}

/// Bookmark-origin records come before History-origin records in the
/// deduplication order.
pub open spec fn origin_rank(r: SearchResult) -> int {
    match r.source {
        ResultSource::Bookmark => 0,
        ResultSource::History => 1,
    }
}

/// The deduplication order: by origin (bookmarks first), then by title.
pub open spec fn dedup_le(a: SearchResult, b: SearchResult) -> bool {
    origin_rank(a) < origin_rank(b) || (origin_rank(a) == origin_rank(b) && str_le(
        a.title@,
        b.title@,
    ))
}

/// The deduplication order as a value, for the sort.
pub open spec fn dedup_order() -> spec_fn(SearchResult, SearchResult) -> bool {
    |a: SearchResult, b: SearchResult| dedup_le(a, b)
}

/// The deduplication order is total and transitive, so sorting under it
/// is meaningful.
pub proof fn lemma_dedup_order_valid()
    ensures
        leq_total(dedup_order()),
        leq_transitive(dedup_order()),
{
    let leq = dedup_order();
    assert forall|a: SearchResult, b: SearchResult| #[trigger] leq(a, b) || #[trigger] leq(
        b,
        a,
    ) by {
        lemma_str_le_total(a.title@, b.title@);
    }
    assert forall|a: SearchResult, b: SearchResult, c: SearchResult|
        #[trigger] leq(a, b) && #[trigger] leq(b, c) implies leq(a, c) by {
        if origin_rank(a) == origin_rank(b) && origin_rank(b) == origin_rank(c) {
            lemma_str_le_trans(a.title@, b.title@, c.title@);
        }
    }
}

/// Whether some record in `s` has URL `u`.
pub open spec fn seq_has_url(s: Seq<SearchResult>, u: Seq<char>) -> bool {
    exists|i: int| 0 <= i < s.len() && s[i].url@ == u
}

/// Whether no two records of `s` share a URL.
pub open spec fn urls_distinct(s: Seq<SearchResult>) -> bool {
    forall|i: int, j: int| 0 <= i < j < s.len() ==> s[i].url@ != s[j].url@
}

/// Whether some Bookmark-origin record in `s` has URL `u`.
pub open spec fn has_bookmark_with_url(s: Seq<SearchResult>, u: Seq<char>) -> bool {
    exists|i: int|
        0 <= i < s.len() && s[i].url@ == u && s[i].source == ResultSource::Bookmark
}

/// The first-seen-wins deduplication pass: a record is kept exactly when
/// no earlier record has its URL.
pub open spec fn keep_first_by_url(s: Seq<SearchResult>) -> Seq<SearchResult>
    decreases s.len(),
{
    if s.len() == 0 {
        Seq::empty()
    } else {
        let prefix = keep_first_by_url(s.drop_last());
        if seq_has_url(s.drop_last(), s.last().url@) {
            prefix
        } else {
            prefix.push(s.last())
        }
    }
}

/// What deduplication returns: the input stably sorted by (origin,
/// title), then deduplicated by URL, first record kept.
pub open spec fn spec_deduplicate(s: Seq<SearchResult>) -> Seq<SearchResult> {
    keep_first_by_url(sort_stable(s, dedup_order()))
}

/// Appending a record adds exactly its URL.
proof fn lemma_push_has_url(s: Seq<SearchResult>, x: SearchResult, u: Seq<char>)
    ensures
        seq_has_url(s.push(x), u) <==> (seq_has_url(s, u) || x.url@ == u),
{
    if seq_has_url(s, u) {
        let i = choose|i: int| 0 <= i < s.len() && s[i].url@ == u;
        assert(s.push(x)[i].url@ == u);
    }
    if x.url@ == u {
        assert(s.push(x)[s.len() as int].url@ == u);
    }
    if seq_has_url(s.push(x), u) {
        let i = choose|i: int| 0 <= i < s.push(x).len() && s.push(x)[i].url@ == u;
        if i < s.len() {
            assert(s[i].url@ == u);
        }
    }
}

/// Deduplication by URL neither loses nor invents a URL, leaves no two
/// records with the same URL, and emits only records of its input.
pub proof fn lemma_keep_first_urls(s: Seq<SearchResult>)
    ensures
        forall|u: Seq<char>| #[trigger] seq_has_url(keep_first_by_url(s), u) <==> seq_has_url(
            s,
            u,
        ),
        urls_distinct(keep_first_by_url(s)),
        forall|y: SearchResult| #[trigger] keep_first_by_url(s).contains(y) ==> s.contains(y),
    decreases s.len(),
{
    if s.len() == 0 {
    } else {
        let prefix = s.drop_last();
        let x = s.last();
        lemma_keep_first_urls(prefix);
        let kf = keep_first_by_url(s);
        let kfp = keep_first_by_url(prefix);
        assert(prefix.push(x) =~= s);
        assert forall|u: Seq<char>| #[trigger] seq_has_url(kf, u) <==> seq_has_url(s, u) by {
            lemma_push_has_url(prefix, x, u);
            if seq_has_url(prefix, x.url@) {
                assert(kf == kfp);
                if x.url@ == u && !seq_has_url(prefix, u) {
                    assert(seq_has_url(prefix, x.url@) && x.url@ == u);
                }
            } else {
                assert(kf == kfp.push(x));
                lemma_push_has_url(kfp, x, u);
            }
        }
        if seq_has_url(prefix, x.url@) {
            assert(kf == kfp);
        } else {
            assert(kf == kfp.push(x));
            assert forall|i: int, j: int| 0 <= i < j < kf.len() implies kf[i].url@ != kf[j].url@ by {
                if j < kfp.len() {
                    assert(kfp[i].url@ != kfp[j].url@);
                } else {
                    assert(kf[j] == x);
                    assert(kf[i] == kfp[i]);
                    assert(seq_has_url(kfp, kfp[i].url@));
                    assert(seq_has_url(prefix, kfp[i].url@));
                }
            }
        }
        assert forall|y: SearchResult| #[trigger] kf.contains(y) implies s.contains(y) by {
            let i = choose|i: int| 0 <= i < kf.len() && kf[i] == y;
            if seq_has_url(prefix, x.url@) || i < kfp.len() {
                assert(kfp[i] == y);
                assert(kfp.contains(y));
                assert(prefix.contains(y));
                let j = choose|j: int| 0 <= j < prefix.len() && prefix[j] == y;
                assert(s[j] == y);
            } else {
                assert(y == x);
                assert(s[s.len() - 1] == y);
            }
        }
    }
}

/// Every nonempty URL set has a first occurrence.
proof fn lemma_first_url_occurrence(s: Seq<SearchResult>, u: Seq<char>)
    requires
        seq_has_url(s, u),
    ensures
        exists|i: int|
            0 <= i < s.len() && (#[trigger] s[i]).url@ == u && (forall|j: int|
                0 <= j < i ==> s[j].url@ != u),
    decreases s.len(),
{
    if s[0].url@ == u {
        assert(s[0].url@ == u && (forall|j: int| 0 <= j < 0 ==> s[j].url@ != u));
    } else {
        let rest = s.drop_first();
        let w = choose|w: int| 0 <= w < s.len() && s[w].url@ == u;
        assert(rest[w - 1].url@ == u);
        assert(seq_has_url(rest, u));
        lemma_first_url_occurrence(rest, u);
        let i = choose|i: int|
            0 <= i < rest.len() && (#[trigger] rest[i]).url@ == u && (forall|j: int|
                0 <= j < i ==> rest[j].url@ != u);
        assert(s[i + 1].url@ == u);
        assert forall|j: int| 0 <= j < i + 1 implies s[j].url@ != u by {
            if j > 0 {
                assert(rest[j - 1] == s[j]);
            }
        }
    }
}

/// The first record bearing each URL survives the deduplication pass.
proof fn lemma_keep_first_element(s: Seq<SearchResult>, i: int)
    requires
        0 <= i < s.len(),
        forall|j: int| 0 <= j < i ==> s[j].url@ != (#[trigger] s[i]).url@,
    ensures
        keep_first_by_url(s).contains(s[i]),
    decreases s.len(),
{
    let prefix = s.drop_last();
    let x = s.last();
    let kf = keep_first_by_url(s);
    let kfp = keep_first_by_url(prefix);
    if i == s.len() - 1 {
        assert(!seq_has_url(prefix, x.url@)) by {
            if seq_has_url(prefix, x.url@) {
                let j = choose|j: int| 0 <= j < prefix.len() && prefix[j].url@ == x.url@;
                assert(s[j].url@ == s[i].url@);
            }
        }
        assert(kf == kfp.push(x));
        assert(kf[kfp.len() as int] == s[i]);
    } else {
        assert(prefix[i] == s[i]);
        lemma_keep_first_element(prefix, i);
        assert(kfp.contains(s[i]));
        let j = choose|j: int| 0 <= j < kfp.len() && kfp[j] == s[i];
        if seq_has_url(prefix, x.url@) {
            assert(kf == kfp);
        } else {
            assert(kf == kfp.push(x));
            assert(kf[j] == s[i]);
        }
    }
}

/// The deduplication pass keeps its input's order.
proof fn lemma_keep_first_ordered(s: Seq<SearchResult>)
    requires
        ordered_by(s, dedup_order()),
    ensures
        ordered_by(keep_first_by_url(s), dedup_order()),
    decreases s.len(),
{
    if s.len() == 0 {
    } else {
        let prefix = s.drop_last();
        let x = s.last();
        assert forall|i: int, j: int| 0 <= i < j < prefix.len() implies dedup_order()(
            #[trigger] prefix[i],
            #[trigger] prefix[j],
        ) by {
            assert(prefix[i] == s[i] && prefix[j] == s[j]);
        }
        lemma_keep_first_ordered(prefix);
        lemma_keep_first_urls(prefix);
        let kf = keep_first_by_url(s);
        let kfp = keep_first_by_url(prefix);
        if seq_has_url(prefix, x.url@) {
            assert(kf == kfp);
        } else {
            assert(kf == kfp.push(x));
            assert forall|i: int, j: int| 0 <= i < j < kf.len() implies dedup_order()(
                #[trigger] kf[i],
                #[trigger] kf[j],
            ) by {
                if j < kfp.len() {
                    assert(kf[i] == kfp[i] && kf[j] == kfp[j]);
                } else {
                    assert(kf[j] == x);
                    assert(kf[i] == kfp[i]);
                    assert(kfp.contains(kfp[i]));
                    assert(prefix.contains(kfp[i]));
                    let q = choose|q: int| 0 <= q < prefix.len() && prefix[q] == kfp[i];
                    assert(s[q] == kfp[i]);
                    assert(s[s.len() - 1] == x);
                    assert(dedup_order()(s[q], s[s.len() - 1]));
                }
            }
        }
    }
}

/// The merged set comes out in preference order: Bookmark-origin
/// records before History-origin ones, titles ascending within one
/// origin.
pub proof fn lemma_merge_ordered(s: Seq<SearchResult>)
    ensures
        ordered_by(spec_deduplicate(s), dedup_order()),
{
    lemma_dedup_order_valid();
    lemma_sort_stable_props(s, dedup_order());
    lemma_keep_first_ordered(sort_stable(s, dedup_order()));
}

/// Whether position `p` holds the first record of `s` bearing its URL.
pub open spec fn is_first_occurrence_of(s: Seq<SearchResult>, p: int, y: SearchResult) -> bool {
    &&& 0 <= p < s.len()
    &&& s[p] == y
    &&& forall|q: int| 0 <= q < p ==> s[q].url@ != y.url@
}

/// Whether `y` stands at the first occurrence of its URL in `s`.
pub open spec fn has_first_occurrence(s: Seq<SearchResult>, y: SearchResult) -> bool {
    exists|p: int| is_first_occurrence_of(s, p, y)
}

/// Everything the deduplication pass keeps stood at the first
/// occurrence of its URL.
proof fn lemma_keep_first_elements_are_first(s: Seq<SearchResult>)
    ensures
        forall|y: SearchResult|
            #[trigger] keep_first_by_url(s).contains(y) ==> has_first_occurrence(s, y),
    decreases s.len(),
{
    if s.len() == 0 {
    } else {
        let prefix = s.drop_last();
        let x = s.last();
        lemma_keep_first_elements_are_first(prefix);
        let kf = keep_first_by_url(s);
        let kfp = keep_first_by_url(prefix);
        assert forall|y: SearchResult| #[trigger] kf.contains(y) implies has_first_occurrence(
            s,
            y,
        ) by {
            let i = choose|i: int| 0 <= i < kf.len() && kf[i] == y;
            if seq_has_url(prefix, x.url@) || i < kfp.len() {
                assert(kfp[i] == y);
                assert(kfp.contains(y));
                assert(has_first_occurrence(prefix, y));
                let p = choose|p: int| is_first_occurrence_of(prefix, p, y);
                assert(prefix[p] == s[p]);
                assert(forall|q: int| 0 <= q < p ==> prefix[q] == s[q]);
                assert(is_first_occurrence_of(s, p, y));
            } else {
                assert(y == x);
                let p = s.len() - 1;
                assert(s[p] == y);
                assert forall|q: int| 0 <= q < p implies s[q].url@ != y.url@ by {
                    assert(prefix[q] == s[q]);
                    if s[q].url@ == y.url@ {
                        assert(seq_has_url(prefix, x.url@));
                    }
                }
                assert(is_first_occurrence_of(s, p, y));
            }
        }
    }
}

/// The record kept for a URL stands no later in the preference order
/// than any input record bearing that URL: a Bookmark-origin record
/// beats a History-origin one, and within one origin the earliest title
/// in order wins.
pub proof fn lemma_kept_record_minimal(s: Seq<SearchResult>, y: SearchResult, x: SearchResult)
    requires
        spec_deduplicate(s).contains(y),
        s.contains(x),
        x.url@ == y.url@,
    ensures
        dedup_le(y, x),
{
    lemma_dedup_order_valid();
    lemma_sort_stable_props(s, dedup_order());
    let sorted = sort_stable(s, dedup_order());
    lemma_keep_first_elements_are_first(sorted);
    assert(keep_first_by_url(sorted).contains(y));
    assert(has_first_occurrence(sorted, y));
    let p = choose|p: int| is_first_occurrence_of(sorted, p, y);
    assert(sorted.contains(x));
    let m = choose|m: int| 0 <= m < sorted.len() && sorted[m] == x;
    if m < p {
        assert(sorted[m].url@ == y.url@);
        assert(false);
    } else if m == p {
        assert(x == y);
        let leq = dedup_order();
        assert(leq(y, y) || leq(y, y));
        assert(dedup_le(y, y));
    } else {
        assert(ordered_by(sorted, dedup_order()));
        assert(dedup_order()(sorted[p], sorted[m]));
        assert(dedup_le(y, x));
    }
}

/// URL membership transfers along element-wise containment.
proof fn lemma_has_url_via_contains(a: Seq<SearchResult>, b: Seq<SearchResult>)
    requires
        forall|y: SearchResult| #[trigger] a.contains(y) <==> b.contains(y),
    ensures
        forall|u: Seq<char>| #[trigger] seq_has_url(a, u) <==> seq_has_url(b, u),
{
    assert forall|u: Seq<char>| #[trigger] seq_has_url(a, u) <==> seq_has_url(b, u) by {
        if seq_has_url(a, u) {
            let i = choose|i: int| 0 <= i < a.len() && a[i].url@ == u;
            assert(a.contains(a[i]));
            assert(b.contains(a[i]));
            let j = choose|j: int| 0 <= j < b.len() && b[j] == a[i];
            assert(b[j].url@ == u);
        }
        if seq_has_url(b, u) {
            let i = choose|i: int| 0 <= i < b.len() && b[i].url@ == u;
            assert(b.contains(b[i]));
            assert(a.contains(b[i]));
            let j = choose|j: int| 0 <= j < a.len() && a[j] == b[i];
            assert(a[j].url@ == u);
        }
    }
}

/// Merging is idempotent on the URL set: one merge neither loses nor
/// invents a URL and leaves each URL exactly once, so merging the
/// already-merged set changes nothing about which URLs are present.
pub proof fn lemma_merge_idempotent(s: Seq<SearchResult>)
    ensures
        forall|u: Seq<char>| #[trigger] seq_has_url(spec_deduplicate(s), u) <==> seq_has_url(
            s,
            u,
        ),
        urls_distinct(spec_deduplicate(s)),
        forall|u: Seq<char>|
            #[trigger] seq_has_url(spec_deduplicate(spec_deduplicate(s)), u) <==> seq_has_url(
                spec_deduplicate(s),
                u,
            ),
{
    lemma_dedup_order_valid();
    lemma_sort_stable_props(s, dedup_order());
    lemma_has_url_via_contains(sort_stable(s, dedup_order()), s);
    lemma_keep_first_urls(sort_stable(s, dedup_order()));
    let d = spec_deduplicate(s);
    lemma_sort_stable_props(d, dedup_order());
    lemma_has_url_via_contains(sort_stable(d, dedup_order()), d);
    lemma_keep_first_urls(sort_stable(d, dedup_order()));
}

/// When both origins carry the same URL, the merged set keeps the
/// Bookmark-origin record for that URL (and, by `lemma_merge_idempotent`,
/// it is the only record with that URL).
pub proof fn lemma_bookmark_preferred(s: Seq<SearchResult>, u: Seq<char>)
    requires
        has_bookmark_with_url(s, u),
    ensures
        has_bookmark_with_url(spec_deduplicate(s), u),
{
    lemma_dedup_order_valid();
    lemma_sort_stable_props(s, dedup_order());
    let sorted = sort_stable(s, dedup_order());
    let b = choose|i: int|
        0 <= i < s.len() && s[i].url@ == u && s[i].source == ResultSource::Bookmark;
    assert(s.contains(s[b]));
    assert(sorted.contains(s[b]));
    let bs = choose|j: int| 0 <= j < sorted.len() && sorted[j] == s[b];
    assert(seq_has_url(sorted, u));
    lemma_first_url_occurrence(sorted, u);
    let k = choose|k: int|
        0 <= k < sorted.len() && (#[trigger] sorted[k]).url@ == u && (forall|j: int|
            0 <= j < k ==> sorted[j].url@ != u);
    assert(bs >= k);
    if sorted[k].source != ResultSource::Bookmark {
        assert(bs > k);
        assert(ordered_by(sorted, dedup_order()));
        assert(dedup_order()(sorted[k], sorted[bs]));
        assert(dedup_le(sorted[k], sorted[bs]));
        assert(origin_rank(sorted[k]) == 1);
        assert(origin_rank(sorted[bs]) == 0);
        assert(false);
    }
    lemma_keep_first_element(sorted, k);
    let kf = keep_first_by_url(sorted);
    let j = choose|j: int| 0 <= j < kf.len() && kf[j] == sorted[k];
    assert(kf[j].url@ == u && kf[j].source == ResultSource::Bookmark);
}

/// The deduplication order, decided executably.
fn dedup_before(a: &SearchResult, b: &SearchResult) -> (r: bool)
    ensures
        r == dedup_le(*a, *b),
{
    let ra: u32 = match a.source {
        ResultSource::Bookmark => 0,
        ResultSource::History => 1,
    };
    let rb: u32 = match b.source {
        ResultSource::Bookmark => 0,
        ResultSource::History => 1,
    };
    if ra < rb {
        true
    } else if ra > rb {
        false
    } else {
        let av = chars_of(a.title.as_str());
        let bv = chars_of(b.title.as_str());
        le_chars(&av, &bv)
    }
}

/// Inserts `x` after every record that may stand before it.
fn insert_record_dedup(v: &mut Vec<SearchResult>, x: SearchResult)
    ensures
        final(v)@ == insert_sorted(old(v)@, x, dedup_order()),
{
    let n: usize = v.len();
    let mut j: usize = 0;
    while j < n
        invariant_except_break
            j <= n,
            n == v@.len(),
            v@ == old(v)@,
            forall|k: int| 0 <= k < j ==> dedup_le(#[trigger] v@[k], x),
        ensures
            j <= n,
            n == v@.len(),
            v@ == old(v)@,
            forall|k: int| 0 <= k < j ==> dedup_le(#[trigger] v@[k], x),
            j < n ==> !dedup_le(v@[j as int], x),
        decreases n - j,
    {
        if !dedup_before(&v[j], &x) {
            break;
        }
        j = j + 1;
    }
    proof {
        let leq = dedup_order();
        assert(forall|k: int| 0 <= k < j ==> #[trigger] leq(v@[k], x));
        if (j as int) < v@.len() {
            assert(!leq(v@[j as int], x));
        }
        lemma_insert_sorted_at(v@, x, leq, j as int);
    }
    let ghost before = v@;
    v.insert(j, x);
    proof {
        assert(v@ =~= before.subrange(0, j as int) + seq![x] + before.subrange(
            j as int,
            before.len() as int,
        ));
    }
}

/// The input stably sorted under the deduplication order.
fn sort_records(results: Vec<SearchResult>) -> (r: Vec<SearchResult>)
    ensures
        r@ == sort_stable(results@, dedup_order()),
{
    let ghost orig = results@;
    let mut input = results;
    let mut out: Vec<SearchResult> = Vec::new();
    while input.len() > 0
        invariant
            input@.len() <= orig.len(),
            input@ =~= orig.subrange(orig.len() - input@.len(), orig.len() as int),
            out@ == sort_stable(orig.subrange(0, orig.len() - input@.len()), dedup_order()),
        decreases input@.len(),
    {
        let ghost k: int = orig.len() - input@.len();
        let ghost prefix = orig.subrange(0, k);
        let ghost before = input@;
        let x = input.remove(0);
        proof {
            crate::seqs::lemma_suffix_step(orig, k);
            assert(before == orig.subrange(k, orig.len() as int));
            assert(x == orig[k]);
            assert(input@ == before.remove(0));
            assert(input@ =~= orig.subrange(k + 1, orig.len() as int));
            assert(orig.subrange(0, k + 1).drop_last() == prefix);
            assert(orig.subrange(0, k + 1).last() == x);
        }
        insert_record_dedup(&mut out, x);
        proof {
            assert(out@ == sort_stable(orig.subrange(0, k + 1), dedup_order()));
        }
    }
    proof {
        crate::seqs::lemma_subrange_all(orig);
    }
    out
}

/// Whether some record already collected has this URL.
fn url_in(v: &Vec<SearchResult>, url: &String) -> (r: bool)
    ensures
        r == seq_has_url(v@, url@),
{
    let n: usize = v.len();
    let mut i: usize = 0;
    while i < n
        invariant
            i <= n,
            n == v@.len(),
            forall|k: int| 0 <= k < i ==> v@[k].url@ != url@,
        decreases n - i,
    {
        if v[i].url == *url {
            assert(v@[i as int].url@ == url@);
            return true;
        }
        i = i + 1;
    }
    false
}

/// Deduplicate results based on URL: bookmarks are preferred over
/// history entries, and among records of one origin the first in title
/// order wins.
pub fn deduplicate(results: Vec<SearchResult>) -> (r: Vec<SearchResult>)
    ensures
        r@ == spec_deduplicate(results@),
{
    let sorted = sort_records(results);
    let ghost orig = sorted@;
    let mut input = sorted;
    let mut out: Vec<SearchResult> = Vec::new();
    while input.len() > 0
        invariant
            input@.len() <= orig.len(),
            input@ =~= orig.subrange(orig.len() - input@.len(), orig.len() as int),
            out@ == keep_first_by_url(orig.subrange(0, orig.len() - input@.len())),
        decreases input@.len(),
    {
        let ghost k: int = orig.len() - input@.len();
        let ghost prefix = orig.subrange(0, k);
        let ghost before = input@;
        let x = input.remove(0);
        proof {
            crate::seqs::lemma_suffix_step(orig, k);
            assert(before == orig.subrange(k, orig.len() as int));
            assert(x == orig[k]);
            assert(input@ == before.remove(0));
            assert(input@ =~= orig.subrange(k + 1, orig.len() as int));
            assert(orig.subrange(0, k + 1).drop_last() == prefix);
            assert(orig.subrange(0, k + 1).last() == x);
        }
        let present = url_in(&out, &x.url);
        proof {
            lemma_keep_first_urls(prefix);
            assert(present == seq_has_url(prefix, x.url@));
        }
        if !present {
            out.push(x);
        }
        proof {
            assert(out@ == keep_first_by_url(orig.subrange(0, k + 1)));
        }
    }
    proof {
        crate::seqs::lemma_subrange_all(orig);
    }
    out
}

/// The concatenation of per-source record batches, in batch order.
pub open spec fn concat_batches(bs: Seq<Seq<SearchResult>>) -> Seq<SearchResult>
    decreases bs.len(),
{
    if bs.len() == 0 {
        Seq::empty()
    } else {
        concat_batches(bs.drop_last()) + bs.last()
    }
}

/// Merges per-source batches: concatenates them all, then deduplicates
/// by URL with the Bookmark-over-History, then title-order preference.
pub fn merge(batches: Vec<Vec<SearchResult>>) -> (r: Vec<SearchResult>)
    ensures
        r@ == spec_deduplicate(concat_batches(batches.deep_view())),
{
    let ghost orig_v = batches@;
    let ghost bs = batches.deep_view();
    proof {
        assert(bs.len() == orig_v.len());
        assert forall|i: int| 0 <= i < orig_v.len() implies bs[i] == #[trigger] orig_v[i]@ by {
            assert(bs[i] =~= orig_v[i]@);
        }
    }
    let mut input = batches;
    let mut all: Vec<SearchResult> = Vec::new();
    while input.len() > 0
        invariant
            input@.len() <= orig_v.len(),
            bs.len() == orig_v.len(),
            forall|i: int| 0 <= i < orig_v.len() ==> bs[i] == #[trigger] orig_v[i]@,
            input@ =~= orig_v.subrange(orig_v.len() - input@.len(), orig_v.len() as int),
            all@ == concat_batches(bs.subrange(0, orig_v.len() - input@.len())),
        decreases input@.len(),
    {
        let ghost k: int = orig_v.len() - input@.len();
        let ghost before = input@;
        let mut x = input.remove(0);
        proof {
            crate::seqs::lemma_suffix_step(orig_v, k);
            assert(before == orig_v.subrange(k, orig_v.len() as int));
            assert(x == orig_v[k]);
            assert(input@ == before.remove(0));
            assert(input@ =~= orig_v.subrange(k + 1, orig_v.len() as int));
            assert(bs.subrange(0, k + 1).drop_last() =~= bs.subrange(0, k));
            assert(bs.subrange(0, k + 1).last() == bs[k]);
            assert(x@ == bs[k]);
        }
        all.append(&mut x);
        proof {
            assert(all@ == concat_batches(bs.subrange(0, k + 1)));
        }
    }
    proof {
        assert(bs.subrange(0, bs.len() as int) =~= bs);
    }
    deduplicate(all)
}

/// Deduplication emits only records of its input, so any bound that
/// holds of every input title holds of every output title.
pub proof fn lemma_dedup_keeps_records(s: Seq<SearchResult>)
    ensures
        forall|y: SearchResult| #[trigger] spec_deduplicate(s).contains(y) ==> s.contains(y),
{
    lemma_dedup_order_valid();
    lemma_sort_stable_props(s, dedup_order());
    lemma_keep_first_urls(sort_stable(s, dedup_order()));
}

} // verus!
