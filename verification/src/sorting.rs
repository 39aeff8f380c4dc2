//! A stable insertion sort, specified once and reused by the aggregator
//! (origin/title order) and the ranker (score/freshness order).
//!
//! `sort_stable` is a mathematical function of the input sequence and the
//! order, which is what makes every ordering the library produces
//! deterministic: two passes over the same records yield the same
//! sequence.

use vstd::prelude::*;

verus! {

/// `leq(a, b)` means `a` may stand before `b`.  An order is usable for
/// sorting when any two elements are comparable.
pub open spec fn leq_total<A>(leq: spec_fn(A, A) -> bool) -> bool {
    forall|a: A, b: A| #[trigger] leq(a, b) || #[trigger] leq(b, a)
}

pub open spec fn leq_transitive<A>(leq: spec_fn(A, A) -> bool) -> bool {
    forall|a: A, b: A, c: A| #[trigger] leq(a, b) && #[trigger] leq(b, c) ==> leq(a, c)
}

/// Every element may stand before every element after it.
pub open spec fn ordered_by<A>(s: Seq<A>, leq: spec_fn(A, A) -> bool) -> bool {
    forall|i: int, j: int| 0 <= i < j < s.len() ==> leq(#[trigger] s[i], #[trigger] s[j])
}

/// `x` placed after the longest prefix of `s` whose elements may stand
/// before it.  Equal elements keep their places before `x`, which is what
/// makes the sort stable.
pub open spec fn insert_sorted<A>(s: Seq<A>, x: A, leq: spec_fn(A, A) -> bool) -> Seq<A>
    decreases s.len(),
{
    if s.len() == 0 {
        seq![x]
    } else if leq(s[0], x) {
        seq![s[0]] + insert_sorted(s.drop_first(), x, leq)
    } else {
        seq![x] + s
    }
}

/// The stable sort of `s` under `leq`: elements are taken left to right
/// and each is inserted after its equals.
pub open spec fn sort_stable<A>(s: Seq<A>, leq: spec_fn(A, A) -> bool) -> Seq<A>
    decreases s.len(),
{
    if s.len() == 0 {
        Seq::empty()
    } else {
        insert_sorted(sort_stable(s.drop_last(), leq), s.last(), leq)
    }
}

/// The inserted element is in the result.
pub proof fn lemma_insert_sorted_has_x<A>(s: Seq<A>, x: A, leq: spec_fn(A, A) -> bool)
    ensures
        insert_sorted(s, x, leq).contains(x),
    decreases s.len(),
{
    let out = insert_sorted(s, x, leq);
    if s.len() == 0 {
        assert(out[0] == x);
    } else if leq(s[0], x) {
        let rest = s.drop_first();
        lemma_insert_sorted_has_x(rest, x, leq);
        let inner = insert_sorted(rest, x, leq);
        let k = choose|k: int| 0 <= k < inner.len() && inner[k] == x;
        assert(out[k + 1] == (seq![s[0]] + inner)[k + 1]);
        assert(out[k + 1] == x);
    } else {
        assert(out[0] == (seq![x] + s)[0]);
        assert(out[0] == x);
    }
}

/// Inserting keeps the length, the elements, and — under a total,
/// transitive order — the ordering.
pub proof fn lemma_insert_sorted_props<A>(s: Seq<A>, x: A, leq: spec_fn(A, A) -> bool)
    requires
        leq_total(leq),
        leq_transitive(leq),
        ordered_by(s, leq),
    ensures
        ordered_by(insert_sorted(s, x, leq), leq),
        insert_sorted(s, x, leq).len() == s.len() + 1,
        forall|y: A| insert_sorted(s, x, leq).contains(y) <==> (s.contains(y) || y == x),
    decreases s.len(),
{
    let out = insert_sorted(s, x, leq);
    if s.len() == 0 {
        assert(out =~= seq![x]);
        assert(out[0] == x);
        assert(out.contains(x));
    } else if leq(s[0], x) {
        let rest = s.drop_first();
        assert(ordered_by(rest, leq));
        lemma_insert_sorted_props(rest, x, leq);
        let inner = insert_sorted(rest, x, leq);
        assert(out =~= seq![s[0]] + inner);
        assert(out[0] == s[0]);
        assert forall|t: int| 1 <= t < out.len() implies out[t] == inner[t - 1] by {
            assert(out[t] == (seq![s[0]] + inner)[t]);
        }
        assert forall|i: int, j: int| 0 <= i < j < out.len() implies leq(out[i], out[j]) by {
            if i == 0 {
                let y = inner[j - 1];
                assert(out[j] == y);
                assert(inner.contains(y));
                if y == x {
                    assert(leq(s[0], x));
                } else {
                    assert(rest.contains(y));
                    let k = choose|k: int| 0 <= k < rest.len() && rest[k] == y;
                    assert(s[k + 1] == y);
                    assert(leq(s[0], s[k + 1]));
                }
            } else {
                assert(out[i] == inner[i - 1] && out[j] == inner[j - 1]);
                assert(leq(inner[i - 1], inner[j - 1]));
            }
        }
        assert forall|y: A| out.contains(y) implies (s.contains(y) || y == x) by {
            let k = choose|k: int| 0 <= k < out.len() && out[k] == y;
            if k == 0 {
                assert(s[0] == y);
            } else {
                assert(inner.contains(out[k]));
                if !(y == x) {
                    assert(rest.contains(y));
                    let k2 = choose|k2: int| 0 <= k2 < rest.len() && rest[k2] == y;
                    assert(s[k2 + 1] == y);
                }
            }
        }
        assert forall|y: A| (s.contains(y) || y == x) implies out.contains(y) by {
            if y == x {
                lemma_insert_sorted_has_x(rest, x, leq);
                assert(inner.contains(x));
                let k = choose|k: int| 0 <= k < inner.len() && inner[k] == x;
                assert(out[k + 1] == x);
            } else {
                let k = choose|k: int| 0 <= k < s.len() && s[k] == y;
                if k == 0 {
                    assert(out[0] == y);
                } else {
                    assert(rest[k - 1] == y);
                    assert(rest.contains(y));
                    assert(inner.contains(y));
                    let k2 = choose|k2: int| 0 <= k2 < inner.len() && inner[k2] == y;
                    assert(out[k2 + 1] == y);
                }
            }
        }
    } else {
        assert(out =~= seq![x] + s);
        assert(!leq(s[0], x));
        assert(leq(x, s[0]));
        assert forall|i: int, j: int| 0 <= i < j < out.len() implies leq(out[i], out[j]) by {
            if i == 0 {
                assert(out[j] == s[j - 1]);
                if j == 1 {
                } else {
                    assert(leq(s[0], s[j - 1]));
                }
            } else {
                assert(leq(s[i - 1], s[j - 1]));
            }
        }
        assert forall|y: A| out.contains(y) implies (s.contains(y) || y == x) by {
            let k = choose|k: int| 0 <= k < out.len() && out[k] == y;
            if k > 0 {
                assert(s[k - 1] == y);
            }
        }
        assert forall|y: A| (s.contains(y) || y == x) implies out.contains(y) by {
            if y == x {
                assert(out[0] == x);
            } else {
                let k = choose|k: int| 0 <= k < s.len() && s[k] == y;
                assert(out[k + 1] == y);
            }
        }
    }
}

/// The stable sort keeps the length and the elements, and orders the
/// result.
pub proof fn lemma_sort_stable_props<A>(s: Seq<A>, leq: spec_fn(A, A) -> bool)
    requires
        leq_total(leq),
        leq_transitive(leq),
    ensures
        ordered_by(sort_stable(s, leq), leq),
        sort_stable(s, leq).len() == s.len(),
        forall|y: A| sort_stable(s, leq).contains(y) <==> s.contains(y),
    decreases s.len(),
{
    if s.len() == 0 {
    } else {
        let prefix = s.drop_last();
        lemma_sort_stable_props(prefix, leq);
        lemma_insert_sorted_props(sort_stable(prefix, leq), s.last(), leq);
        assert forall|y: A| sort_stable(s, leq).contains(y) implies s.contains(y) by {
            assert(sort_stable(prefix, leq).contains(y) || y == s.last());
            if y == s.last() {
                assert(s[s.len() - 1] == y);
            } else {
                assert(prefix.contains(y));
                let k = choose|k: int| 0 <= k < prefix.len() && prefix[k] == y;
                assert(prefix[k] == s[k]);
                assert(s[k] == y);
            }
        }
        assert forall|y: A| s.contains(y) implies sort_stable(s, leq).contains(y) by {
            let k = choose|k: int| 0 <= k < s.len() && s[k] == y;
            if k < s.len() - 1 {
                assert(prefix[k] == s[k]);
                assert(prefix.contains(y));
            } else {
                assert(y == s.last());
            }
        }
    }
}

/// Where a scan finds the insertion point — everything before `j` may
/// stand before `x`, and the element at `j` (if any) may not — inserting
/// by position agrees with `insert_sorted`.
pub proof fn lemma_insert_sorted_at<A>(s: Seq<A>, x: A, leq: spec_fn(A, A) -> bool, j: int)
    requires
        0 <= j <= s.len(),
        forall|k: int| 0 <= k < j ==> leq(#[trigger] s[k], x),
        j < s.len() ==> !leq(s[j], x),
    ensures
        insert_sorted(s, x, leq) =~= s.subrange(0, j) + seq![x] + s.subrange(j, s.len() as int),
    decreases s.len(),
{
    if s.len() == 0 {
    } else if leq(s[0], x) {
        let rest = s.drop_first();
        assert(forall|k: int| 0 <= k < j - 1 ==> rest[k] == s[k + 1] && leq(#[trigger] rest[k], x));
        lemma_insert_sorted_at(rest, x, leq, j - 1);
        assert(rest.subrange(0, j - 1) =~= s.subrange(1, j));
        assert(rest.subrange(j - 1, rest.len() as int) =~= s.subrange(j, s.len() as int));
    } else {
        assert(j == 0);
    }
}

} // verus!
