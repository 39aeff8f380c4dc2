//! Small facts about consuming a sequence from the front while growing a
//! processed prefix, the shape every pipeline loop in this library has.

use vstd::prelude::*;

verus! {

/// Taking the first element of the suffix of `s` at `k` steps the suffix
/// to `k + 1` and extends the prefix to `k + 1`.
pub proof fn lemma_suffix_step<A>(s: Seq<A>, k: int)
    requires
        0 <= k < s.len(),
    ensures
        s.subrange(k, s.len() as int)[0] == s[k],
        s.subrange(k, s.len() as int).remove(0) =~= s.subrange(k + 1, s.len() as int),
        s.subrange(0, k + 1).drop_last() =~= s.subrange(0, k),
        s.subrange(0, k + 1).last() == s[k],
{
}

/// A whole-sequence subrange is the sequence itself.
pub proof fn lemma_subrange_all<A>(s: Seq<A>)
    ensures
        s.subrange(0, s.len() as int) =~= s,
{
}

} // verus!
