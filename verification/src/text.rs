//! Character-level text utilities: substring search, trimming, splitting,
//! lexicographic comparison, and case folding.
//!
//! Query matching is case-insensitive, so the one place the library leans
//! on the standard library is Unicode case folding (`str::to_lowercase`),
//! reached through a single trusted wrapper whose result is named
//! `lower_of`.

use vstd::prelude::*;

verus! {

/// The characters the library treats as whitespace when trimming query
/// terms.
pub open spec fn is_space(c: char) -> bool {
    c == ' ' || c == '\t' || c == '\n' || c == '\r'
}

/// `s` with leading and trailing whitespace removed.
pub open spec fn spec_trim(s: Seq<char>) -> Seq<char>
    decreases s.len(),
{
    if s.len() == 0 {
        s
    } else if is_space(s[0]) {
        spec_trim(s.drop_first())
    } else if is_space(s.last()) {
        spec_trim(s.drop_last())
    } else {
        s
    }
}

/// Whether `c` occurs in `s`.
pub open spec fn seq_contains_char(s: Seq<char>, c: char) -> bool {
    exists|i: int| 0 <= i < s.len() && s[i] == c
}

/// Whether `needle` occurs in `hay` starting at position `i`.
pub open spec fn matches_at(hay: Seq<char>, needle: Seq<char>, i: int) -> bool {
    &&& 0 <= i
    &&& i + needle.len() <= hay.len()
    &&& forall|j: int| 0 <= j < needle.len() ==> hay[i + j] == needle[j]
}

/// Whether `needle` occurs anywhere in `hay` (an empty needle always
/// does).
pub open spec fn contains_seq(hay: Seq<char>, needle: Seq<char>) -> bool {
    exists|i: int| matches_at(hay, needle, i)
}

/// Whether `p` is a prefix of `s`.
pub open spec fn is_prefix_of(p: Seq<char>, s: Seq<char>) -> bool {
    p.len() <= s.len() && forall|j: int| 0 <= j < p.len() ==> s[j] == p[j]
}

/// Index of the first occurrence of `c` in `s`, or `s.len()` if `c` does
/// not occur.
pub open spec fn find_char(s: Seq<char>, c: char) -> nat
    decreases s.len(),
{
    if s.len() == 0 {
        0
    } else if s[0] == c {
        0
    } else {
        1 + find_char(s.drop_first(), c)
    }
}

/// `s` split on `c`: the pieces between occurrences of `c`, in order,
/// separators removed, empty pieces kept.
pub open spec fn split_seq(s: Seq<char>, c: char) -> Seq<Seq<char>>
    decreases s.len(),
{
    let i = find_char(s, c) as int;
    if i >= s.len() {
        seq![s]
    } else {
        seq![s.subrange(0, i)] + split_seq(s.subrange(i + 1, s.len() as int), c)
    }
}

/// Lexicographic order on character sequences by code point, with a
/// proper prefix ordered before its extensions.
pub open spec fn str_le(a: Seq<char>, b: Seq<char>) -> bool
    decreases a.len(),
{
    if a.len() == 0 {
        true
    } else if b.len() == 0 {
        false
    } else if a[0] == b[0] {
        str_le(a.drop_first(), b.drop_first())
    } else {
        a[0] < b[0]
    }
}

/// `find_char` points at the first occurrence: everything before it
/// differs from `c`, and it is in bounds exactly when `c` occurs at all.
pub proof fn lemma_find_char(s: Seq<char>, c: char)
    ensures
        find_char(s, c) <= s.len(),
        find_char(s, c) < s.len() ==> s[find_char(s, c) as int] == c,
        forall|j: int| 0 <= j < find_char(s, c) ==> s[j] != c,
    decreases s.len(),
{
    if s.len() == 0 {
    } else if s[0] == c {
    } else {
        lemma_find_char(s.drop_first(), c);
        let rest = s.drop_first();
        assert(forall|j: int| 1 <= j < s.len() ==> s[j] == rest[j - 1]);
        if find_char(s, c) < s.len() {
            assert(s[find_char(s, c) as int] == rest[find_char(rest, c) as int]);
        }
    }
}

/// `str_le` is total: any two sequences are comparable.
pub proof fn lemma_str_le_total(a: Seq<char>, b: Seq<char>)
    ensures
        str_le(a, b) || str_le(b, a),
    decreases a.len(),
{
    if a.len() == 0 || b.len() == 0 {
    } else if a[0] == b[0] {
        lemma_str_le_total(a.drop_first(), b.drop_first());
    }
}

/// `str_le` is transitive.
pub proof fn lemma_str_le_trans(a: Seq<char>, b: Seq<char>, c: Seq<char>)
    requires
        str_le(a, b),
        str_le(b, c),
    ensures
        str_le(a, c),
    decreases a.len(),
{
    if a.len() == 0 {
    } else if b.len() == 0 {
    } else if c.len() == 0 {
    } else if a[0] == b[0] && b[0] == c[0] {
        lemma_str_le_trans(a.drop_first(), b.drop_first(), c.drop_first());
    }
}

/// The characters of `s`, as a vector.
pub fn chars_of(s: &str) -> (v: Vec<char>)
    ensures
        v@ == s@,
{
    let n: usize = s.unicode_len();
    let mut v: Vec<char> = Vec::new();
    let mut i: usize = 0;
    while i < n
        invariant
            i <= n,
            n == s@.len(),
            v@ == s@.subrange(0, i as int),
        decreases n - i,
    {
        let c = s.get_char(i);
        v.push(c);
        i = i + 1;
        assert(v@ =~= s@.subrange(0, i as int));
    }
    assert(v@ =~= s@);
    v
}

/// Whether two character vectors hold the same characters.
pub fn eq_chars(a: &Vec<char>, b: &Vec<char>) -> (r: bool)
    ensures
        r == (a@ == b@),
{
    if a.len() != b.len() {
        return false;
    }
    let n: usize = a.len();
    let mut i: usize = 0;
    while i < n
        invariant
            i <= n,
            n == a@.len() == b@.len(),
            forall|k: int| 0 <= k < i ==> a@[k] == b@[k],
        decreases n - i,
    {
        if a[i] != b[i] {
            return false;
        }
        i = i + 1;
    }
    assert(a@ =~= b@);
    true
}

/// Whether `c` occurs in `v`.
pub fn contains_char(v: &Vec<char>, c: char) -> (r: bool)
    ensures
        r == seq_contains_char(v@, c),
{
    let n: usize = v.len();
    let mut i: usize = 0;
    while i < n
        invariant
            i <= n,
            n == v@.len(),
            forall|k: int| 0 <= k < i ==> v@[k] != c,
        decreases n - i,
    {
        if v[i] == c {
            return true;
        }
        i = i + 1;
    }
    false
}

/// Whether `needle` occurs as a contiguous run anywhere in `hay`.
pub fn contains_chars(hay: &Vec<char>, needle: &Vec<char>) -> (r: bool)
    ensures
        r == contains_seq(hay@, needle@),
{
    let m: usize = needle.len();
    let n: usize = hay.len();
    if m > n {
        return false;
    }
    let mut i: usize = 0;
    while i <= n - m
        invariant
            m <= n,
            m == needle@.len(),
            n == hay@.len(),
            i <= n - m + 1,
            forall|k: int| 0 <= k < i ==> !matches_at(hay@, needle@, k),
        decreases n - m + 1 - i,
    {
        let mut j: usize = 0;
        let mut hit: bool = true;
        while j < m
            invariant
                i + m <= n,
                m == needle@.len(),
                n == hay@.len(),
                j <= m,
                hit ==> forall|k: int| 0 <= k < j ==> hay@[i + k] == needle@[k],
                !hit ==> !matches_at(hay@, needle@, i as int),
            decreases m - j,
        {
            if hay[i + j] != needle[j] {
                hit = false;
                assert(!matches_at(hay@, needle@, i as int));
                j = m;
            } else {
                j = j + 1;
            }
        }
        if hit {
            assert(matches_at(hay@, needle@, i as int));
            return true;
        }
        i = i + 1;
    }
    assert forall|k: int| !matches_at(hay@, needle@, k) by {
        if 0 <= k && k + needle@.len() <= hay@.len() {
            assert(k <= n - m);
        }
    }
    false
}

/// Whether the characters of `prefix` begin the characters of `v`.
pub fn starts_with_chars(v: &Vec<char>, prefix: &Vec<char>) -> (r: bool)
    ensures
        r == is_prefix_of(prefix@, v@),
{
    let m: usize = prefix.len();
    if m > v.len() {
        return false;
    }
    let mut j: usize = 0;
    while j < m
        invariant
            m <= v@.len(),
            m == prefix@.len(),
            forall|k: int| 0 <= k < j ==> v@[k] == prefix@[k],
            j <= m,
        decreases m - j,
    {
        if v[j] != prefix[j] {
            return false;
        }
        j = j + 1;
    }
    true
}

/// `v` with leading and trailing whitespace removed.
pub fn trim_chars(v: Vec<char>) -> (r: Vec<char>)
    ensures
        r@ == spec_trim(v@),
    decreases v@.len(),
{
    if v.len() == 0 {
        v
    } else if is_space_char(v[0]) {
        let mut v2 = v;
        let ghost before = v2@;
        v2.remove(0);
        assert(v2@ =~= before.drop_first());
        trim_chars(v2)
    } else if is_space_char(v[v.len() - 1]) {
        let mut v2 = v;
        let ghost before = v2@;
        v2.pop();
        assert(v2@ =~= before.drop_last());
        trim_chars(v2)
    } else {
        v
    }
}

/// Whether `c` is one of the library's whitespace characters.
pub fn is_space_char(c: char) -> (r: bool)
    ensures
        r == is_space(c),
{
    c == ' ' || c == '\t' || c == '\n' || c == '\r'
}

/// First index at or after `from` where `c` occurs in `v`, or `v.len()`.
pub fn find_char_from(v: &Vec<char>, c: char, from: usize) -> (r: usize)
    requires
        from <= v@.len(),
    ensures
        from <= r <= v@.len(),
        r < v@.len() ==> v@[r as int] == c,
        forall|k: int| from <= k < r ==> v@[k] != c,
{
    let n: usize = v.len();
    let mut i: usize = from;
    while i < n
        invariant
            from <= i <= n,
            n == v@.len(),
            forall|k: int| from <= k < i ==> v@[k] != c,
        decreases n - i,
    {
        if v[i] == c {
            return i;
        }
        i = i + 1;
    }
    n
}

/// Any suffix of `s` that starts just past a first occurrence of `c`
/// splits as the definition of `split_seq` says.
pub proof fn lemma_split_seq_step(s: Seq<char>, c: char, j: int)
    requires
        0 <= j <= s.len(),
        forall|k: int| 0 <= k < j ==> s[k] != c,
        j < s.len() ==> s[j] == c,
    ensures
        j == s.len() ==> split_seq(s, c) == seq![s],
        j < s.len() ==> split_seq(s, c) == seq![s.subrange(0, j)] + split_seq(
            s.subrange(j + 1, s.len() as int),
            c,
        ),
    decreases s.len(),
{
    lemma_find_char(s, c);
    let i = find_char(s, c) as int;
    if j == s.len() {
        assert(i >= s.len());
    } else {
        assert(i == j);
    }
}

/// `v` split on `c`, as vectors.
pub fn split_chars(v: &Vec<char>, c: char) -> (r: Vec<Vec<char>>)
    ensures
        r.deep_view() == split_seq(v@, c),
{
    let n: usize = v.len();
    let mut pieces: Vec<Vec<char>> = Vec::new();
    let mut pos: usize = 0;
    let mut done: bool = false;
    proof {
        assert(v@.subrange(0, n as int) =~= v@);
    }
    loop
        invariant
            pos <= n,
            n == v@.len(),
            !done ==> pieces.deep_view() + split_seq(v@.subrange(pos as int, n as int), c)
                == split_seq(v@, c),
            done ==> pieces.deep_view() == split_seq(v@, c),
        ensures
            pieces.deep_view() == split_seq(v@, c),
        decreases (if done { 0int } else { 1int }), n - pos,
    {
        if done {
            break;
        }
        let j: usize = find_char_from(v, c, pos);
        let mut piece: Vec<char> = Vec::new();
        let mut k: usize = pos;
        while k < j
            invariant
                pos <= k <= j <= n,
                n == v@.len(),
                piece@ =~= v@.subrange(pos as int, k as int),
            decreases j - k,
        {
            piece.push(v[k]);
            k = k + 1;
            assert(piece@ =~= v@.subrange(pos as int, k as int));
        }
        let ghost rem = v@.subrange(pos as int, n as int);
        let ghost jj: int = j - pos;
        proof {
            assert(piece@ =~= rem.subrange(0, jj));
            assert forall|t: int| 0 <= t < jj implies rem[t] != c by {
                assert(rem[t] == v@[pos + t]);
            }
            if j < n {
                assert(rem[jj] == v@[j as int]);
            }
            lemma_split_seq_step(rem, c, jj);
        }
        let ghost old_pieces = pieces.deep_view();
        let ghost piece_chars = piece@;
        pieces.push(piece);
        proof {
            assert(pieces.deep_view() =~~= old_pieces.push(piece_chars));
        }
        if j < n {
            proof {
                assert(rem.subrange(jj + 1, rem.len() as int) =~= v@.subrange(j + 1, n as int));
                assert(seq![piece_chars] =~= seq![rem.subrange(0, jj)]);
                assert(old_pieces.push(piece_chars) + split_seq(v@.subrange(j + 1, n as int), c)
                    =~= old_pieces + (seq![rem.subrange(0, jj)] + split_seq(
                    rem.subrange(jj + 1, rem.len() as int),
                    c,
                )));
            }
            pos = j + 1;
        } else {
            proof {
                assert(piece_chars =~= rem);
                assert(old_pieces.push(piece_chars) =~= old_pieces + seq![rem]);
            }
            done = true;
        }
    }
    pieces
}

/// A fresh copy of the characters of `v`.
pub fn copy_chars(v: &Vec<char>) -> (r: Vec<char>)
    ensures
        r@ == v@,
{
    let n: usize = v.len();
    let mut r: Vec<char> = Vec::new();
    let mut i: usize = 0;
    while i < n
        invariant
            i <= n,
            n == v@.len(),
            r@ == v@.subrange(0, i as int),
        decreases n - i,
    {
        r.push(v[i]);
        i = i + 1;
        assert(r@ =~= v@.subrange(0, i as int));
    }
    assert(r@ =~= v@);
    r
}

/// Compares the suffixes of `a` and `b` that start at `i`.
fn le_chars_from(a: &Vec<char>, b: &Vec<char>, i: usize) -> (r: bool)
    requires
        i <= a@.len(),
        i <= b@.len(),
    ensures
        r == str_le(a@.skip(i as int), b@.skip(i as int)),
    decreases a@.len() - i,
{
    let ghost sa = a@.skip(i as int);
    let ghost sb = b@.skip(i as int);
    if i == a.len() {
        true
    } else if i == b.len() {
        false
    } else {
        let ca = a[i];
        let cb = b[i];
        assert(sa[0] == ca && sb[0] == cb);
        if ca == cb {
            let r = le_chars_from(a, b, i + 1);
            proof {
                assert(sa.drop_first() =~= a@.skip(i + 1));
                assert(sb.drop_first() =~= b@.skip(i + 1));
            }
            r
        } else {
            ca < cb
        }
    }
}

/// Whether the characters of `a` come at or before those of `b` in
/// lexicographic order.
pub fn le_chars(a: &Vec<char>, b: &Vec<char>) -> (r: bool)
    ensures
        r == str_le(a@, b@),
{
    let r = le_chars_from(a, b, 0);
    proof {
        assert(a@.skip(0) =~= a@);
        assert(b@.skip(0) =~= b@);
    }
    r
}

/// Case folding of a character sequence, as computed by the standard
/// library.  The result is a function of the characters alone.
pub uninterp spec fn lower_of(s: Seq<char>) -> Seq<char>;

/// Relies on the standard library's collection of a character iterator
/// into a string: the result holds exactly the given characters.
#[verifier::external_body]
pub(crate) fn chars_to_string(v: &Vec<char>) -> (r: String)
    ensures
        r@ == v@,
{
    v.iter().collect()
}

/// Relies on str::to_lowercase: Unicode case folding, a function of the
/// characters alone; an empty string stays empty.
#[verifier::external_body]
pub(crate) fn lowercase_chars(v: &Vec<char>) -> (r: Vec<char>)
    ensures
        r@ == lower_of(v@),
        v@.len() == 0 ==> r@.len() == 0,
{
    let s: String = v.iter().collect();
    s.to_lowercase().chars().collect()
}

} // verus!
