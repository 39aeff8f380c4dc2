//! The configuration the pipeline runs under, built once at process
//! start and passed into every component — no component reads ambient
//! state.
//!
//! Also holds the two small parsers configuration values go through: the
//! boolean convention ("1" or any casing of "true") and decimal parsing
//! for the result cap.

use vstd::prelude::*;

use crate::text::{chars_of, find_char_from, lemma_split_seq_step, split_seq};

verus! {

broadcast use vstd::seq_lib::group_seq_lib_default;

/// Per-source enable flags and the recognized options: the domain
/// ignore-list (history only), the date-display format, the maximum
/// result count, and whether favicons are decorated on.
#[derive(Debug, Clone)]
pub struct Config {
    pub chrome: bool,
    pub chrome_beta: bool,
    pub brave: bool,
    pub brave_beta: bool,
    pub safari: bool,
    pub firefox: bool,
    pub edge: bool,
    pub zen: bool,
    pub opera: bool,
    pub vivaldi: bool,
    pub arc: bool,
    pub chromium: bool,
    pub sidekick: bool,
    pub ignored_domains: Vec<String>,
    pub date_format: String,
    pub max_results: usize,
    pub show_favicon: bool,
}

/// ASCII letters compare case-insensitively by folding upper case onto
/// lower case; every other character stands for itself.
pub open spec fn ascii_fold(c: char) -> int {
    if 'A' <= c && c <= 'Z' {
        c as int + 32
    } else {
        c as int
    }
}

/// ASCII-case-insensitive equality of two character sequences.
pub open spec fn ascii_eq(a: Seq<char>, b: Seq<char>) -> bool {
    a.len() == b.len() && forall|i: int| 0 <= i < a.len() ==> ascii_fold(a[i]) == ascii_fold(
        b[i],
    )
}

/// The boolean convention for configuration values: "1", or "true" in
/// any ASCII casing.
pub open spec fn spec_truthy(v: Seq<char>) -> bool {
    v == seq!['1'] || ascii_eq(v, seq!['t', 'r', 'u', 'e'])
}

/// An ASCII letter's fold, decided executably.
fn fold_char(c: char) -> (r: u32)
    ensures
        r as int == ascii_fold(c),
{
    if 'A' <= c && c <= 'Z' {
        (c as u32) + 32
    } else {
        c as u32
    }
}

/// Whether a configuration value means "enabled".
pub fn truthy(v: &str) -> (r: bool)
    ensures
        r == spec_truthy(v@),
{
    let cv = chars_of(v);
    if cv.len() == 1 && cv[0] == '1' {
        proof {
            assert(cv@ =~= seq!['1']);
        }
        return true;
    }
    proof {
        assert(cv@ != seq!['1']) by {
            if cv@ == seq!['1'] {
                assert(cv@.len() == 1 && cv@[0] == '1');
            }
        }
    }
    let pattern: [char; 4] = ['t', 'r', 'u', 'e'];
    if cv.len() != 4 {
        return false;
    }
    let mut i: usize = 0;
    while i < 4
        invariant
            i <= 4,
            cv@.len() == 4,
            cv@ == v@,
            pattern@ == seq!['t', 'r', 'u', 'e'],
            forall|k: int| 0 <= k < i ==> ascii_fold(cv@[k]) == ascii_fold(pattern@[k]),
        decreases 4 - i,
    {
        let c = cv[i];
        let p = pattern[i];
        let cf: u32 = fold_char(c);
        let pf: u32 = fold_char(p);
        proof {
            assert(c == cv@[i as int]);
            assert(p == pattern@[i as int]);
        }
        if cf != pf {
            proof {
                assert(ascii_fold(cv@[i as int]) != ascii_fold(pattern@[i as int]));
            }
            return false;
        }
        i = i + 1;
    }
    proof {
        assert(ascii_eq(cv@, seq!['t', 'r', 'u', 'e']));
    }
    true
}

/// The domain ignore-list a comma-separated configuration value
/// denotes: the non-empty pieces between commas, in order.
pub open spec fn spec_ignored_list(s: Seq<char>) -> Seq<Seq<char>> {
    split_seq(s, ',').filter(|p: Seq<char>| p.len() > 0)
}

/// Splits the configured ignore-list on commas and drops empty pieces;
/// in particular an unset (empty) value yields no ignored domains.
pub fn parse_ignored_domains(s: &str) -> (r: Vec<String>)
    ensures
        r.deep_view() == spec_ignored_list(s@),
{
    let cv = chars_of(s);
    let n: usize = cv.len();
    let mut out: Vec<String> = Vec::new();
    let mut pos: usize = 0;
    let mut done: bool = false;
    proof {
        assert(s@.subrange(0, n as int) =~= s@);
    }
    loop
        invariant
            pos <= n,
            n == s@.len(),
            cv@ == s@,
            !done ==> out.deep_view() + spec_ignored_list(s@.subrange(pos as int, n as int))
                == spec_ignored_list(s@),
            done ==> out.deep_view() == spec_ignored_list(s@),
        ensures
            out.deep_view() == spec_ignored_list(s@),
        decreases (if done { 0int } else { 1int }), n - pos,
    {
        if done {
            break;
        }
        let j: usize = find_char_from(&cv, ',', pos);
        let ghost rem = s@.subrange(pos as int, n as int);
        let ghost jj: int = j - pos;
        let ghost piece_seq = rem.subrange(0, jj);
        proof {
            reveal_with_fuel(Seq::<Seq<char>>::filter, 2);
            assert forall|t: int| 0 <= t < jj implies rem[t] != ',' by {
                assert(rem[t] == s@[pos + t]);
            }
            if j < n {
                assert(rem[jj] == s@[j as int]);
            }
            lemma_split_seq_step(rem, ',', jj);
        }
        let ghost out_old = out.deep_view();
        if j > pos {
            let piece: String = s.substring_char(pos, j).to_owned();
            proof {
                assert(piece@ =~= piece_seq);
            }
            out.push(piece);
            proof {
                assert(out.deep_view() =~~= out_old.push(piece_seq));
            }
        }
        proof {
            reveal_with_fuel(Seq::<Seq<char>>::filter, 2);
            if j < n {
                let rest = rem.subrange(jj + 1, rem.len() as int);
                assert(rest =~= s@.subrange(j + 1, n as int));
                assert(split_seq(rem, ',') == seq![piece_seq] + split_seq(rest, ','));
                assert(spec_ignored_list(rem) == seq![piece_seq].filter(
                    |p: Seq<char>| p.len() > 0,
                ) + spec_ignored_list(rest));
                if jj > 0 {
                    assert(seq![piece_seq].drop_last() =~= Seq::<Seq<char>>::empty());
                    assert(seq![piece_seq].filter(|p: Seq<char>| p.len() > 0)
                        =~= seq![piece_seq]);
                    assert(out.deep_view() =~= out_old + seq![piece_seq]);
                } else {
                    assert(piece_seq.len() == 0);
                    assert(seq![piece_seq].drop_last() =~= Seq::<Seq<char>>::empty());
                    assert(seq![piece_seq].filter(|p: Seq<char>| p.len() > 0)
                        =~= Seq::<Seq<char>>::empty());
                }
                assert(out.deep_view() + spec_ignored_list(s@.subrange(j + 1, n as int))
                    =~= out_old + spec_ignored_list(rem));
            } else {
                assert(jj == rem.len());
                assert(split_seq(rem, ',') == seq![rem]);
                assert(piece_seq =~= rem);
                assert(seq![rem].drop_last() =~= Seq::<Seq<char>>::empty());
                if jj > 0 {
                    assert(seq![rem].filter(|p: Seq<char>| p.len() > 0) =~= seq![rem]);
                    assert(out.deep_view() =~= out_old + seq![rem]);
                } else {
                    assert(seq![rem].filter(|p: Seq<char>| p.len() > 0) =~= Seq::<
                        Seq<char>,
                    >::empty());
                }
                assert(out.deep_view() =~= out_old + spec_ignored_list(rem));
            }
        }
        if j < n {
            pos = j + 1;
        } else {
            done = true;
        }
    }
    out
}

/// Whether `c` is a decimal digit.
pub open spec fn is_digit(c: char) -> bool {
    '0' <= c && c <= '9'
}

/// Whether every character of `s` is a decimal digit.
pub open spec fn all_digits(s: Seq<char>) -> bool {
    forall|i: int| 0 <= i < s.len() ==> is_digit(#[trigger] s[i])
}

/// The number the decimal digits of `s` denote.
pub open spec fn digits_value(s: Seq<char>) -> int
    decreases s.len(),
{
    if s.len() == 0 {
        0
    } else {
        digits_value(s.drop_last()) * 10 + (s.last() as int - '0' as int)
    }
}

/// A digit string's value only grows as digits are appended.
proof fn lemma_digits_prefix_le(s: Seq<char>, k: int)
    requires
        all_digits(s),
        0 <= k <= s.len(),
    ensures
        0 <= digits_value(s.subrange(0, k)),
        digits_value(s.subrange(0, k)) <= digits_value(s),
    decreases s.len(),
{
    if s.len() == 0 {
        assert(s.subrange(0, 0) =~= s);
    } else if k == s.len() {
        assert(s.subrange(0, k) =~= s);
        lemma_digits_prefix_le(s.drop_last(), k - 1);
        assert(s.drop_last().subrange(0, k - 1) =~= s.drop_last());
        assert(digits_value(s.drop_last()) * 10 >= digits_value(s.drop_last()))
            by (nonlinear_arith)
            requires
                digits_value(s.drop_last()) >= 0,
        ;
    } else {
        assert(forall|i: int| 0 <= i < s.drop_last().len() ==> is_digit(
            #[trigger] s.drop_last()[i],
        ));
        lemma_digits_prefix_le(s.drop_last(), k);
        assert(s.drop_last().subrange(0, k) =~= s.subrange(0, k));
        assert(digits_value(s.drop_last()) * 10 >= digits_value(s.drop_last()))
            by (nonlinear_arith)
            requires
                digits_value(s.drop_last()) >= 0,
        ;
    }
}

/// Parses a decimal number: `Some` exactly when the string is nonempty,
/// all digits, and the value fits a `usize`.
pub fn parse_usize(s: &str) -> (r: Option<usize>)
    ensures
        match r {
            Some(v) => s@.len() > 0 && all_digits(s@) && v == digits_value(s@)
                && digits_value(s@) <= usize::MAX,
            None => s@.len() == 0 || !all_digits(s@) || digits_value(s@) > usize::MAX,
        },
{
    let cv = chars_of(s);
    let n: usize = cv.len();
    if n == 0 {
        return None;
    }
    let mut acc: usize = 0;
    let mut i: usize = 0;
    while i < n
        invariant
            i <= n,
            n == s@.len(),
            cv@ == s@,
            acc == digits_value(s@.subrange(0, i as int)),
            forall|k: int| 0 <= k < i ==> is_digit(#[trigger] s@[k]),
        decreases n - i,
    {
        let c = cv[i];
        if !('0' <= c && c <= '9') {
            assert(!is_digit(s@[i as int]));
            return None;
        }
        let d: usize = ((c as u32) - ('0' as u32)) as usize;
        assert(d == s@[i as int] as int - '0' as int);
        assert(d <= 9);
        let ghost newpref = s@.subrange(0, i + 1);
        proof {
            assert(newpref.drop_last() =~= s@.subrange(0, i as int));
            assert(newpref.last() == s@[i as int]);
            assert(digits_value(newpref) == acc * 10 + d);
        }
        if acc > (usize::MAX - d) / 10 {
            proof {
                assert(acc * 10 + d > usize::MAX) by (nonlinear_arith)
                    requires
                        acc > (usize::MAX - d) / 10,
                        d <= 9,
                        acc >= 0,
                ;
                assert forall|k: int| 0 <= k < i + 1 implies is_digit(#[trigger] s@[k]) by {}
                if all_digits(s@) {
                    lemma_digits_prefix_le(s@, i + 1);
                }
            }
            return None;
        }
        proof {
            assert(acc * 10 + d <= usize::MAX) by (nonlinear_arith)
                requires
                    acc <= (usize::MAX - d) / 10,
                    d <= 9,
                    acc >= 0,
            ;
        }
        acc = acc * 10 + d;
        i = i + 1;
    }
    proof {
        assert(s@.subrange(0, n as int) =~= s@);
    }
    Some(acc)
}

} // verus!
