//! Turning raw history rows into canonical records.
//!
//! A row arrives as the stores keep it: title, URL, visit count, and the
//! raw visit time in the source schema's own epoch.  Extraction
//! normalizes the time to Unix seconds, renders the human-readable
//! subtitle, drops rows with missing fields or unrepresentable times,
//! and — for Chromium-schema sources — drops rows whose URL contains an
//! ignored domain.

use vstd::prelude::*;
use vstd::string::*;

use crate::epoch::{
    chromium_time_to_unix, chromium_to_unix, mozilla_time_to_unix, mozilla_to_unix,
    webkit_time_to_unix, webkit_to_unix, WEBKIT_EPOCH_OFFSET_SECONDS,
};
use crate::search::{ResultSource, SearchResult};
use crate::text::{chars_of, chars_to_string, contains_chars, contains_seq};

verus! {

/// One row read from a history store, in the store's own encoding.
#[derive(Debug, Clone, PartialEq)]
pub struct HistoryRow {
    pub title: String,
    pub url: String,
    pub visit_count: u32,
    pub raw_time: i64,
}

/// Which schema family a history store follows, which decides the epoch
/// of its raw visit times.
#[derive(Debug, Clone, Copy, PartialEq, Eq, Structural)]
pub enum HistorySchema {
    /// Microseconds since 1601-01-01.
    Chromium,
    /// Seconds since 2001-01-01.
    Webkit,
    /// Microseconds since 1970-01-01.
    Mozilla,
}

/// Whether a raw visit time is representable under the schema.
pub open spec fn schema_raw_ok(sch: HistorySchema, raw: int) -> bool {
    match sch {
        HistorySchema::Chromium => 0 <= raw,
        HistorySchema::Webkit => raw + WEBKIT_EPOCH_OFFSET_SECONDS <= i64::MAX,
        HistorySchema::Mozilla => 0 <= raw,
    }
}

/// The Unix seconds a raw visit time denotes under the schema.
pub open spec fn schema_to_unix(sch: HistorySchema, raw: int) -> int {
    match sch {
        HistorySchema::Chromium => chromium_to_unix(raw),
        HistorySchema::Webkit => webkit_to_unix(raw),
        HistorySchema::Mozilla => mozilla_to_unix(raw),
    }
}

/// The timestamp text jiff's strtime formatting produces for a Unix
/// instant in UTC under a format string, or `None` when the instant or
/// the format cannot be rendered.  The text is a function of the two
/// arguments alone.
pub uninterp spec fn formatted_time(sec: i64, fmt: Seq<char>) -> Option<Seq<char>>;

/// The view of an optional string.
pub open spec fn opt_str_view(r: Option<String>) -> Option<Seq<char>> {
    match r {
        Some(s) => Some(s@),
        None => None,
    }
}

/// Relies on jiff: Timestamp::from_second, in_tz("UTC") and
/// strtime::format; the rendered text depends on the instant and the
/// format string alone.
#[verifier::external_body]
fn jiff_format_timestamp(sec: i64, fmt: &str) -> (r: Option<String>)
    ensures
        opt_str_view(r) == formatted_time(sec, fmt@),
{
    let ts = match jiff::Timestamp::from_second(sec) {
        Ok(t) => t,
        Err(_) => return None,
    };
    let zoned = match ts.in_tz("UTC") {
        Ok(z) => z,
        Err(_) => return None,
    };
    match jiff::fmt::strtime::format(fmt, &zoned) {
        Ok(s) => Some(s),
        Err(_) => None,
    }
}

/// The character standing for one decimal digit.
pub open spec fn digit_char(d: int) -> char {
    ('0' as int + d) as char
}

/// The decimal digits of a non-negative number.
pub open spec fn dec_digits(n: int) -> Seq<char>
    decreases n,
{
    if n < 10 {
        seq![digit_char(n)]
    } else {
        dec_digits(n / 10).push(digit_char(n % 10))
    }
}

/// The character standing for one decimal digit, decided executably.
fn digit_char_of(d: u32) -> (r: char)
    requires
        d < 10,
    ensures
        r == digit_char(d as int),
{
    match d {
        0 => '0',
        1 => '1',
        2 => '2',
        3 => '3',
        4 => '4',
        5 => '5',
        6 => '6',
        7 => '7',
        8 => '8',
        _ => '9',
    }
}

/// Renders a number as its decimal digits.
fn u32_to_string(n: u32) -> (r: String)
    ensures
        r@ == dec_digits(n as int),
{
    let mut rev: Vec<char> = Vec::new();
    let mut m: u32 = n;
    proof {
        assert(dec_digits(n as int) =~= dec_digits(m as int) + rev@.reverse());
    }
    loop
        invariant_except_break
            dec_digits(n as int) == dec_digits(m as int) + rev@.reverse(),
        ensures
            dec_digits(n as int) == rev@.reverse(),
        decreases m,
    {
        let ghost rev_old = rev@;
        let d: u32 = m % 10;
        rev.push(digit_char_of(d));
        proof {
            assert(rev@.reverse() =~= seq![digit_char(d as int)] + rev_old.reverse());
        }
        if m < 10 {
            proof {
                assert(dec_digits(m as int) == seq![digit_char(m as int)]);
                assert(dec_digits(n as int) =~= rev@.reverse());
            }
            break;
        }
        proof {
            assert(dec_digits(m as int) == dec_digits(m as int / 10).push(
                digit_char(m as int % 10),
            ));
            assert(dec_digits(m as int / 10).push(digit_char(d as int)) =~= dec_digits(
                m as int / 10,
            ) + seq![digit_char(d as int)]);
            assert(dec_digits(n as int) =~= dec_digits((m / 10) as int) + rev@.reverse());
        }
        m = m / 10;
    }
    let k: usize = rev.len();
    let mut digits: Vec<char> = Vec::new();
    let mut i: usize = k;
    while i > 0
        invariant
            i <= k,
            k == rev@.len(),
            digits@.len() == k - i,
            forall|t: int| 0 <= t < digits@.len() ==> digits@[t] == rev@[k - 1 - t],
        decreases i,
    {
        i = i - 1;
        digits.push(rev[i]);
    }
    proof {
        assert(digits@ =~= rev@.reverse());
    }
    chars_to_string(&digits)
}

/// The subtitle text shown for a history record.
pub open spec fn spec_subtitle(date: Seq<char>, visits: u32) -> Seq<char> {
    "Last visit: "@ + date + " (Visits: "@ + dec_digits(visits as int) + ")"@
}

/// Renders the subtitle for a formatted date and a visit count.
fn make_subtitle(date: &String, visits: u32) -> (s: String)
    ensures
        s@ == spec_subtitle(date@, visits),
{
    let num = u32_to_string(visits);
    let mut s = String::from_str("Last visit: ");
    s.append(date.as_str());
    s.append(" (Visits: ");
    s.append(num.as_str());
    s.append(")");
    proof {
        assert(s@ =~= spec_subtitle(date@, visits));
    }
    s
}

/// Whether the URL contains any ignored domain as a substring.
pub open spec fn spec_url_ignored(u: Seq<char>, igns: Seq<Seq<char>>) -> bool {
    exists|i: int| 0 <= i < igns.len() && contains_seq(u, #[trigger] igns[i])
}

/// Whether the URL contains any of the configured ignored domains.
pub fn url_ignored(url: &str, ignored: &Vec<String>) -> (r: bool)
    ensures
        r == spec_url_ignored(url@, ignored.deep_view()),
{
    let uv = chars_of(url);
    let n: usize = ignored.len();
    let mut i: usize = 0;
    while i < n
        invariant
            i <= n,
            n == ignored@.len(),
            uv@ == url@,
            forall|k: int| 0 <= k < i ==> !contains_seq(url@, #[trigger] ignored.deep_view()[k]),
        decreases n - i,
    {
        let dv = chars_of(ignored[i].as_str());
        proof {
            assert(ignored.deep_view()[i as int] == ignored@[i as int]@);
        }
        if contains_chars(&uv, &dv) {
            assert(contains_seq(url@, ignored.deep_view()[i as int]));
            return true;
        }
        i = i + 1;
    }
    false
}

/// Whether a history row survives extraction: both text fields present,
/// the raw time representable, the timestamp renderable under the
/// configured format, and — for Chromium-schema stores only — the URL
/// not on the ignore-list.
pub open spec fn row_ok(
    row: HistoryRow,
    sch: HistorySchema,
    fmt: Seq<char>,
    igns: Seq<Seq<char>>,
) -> bool {
    &&& row.title@.len() > 0
    &&& row.url@.len() > 0
    &&& schema_raw_ok(sch, row.raw_time as int)
    &&& formatted_time(schema_to_unix(sch, row.raw_time as int) as i64, fmt) is Some
    &&& (sch == HistorySchema::Chromium ==> !spec_url_ignored(row.url@, igns))
}

/// The rows of `rows` that survive extraction, in order.
pub open spec fn rows_kept(
    rows: Seq<HistoryRow>,
    sch: HistorySchema,
    fmt: Seq<char>,
    igns: Seq<Seq<char>>,
) -> Seq<HistoryRow> {
    rows.filter(|row: HistoryRow| row_ok(row, sch, fmt, igns))
}

/// How a canonical record renders one surviving row: text fields kept,
/// the visit time normalized to Unix seconds, and the subtitle rendered
/// from the formatted date and the visit count.
pub open spec fn history_record_of(
    rec: SearchResult,
    row: HistoryRow,
    sch: HistorySchema,
    fmt: Seq<char>,
) -> bool {
    &&& rec.title == row.title
    &&& rec.url == row.url
    &&& rec.subtitle@ == spec_subtitle(
        formatted_time(schema_to_unix(sch, row.raw_time as int) as i64, fmt).unwrap(),
        row.visit_count,
    )
    &&& rec.favicon is None
    &&& rec.source == ResultSource::History
    &&& rec.visit_count == Some(row.visit_count)
    &&& rec.last_visit == Some(schema_to_unix(sch, row.raw_time as int) as i64)
}

/// Extracts canonical history records from raw rows: every surviving
/// row yields one record, in row order, normalized per the schema's
/// epoch; rows with missing fields, unrepresentable times, or ignored
/// domains are dropped.
pub fn extract_history(
    rows: Vec<HistoryRow>,
    schema: HistorySchema,
    date_format: &str,
    ignored: &Vec<String>,
) -> (r: Vec<SearchResult>)
    ensures
        r@.len() == rows_kept(rows@, schema, date_format@, ignored.deep_view()).len(),
        forall|k: int|
            0 <= k < r@.len() ==> history_record_of(
                #[trigger] r@[k],
                rows_kept(rows@, schema, date_format@, ignored.deep_view())[k],
                schema,
                date_format@,
            ),
{
    let ghost orig = rows@;
    let ghost fmt = date_format@;
    let ghost igns = ignored.deep_view();
    let mut input = rows;
    let mut out: Vec<SearchResult> = Vec::new();
    while input.len() > 0
        invariant
            fmt == date_format@,
            igns == ignored.deep_view(),
            input@.len() <= orig.len(),
            input@ =~= orig.subrange(orig.len() - input@.len(), orig.len() as int),
            out@.len() == rows_kept(
                orig.subrange(0, orig.len() - input@.len()),
                schema,
                fmt,
                igns,
            ).len(),
            forall|t: int|
                0 <= t < out@.len() ==> history_record_of(
                    #[trigger] out@[t],
                    rows_kept(orig.subrange(0, orig.len() - input@.len()), schema, fmt, igns)[t],
                    schema,
                    fmt,
                ),
        decreases input@.len(),
    {
        let ghost k: int = orig.len() - input@.len();
        let ghost prefix = orig.subrange(0, k);
        let ghost before = input@;
        let x = input.remove(0);
        proof {
            crate::seqs::lemma_suffix_step(orig, k);
            assert(before == orig.subrange(k, orig.len() as int));
            assert(x == orig[k]);
            assert(input@ == before.remove(0));
            assert(input@ =~= orig.subrange(k + 1, orig.len() as int));
            assert(orig.subrange(0, k + 1).drop_last() == prefix);
            assert(orig.subrange(0, k + 1).last() == x);
        }
        let ghost newpref = orig.subrange(0, k + 1);
        let ghost kept_old = rows_kept(prefix, schema, fmt, igns);
        let mut ok: bool = !x.title.as_str().is_empty() && !x.url.as_str().is_empty();
        let mut sec: i64 = 0;
        if ok {
            match schema {
                HistorySchema::Chromium => {
                    if x.raw_time >= 0 {
                        sec = chromium_time_to_unix(x.raw_time);
                    } else {
                        ok = false;
                    }
                },
                HistorySchema::Webkit => {
                    if x.raw_time <= i64::MAX - WEBKIT_EPOCH_OFFSET_SECONDS {
                        sec = webkit_time_to_unix(x.raw_time);
                    } else {
                        ok = false;
                    }
                },
                HistorySchema::Mozilla => {
                    if x.raw_time >= 0 {
                        sec = mozilla_time_to_unix(x.raw_time);
                    } else {
                        ok = false;
                    }
                },
            }
        }
        let is_chromium = match schema {
            HistorySchema::Chromium => true,
            _ => false,
        };
        if ok && is_chromium {
            if url_ignored(x.url.as_str(), ignored) {
                ok = false;
            }
        }
        let mut produced: Option<SearchResult> = None;
        if ok {
            proof {
                assert(schema_raw_ok(schema, x.raw_time as int));
                assert(sec as int == schema_to_unix(schema, x.raw_time as int));
                assert(sec == schema_to_unix(schema, x.raw_time as int) as i64);
            }
            match jiff_format_timestamp(sec, date_format) {
                Some(date) => {
                    let subtitle = make_subtitle(&date, x.visit_count);
                    let rec = SearchResult {
                        title: x.title,
                        url: x.url,
                        subtitle,
                        favicon: None,
                        source: ResultSource::History,
                        visit_count: Some(x.visit_count),
                        last_visit: Some(sec),
                    };
                    proof {
                        assert(formatted_time(sec, fmt) == Some(date@));
                        assert(history_record_of(rec, x, schema, fmt));
                    }
                    produced = Some(rec);
                },
                None => {
                    ok = false;
                },
            }
        }
        proof {
            reveal_with_fuel(Seq::<HistoryRow>::filter, 2);
            if ok {
                assert(row_ok(x, schema, fmt, igns));
                assert(rows_kept(newpref, schema, fmt, igns) == kept_old.push(x));
            } else {
                assert(!row_ok(x, schema, fmt, igns));
                assert(rows_kept(newpref, schema, fmt, igns) == kept_old);
            }
        }
        match produced {
            Some(rec) => {
                out.push(rec);
                proof {
                    let kept_new = rows_kept(newpref, schema, fmt, igns);
                    assert(kept_new[kept_new.len() - 1] == x);
                    assert forall|t: int| 0 <= t < out@.len() implies history_record_of(
                        #[trigger] out@[t],
                        kept_new[t],
                        schema,
                        fmt,
                    ) by {
                        if t < out@.len() - 1 {
                            assert(out@[t] == out@.subrange(0, out@.len() - 1)[t]);
                            assert(kept_new[t] == kept_old[t]);
                        }
                    }
                }
            },
            None => {},
        }
        assert(out@.len() == rows_kept(newpref, schema, fmt, igns).len());
    }
    proof {
        crate::seqs::lemma_subrange_all(orig);
    }
    out
}

} // verus!
