//! Browser tab records and the query filter over a live tab list.
//!
//! Listing and focusing tabs runs through OS automation outside the
//! library; what is verified here is how a tab list is filtered and how
//! the "browser is not running" answer is recognized.

use vstd::prelude::*;

use crate::text::{chars_of, contains_chars, contains_seq, lower_of, lowercase_chars};

verus! {

/// Why a tab operation failed.
#[derive(Debug, Clone, PartialEq)]
pub enum TabError {
    /// Browser is not running.
    BrowserNotRunning(String),
    /// Error executing the automation script.
    ScriptExecution(String),
    /// Error parsing script output.
    ParseError(String),
    /// Other error with description.
    Other(String),
}

/// Represents a browser tab with all necessary metadata.
#[derive(Debug, Clone, PartialEq)]
pub struct Tab {
    /// Tab title.
    pub title: String,
    /// Tab URL.
    pub url: String,
    /// Subtitle (usually the URL for display purposes).
    pub subtitle: String,
    /// Window index (0-based).
    pub window_index: usize,
    /// Tab index (0-based).
    pub tab_index: usize,
    /// Space index (for browsers with spaces, 0-based).
    pub space_index: Option<usize>,
    /// Argument string for focusing this tab.
    pub arg: String,
}

/// Whether a tab stays for a query: the query must occur in the
/// case-folded title or the case-folded URL.  The query itself is taken
/// as given.
pub open spec fn tab_matches(t: Tab, query: Seq<char>) -> bool {
    contains_seq(lower_of(t.title@), query) || contains_seq(lower_of(t.url@), query)
}

/// The tabs matching the query, in their given order.
pub open spec fn spec_search_tabs(tabs: Seq<Tab>, query: Seq<char>) -> Seq<Tab> {
    tabs.filter(|t: Tab| tab_matches(t, query))
}

/// Keeps the tabs whose case-folded title or URL contains the query.
pub fn search_tabs(tabs: Vec<Tab>, query: &str) -> (r: Vec<Tab>)
    ensures
        r@ == spec_search_tabs(tabs@, query@),
{
    let qv = chars_of(query);
    let ghost orig = tabs@;
    let mut input = tabs;
    let mut out: Vec<Tab> = Vec::new();
    while input.len() > 0
        invariant
            qv@ == query@,
            input@.len() <= orig.len(),
            input@ =~= orig.subrange(orig.len() - input@.len(), orig.len() as int),
            out@ == spec_search_tabs(orig.subrange(0, orig.len() - input@.len()), query@),
        decreases input@.len(),
    {
        let ghost k: int = orig.len() - input@.len();
        let ghost prefix = orig.subrange(0, k);
        let ghost before = input@;
        let x = input.remove(0);
        proof {
            crate::seqs::lemma_suffix_step(orig, k);
            assert(before == orig.subrange(k, orig.len() as int));
            assert(x == orig[k]);
            assert(input@ == before.remove(0));
            assert(input@ =~= orig.subrange(k + 1, orig.len() as int));
            assert(orig.subrange(0, k + 1).drop_last() == prefix);
            assert(orig.subrange(0, k + 1).last() == x);
        }
        let tl = lowercase_chars(&chars_of(x.title.as_str()));
        let ul = lowercase_chars(&chars_of(x.url.as_str()));
        let keep = contains_chars(&tl, &qv) || contains_chars(&ul, &qv);
        proof {
            reveal_with_fuel(Seq::<Tab>::filter, 2);
            assert(keep == tab_matches(x, query@));
        }
        if keep {
            out.push(x);
        }
        proof {
            assert(out@ == spec_search_tabs(orig.subrange(0, k + 1), query@));
        }
    }
    proof {
        crate::seqs::lemma_subrange_all(orig);
    }
    out
}

/// Whether a tab-list answer really means the browser is not running:
/// one single item whose title carries that message.
pub fn tab_list_indicates_not_running(tabs: &Vec<Tab>) -> (r: bool)
    ensures
        r == (tabs@.len() == 1 && contains_seq(tabs@[0].title@, "is not running"@)),
{
    if tabs.len() != 1 {
        return false;
    }
    let tv = chars_of(tabs[0].title.as_str());
    let needle = chars_of("is not running");
    contains_chars(&tv, &needle)
}

} // verus!
