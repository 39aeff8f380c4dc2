use browser_search::search::{filter_results, ResultSource, SearchResult};
use browser_search::tabs::{search_tabs, tab_list_indicates_not_running, Tab};

fn rec(title: &str, url: &str, subtitle: &str) -> SearchResult {
    SearchResult {
        title: title.to_string(),
        url: url.to_string(),
        subtitle: subtitle.to_string(),
        favicon: None,
        source: ResultSource::Bookmark,
        visit_count: None,
        last_visit: None,
    }
}

fn tab(title: &str, url: &str) -> Tab {
    Tab {
        title: title.to_string(),
        url: url.to_string(),
        subtitle: url.to_string(),
        window_index: 0,
        tab_index: 0,
        space_index: None,
        arg: url.to_string(),
    }
}

#[test]
fn and_query_needs_every_term() {
    assert!(!browser_search::search::matches("cat&dog", "cat only"));
    assert!(browser_search::search::matches("cat&dog", "hotdog with cat"));
}

#[test]
fn or_query_needs_one_term() {
    assert!(browser_search::search::matches("cat|dog", "dog park"));
    assert!(!browser_search::search::matches("cat|dog", "bird bath"));
}

#[test]
fn empty_query_matches_anything() {
    assert!(browser_search::search::matches("", "anything at all"));
    assert!(browser_search::search::matches("", ""));
}

#[test]
fn and_query_with_single_letter_terms() {
    // both "a" and "b" occur as substrings of "xaybz"
    assert!(browser_search::search::matches("a&b", "xaybz"));
    assert!(!browser_search::search::matches("a&c", "xaybz"));
}

#[test]
fn plain_query_is_case_insensitive_substring() {
    assert!(browser_search::search::matches("APPLE", "my apple pie"));
    assert!(browser_search::search::matches("apple", "APPLE PIE"));
    assert!(!browser_search::search::matches("pear", "my apple pie"));
}

#[test]
fn and_terms_are_trimmed() {
    assert!(browser_search::search::matches("cat & dog", "a dog chasing a cat"));
    assert!(browser_search::search::matches("  cat  |  emu ", "one cat"));
}

#[test]
fn unicode_case_folding_in_terms() {
    assert!(browser_search::search::matches("STRASSE", "eine strasse"));
    assert!(browser_search::search::matches("\u{00c9}clair", "petit \u{00e9}clair"));
}

#[test]
fn filter_results_checks_title_url_and_subtitle() {
    let records = vec![
        rec("Rust book", "https://example.org/one", "docs"),
        rec("Cooking", "https://rustlang.example/two", "recipes"),
        rec("Gardening", "https://example.org/three", "rust removal"),
        rec("Knitting", "https://example.org/four", "wool"),
    ];
    let out = filter_results(records, "rust");
    let titles: Vec<&str> = out.iter().map(|r| r.title.as_str()).collect();
    assert_eq!(titles, vec!["Rust book", "Cooking", "Gardening"]);
}

#[test]
fn filter_results_empty_query_keeps_all() {
    let records = vec![rec("A", "u1", "s"), rec("B", "u2", "s")];
    let out = filter_results(records, "");
    assert_eq!(out.len(), 2);
}

#[test]
fn search_tabs_folds_tab_text_but_not_query() {
    let tabs = vec![tab("APPLE news", "https://one.example"), tab("pear", "https://two.example")];
    // tab text is case-folded, so a lower-case query matches an upper-case title
    let hit = search_tabs(tabs.clone(), "apple");
    assert_eq!(hit.len(), 1);
    assert_eq!(hit[0].title, "APPLE news");
    // the query itself is taken as given: an upper-case query misses folded text
    let miss = search_tabs(tabs, "APPLE");
    assert_eq!(miss.len(), 0);
}

#[test]
fn search_tabs_matches_url_too() {
    let tabs = vec![tab("reading", "https://news.example/today")];
    let out = search_tabs(tabs, "news.example");
    assert_eq!(out.len(), 1);
}

#[test]
fn not_running_answer_is_recognized() {
    let only = vec![tab("Safari is not running", "")];
    assert!(tab_list_indicates_not_running(&only));
    let two = vec![tab("Safari is not running", ""), tab("other", "")];
    assert!(!tab_list_indicates_not_running(&two));
    let normal = vec![tab("ordinary page", "https://x.example")];
    assert!(!tab_list_indicates_not_running(&normal));
}
