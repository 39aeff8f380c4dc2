use browser_search::rank::{break_a_tie, rank, take};
use browser_search::search::{deduplicate, merge, ResultSource, SearchResult};
use browser_search::search_pipeline;

fn rec(
    title: &str,
    url: &str,
    source: ResultSource,
    visit_count: Option<u32>,
    last_visit: Option<i64>,
) -> SearchResult {
    SearchResult {
        title: title.to_string(),
        url: url.to_string(),
        subtitle: url.to_string(),
        favicon: None,
        source,
        visit_count,
        last_visit,
    }
}

fn url_set(records: &[SearchResult]) -> Vec<String> {
    let mut urls: Vec<String> = records.iter().map(|r| r.url.clone()).collect();
    urls.sort();
    urls
}

const NOW: i64 = 1_700_000_000;

#[test]
fn merge_is_idempotent_by_url_set() {
    let batches = vec![
        vec![
            rec("One", "https://a.example", ResultSource::Bookmark, None, None),
            rec("Two", "https://b.example", ResultSource::History, Some(3), Some(NOW - 7200)),
        ],
        vec![
            rec("One again", "https://a.example", ResultSource::History, Some(9), Some(NOW)),
            rec("Three", "https://c.example", ResultSource::Bookmark, None, None),
        ],
    ];
    let merged = merge(batches);
    assert_eq!(
        url_set(&merged),
        vec![
            "https://a.example".to_string(),
            "https://b.example".to_string(),
            "https://c.example".to_string(),
        ]
    );
    let merged_again = merge(vec![merged.clone()]);
    assert_eq!(url_set(&merged_again), url_set(&merged));
    assert_eq!(merged_again.len(), merged.len());
}

#[test]
fn merge_url_set_does_not_depend_on_batch_order() {
    let a = vec![
        rec("One", "https://a.example", ResultSource::Bookmark, None, None),
        rec("Two", "https://b.example", ResultSource::History, Some(3), Some(NOW)),
    ];
    let b = vec![rec("Three", "https://c.example", ResultSource::History, Some(1), Some(NOW))];
    let forward = merge(vec![a.clone(), b.clone()]);
    let backward = merge(vec![b, a]);
    assert_eq!(url_set(&forward), url_set(&backward));
}

#[test]
fn bookmark_wins_over_history_for_same_url() {
    let records = vec![
        rec("Visited", "https://same.example", ResultSource::History, Some(10), Some(NOW)),
        rec("Kept", "https://same.example", ResultSource::Bookmark, None, None),
    ];
    let out = deduplicate(records);
    assert_eq!(out.len(), 1);
    assert_eq!(out[0].source, ResultSource::Bookmark);
    assert_eq!(out[0].title, "Kept");
}

#[test]
fn first_title_in_order_wins_within_one_origin() {
    let records = vec![
        rec("Zebra", "https://dup.example", ResultSource::History, Some(1), Some(NOW)),
        rec("Aardvark", "https://dup.example", ResultSource::History, Some(1), Some(NOW)),
    ];
    let out = deduplicate(records);
    assert_eq!(out.len(), 1);
    assert_eq!(out[0].title, "Aardvark");
}

#[test]
fn deduplicate_orders_bookmarks_before_history() {
    let records = vec![
        rec("Later", "https://h.example", ResultSource::History, Some(1), Some(NOW)),
        rec("Beta", "https://b2.example", ResultSource::Bookmark, None, None),
        rec("Alpha", "https://b1.example", ResultSource::Bookmark, None, None),
    ];
    let out = deduplicate(records);
    let titles: Vec<&str> = out.iter().map(|r| r.title.as_str()).collect();
    assert_eq!(titles, vec!["Alpha", "Beta", "Later"]);
}

#[test]
fn rank_is_deterministic_across_runs() {
    let records = vec![
        rec("Apple", "https://a1.example", ResultSource::History, Some(2), Some(NOW - 7200)),
        rec("Apple", "https://a2.example", ResultSource::History, Some(5), Some(NOW - 3600)),
        rec("Applesauce", "https://a3.example", ResultSource::Bookmark, None, None),
    ];
    let first = rank(records.clone(), "app", NOW);
    let second = rank(records, "app", NOW);
    assert_eq!(first, second);
}

#[test]
fn rank_breaks_score_ties_by_freshness_and_drops_non_matches() {
    // two records with the same title score identically; the fresher one
    // (more hours since the last visit times more visits) comes first
    let low = rec(
        "Apple",
        "https://low.example",
        ResultSource::History,
        Some(1),
        Some(NOW - 10 * 3600),
    );
    let high = rec(
        "Apple",
        "https://high.example",
        ResultSource::History,
        Some(1),
        Some(NOW - 50 * 3600),
    );
    // a weaker match on the same query ranks below the exact prefix matches
    let weaker = rec("xxApple", "https://weak.example", ResultSource::Bookmark, None, None);
    // no match at all is discarded entirely
    let none = rec("Banana", "https://none.example", ResultSource::Bookmark, None, None);
    let out = rank(vec![low, high, weaker, none], "App", NOW);
    let urls: Vec<&str> = out.iter().map(|r| r.url.as_str()).collect();
    assert_eq!(
        urls,
        vec!["https://high.example", "https://low.example", "https://weak.example"]
    );
}

#[test]
fn break_a_tie_orders_by_freshness_descending() {
    let ten = rec(
        "Apple",
        "https://ten.example",
        ResultSource::History,
        Some(1),
        Some(NOW - 10 * 3600),
    );
    let fifty = rec(
        "Apple Pie",
        "https://fifty.example",
        ResultSource::History,
        Some(1),
        Some(NOW - 50 * 3600),
    );
    let out = break_a_tie(vec![ten, fifty], NOW);
    assert_eq!(out[0].url, "https://fifty.example");
    assert_eq!(out[1].url, "https://ten.example");
}

#[test]
fn records_without_visit_data_are_minimally_fresh() {
    let bare = rec("Apple", "https://bare.example", ResultSource::Bookmark, None, None);
    let visited = rec(
        "Apple",
        "https://visited.example",
        ResultSource::History,
        Some(4),
        Some(NOW - 3600 * 6),
    );
    let out = break_a_tie(vec![bare, visited], NOW);
    assert_eq!(out[0].url, "https://visited.example");
    assert_eq!(out[1].url, "https://bare.example");
}

#[test]
fn take_truncates_without_reordering() {
    let records = vec![
        rec("A", "u1", ResultSource::Bookmark, None, None),
        rec("B", "u2", ResultSource::Bookmark, None, None),
        rec("C", "u3", ResultSource::Bookmark, None, None),
    ];
    let out = take(records.clone(), 2);
    assert_eq!(out.len(), 2);
    assert_eq!(out[0].title, "A");
    assert_eq!(out[1].title, "B");
    let all = take(records, 10);
    assert_eq!(all.len(), 3);
}

#[test]
fn zero_sources_give_empty_result_not_an_error() {
    let out = search_pipeline(vec![], "anything", NOW, 30);
    assert!(out.is_empty());
}

#[test]
fn pipeline_merges_ranks_and_caps() {
    let batches = vec![
        vec![
            rec("Apple", "https://a.example", ResultSource::Bookmark, None, None),
            rec("Apple", "https://a.example", ResultSource::History, Some(1), Some(NOW)),
        ],
        vec![rec("Apricot", "https://b.example", ResultSource::Bookmark, None, None)],
    ];
    let out = search_pipeline(batches, "ap", NOW, 1);
    assert_eq!(out.len(), 1);
}
