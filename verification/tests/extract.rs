use browser_search::alfred::AlfredItem;
use browser_search::bookmarks::{extract_bookmark_rows, extract_tree_bookmarks, BookmarkRow, BookmarkTreeNode};
use browser_search::browser::{all_browsers, enabled_browsers, Browser};
use browser_search::config::{parse_ignored_domains, parse_usize, truthy, Config};
use browser_search::db::{find_reusable_snapshot, must_copy_snapshot, needs_integrity_probe};
use browser_search::epoch::{chromium_time_to_unix, mozilla_time_to_unix, webkit_time_to_unix};
use browser_search::history::{extract_history, HistoryRow, HistorySchema};
use browser_search::search::{ResultSource, SearchResult};

fn config_with(enable: &[&str]) -> Config {
    Config {
        chrome: enable.contains(&"chrome"),
        chrome_beta: enable.contains(&"chrome_beta"),
        brave: enable.contains(&"brave"),
        brave_beta: enable.contains(&"brave_beta"),
        safari: enable.contains(&"safari"),
        firefox: enable.contains(&"firefox"),
        edge: enable.contains(&"edge"),
        zen: enable.contains(&"zen"),
        opera: enable.contains(&"opera"),
        vivaldi: enable.contains(&"vivaldi"),
        arc: enable.contains(&"arc"),
        chromium: enable.contains(&"chromium"),
        sidekick: enable.contains(&"sidekick"),
        ignored_domains: Vec::new(),
        date_format: "%d.%m.%Y".to_string(),
        max_results: 30,
        show_favicon: false,
    }
}

fn leaf(title: &str, url: &str, tag: Option<&str>) -> BookmarkTreeNode {
    BookmarkTreeNode {
        title: Some(title.to_string()),
        url: Some(url.to_string()),
        type_tag: tag.map(|t| t.to_string()),
        children: Vec::new(),
    }
}

fn folder(children: Vec<BookmarkTreeNode>) -> BookmarkTreeNode {
    BookmarkTreeNode { title: None, url: None, type_tag: None, children }
}

const T: i64 = 1_700_000_000;

#[test]
fn epoch_tables_agree_on_one_instant() {
    // the same calendar instant encoded under each of the three schemas
    let chromium_raw = (T + 11_644_473_600) * 1_000_000;
    let webkit_raw = T - 978_307_200;
    let mozilla_raw = T * 1_000_000;
    let a = chromium_time_to_unix(chromium_raw);
    let b = webkit_time_to_unix(webkit_raw);
    let c = mozilla_time_to_unix(mozilla_raw);
    assert_eq!(a, T);
    assert_eq!(b, T);
    assert_eq!(c, T);
}

#[test]
fn chromium_conversion_exact_value() {
    assert_eq!(chromium_time_to_unix(13_300_000_000_000_000), 13_300_000_000 - 11_644_473_600);
}

#[test]
fn history_rows_become_normalized_records() {
    let rows = vec![HistoryRow {
        title: "A page".to_string(),
        url: "https://page.example".to_string(),
        visit_count: 5,
        raw_time: T * 1_000_000,
    }];
    let out = extract_history(rows, HistorySchema::Mozilla, "%d.%m.%Y", &Vec::new());
    assert_eq!(out.len(), 1);
    assert_eq!(out[0].title, "A page");
    assert_eq!(out[0].url, "https://page.example");
    assert_eq!(out[0].source, ResultSource::History);
    assert_eq!(out[0].visit_count, Some(5));
    assert_eq!(out[0].last_visit, Some(T));
    // 1,700,000,000 s after the Unix epoch falls on 14 November 2023 UTC
    assert_eq!(out[0].subtitle, "Last visit: 14.11.2023 (Visits: 5)");
}

#[test]
fn history_rows_with_missing_fields_are_dropped() {
    let rows = vec![
        HistoryRow {
            title: "".to_string(),
            url: "https://no-title.example".to_string(),
            visit_count: 1,
            raw_time: T,
        },
        HistoryRow {
            title: "No url".to_string(),
            url: "".to_string(),
            visit_count: 1,
            raw_time: T,
        },
        HistoryRow {
            title: "Good".to_string(),
            url: "https://good.example".to_string(),
            visit_count: 1,
            raw_time: T - 978_307_200,
        },
    ];
    let out = extract_history(rows, HistorySchema::Webkit, "%Y", &Vec::new());
    assert_eq!(out.len(), 1);
    assert_eq!(out[0].url, "https://good.example");
    assert_eq!(out[0].last_visit, Some(T));
}

#[test]
fn ignored_domains_filter_chromium_history_only() {
    let make_rows = || {
        vec![
            HistoryRow {
                title: "Tracker".to_string(),
                url: "https://ads.example/banner".to_string(),
                visit_count: 1,
                raw_time: (T + 11_644_473_600) * 1_000_000,
            },
            HistoryRow {
                title: "Keep".to_string(),
                url: "https://keep.example".to_string(),
                visit_count: 1,
                raw_time: (T + 11_644_473_600) * 1_000_000,
            },
        ]
    };
    let ignored = vec!["ads.example".to_string()];
    let chromium = extract_history(make_rows(), HistorySchema::Chromium, "%Y", &ignored);
    assert_eq!(chromium.len(), 1);
    assert_eq!(chromium[0].url, "https://keep.example");
    // the ignore-list applies to Chromium-schema stores only
    let rows = vec![HistoryRow {
        title: "Tracker".to_string(),
        url: "https://ads.example/banner".to_string(),
        visit_count: 1,
        raw_time: T * 1_000_000,
    }];
    let mozilla = extract_history(rows, HistorySchema::Mozilla, "%Y", &ignored);
    assert_eq!(mozilla.len(), 1);
}

#[test]
fn chromium_tree_needs_the_url_type_tag() {
    let root = folder(vec![
        leaf("Tagged", "https://tagged.example", Some("url")),
        leaf("Untagged", "https://untagged.example", None),
        leaf("Folder-tagged", "https://folder.example", Some("folder")),
    ]);
    let out = extract_tree_bookmarks(&root, true);
    assert_eq!(out.len(), 1);
    assert_eq!(out[0].title, "Tagged");
    assert_eq!(out[0].source, ResultSource::Bookmark);
    assert_eq!(out[0].subtitle, "https://tagged.example");
}

#[test]
fn webkit_tree_needs_no_type_tag() {
    let root = folder(vec![
        leaf("Plain", "https://plain.example", None),
        folder(vec![leaf("Nested", "https://nested.example", None)]),
    ]);
    let out = extract_tree_bookmarks(&root, false);
    let titles: Vec<&str> = out.iter().map(|r| r.title.as_str()).collect();
    assert_eq!(titles, vec!["Plain", "Nested"]);
}

#[test]
fn tree_traversal_is_depth_first() {
    let root = folder(vec![
        folder(vec![
            leaf("a1", "https://a1.example", None),
            leaf("a2", "https://a2.example", None),
        ]),
        leaf("b", "https://b.example", None),
    ]);
    let out = extract_tree_bookmarks(&root, false);
    let titles: Vec<&str> = out.iter().map(|r| r.title.as_str()).collect();
    assert_eq!(titles, vec!["a1", "a2", "b"]);
}

#[test]
fn empty_urls_are_never_emitted() {
    let root = folder(vec![leaf("Empty", "", None), leaf("Kept", "https://kept.example", None)]);
    let out = extract_tree_bookmarks(&root, false);
    assert_eq!(out.len(), 1);
    assert_eq!(out[0].url, "https://kept.example");
}

#[test]
fn deep_tree_does_not_overflow_the_traversal() {
    // a bookmark nested 10,000 folders deep: the explicit work-list
    // walks it where native recursion would overflow
    let mut node = leaf("bottom", "https://deep.example", None);
    let mut depth: usize = 0;
    while depth < 10_000 {
        node = folder(vec![node]);
        depth += 1;
    }
    let out = extract_tree_bookmarks(&node, false);
    assert_eq!(out.len(), 1);
    assert_eq!(out[0].title, "bottom");
    // drop the tree iteratively as well, from the outside in
    let mut current = node;
    loop {
        let mut children = std::mem::take(&mut current.children);
        match children.pop() {
            Some(inner) => current = inner,
            None => break,
        }
    }
}

#[test]
fn bookmark_rows_become_records() {
    let rows = vec![
        BookmarkRow { title: "Kept".to_string(), url: "https://k.example".to_string() },
        BookmarkRow { title: "".to_string(), url: "https://dropped.example".to_string() },
    ];
    let out = extract_bookmark_rows(rows);
    assert_eq!(out.len(), 1);
    assert_eq!(out[0].title, "Kept");
    assert_eq!(out[0].subtitle, "https://k.example");
    assert_eq!(out[0].visit_count, None);
}

#[test]
fn truthy_accepts_one_and_any_casing_of_true() {
    assert!(truthy("1"));
    assert!(truthy("true"));
    assert!(truthy("TRUE"));
    assert!(truthy("True"));
    assert!(!truthy("0"));
    assert!(!truthy("yes"));
    assert!(!truthy(""));
}

#[test]
fn parse_usize_accepts_digits_only() {
    assert_eq!(parse_usize("30"), Some(30));
    assert_eq!(parse_usize("0"), Some(0));
    assert_eq!(parse_usize(""), None);
    assert_eq!(parse_usize("3a"), None);
    assert_eq!(parse_usize("-3"), None);
    assert_eq!(parse_usize("99999999999999999999999999"), None);
}

#[test]
fn ignore_list_parsing_drops_empty_pieces() {
    assert_eq!(parse_ignored_domains(""), Vec::<String>::new());
    assert_eq!(
        parse_ignored_domains("ads.example,,tracker.example,"),
        vec!["ads.example".to_string(), "tracker.example".to_string()]
    );
    assert_eq!(parse_ignored_domains("solo"), vec!["solo".to_string()]);
}

#[test]
fn unrenderable_date_format_drops_the_row() {
    let rows = vec![HistoryRow {
        title: "Good".to_string(),
        url: "https://good.example".to_string(),
        visit_count: 1,
        raw_time: T * 1_000_000,
    }];
    let out = extract_history(rows, HistorySchema::Mozilla, "%", &Vec::new());
    assert!(out.is_empty());
}

#[test]
fn registry_omits_disabled_sources() {
    let cfg = config_with(&["safari", "firefox"]);
    let enabled = enabled_browsers(&cfg);
    assert_eq!(enabled, vec![Browser::Safari, Browser::Firefox]);
    let none = enabled_browsers(&config_with(&[]));
    assert!(none.is_empty());
    assert_eq!(all_browsers().len(), 13);
}

#[test]
fn browser_classification_and_names() {
    assert!(Browser::Chrome.is_chrome_like());
    assert!(!Browser::Chrome.is_firefox_like());
    assert!(Browser::Zen.is_firefox_like());
    assert!(Browser::Safari.is_safari_like());
    assert_eq!(Browser::Edge.name(), "Microsoft Edge");
    assert_eq!(Browser::BraveBeta.env_var(), "brave_beta");
    assert_eq!(Browser::Safari.history_location(), "Library/Safari/History.db");
    assert_eq!(Browser::Firefox.profile_database_name(), "places.sqlite");
}

#[test]
fn snapshot_reuse_picks_first_prefixed_name() {
    let names = vec![
        "unrelated.txt".to_string(),
        "db_temp_one".to_string(),
        "db_temp_two".to_string(),
    ];
    assert_eq!(find_reusable_snapshot(&names, "db_temp"), Some(1));
    assert_eq!(find_reusable_snapshot(&names, "zzz"), None);
}

#[test]
fn copy_decision_never_trusts_a_failed_probe() {
    assert!(needs_integrity_probe(100, 100));
    assert!(!needs_integrity_probe(100, 99));
    assert!(must_copy_snapshot(100, 99, true));
    assert!(must_copy_snapshot(100, 100, false));
    assert!(!must_copy_snapshot(100, 100, true));
}

#[test]
fn alfred_item_carries_url_as_identity() {
    let record = SearchResult {
        title: "A page".to_string(),
        url: "https://item.example".to_string(),
        subtitle: "sub".to_string(),
        favicon: Some("/tmp/icon.png".to_string()),
        source: ResultSource::Bookmark,
        visit_count: None,
        last_visit: None,
    };
    let shown = AlfredItem::from_result(&record, true);
    assert_eq!(shown.uid, Some("https://item.example".to_string()));
    assert_eq!(shown.title, "A page");
    assert_eq!(shown.subtitle, Some("sub".to_string()));
    assert_eq!(shown.arg, Some("https://item.example".to_string()));
    assert_eq!(shown.valid, Some(true));
    let icon = shown.icon.expect("favicon display is on");
    assert_eq!(icon.path, "/tmp/icon.png");
    assert_eq!(icon.icon_type, Some("fileicon".to_string()));
    let hidden = AlfredItem::from_result(&record, false);
    assert!(hidden.icon.is_none());
}
