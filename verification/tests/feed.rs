use dev_to_high_reactions_rss::atom::{
    build_feed_xml, default_feed_updated, entry_xml, FeedEntry, FeedInfo,
};
use dev_to_high_reactions_rss::config::AppConfig;
use dev_to_high_reactions_rss::devto_api::Article;
use dev_to_high_reactions_rss::feed::{
    build_entries, build_entries_in_year, build_entry, build_entry_id, build_summary_html,
    compare_items, entry_id, feed_id, index_url, reconcile,
};
use dev_to_high_reactions_rss::html::{build_index_html, render_index, IndexPage};
use dev_to_high_reactions_rss::state::{StateStore, StoredArticle};
use dev_to_high_reactions_rss::time::{Timestamp, UtcTime};
use std::cmp::Ordering;

const T: i64 = 1_700_000_000;

fn now() -> UtcTime {
    UtcTime::new(T, 0).unwrap()
}

fn bare(key: &str) -> StoredArticle {
    StoredArticle {
        key: key.to_string(),
        id: None,
        canonical_url: None,
        url: None,
        title: format!("Title {}", key),
        description: None,
        published_timestamp: None,
        published_at: None,
        edited_at: None,
        public_reactions_count: 0,
        positive_reactions_count: 0,
        tag_list: Vec::new(),
        user_name: None,
        user_username: None,
        last_seen: "2023-11-14T22:13:20+00:00".to_string(),
    }
}

fn candidate(id: Option<u64>, reactions: Option<u32>) -> Article {
    Article {
        id,
        title: "T".to_string(),
        url: id.map(|n| format!("https://x/{}", n)),
        canonical_url: None,
        description: None,
        published_timestamp: None,
        published_at: None,
        edited_at: None,
        public_reactions_count: reactions,
        positive_reactions_count: None,
        tag_list: None,
        user: None,
    }
}

fn config(min_reactions: u32, site_url: &str) -> AppConfig {
    AppConfig {
        min_reactions,
        lookback_days: 7,
        per_page: 100,
        max_pages: 3,
        max_stored_days: 30,
        max_stored_items: 100,
        max_feed_entries: 20,
        site_url: site_url.to_string(),
        feed_path: "feed.xml".to_string(),
        site_title: "Top <posts>".to_string(),
        site_description: "Best & brightest".to_string(),
    }
}

fn entry(updated: Timestamp) -> FeedEntry {
    FeedEntry {
        id: "i".to_string(),
        title: "t".to_string(),
        link: "l".to_string(),
        updated,
        summary_html: "s".to_string(),
    }
}

// --- summary --------------------------------------------------------------

#[test]
fn summary_of_a_full_record() {
    let mut r = bare("1");
    r.public_reactions_count = 12;
    r.positive_reactions_count = 9;
    r.user_name = Some("Ann Lee".to_string());
    r.user_username = Some("ann".to_string());
    r.published_timestamp = Some("2024-01-02T03:04:05Z".to_string());
    r.published_at = Some("2024-01-02".to_string());
    r.tag_list = vec!["rust".to_string(), "web".to_string()];
    r.description = Some("All about it".to_string());
    assert_eq!(
        build_summary_html(&r),
        "Reactions: public 12 / positive 9<br/>Author: <a href=\"https://dev.to/ann\">Ann Lee</a><br/>Published: 2024-01-02T03:04:05Z<br/>Tags: rust, web<br/>Description: All about it"
    );
}

#[test]
fn summary_of_a_bare_record() {
    assert_eq!(
        build_summary_html(&bare("1")),
        "Reactions: public 0 / positive 0<br/>Author: unknown<br/>Published: unknown<br/>Tags: none<br/>Description: none"
    );
}

#[test]
fn summary_names_the_author_by_name_alone() {
    let mut r = bare("1");
    r.user_name = Some("Ann".to_string());
    assert!(build_summary_html(&r).contains("<br/>Author: Ann<br/>"));
}

#[test]
fn summary_does_not_know_an_author_by_handle_alone() {
    let mut r = bare("1");
    r.user_username = Some("ann".to_string());
    assert!(build_summary_html(&r).contains("<br/>Author: unknown<br/>"));
}

#[test]
fn summary_shows_the_alternate_date_as_it_stands() {
    let mut r = bare("1");
    r.published_at = Some("some day".to_string());
    assert!(build_summary_html(&r).contains("<br/>Published: some day<br/>"));
    r.published_timestamp = Some("precise".to_string());
    assert!(build_summary_html(&r).contains("<br/>Published: precise<br/>"));
}

#[test]
fn summary_lists_a_single_tag() {
    let mut r = bare("1");
    r.tag_list = vec!["solo".to_string()];
    assert!(build_summary_html(&r).contains("<br/>Tags: solo<br/>"));
}

// --- entries --------------------------------------------------------------

#[test]
fn entry_id_is_a_tag_with_the_numeric_id() {
    let mut r = bare("42");
    r.id = Some(42);
    r.canonical_url = Some("https://c/42".to_string());
    assert_eq!(entry_id(&r, "2023"), "tag:dev.to,2023:42");
    assert_eq!(build_entry_id(&r, now()), "tag:dev.to,2023:42");
    assert_eq!(build_entry_id(&r, UtcTime::new(1_704_067_200, 0).unwrap()), "tag:dev.to,2024:42");
}

#[test]
fn entry_id_falls_back_to_the_canonical_url() {
    let mut r = bare("k");
    r.canonical_url = Some("https://c/k".to_string());
    assert_eq!(entry_id(&r, "2023"), "https://c/k");
    assert_eq!(build_entry_id(&r, now()), "https://c/k");
}

#[test]
fn entry_id_of_a_record_without_either_says_unknown() {
    let mut r = bare("k");
    r.url = Some("https://x/k".to_string());
    assert_eq!(entry_id(&r, "2023"), "tag:dev.to,2023:unknown");
    assert_eq!(build_entry_id(&r, now()), "tag:dev.to,2023:unknown");
}

#[test]
fn entry_links_to_the_canonical_url_first() {
    let mut r = bare("k");
    r.canonical_url = Some("https://c/k".to_string());
    r.url = Some("https://x/k".to_string());
    assert_eq!(build_entry(&r, now(), "2023").unwrap().link, "https://c/k");
    r.canonical_url = None;
    assert_eq!(build_entry(&r, now(), "2023").unwrap().link, "https://x/k");
}

#[test]
fn record_without_a_link_has_no_entry() {
    assert_eq!(build_entry(&bare("k"), now(), "2023"), None);
    let mut linked = bare("b");
    linked.url = Some("https://x/b".to_string());
    let entries = build_entries(&[bare("a"), linked, bare("c")], now());
    assert_eq!(entries.len(), 1);
    assert_eq!(entries[0].title, "Title b");
}

#[test]
fn entry_is_made_of_the_record() {
    let mut r = bare("7");
    r.id = Some(7);
    r.url = Some("https://x/7".to_string());
    r.published_timestamp = Some("2024-01-02T03:04:05+09:00".to_string());
    r.edited_at = Some("2024-01-05T00:00:00Z".to_string());
    let e = build_entry(&r, now(), "2023").unwrap();
    assert_eq!(
        e,
        FeedEntry {
            id: "tag:dev.to,2023:7".to_string(),
            title: "Title 7".to_string(),
            link: "https://x/7".to_string(),
            updated: Timestamp::parse("2024-01-05T00:00:00Z").unwrap(),
            summary_html: build_summary_html(&r),
        }
    );
}

#[test]
fn entry_updated_falls_back_to_publication_and_to_now() {
    let mut r = bare("7");
    r.url = Some("https://x/7".to_string());
    assert_eq!(build_entry(&r, now(), "2023").unwrap().updated, Timestamp::new(T, 0, 0).unwrap());
    r.published_at = Some("2024-01-02T03:04:05+09:00".to_string());
    assert_eq!(
        build_entry(&r, now(), "2023").unwrap().updated,
        Timestamp::new(1_704_132_245, 0, 32_400).unwrap()
    );
    r.edited_at = Some("unreadable".to_string());
    assert_eq!(
        build_entry(&r, now(), "2023").unwrap().updated,
        Timestamp::new(1_704_132_245, 0, 32_400).unwrap()
    );
}

#[test]
fn entries_keep_the_order_of_the_records() {
    let mut a = bare("a");
    a.url = Some("https://x/a".to_string());
    let mut b = bare("b");
    b.canonical_url = Some("https://c/b".to_string());
    let entries = build_entries_in_year(&[b.clone(), a.clone()], now(), "1999");
    let links: Vec<&str> = entries.iter().map(|e| e.link.as_str()).collect();
    assert_eq!(links, vec!["https://c/b", "https://x/a"]);
    assert_eq!(entries[1].id, "tag:dev.to,1999:unknown");
    assert!(build_entries(&[], now()).is_empty());
}

// --- the feed as a whole ----------------------------------------------------

#[test]
fn feed_updated_is_the_latest_entry() {
    let a = Timestamp::new(100, 0, 0).unwrap();
    let b = Timestamp::new(300, 0, 3_600).unwrap();
    let c = Timestamp::new(200, 0, 0).unwrap();
    assert_eq!(default_feed_updated(&[entry(a), entry(b), entry(c)], now()), b);
    assert_eq!(default_feed_updated(&[entry(c)], now()), c);
}

#[test]
fn feed_updated_of_no_entries_is_now() {
    assert_eq!(default_feed_updated(&[], now()), Timestamp::new(T, 0, 0).unwrap());
}

#[test]
fn feed_updated_of_equal_instants_is_the_last() {
    let a = Timestamp::new(300, 0, 0).unwrap();
    let b = Timestamp::new(300, 0, 3_600).unwrap();
    assert_eq!(default_feed_updated(&[entry(a), entry(b)], now()), b);
    assert_eq!(default_feed_updated(&[entry(b), entry(a)], now()), a);
}

#[test]
fn feed_id_is_the_address_or_a_tag() {
    assert_eq!(feed_id("", "feed.xml", "2023"), "tag:dev.to,2023:devto-feed");
    assert_eq!(feed_id("https://s", "https://s/feed.xml", "2023"), "https://s/feed.xml");
}

#[test]
fn index_url_is_below_the_site() {
    assert_eq!(index_url(""), "index.html");
    assert_eq!(index_url("https://s/"), "https://s/index.html");
}

// --- the landing page -------------------------------------------------------

fn expected_page(title: &str, description: &str, feed_url: &str, updated: &str, min: u32, days: u32) -> String {
    format!(
        "<!doctype html>\n<html lang=\"ja\">\n<head>\n  <meta charset=\"utf-8\" />\n  <meta name=\"viewport\" content=\"width=device-width, initial-scale=1\" />\n  <title>{title}</title>\n  <style>\n    body {{ font-family: -apple-system, BlinkMacSystemFont, \"Segoe UI\", sans-serif; margin: 2rem; line-height: 1.6; }}\n    .meta {{ color: #555; }}\n  </style>\n</head>\n<body>\n  <h1>{title}</h1>\n  <p>{description}</p>\n  <p><a href=\"{feed_url}\">feed.xml</a></p>\n  <div class=\"meta\">\n    <p>\u{6700}\u{7d42}\u{66f4}\u{65b0}: {updated}</p>\n    <p>min_reactions: {min}</p>\n    <p>lookback_days: {days}</p>\n  </div>\n</body>\n</html>\n",
        title = title,
        description = description,
        feed_url = feed_url,
        updated = updated,
        min = min,
        days = days
    )
}

#[test]
fn landing_page_is_written_in_full() {
    let page = IndexPage {
        title: "Top <posts>".to_string(),
        description: "Best & brightest".to_string(),
        feed_url: "https://s/feed.xml?a=1&b=\"2\"".to_string(),
        updated: Timestamp::new(1_704_132_245, 0, 32_400).unwrap(),
        min_reactions: 50,
        lookback_days: 7,
    };
    assert_eq!(
        build_index_html(&page),
        expected_page(
            "Top &lt;posts&gt;",
            "Best &amp; brightest",
            "https://s/feed.xml?a=1&amp;b=&quot;2&quot;",
            "2024-01-02T03:04:05+09:00",
            50,
            7
        )
    );
}

#[test]
fn landing_page_takes_the_time_as_text() {
    let page = IndexPage {
        title: "t".to_string(),
        description: "d".to_string(),
        feed_url: "f".to_string(),
        updated: Timestamp::new(0, 0, 0).unwrap(),
        min_reactions: 0,
        lookback_days: 0,
    };
    assert_eq!(render_index(&page, "<when>"), expected_page("t", "d", "f", "<when>", 0, 0));
}

// --- one pass ---------------------------------------------------------------

#[test]
fn pass_over_an_empty_store_with_one_candidate() {
    let mut store = StateStore::new();
    let pass = reconcile(&mut store, &[candidate(Some(42), Some(10))], now(), &config(0, ""));
    assert_eq!(pass.merged, 1);
    assert_eq!(store.len(), 1);
    assert_eq!(pass.items.len(), 1);
    assert_eq!(pass.feed.entries.len(), 1);
    assert_eq!(pass.feed.entries[0].link, "https://x/42");
    assert_eq!(pass.feed.entries[0].id, "tag:dev.to,2023:42");
    assert_eq!(pass.feed.entries[0].updated, Timestamp::new(T, 0, 0).unwrap());
    assert_eq!(pass.feed.updated, Timestamp::new(T, 0, 0).unwrap());
    assert_eq!(pass.feed.id, "tag:dev.to,2023:devto-feed");
    assert_eq!(pass.feed.feed_url, "feed.xml");
    assert_eq!(pass.feed.index_url, "index.html");
    assert_eq!(pass.last_build, "2023-11-14T22:13:20+00:00");
    assert_eq!(store.get("42").unwrap().last_seen, "2023-11-14T22:13:20+00:00");
}

#[test]
fn pass_without_candidates_keeps_the_store_and_still_makes_a_feed() {
    let mut store = StateStore::new();
    let mut kept = bare("k");
    kept.public_reactions_count = 9;
    kept.url = Some("https://x/k".to_string());
    kept.last_seen = UtcTime::new(T - 86_400, 0).unwrap().to_rfc3339();
    store.insert(kept.clone());
    let pass = reconcile(&mut store, &[], now(), &config(5, "https://s/"));
    assert_eq!(pass.merged, 0);
    assert_eq!(store.to_sorted_vec(), vec![kept.clone()]);
    assert_eq!(pass.items, vec![kept]);
    assert_eq!(pass.feed.entries.len(), 1);
    assert_eq!(pass.feed.id, "https://s/feed.xml");
    assert_eq!(pass.feed.feed_url, "https://s/feed.xml");
    assert_eq!(pass.feed.index_url, "https://s/index.html");
    assert_eq!(pass.feed.title, "Top <posts>");
    assert_eq!(pass.feed.description, "Best & brightest");
}

#[test]
fn pass_over_nothing_makes_an_empty_feed_updated_now() {
    let mut store = StateStore::new();
    let pass = reconcile(&mut store, &[], now(), &config(0, ""));
    assert_eq!(pass.merged, 0);
    assert!(pass.items.is_empty());
    assert!(pass.feed.entries.is_empty());
    assert_eq!(pass.feed.updated, Timestamp::new(T, 0, 0).unwrap());
    assert_eq!(
        pass.index_html,
        expected_page(
            "Top &lt;posts&gt;",
            "Best &amp; brightest",
            "feed.xml",
            "2023-11-14T22:13:20+00:00",
            0,
            7
        )
    );
}

#[test]
fn pass_merges_every_candidate_that_has_a_key_whatever_its_reactions() {
    let mut store = StateStore::new();
    let pass = reconcile(
        &mut store,
        &[candidate(Some(1), Some(4)), candidate(Some(2), Some(50)), candidate(None, Some(99))],
        now(),
        &config(5, ""),
    );
    assert_eq!(pass.merged, 2);
    assert_eq!(pass.skipped, vec!["T"]);
    assert!(store.contains_key("2"));
    assert!(store.contains_key("1"));
    assert_eq!(store.len(), 2);
    assert_eq!(store.get("1").unwrap().last_seen, "2023-11-14T22:13:20+00:00");
    assert_eq!(store.get("1").unwrap().public_reactions_count, 4);
    let shown: Vec<&str> = pass.items.iter().map(|r| r.key.as_str()).collect();
    assert_eq!(shown, vec!["2"]);
    assert_eq!(pass.feed.entries.len(), 1);
    assert_eq!(pass.feed.entries[0].id, "tag:dev.to,2023:2");
}

#[test]
fn pass_refreshes_a_stored_record_whose_candidate_fell_below_the_threshold() {
    let mut store = StateStore::new();
    let mut old = bare("7");
    old.id = Some(7);
    old.public_reactions_count = 60;
    old.url = Some("https://x/7".to_string());
    old.last_seen = UtcTime::new(T - 29 * 86_400, 0).unwrap().to_rfc3339();
    store.insert(old);
    let pass = reconcile(&mut store, &[candidate(Some(7), Some(3))], now(), &config(5, ""));
    assert_eq!(pass.merged, 1);
    let kept = store.get("7").unwrap();
    assert_eq!(kept.last_seen, "2023-11-14T22:13:20+00:00");
    assert_eq!(kept.public_reactions_count, 3);
    assert!(pass.items.is_empty());
    assert!(pass.feed.entries.is_empty());
}

#[test]
fn pass_reports_the_titles_it_passed_over() {
    let mut store = StateStore::new();
    let mut first = candidate(None, Some(9));
    first.title = "first".to_string();
    let mut low = candidate(None, Some(1));
    low.title = "few reactions".to_string();
    let mut keyed = candidate(None, Some(9));
    keyed.title = "has a canonical url".to_string();
    keyed.canonical_url = Some("https://c/k".to_string());
    let mut last = candidate(None, None);
    last.title = "last".to_string();
    let all = vec![first, low, keyed, last];
    let pass = reconcile(&mut store, &all, now(), &config(5, ""));
    assert_eq!(pass.skipped, vec!["first", "few reactions", "last"]);
    assert_eq!(pass.merged, 1);
    let again = reconcile(&mut store, &all, now(), &config(0, ""));
    assert_eq!(again.skipped, vec!["first", "few reactions", "last"]);
    assert_eq!(again.merged, 1);
}

#[test]
fn pass_hides_stored_records_below_the_threshold_without_dropping_them() {
    let mut store = StateStore::new();
    let mut low = bare("low");
    low.public_reactions_count = 1;
    low.url = Some("https://x/low".to_string());
    store.insert(low);
    let pass = reconcile(&mut store, &[candidate(Some(2), Some(50))], now(), &config(5, ""));
    assert_eq!(store.len(), 2);
    let shown: Vec<&str> = pass.items.iter().map(|r| r.key.as_str()).collect();
    assert_eq!(shown, vec!["2"]);
}

#[test]
fn pass_keeps_a_linkless_record_in_the_store_but_not_in_the_feed() {
    let mut store = StateStore::new();
    let mut linkless = candidate(Some(5), Some(10));
    linkless.url = None;
    let pass = reconcile(&mut store, &[linkless], now(), &config(0, ""));
    assert_eq!(store.len(), 1);
    assert_eq!(pass.items.len(), 1);
    assert!(pass.feed.entries.is_empty());
    assert_eq!(pass.feed.updated, Timestamp::new(T, 0, 0).unwrap());
}

#[test]
fn pass_prunes_and_ranks() {
    let mut store = StateStore::new();
    let mut stale = bare("stale");
    stale.public_reactions_count = 100;
    stale.url = Some("https://x/stale".to_string());
    stale.last_seen = UtcTime::new(T - 31 * 86_400, 0).unwrap().to_rfc3339();
    store.insert(stale);
    let mut cfg = config(0, "");
    cfg.max_feed_entries = 2;
    let mut dated = candidate(Some(3), Some(7));
    dated.published_at = Some("2024-01-01T00:00:00Z".to_string());
    let pass = reconcile(
        &mut store,
        &[candidate(Some(1), Some(7)), candidate(Some(2), Some(9)), dated],
        now(),
        &cfg,
    );
    assert_eq!(pass.merged, 3);
    assert_eq!(store.len(), 3);
    assert!(!store.contains_key("stale"));
    let shown: Vec<&str> = pass.items.iter().map(|r| r.key.as_str()).collect();
    assert_eq!(shown, vec!["2", "3"]);
    assert_eq!(pass.feed.entries.len(), 2);
    assert_eq!(pass.feed.updated, Timestamp::parse("2024-01-01T00:00:00Z").unwrap());
}

// --- ranking ----------------------------------------------------------------

#[test]
fn items_compare_by_reactions_then_by_date_of_publication() {
    let mut ten_old = bare("a");
    ten_old.public_reactions_count = 10;
    ten_old.published_timestamp = Some("2020-01-01T00:00:00Z".to_string());
    let mut five_new = bare("b");
    five_new.public_reactions_count = 5;
    five_new.published_timestamp = Some("2024-01-01T00:00:00Z".to_string());
    let mut ten_new = bare("c");
    ten_new.public_reactions_count = 10;
    ten_new.published_at = Some("2024-01-01T00:00:00Z".to_string());
    let mut ten_undated = bare("d");
    ten_undated.public_reactions_count = 10;
    assert_eq!(compare_items(&ten_old, &five_new), Ordering::Less);
    assert_eq!(compare_items(&five_new, &ten_old), Ordering::Greater);
    assert_eq!(compare_items(&ten_new, &ten_old), Ordering::Less);
    assert_eq!(compare_items(&ten_old, &ten_new), Ordering::Greater);
    assert_eq!(compare_items(&ten_old, &ten_undated), Ordering::Less);
    assert_eq!(compare_items(&ten_undated, &ten_old), Ordering::Greater);
    assert_eq!(compare_items(&ten_undated, &ten_undated.clone()), Ordering::Equal);
    assert_eq!(compare_items(&ten_new, &ten_new.clone()), Ordering::Equal);
}

#[test]
fn ranked_view_is_sorted_as_items_compare() {
    let mut store = StateStore::new();
    let dates = [None, Some("2024-01-01T00:00:00Z"), Some("2023-01-01T00:00:00Z"), Some("bad")];
    let mut n = 0;
    for reactions in [3u32, 1, 2, 3, 1] {
        for date in dates.iter() {
            let mut r = bare(&format!("k{:02}", n));
            r.public_reactions_count = reactions;
            r.published_at = date.map(|s| s.to_string());
            store.insert(r);
            n += 1;
        }
    }
    let list = store.ranked(0, 100);
    assert_eq!(list.len(), 20);
    for pair in list.windows(2) {
        match compare_items(&pair[0], &pair[1]) {
            Ordering::Less => {}
            Ordering::Equal => assert!(pair[0].key < pair[1].key),
            Ordering::Greater => panic!("{} before {}", pair[0].key, pair[1].key),
        }
    }
    let mut sorted = store.to_sorted_vec();
    sorted.sort_by(|a, b| compare_items(a, b));
    assert_eq!(list, sorted);
}

// --- the feed document --------------------------------------------------------

#[test]
fn entry_is_written_with_every_text_escaped() {
    let e = FeedEntry {
        id: "tag:dev.to,2023:7".to_string(),
        title: "Fast & <safe>".to_string(),
        link: "https://x/7?a=1&b=2".to_string(),
        updated: Timestamp::new(1_704_132_245, 0, 32_400).unwrap(),
        summary_html: "Author: <a href=\"https://dev.to/ann\">Ann</a><br/>it's".to_string(),
    };
    assert_eq!(
        entry_xml(&e),
        "  <entry>\n    <id>tag:dev.to,2023:7</id>\n    <title>Fast &amp; &lt;safe&gt;</title>\n    <link href=\"https://x/7?a=1&amp;b=2\" />\n    <updated>2024-01-02T03:04:05+09:00</updated>\n    <summary type=\"html\">Author: &lt;a href=&quot;https://dev.to/ann&quot;&gt;Ann&lt;/a&gt;&lt;br/&gt;it&#39;s</summary>\n  </entry>\n"
    );
}

#[test]
fn feed_document_without_entries() {
    let feed = FeedInfo {
        id: "tag:dev.to,2023:devto-feed".to_string(),
        title: "Top <posts>".to_string(),
        description: "Best & brightest".to_string(),
        updated: Timestamp::new(T, 0, 0).unwrap(),
        feed_url: "feed.xml".to_string(),
        index_url: "index.html".to_string(),
        entries: Vec::new(),
    };
    assert_eq!(
        build_feed_xml(&feed),
        "<?xml version=\"1.0\" encoding=\"utf-8\"?>\n<feed xmlns=\"http://www.w3.org/2005/Atom\">\n  <id>tag:dev.to,2023:devto-feed</id>\n  <title>Top &lt;posts&gt;</title>\n  <subtitle>Best &amp; brightest</subtitle>\n  <updated>2023-11-14T22:13:20+00:00</updated>\n  <link rel=\"self\" href=\"feed.xml\" />\n  <link rel=\"alternate\" href=\"index.html\" />\n</feed>\n"
    );
}

#[test]
fn feed_document_lists_the_entries_in_order() {
    let mut store = StateStore::new();
    let pass = reconcile(
        &mut store,
        &[candidate(Some(1), Some(7)), candidate(Some(2), Some(9))],
        now(),
        &config(0, "https://s"),
    );
    assert_eq!(pass.feed_xml, build_feed_xml(&pass.feed));
    let first = entry_xml(&pass.feed.entries[0]);
    let second = entry_xml(&pass.feed.entries[1]);
    assert!(first.contains("<id>tag:dev.to,2023:2</id>"));
    assert!(second.contains("<id>tag:dev.to,2023:1</id>"));
    let body = format!("{}{}</feed>\n", first, second);
    assert!(pass.feed_xml.ends_with(&body));
    assert!(pass.feed_xml.starts_with("<?xml version=\"1.0\" encoding=\"utf-8\"?>\n<feed xmlns="));
    assert!(pass.feed_xml.contains("  <link rel=\"self\" href=\"https://s/feed.xml\" />\n"));
}
