use dev_to_high_reactions_rss::devto_api::{Article, User};
use dev_to_high_reactions_rss::projection::standing;
use dev_to_high_reactions_rss::state::{
    article_key, later_time, published_time, select_updated_time, skipped_titles, stored_article,
    StateStore, StoredArticle,
};
use dev_to_high_reactions_rss::time::{Timestamp, UtcTime};

const T: i64 = 1_700_000_000;

fn at(secs: i64) -> UtcTime {
    UtcTime::new(secs, 0).unwrap()
}

fn days_ago(days: i64) -> String {
    at(T - days * 86_400).to_rfc3339()
}

fn article(id: Option<u64>, canonical: Option<&str>, reactions: Option<u32>) -> Article {
    Article {
        id,
        title: "A title".to_string(),
        url: id.map(|n| format!("https://x/{}", n)),
        canonical_url: canonical.map(|s| s.to_string()),
        description: Some("About things".to_string()),
        published_timestamp: None,
        published_at: None,
        edited_at: None,
        public_reactions_count: reactions,
        positive_reactions_count: None,
        tag_list: Some("rust, web".to_string()),
        user: Some(User { name: Some("Ann".to_string()), username: Some("ann".to_string()) }),
    }
}

fn record(key: &str, reactions: u32, last_seen: &str) -> StoredArticle {
    StoredArticle {
        key: key.to_string(),
        id: None,
        canonical_url: Some(format!("https://c/{}", key)),
        url: None,
        title: format!("Title {}", key),
        description: None,
        published_timestamp: None,
        published_at: None,
        edited_at: None,
        public_reactions_count: reactions,
        positive_reactions_count: 0,
        tag_list: Vec::new(),
        user_name: None,
        user_username: None,
        last_seen: last_seen.to_string(),
    }
}

fn published(key: &str, reactions: u32, timestamp: Option<&str>, alternate: Option<&str>) -> StoredArticle {
    let mut r = record(key, reactions, &days_ago(0));
    r.published_timestamp = timestamp.map(|s| s.to_string());
    r.published_at = alternate.map(|s| s.to_string());
    r
}

fn keys(store: &StateStore) -> Vec<String> {
    store.to_sorted_vec().into_iter().map(|r| r.key).collect()
}

fn store_of(records: Vec<StoredArticle>) -> StateStore {
    let mut store = StateStore::new();
    for r in records {
        store.insert(r);
    }
    store
}

// --- identity -------------------------------------------------------------

#[test]
fn key_is_the_numeric_id_as_text() {
    assert_eq!(article_key(&article(Some(42), None, None)), Some("42".to_string()));
    assert_eq!(article_key(&article(Some(0), None, None)), Some("0".to_string()));
    assert_eq!(
        article_key(&article(Some(u64::MAX), None, None)),
        Some("18446744073709551615".to_string())
    );
}

#[test]
fn key_prefers_the_id_over_the_canonical_url() {
    assert_eq!(article_key(&article(Some(7), Some("https://c/7"), None)), Some("7".to_string()));
}

#[test]
fn key_falls_back_to_the_canonical_url() {
    assert_eq!(
        article_key(&article(None, Some("https://c/post"), None)),
        Some("https://c/post".to_string())
    );
}

#[test]
fn key_is_missing_without_id_and_canonical_url() {
    let mut a = article(None, None, None);
    a.url = Some("https://x/direct".to_string());
    assert_eq!(article_key(&a), None);
}

// --- the store ------------------------------------------------------------

#[test]
fn new_store_is_empty() {
    let store = StateStore::new();
    assert_eq!(store.len(), 0);
    assert!(store.to_sorted_vec().is_empty());
    assert!(!store.contains_key("a"));
    assert_eq!(StateStore::default().len(), 0);
}

#[test]
fn insert_enters_and_replaces() {
    let mut store = StateStore::new();
    store.insert(record("b", 1, "x"));
    store.insert(record("a", 2, "x"));
    store.insert(record("c", 3, "x"));
    assert_eq!(store.len(), 3);
    assert_eq!(keys(&store), vec!["a", "b", "c"]);
    store.insert(record("b", 9, "y"));
    assert_eq!(store.len(), 3);
    assert_eq!(store.get("b"), Some(&record("b", 9, "y")));
    assert_eq!(store.get("a"), Some(&record("a", 2, "x")));
    assert_eq!(store.get("d"), None);
    assert!(store.contains_key("c"));
    assert!(!store.contains_key(""));
}

#[test]
fn sorted_list_is_ascending_by_key_as_text() {
    let store = store_of(vec![
        record("9", 0, "x"),
        record("10", 0, "x"),
        record("https://c/z", 0, "x"),
        record("100", 0, "x"),
        record("", 0, "x"),
        record("B", 0, "x"),
    ]);
    let list = keys(&store);
    assert_eq!(list, vec!["", "10", "100", "9", "B", "https://c/z"]);
    let mut sorted = list.clone();
    sorted.sort();
    assert_eq!(list, sorted);
}

#[test]
fn sorted_list_does_not_depend_on_the_order_of_insertion() {
    let a = store_of(vec![record("a", 1, "x"), record("b", 2, "x"), record("c", 3, "x")]);
    let b = store_of(vec![record("c", 3, "x"), record("a", 1, "x"), record("b", 2, "x")]);
    assert_eq!(a.to_sorted_vec(), b.to_sorted_vec());
}

#[test]
fn load_enters_each_record_under_its_key() {
    let store = StateStore::load(vec![record("b", 1, "x"), record("a", 2, "y")]);
    assert_eq!(store.len(), 2);
    assert_eq!(store.get("a"), Some(&record("a", 2, "y")));
    assert_eq!(store.get("b"), Some(&record("b", 1, "x")));
}

#[test]
fn load_lets_the_later_record_win() {
    let store = StateStore::load(vec![record("a", 1, "x"), record("b", 5, "x"), record("a", 2, "y")]);
    assert_eq!(store.len(), 2);
    assert_eq!(store.get("a"), Some(&record("a", 2, "y")));
}

#[test]
fn load_of_nothing_is_empty() {
    assert_eq!(StateStore::load(Vec::new()).len(), 0);
}

#[test]
fn written_and_loaded_again_the_store_is_the_same() {
    let mut full = record("k", 3, &days_ago(1));
    full.id = Some(5);
    full.url = Some("https://x/5".to_string());
    full.description = Some("d".to_string());
    full.published_timestamp = Some("2024-01-02T03:04:05Z".to_string());
    full.published_at = Some("2024-01-02T03:04:05Z".to_string());
    full.edited_at = Some("2024-02-02T03:04:05Z".to_string());
    full.positive_reactions_count = 2;
    full.tag_list = vec!["a".to_string(), "a".to_string(), "b".to_string()];
    full.user_name = Some("Ann".to_string());
    full.user_username = Some("ann".to_string());
    let store = store_of(vec![record("z", 1, "x"), full.clone(), record("m", 0, "")]);
    let written = store.to_sorted_vec();
    let loaded = StateStore::load(written.clone());
    assert_eq!(loaded.len(), 3);
    assert_eq!(loaded.to_sorted_vec(), written);
    assert_eq!(loaded.get("k"), Some(&full));
    assert_eq!(loaded.get("z"), store.get("z"));
    assert_eq!(loaded.get("m"), store.get("m"));
}

// --- merge ----------------------------------------------------------------

#[test]
fn merge_stores_a_record_per_key() {
    let mut store = StateStore::new();
    let n = store.merge_from_api(&[article(Some(2), None, Some(5)), article(Some(1), None, None)], at(T));
    assert_eq!(n, 2);
    assert_eq!(keys(&store), vec!["1", "2"]);
}

#[test]
fn merge_fills_the_record_from_the_article() {
    let mut store = StateStore::new();
    let mut a = article(Some(42), Some("https://c/42"), Some(10));
    a.positive_reactions_count = Some(8);
    a.published_timestamp = Some("2024-01-02T03:04:05Z".to_string());
    a.published_at = Some("2024-01-02T03:04:05Z".to_string());
    a.edited_at = Some("2024-01-03T00:00:00Z".to_string());
    a.tag_list = Some(" rust ,, web,rust".to_string());
    store.merge_from_api(&[a], at(T));
    let expected = StoredArticle {
        key: "42".to_string(),
        id: Some(42),
        canonical_url: Some("https://c/42".to_string()),
        url: Some("https://x/42".to_string()),
        title: "A title".to_string(),
        description: Some("About things".to_string()),
        published_timestamp: Some("2024-01-02T03:04:05Z".to_string()),
        published_at: Some("2024-01-02T03:04:05Z".to_string()),
        edited_at: Some("2024-01-03T00:00:00Z".to_string()),
        public_reactions_count: 10,
        positive_reactions_count: 8,
        tag_list: vec!["rust".to_string(), "web".to_string(), "rust".to_string()],
        user_name: Some("Ann".to_string()),
        user_username: Some("ann".to_string()),
        last_seen: "2023-11-14T22:13:20+00:00".to_string(),
    };
    assert_eq!(store.get("42"), Some(&expected));
}

#[test]
fn merge_counts_missing_reactions_as_zero() {
    let mut store = StateStore::new();
    store.merge_from_api(&[article(Some(1), None, None)], at(T));
    let r = store.get("1").unwrap();
    assert_eq!(r.public_reactions_count, 0);
    assert_eq!(r.positive_reactions_count, 0);
}

#[test]
fn merge_without_an_author_leaves_the_names_empty() {
    let mut store = StateStore::new();
    let mut a = article(Some(1), None, None);
    a.user = None;
    let mut b = article(Some(2), None, None);
    b.user = Some(User { name: Some("Bo".to_string()), username: None });
    store.merge_from_api(&[a, b], at(T));
    assert_eq!(store.get("1").unwrap().user_name, None);
    assert_eq!(store.get("1").unwrap().user_username, None);
    assert_eq!(store.get("2").unwrap().user_name, Some("Bo".to_string()));
    assert_eq!(store.get("2").unwrap().user_username, None);
}

#[test]
fn merge_passes_over_an_article_without_a_key() {
    let mut store = StateStore::new();
    let n = store.merge_from_api(
        &[article(None, None, Some(99)), article(Some(3), None, None), article(None, None, None)],
        at(T),
    );
    assert_eq!(n, 1);
    assert_eq!(keys(&store), vec!["3"]);
}

#[test]
fn merge_stores_under_the_canonical_url_without_an_id() {
    let mut store = StateStore::new();
    let n = store.merge_from_api(&[article(None, Some("https://c/post"), Some(4))], at(T));
    assert_eq!(n, 1);
    let r = store.get("https://c/post").unwrap();
    assert_eq!(r.key, "https://c/post");
    assert_eq!(r.id, None);
}

#[test]
fn merge_lets_the_last_of_equal_keys_win_and_counts_both() {
    let mut store = StateStore::new();
    let mut first = article(Some(1), None, Some(1));
    first.title = "first".to_string();
    first.description = Some("kept?".to_string());
    let mut second = article(Some(1), None, Some(2));
    second.title = "second".to_string();
    second.description = None;
    let n = store.merge_from_api(&[first, second], at(T));
    assert_eq!(n, 2);
    assert_eq!(store.len(), 1);
    let r = store.get("1").unwrap();
    assert_eq!(r.title, "second");
    assert_eq!(r.description, None);
    assert_eq!(r.public_reactions_count, 2);
}

#[test]
fn merge_replaces_the_whole_record() {
    let mut store = store_of(vec![{
        let mut r = record("1", 50, &days_ago(3));
        r.description = Some("old".to_string());
        r.tag_list = vec!["old".to_string()];
        r
    }]);
    let mut a = article(Some(1), None, Some(2));
    a.description = None;
    a.tag_list = None;
    store.merge_from_api(&[a], at(T));
    let r = store.get("1").unwrap();
    assert_eq!(r.description, None);
    assert_eq!(r.tag_list, Vec::<String>::new());
    assert_eq!(r.public_reactions_count, 2);
    assert_eq!(r.last_seen, "2023-11-14T22:13:20+00:00");
}

#[test]
fn merge_of_nothing_changes_nothing() {
    let mut store = store_of(vec![record("a", 1, &days_ago(2))]);
    let before = store.to_sorted_vec();
    let n = store.merge_from_api(&[], at(T));
    assert_eq!(n, 0);
    assert_eq!(store.to_sorted_vec(), before);
}

#[test]
fn merge_twice_at_the_same_time_changes_nothing() {
    let articles = vec![
        article(Some(1), None, Some(3)),
        article(None, Some("https://c/p"), None),
        article(None, None, None),
        article(Some(1), None, Some(4)),
    ];
    let mut store = store_of(vec![record("zz", 1, &days_ago(2))]);
    assert_eq!(store.merge_from_api(&articles, at(T)), 3);
    let once = store.to_sorted_vec();
    assert_eq!(store.merge_from_api(&articles, at(T)), 3);
    assert_eq!(store.to_sorted_vec(), once);
}

#[test]
fn merge_twice_at_a_later_time_changes_last_seen_only() {
    let articles = vec![article(Some(1), None, Some(3)), article(None, Some("https://c/p"), None)];
    let mut store = store_of(vec![record("zz", 1, &days_ago(2))]);
    store.merge_from_api(&articles, at(T));
    let once = store.to_sorted_vec();
    store.merge_from_api(&articles, at(T + 60));
    let twice = store.to_sorted_vec();
    assert_eq!(once.len(), twice.len());
    for (a, b) in once.iter().zip(twice.iter()) {
        let mut a = a.clone();
        if a.key != "zz" {
            assert_eq!(a.last_seen, "2023-11-14T22:13:20+00:00");
            assert_eq!(b.last_seen, "2023-11-14T22:14:20+00:00");
            a.last_seen = b.last_seen.clone();
        }
        assert_eq!(&a, b);
    }
}

#[test]
fn merge_stamped_takes_the_time_as_text() {
    let mut store = StateStore::new();
    let n = store.merge_stamped(&[article(Some(1), None, None)], "whenever");
    assert_eq!(n, 1);
    assert_eq!(store.get("1").unwrap().last_seen, "whenever");
}

#[test]
fn stored_article_is_made_of_article_key_and_time() {
    let r = stored_article(&article(Some(5), None, Some(1)), "k".to_string(), "t".to_string());
    assert_eq!(r.key, "k");
    assert_eq!(r.last_seen, "t");
    assert_eq!(r.id, Some(5));
    assert_eq!(r.tag_list, vec!["rust", "web"]);
}

#[test]
fn skipped_titles_are_those_of_the_articles_without_a_key() {
    let mut a = article(None, None, None);
    a.title = "a".to_string();
    let mut b = article(Some(1), None, None);
    b.title = "b".to_string();
    let mut c = article(None, Some("https://c/c"), None);
    c.title = "c".to_string();
    let mut d = article(None, None, Some(5));
    d.title = "d".to_string();
    assert_eq!(skipped_titles(&[a, b, c, d]), vec!["a", "d"]);
    assert_eq!(skipped_titles(&[]), Vec::<String>::new());
}

// --- prune ----------------------------------------------------------------

#[test]
fn prune_drops_what_was_last_seen_before_the_cutoff() {
    let mut store = store_of(vec![record("old", 1, &days_ago(8)), record("new", 1, &days_ago(6))]);
    store.prune(at(T), 7, 10);
    assert_eq!(keys(&store), vec!["new"]);
}

#[test]
fn prune_keeps_what_was_last_seen_at_the_cutoff() {
    let mut store = store_of(vec![
        record("at", 1, &days_ago(7)),
        record("just_before", 1, &UtcTime::new(T - 7 * 86_400 - 1, 999_999_999).unwrap().to_rfc3339()),
    ]);
    store.prune(at(T), 7, 10);
    assert_eq!(keys(&store), vec!["at"]);
}

#[test]
fn prune_compares_instants_whatever_the_offset() {
    let mut store = store_of(vec![
        record("east", 1, "2023-11-08T07:13:20+09:00"),
        record("west", 1, "2023-11-07T10:13:19-12:00"),
    ]);
    store.prune(at(T), 7, 10);
    assert_eq!(keys(&store), vec!["east"]);
}

#[test]
fn prune_drops_what_has_no_readable_time() {
    let mut store = store_of(vec![
        record("a", 1, "not a time"),
        record("b", 1, ""),
        record("c", 1, &days_ago(0)),
        record("d", 1, "2023-11-14"),
    ]);
    store.prune(at(T), 7, 10);
    assert_eq!(keys(&store), vec!["c"]);
}

#[test]
fn prune_drops_unreadable_times_even_where_the_cap_would_spare_them() {
    let mut store = store_of(vec![record("a", 1, "not a time"), record("b", 1, &days_ago(1))]);
    store.prune(at(T), 7, 2);
    assert_eq!(keys(&store), vec!["b"]);
}

#[test]
fn prune_caps_the_store_at_the_latest_seen() {
    let mut store = store_of(vec![
        record("a", 1, &days_ago(3)),
        record("b", 1, &days_ago(2)),
        record("c", 1, &days_ago(1)),
    ]);
    store.prune(at(T), 7, 2);
    assert_eq!(keys(&store), vec!["b", "c"]);
}

#[test]
fn prune_caps_by_time_not_by_key() {
    let mut store = store_of(vec![
        record("a", 1, &days_ago(1)),
        record("b", 1, &days_ago(3)),
        record("c", 1, &days_ago(2)),
        record("d", 1, &days_ago(4)),
    ]);
    store.prune(at(T), 7, 2);
    assert_eq!(keys(&store), vec!["a", "c"]);
}

#[test]
fn prune_breaks_ties_in_favour_of_the_greater_key() {
    let mut store = store_of(vec![
        record("c", 1, &days_ago(1)),
        record("a", 1, &days_ago(1)),
        record("b", 1, &days_ago(1)),
        record("z", 1, &days_ago(0)),
    ]);
    store.prune(at(T), 7, 3);
    assert_eq!(keys(&store), vec!["b", "c", "z"]);
}

#[test]
fn prune_applies_the_cap_after_the_age_rule() {
    let mut store = store_of(vec![
        record("a", 1, &days_ago(9)),
        record("b", 1, &days_ago(8)),
        record("c", 1, &days_ago(2)),
        record("d", 1, &days_ago(1)),
    ]);
    store.prune(at(T), 7, 2);
    assert_eq!(keys(&store), vec!["c", "d"]);
}

#[test]
fn prune_leaves_a_store_within_its_limits_alone() {
    let mut store = store_of(vec![record("a", 1, &days_ago(1)), record("b", 2, &days_ago(2))]);
    let before = store.to_sorted_vec();
    store.prune(at(T), 7, 2);
    assert_eq!(store.to_sorted_vec(), before);
    store.prune(at(T), 7, 100);
    assert_eq!(store.to_sorted_vec(), before);
}

#[test]
fn prune_with_a_cap_of_zero_empties_the_store() {
    let mut store = store_of(vec![record("a", 1, &days_ago(1))]);
    store.prune(at(T), 7, 0);
    assert_eq!(store.len(), 0);
}

#[test]
fn prune_with_zero_days_keeps_what_is_seen_now_or_later() {
    let mut store = store_of(vec![
        record("now", 1, &days_ago(0)),
        record("later", 1, &at(T + 5).to_rfc3339()),
        record("earlier", 1, &at(T - 1).to_rfc3339()),
    ]);
    store.prune(at(T), 0, 10);
    assert_eq!(keys(&store), vec!["later", "now"]);
}

#[test]
fn prune_with_the_longest_window_keeps_everything_readable() {
    let mut store = store_of(vec![
        record("a", 1, "0001-01-01T00:00:00Z"),
        record("b", 1, &days_ago(0)),
    ]);
    store.prune(at(T), u32::MAX, 10);
    assert_eq!(keys(&store), vec!["a", "b"]);
}

#[test]
fn prune_of_an_empty_store_is_empty() {
    let mut store = StateStore::new();
    store.prune(at(T), 7, 5);
    assert_eq!(store.len(), 0);
}

#[test]
fn prune_keeps_records_unchanged() {
    let mut r = record("a", 5, &days_ago(1));
    r.description = Some("d".to_string());
    r.tag_list = vec!["t".to_string()];
    let mut store = store_of(vec![r.clone(), record("b", 1, &days_ago(9))]);
    store.prune(at(T), 7, 1);
    assert_eq!(store.to_sorted_vec(), vec![r]);
}

#[test]
fn merged_records_survive_the_prune_of_the_same_pass() {
    let mut store = StateStore::new();
    store.merge_from_api(&[article(Some(1), None, Some(1))], at(T));
    store.prune(at(T), 0, 1);
    assert_eq!(keys(&store), vec!["1"]);
}

// --- times of a record ------------------------------------------------------

#[test]
fn published_time_prefers_the_precise_timestamp() {
    let r = published("a", 1, Some("2024-01-02T03:04:05Z"), Some("2020-01-01T00:00:00Z"));
    assert_eq!(published_time(&r), Timestamp::new(1_704_164_645, 0, 0));
}

#[test]
fn published_time_falls_back_to_the_alternate() {
    let absent = published("a", 1, None, Some("2024-01-02T03:04:05+09:00"));
    assert_eq!(published_time(&absent), Timestamp::new(1_704_132_245, 0, 32_400));
    let unreadable = published("a", 1, Some("soon"), Some("2024-01-02T03:04:05Z"));
    assert_eq!(published_time(&unreadable), Timestamp::new(1_704_164_645, 0, 0));
}

#[test]
fn published_time_is_unknown_where_nothing_reads() {
    assert_eq!(published_time(&published("a", 1, None, None)), None);
    assert_eq!(published_time(&published("a", 1, Some("x"), Some("y"))), None);
}

#[test]
fn updated_time_is_the_later_of_edit_and_publication() {
    let mut r = published("a", 1, Some("2024-01-02T03:04:05Z"), None);
    r.edited_at = Some("2024-03-01T00:00:00Z".to_string());
    assert_eq!(select_updated_time(&r), Timestamp::parse("2024-03-01T00:00:00Z"));
    r.edited_at = Some("2023-03-01T00:00:00Z".to_string());
    assert_eq!(select_updated_time(&r), Timestamp::parse("2024-01-02T03:04:05Z"));
}

#[test]
fn updated_time_is_the_one_that_is_known() {
    let mut r = published("a", 1, None, None);
    assert_eq!(select_updated_time(&r), None);
    r.edited_at = Some("2024-03-01T00:00:00Z".to_string());
    assert_eq!(select_updated_time(&r), Timestamp::parse("2024-03-01T00:00:00Z"));
    r.edited_at = Some("never".to_string());
    r.published_at = Some("2024-01-02T03:04:05Z".to_string());
    assert_eq!(select_updated_time(&r), Timestamp::parse("2024-01-02T03:04:05Z"));
}

#[test]
fn updated_time_of_equal_instants_is_the_publication() {
    let mut r = published("a", 1, Some("2024-01-02T03:04:05+09:00"), None);
    r.edited_at = Some("2024-01-01T18:04:05Z".to_string());
    assert_eq!(select_updated_time(&r), Timestamp::new(1_704_132_245, 0, 32_400));
}

#[test]
fn standing_is_reactions_and_publication() {
    let r = published("a", 7, Some("2024-01-02T03:04:05Z"), None);
    let s = standing(&r);
    assert_eq!(s.reactions, 7);
    assert_eq!(s.published, Timestamp::new(1_704_164_645, 0, 0));
    assert_eq!(standing(&published("a", 0, None, None)).published, None);
}

#[test]
fn later_time_of_two() {
    let a = Timestamp::new(10, 0, 0);
    let b = Timestamp::new(20, 0, 3_600);
    assert_eq!(later_time(a, b), b);
    assert_eq!(later_time(b, a), b);
    assert_eq!(later_time(a, None), a);
    assert_eq!(later_time(None, b), b);
    assert_eq!(later_time(None, None), None);
    let same = Timestamp::new(10, 0, 60);
    assert_eq!(later_time(a, same), same);
    assert_eq!(later_time(same, a), a);
}

// --- the ranked view --------------------------------------------------------

fn ranked_keys(store: &StateStore, min: u32, max: usize) -> Vec<String> {
    store.ranked(min, max).into_iter().map(|r| r.key).collect()
}

#[test]
fn ranked_puts_more_reactions_first_whatever_the_dates() {
    let store = store_of(vec![
        published("five", 5, Some("2024-06-01T00:00:00Z"), None),
        published("ten", 10, Some("2020-01-01T00:00:00Z"), None),
    ]);
    assert_eq!(ranked_keys(&store, 0, 10), vec!["ten", "five"]);
}

#[test]
fn ranked_puts_the_later_publication_first_among_equal_reactions() {
    let store = store_of(vec![
        published("a_older", 10, Some("2024-01-01T00:00:00Z"), None),
        published("b_newer", 10, Some("2024-01-02T00:00:00Z"), None),
    ]);
    assert_eq!(ranked_keys(&store, 0, 10), vec!["b_newer", "a_older"]);
}

#[test]
fn ranked_reads_the_alternate_date_where_the_precise_one_fails() {
    let store = store_of(vec![
        published("a", 10, Some("garbled"), Some("2024-01-01T00:00:00Z")),
        published("b", 10, None, Some("2024-01-03T00:00:00Z")),
        published("c", 10, Some("2024-01-02T00:00:00Z"), Some("2030-01-01T00:00:00Z")),
    ]);
    assert_eq!(ranked_keys(&store, 0, 10), vec!["b", "c", "a"]);
}

#[test]
fn ranked_puts_unknown_dates_last_among_equal_reactions() {
    let store = store_of(vec![
        published("a_none", 10, None, None),
        published("b_old", 10, Some("1999-01-01T00:00:00Z"), None),
        published("c_bad", 10, Some("x"), Some("y")),
    ]);
    assert_eq!(ranked_keys(&store, 0, 10), vec!["b_old", "a_none", "c_bad"]);
}

#[test]
fn ranked_breaks_remaining_ties_by_key() {
    let store = store_of(vec![
        published("c", 10, Some("2024-01-01T00:00:00Z"), None),
        published("a", 10, Some("2024-01-01T09:00:00+09:00"), None),
        published("b", 10, Some("2024-01-01T00:00:00Z"), None),
    ]);
    assert_eq!(ranked_keys(&store, 0, 10), vec!["a", "b", "c"]);
}

#[test]
fn ranked_leaves_out_what_is_below_the_threshold() {
    let store = store_of(vec![
        published("low", 4, Some("2024-06-01T00:00:00Z"), None),
        published("edge", 5, None, None),
        published("high", 6, None, None),
    ]);
    assert_eq!(ranked_keys(&store, 5, 10), vec!["high", "edge"]);
    assert_eq!(ranked_keys(&store, 7, 10), Vec::<String>::new());
    assert_eq!(ranked_keys(&store, 0, 10), vec!["high", "edge", "low"]);
}

#[test]
fn ranked_keeps_the_head_of_the_list() {
    let store = store_of(vec![
        published("a", 1, None, None),
        published("b", 3, None, None),
        published("c", 2, None, None),
        published("d", 4, None, None),
    ]);
    assert_eq!(ranked_keys(&store, 0, 2), vec!["d", "b"]);
    assert_eq!(ranked_keys(&store, 0, 0), Vec::<String>::new());
    assert_eq!(ranked_keys(&store, 0, 4), vec!["d", "b", "c", "a"]);
    assert_eq!(ranked_keys(&store, 0, usize::MAX), vec!["d", "b", "c", "a"]);
}

#[test]
fn ranked_gives_whole_records_and_leaves_the_store_alone() {
    let r = published("a", 3, Some("2024-01-01T00:00:00Z"), None);
    let store = store_of(vec![r.clone()]);
    assert_eq!(store.ranked(0, 5), vec![r.clone()]);
    assert_eq!(store.to_sorted_vec(), vec![r]);
}

// --- against chrono -----------------------------------------------------------

#[test]
fn prune_agrees_with_chrono_on_the_cutoff() {
    let clock = chrono::DateTime::from_timestamp(T, 250_000_000).unwrap();
    let now = UtcTime::new(T, 250_000_000).unwrap();
    let texts = [
        "2023-11-07T22:13:20Z",
        "2023-11-07T22:13:20.25Z",
        "2023-11-07T22:13:20.249999999Z",
        "2023-11-07T22:13:20.250000001+00:00",
        "2023-11-08T07:13:20.25+09:00",
        "2023-11-14T22:13:20.25Z",
        "2023-11-14T22:13:20.26Z",
        "bad",
        "2023-11-13T22:13:20.25Z",
        "2013-11-16T22:13:20.25Z",
        "2013-11-17T22:13:20.25Z",
    ];
    for days in [0u32, 1, 7, 8, 3650, 3651] {
        let mut store = StateStore::new();
        for (i, t) in texts.iter().enumerate() {
            store.insert(record(&format!("k{:02}", i), 1, t));
        }
        store.prune(now, days, 100);
        let cutoff = clock - chrono::Duration::days(days as i64);
        let expected: Vec<String> = texts
            .iter()
            .enumerate()
            .filter(|(_, t)| match chrono::DateTime::parse_from_rfc3339(t) {
                Ok(seen) => seen.with_timezone(&chrono::Utc) >= cutoff,
                Err(_) => false,
            })
            .map(|(i, _)| format!("k{:02}", i))
            .collect();
        assert_eq!(keys(&store), expected, "days = {}", days);
    }
}

#[test]
fn prune_cap_agrees_with_sorting_by_chrono_times() {
    let now = at(T);
    let texts = [
        "2023-11-14T10:00:00Z",
        "2023-11-14T19:00:00+09:00",
        "2023-11-13T23:59:59.999Z",
        "2023-11-14T10:00:00.000000001Z",
        "2023-11-12T00:00:00-05:00",
        "2023-11-14T09:59:59+00:00",
        "2023-11-10T00:00:00Z",
    ];
    for cap in 0..=texts.len() {
        let mut store = StateStore::new();
        for (i, t) in texts.iter().enumerate() {
            store.insert(record(&format!("k{}", i), 1, t));
        }
        store.prune(now, 30, cap);
        let mut list: Vec<(usize, chrono::DateTime<chrono::FixedOffset>)> = texts
            .iter()
            .enumerate()
            .map(|(i, t)| (i, chrono::DateTime::parse_from_rfc3339(t).unwrap()))
            .collect();
        list.sort_by_key(|(_, seen)| *seen);
        let mut expected: Vec<String> =
            list.split_off(list.len() - cap).into_iter().map(|(i, _)| format!("k{}", i)).collect();
        expected.sort();
        assert_eq!(keys(&store), expected, "cap = {}", cap);
    }
}

#[test]
fn prune_twice_is_prune_once() {
    let mut store = store_of(vec![
        record("a", 1, &days_ago(9)),
        record("b", 1, &days_ago(3)),
        record("c", 1, &days_ago(3)),
        record("d", 1, &days_ago(1)),
        record("e", 1, "unreadable"),
    ]);
    store.prune(at(T), 7, 2);
    let once = store.to_sorted_vec();
    assert_eq!(keys(&store), vec!["c", "d"]);
    store.prune(at(T), 7, 2);
    assert_eq!(store.to_sorted_vec(), once);
}
