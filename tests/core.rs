use qiita_high_likes_rss::config::{derive_site_url, normalize_site_url, non_blank_value, AppConfig};
use qiita_high_likes_rss::error::{AppError, ErrorKind};
use qiita_high_likes_rss::feed::parse_feed_xml;
use qiita_high_likes_rss::fetch::{backoff_duration, AttemptOutcome, AttemptStep, LikesPager, PageStep, RetryState, MAX_ATTEMPTS};
use qiita_high_likes_rss::qiita_api::{attach_likes, extract_item_id, likes_url, QiitaItem};
use qiita_high_likes_rss::render::{build_entries, build_entry_id, build_summary_html, build_url, default_feed_updated, escape_html, extract_username};
use qiita_high_likes_rss::select::{item_precedes, select_top, select_updated_time};
use qiita_high_likes_rss::state::{item_key, StateStore, StoredItem};
use qiita_high_likes_rss::time::Timestamp;

fn ts(text: &str) -> Timestamp {
    let d = chrono::DateTime::parse_from_rfc3339(text).expect("valid timestamp");
    Timestamp { secs: d.timestamp(), nanos: d.timestamp_subsec_nanos() }
}

fn candidate(id: Option<&str>, title: &str, link: &str, likes: u32) -> QiitaItem {
    QiitaItem {
        item_id: id.map(|s| s.to_string()),
        title: title.to_string(),
        link: link.to_string(),
        summary: None,
        published: None,
        updated: None,
        author_name: None,
        likes_count: likes,
    }
}

fn record(key: &str, likes: u32, updated: Option<&str>, last_seen: &str) -> StoredItem {
    StoredItem {
        key: key.to_string(),
        item_id: Some(key.to_string()),
        title: format!("title {}", key),
        link: format!("https://qiita.com/u/items/{}", key),
        summary: None,
        published: None,
        updated: updated.map(|s| s.to_string()),
        author_name: None,
        likes_count: likes,
        last_seen: last_seen.to_string(),
    }
}

fn keys(items: &[StoredItem]) -> Vec<String> {
    items.iter().map(|i| i.key.clone()).collect()
}

/// Runs a request's retry decisions over scripted outcomes; returns the
/// final step, the number of attempts and the waits asked for.
fn run_retries(outcomes: Vec<AttemptOutcome>) -> (AttemptStep, u32, Vec<u64>) {
    let mut state = RetryState::new();
    let mut waits = Vec::new();
    for outcome in outcomes {
        match state.record("https://example.com/x", &outcome) {
            AttemptStep::Retry { backoff_secs } => waits.push(backoff_secs),
            step => return (step, state.attempt, waits),
        }
    }
    panic!("outcomes ran out before the request settled");
}

fn config() -> AppConfig {
    AppConfig {
        min_likes: 5,
        likes_per_page: 100,
        likes_max_pages: 10,
        max_feed_entries: 20,
        max_stored_days: 30,
        max_stored_items: 100,
        site_title: "Site".to_string(),
        site_description: "Desc".to_string(),
        site_url: String::new(),
        feed_path: "feed.xml".to_string(),
        feed_source: "https://qiita.com/popular-items/feed".to_string(),
        qiita_api_token: None,
    }
}

const FEED: &str = r#"<?xml version="1.0" encoding="UTF-8"?>
<feed xmlns="http://www.w3.org/2005/Atom">
  <title>Popular</title>
  <entry>
    <title>  First  </title>
    <link rel="alternate" type="text/html" href="https://qiita.com/alice/items/aaa111"/>
    <content type="html">Body one</content>
    <published>2024-01-01T00:00:00+09:00</published>
    <updated>2024-01-02T00:00:00+09:00</updated>
    <author><name>alice</name></author>
  </entry>
  <entry>
    <title>No link</title>
  </entry>
  <entry>
    <title>Second</title>
    <link rel="alternate" href="https://qiita.com/bob/items/bbb222?utm=x"/>
  </entry>
</feed>"#;

#[test]
fn backoff_doubles_per_attempt() {
    assert_eq!(backoff_duration(1), 1);
    assert_eq!(backoff_duration(2), 2);
    assert_eq!(backoff_duration(3), 4);
    assert_eq!(backoff_duration(0), 1);
    assert_eq!(backoff_duration(64), 1u64 << 63);
}

#[test]
fn retry_succeeds_after_two_retries() {
    let (step, attempts, waits) = run_retries(vec![
        AttemptOutcome::Status(503),
        AttemptOutcome::Status(503),
        AttemptOutcome::Status(200),
    ]);
    assert!(matches!(step, AttemptStep::Success));
    assert_eq!(attempts, 3);
    assert_eq!(waits, vec![1, 2]);
}

#[test]
fn retry_unauthorized_is_fatal_at_once() {
    let (step, attempts, waits) = run_retries(vec![AttemptOutcome::Status(401)]);
    match step {
        AttemptStep::Fail(e) => {
            assert_eq!(e.kind, ErrorKind::Network);
            assert!(e.message.contains("401"));
        }
        _ => panic!("401 must fail"),
    }
    assert_eq!(attempts, 1);
    assert!(waits.is_empty());
}

#[test]
fn retry_gives_up_after_max_attempts() {
    let (step, attempts, waits) = run_retries(vec![
        AttemptOutcome::Status(503),
        AttemptOutcome::Status(503),
        AttemptOutcome::Status(503),
    ]);
    assert_eq!(attempts, MAX_ATTEMPTS);
    assert_eq!(waits, vec![1, 2]);
    match step {
        AttemptStep::Fail(e) => {
            assert_eq!(e.kind, ErrorKind::Network);
            assert_eq!(e.message, "request failed: url=https://example.com/x status=503 attempt=3");
        }
        _ => panic!("exhausted retries must fail"),
    }
}

#[test]
fn retry_covers_transport_errors_and_other_statuses() {
    let (step, attempts, waits) = run_retries(vec![
        AttemptOutcome::Transport("timed out".to_string()),
        AttemptOutcome::Status(404),
        AttemptOutcome::Status(429),
    ]);
    assert_eq!(attempts, 3);
    assert_eq!(waits, vec![1, 2]);
    match step {
        AttemptStep::Fail(e) => assert_eq!(e.message, "request failed: url=https://example.com/x status=429 attempt=3"),
        _ => panic!("must fail"),
    }
    let (step, _, _) = run_retries(vec![
        AttemptOutcome::Status(500),
        AttemptOutcome::Status(502),
        AttemptOutcome::Transport("connection refused".to_string()),
    ]);
    match step {
        AttemptStep::Fail(e) => {
            assert_eq!(e.message, "request failed: url=https://example.com/x error=connection refused attempt=3")
        }
        _ => panic!("must fail"),
    }
}

/// Feeds page sizes to a pager; returns the final step and the pages fetched.
fn run_pages(per_page: u32, max_pages: u32, pages: &[usize]) -> (PageStep, Vec<u32>) {
    let mut pager = LikesPager::new(per_page, max_pages);
    let mut step = pager.first_step();
    let mut fetched = Vec::new();
    let mut next = pages.iter();
    while let PageStep::Fetch { page } = step {
        fetched.push(page);
        let size = *next.next().expect("a page was asked for beyond the script");
        step = pager.record_page(size);
    }
    (step, fetched)
}

#[test]
fn pagination_stops_at_short_page() {
    let (step, fetched) = run_pages(2, 10, &[2, 2, 1]);
    assert_eq!(step, PageStep::Finished { total: 5, capped: false });
    assert_eq!(fetched, vec![1, 2, 3]);
}

#[test]
fn pagination_capped_at_max_pages() {
    let (step, fetched) = run_pages(2, 3, &[2, 2, 2, 2]);
    assert_eq!(step, PageStep::Finished { total: 6, capped: true });
    assert_eq!(fetched, vec![1, 2, 3]);
}

#[test]
fn pagination_edge_cases() {
    let (step, fetched) = run_pages(2, 0, &[]);
    assert_eq!(step, PageStep::Finished { total: 0, capped: true });
    assert!(fetched.is_empty());
    let (step, _) = run_pages(5, 4, &[0]);
    assert_eq!(step, PageStep::Finished { total: 0, capped: false });
    let (step, _) = run_pages(8, 3, &[usize::MAX, 7]);
    assert_eq!(step, PageStep::Finished { total: u32::MAX, capped: false });
}

#[test]
fn merge_same_key_twice_keeps_second() {
    let mut store = StateStore::new();
    let first = candidate(Some("abc"), "Old title", "https://qiita.com/u/items/abc", 3);
    let second = candidate(Some("abc"), "New title", "https://qiita.com/u/items/abc", 9);
    assert_eq!(store.merge_from_feed(&vec![first], ts("2024-01-01T00:00:00Z")), 1);
    assert_eq!(store.merge_from_feed(&vec![second], ts("2024-01-02T00:00:00Z")), 1);
    assert_eq!(store.len(), 1);
    let r = store.get(&"abc".to_string()).expect("record");
    assert_eq!(r.title, "New title");
    assert_eq!(r.likes_count, 9);
    assert_eq!(r.last_seen, "2024-01-02T00:00:00+00:00");
}

#[test]
fn merge_keys_by_link_without_id() {
    let mut store = StateStore::new();
    let items = vec![
        candidate(None, "A", "https://example.com/a", 1),
        candidate(Some("b"), "B", "https://qiita.com/u/items/b", 2),
    ];
    assert_eq!(store.merge_from_feed(&items, ts("2024-01-01T00:00:00Z")), 2);
    assert_eq!(keys(&store.to_sorted_vec()), vec!["b".to_string(), "https://example.com/a".to_string()]);
    assert_eq!(item_key(&items[0]), Some("https://example.com/a".to_string()));
    assert_eq!(item_key(&items[1]), Some("b".to_string()));
}

#[test]
fn prune_drops_old_and_keeps_recent() {
    let mut store = StateStore::from_items(vec![
        record("old", 1, None, "2024-01-08T00:00:00Z"),
        record("recent", 1, None, "2024-01-09T23:00:00Z"),
        record("bad", 1, None, "not a time"),
    ]);
    store.prune(ts("2024-01-10T00:00:00Z"), 1, 10);
    assert_eq!(keys(&store.to_sorted_vec()), vec!["recent".to_string()]);
}

#[test]
fn prune_keeps_boundary_age() {
    let mut store = StateStore::from_items(vec![record("edge", 1, None, "2024-01-09T00:00:00Z")]);
    store.prune(ts("2024-01-10T00:00:00Z"), 1, 10);
    assert_eq!(store.len(), 1);
}

#[test]
fn prune_capacity_keeps_most_recent() {
    let mut store = StateStore::from_items(vec![
        record("t2", 1, None, "2024-01-09T02:00:00Z"),
        record("t1", 1, None, "2024-01-09T01:00:00Z"),
        record("t3", 1, None, "2024-01-09T03:00:00Z"),
    ]);
    store.prune(ts("2024-01-10T00:00:00Z"), 7, 2);
    assert_eq!(keys(&store.to_sorted_vec()), vec!["t2".to_string(), "t3".to_string()]);
}

#[test]
fn selector_orders_by_likes_then_time() {
    let store = StateStore::from_items(vec![
        record("a", 5, Some("2024-01-01T00:00:00Z"), "2024-01-10T00:00:00Z"),
        record("b", 5, Some("2024-01-02T00:00:00Z"), "2024-01-10T00:00:00Z"),
        record("c", 10, Some("2024-01-01T00:00:00Z"), "2024-01-10T00:00:00Z"),
    ]);
    let out = select_top(&store, 0, 10);
    assert_eq!(keys(&out), vec!["c".to_string(), "b".to_string(), "a".to_string()]);
}

#[test]
fn selector_filters_truncates_and_ranks_missing_time_last() {
    let store = StateStore::from_items(vec![
        record("low", 1, Some("2024-01-05T00:00:00Z"), "x"),
        record("none", 7, None, "x"),
        record("dated", 7, Some("2024-01-01T00:00:00Z"), "x"),
        record("bad", 7, Some("garbage"), "x"),
        record("top", 9, None, "x"),
    ]);
    let out = select_top(&store, 5, 3);
    assert_eq!(keys(&out), vec!["top".to_string(), "dated".to_string(), "bad".to_string()]);
    assert!(item_precedes(&out[0], &out[1]));
    assert!(!item_precedes(&out[1], &out[0]));
}

#[test]
fn effective_time_is_later_of_updated_and_published() {
    let mut r = record("k", 1, Some("2024-01-01T00:00:00Z"), "x");
    r.published = Some("2024-02-01T00:00:00+09:00".to_string());
    assert_eq!(select_updated_time(&r), Some(ts("2024-01-31T15:00:00Z")));
    r.published = Some("bad".to_string());
    assert_eq!(select_updated_time(&r), Some(ts("2024-01-01T00:00:00Z")));
    r.updated = None;
    assert_eq!(select_updated_time(&r), None);
}

#[test]
fn identity_from_link() {
    assert_eq!(extract_item_id("https://host/alice/items/abc123?ref=x"), Some("abc123".to_string()));
    assert_eq!(extract_item_id("https://host/alice/posts/abc123"), None);
    assert_eq!(extract_item_id("https://host/a/items/xyz#top"), Some("xyz".to_string()));
    assert_eq!(extract_item_id("https://host/a/items/?q=1"), None);
    assert_eq!(extract_item_id("https://host/a/items/"), None);
}

#[test]
fn feed_parsing_keeps_valid_entries() {
    let parsed = parse_feed_xml(FEED).expect("feed");
    assert_eq!(parsed.skipped, vec![Some("No link".to_string())]);
    let items = parsed.items;
    assert_eq!(items.len(), 2);
    assert_eq!(items[0].title, "First");
    assert_eq!(items[0].item_id, Some("aaa111".to_string()));
    assert_eq!(items[0].summary, Some("Body one".to_string()));
    assert_eq!(items[0].author_name, Some("alice".to_string()));
    assert_eq!(items[0].updated, Some("2024-01-02T00:00:00+09:00".to_string()));
    assert_eq!(items[1].item_id, Some("bbb222".to_string()));
    assert_eq!(items[1].link, "https://qiita.com/bob/items/bbb222?utm=x");
    assert_eq!(items[1].summary, None);
}

#[test]
fn feed_parsing_errors() {
    let e = parse_feed_xml("<feed><entry>").err().expect("malformed");
    assert_eq!(e.kind, ErrorKind::Feed);
    let e = parse_feed_xml("<rss><channel/></rss>").err().expect("no feed");
    assert_eq!(e.kind, ErrorKind::Feed);
    assert_eq!(parse_feed_xml("<feed/>").expect("empty feed").items.len(), 0);
    let parsed = parse_feed_xml("<feed><entry><title> </title><link rel=\"alternate\" href=\"h\"/></entry></feed>").expect("feed");
    assert!(parsed.items.is_empty());
    assert_eq!(parsed.skipped, vec![None]);
    let parsed = parse_feed_xml("<feed xmlns:x=\"urn:x\"><entry><title>T</title><link x:rel=\"alternate\" href=\"https://h/u/items/i\"/></entry></feed>").expect("feed");
    assert!(parsed.items.is_empty());
    assert_eq!(parsed.skipped, vec![Some("T".to_string())]);
}

#[test]
fn end_to_end_run() {
    let mut items = parse_feed_xml(FEED).expect("feed").items;
    assert_eq!(items.len(), 2);
    let counts = [12u32, 3u32];
    let mut kept = Vec::new();
    for (item, count) in items.iter_mut().zip(counts) {
        assert!(item.item_id.is_some());
        if attach_likes(item, count, 5) {
            kept.push(item.clone());
        }
    }
    let now = ts("2024-01-10T00:00:00Z");
    let mut store = StateStore::new();
    assert_eq!(store.merge_from_feed(&kept, now), 1);
    store.prune(now, 30, 100);
    let out = select_top(&store, 5, 20);
    assert_eq!(out.len(), 1);
    assert_eq!(out[0].key, "aaa111");
    assert_eq!(out[0].likes_count, 12);
    assert_eq!(store.to_sorted_vec().len(), 1);
}

#[test]
fn timestamps_parse_and_format() {
    let mut r = record("k", 1, Some("1970-01-01T00:00:01.5Z"), "x");
    assert_eq!(select_updated_time(&r), Some(Timestamp { secs: 1, nanos: 500_000_000 }));
    r.updated = Some("2024-01-01T09:00:00+09:00".to_string());
    assert_eq!(select_updated_time(&r), Some(Timestamp { secs: 1_704_067_200, nanos: 0 }));
    r.updated = Some("yesterday".to_string());
    assert_eq!(select_updated_time(&r), None);
    let mut store = StateStore::new();
    store.merge_from_feed(&vec![candidate(Some("k"), "T", "l", 0)], Timestamp { secs: 1_704_067_200, nanos: 0 });
    assert_eq!(store.get(&"k".to_string()).expect("record").last_seen, "2024-01-01T00:00:00+00:00");
}

#[test]
fn sorted_vec_orders_keys() {
    let store = StateStore::from_items(vec![
        record("b", 1, None, "x"),
        record("a", 1, None, "x"),
        record("c", 1, None, "x"),
        record("a", 2, None, "y"),
    ]);
    let out = store.to_sorted_vec();
    assert_eq!(keys(&out), vec!["a".to_string(), "b".to_string(), "c".to_string()]);
    assert_eq!(out[0].likes_count, 2);
}

#[test]
fn error_exit_codes() {
    assert_eq!(AppError::config("c".to_string()).exit_code(), 2);
    assert_eq!(AppError::network("n".to_string()).exit_code(), 3);
    let e = AppError::feed("f".to_string());
    assert_eq!(e.exit_code(), 4);
    assert_eq!(e.message, "f");
}

#[test]
fn config_validation() {
    assert!(config().validate().is_ok());
    let mut c = config();
    c.likes_per_page = 0;
    assert_eq!(c.validate().unwrap_err().kind, ErrorKind::Config);
    let mut c = config();
    c.max_stored_items = 0;
    assert!(c.validate().is_err());
    let mut c = config();
    c.feed_source = "   ".to_string();
    assert!(c.validate().is_err());
}

#[test]
fn config_overrides() {
    let mut c = config();
    let r = c.apply_env_overrides(Some("+42".to_string()), Some("https://me.example".to_string()), Some("tok".to_string()));
    assert!(r.is_ok());
    assert_eq!(c.min_likes, 42);
    assert_eq!(c.site_url, "https://me.example");
    assert_eq!(c.qiita_api_token, Some("tok".to_string()));
    let mut c = config();
    assert_eq!(c.apply_env_overrides(Some("12x".to_string()), None, None).unwrap_err().kind, ErrorKind::Config);
    assert_eq!(non_blank_value(Some("  ".to_string())), None);
    assert_eq!(non_blank_value(Some(" v ".to_string())), Some(" v ".to_string()));
}

#[test]
fn site_url_rules() {
    assert_eq!(normalize_site_url("https://x.example///"), "https://x.example");
    assert_eq!(derive_site_url("me/me.github.io"), Some("https://me.github.io".to_string()));
    assert_eq!(derive_site_url("me/blog"), Some("https://me.github.io/blog".to_string()));
    assert_eq!(derive_site_url("noslash"), None);
    let mut c = config();
    c.ensure_site_url(Some("me/blog".to_string()));
    assert_eq!(c.site_url, "https://me.github.io/blog");
    let mut c = config();
    c.site_url = "https://a.example/".to_string();
    c.ensure_site_url(Some("me/blog".to_string()));
    assert_eq!(c.site_url, "https://a.example");
    assert_eq!(likes_url("abc"), "https://qiita.com/api/v2/items/abc/likes");
}

#[test]
fn html_helpers() {
    assert_eq!(escape_html("a<b>&\"c'"), "a&lt;b&gt;&amp;&quot;c&#39;");
    assert_eq!(build_url("https://x.example/", "/feed.xml"), "https://x.example/feed.xml");
    assert_eq!(build_url("", "feed.xml"), "feed.xml");
    assert_eq!(extract_username("https://qiita.com/alice/items/abc?x=1"), Some("alice".to_string()));
    assert_eq!(extract_username("items/abc"), None);
    assert_eq!(extract_username("https://qiita.com/alice/posts/abc"), None);
    let mut r = record("k", 7, None, "x");
    r.link = "https://qiita.com/alice/items/k".to_string();
    r.author_name = Some("Alice".to_string());
    assert_eq!(
        build_summary_html(&r),
        "Likes: 7<br/>Author: <a href=\"https://qiita.com/alice\">Alice</a><br/>Published: unknown<br/>Updated: unknown<br/>(no content)"
    );
}

#[test]
fn feed_entries_from_records() {
    let now = ts("2024-03-05T10:00:00Z");
    let mut dated = record("abc", 3, Some("2024-01-02T00:00:00Z"), "x");
    dated.published = Some("2024-01-03T09:00:00+09:00".to_string());
    let mut undated = record("zzz", 1, None, "x");
    undated.item_id = None;
    let entries = build_entries(&vec![dated.clone(), undated.clone()], now);
    assert_eq!(entries.len(), 2);
    assert_eq!(entries[0].id, "tag:qiita.com,2024:abc");
    assert_eq!(entries[0].updated, ts("2024-01-03T00:00:00Z"));
    assert_eq!(entries[0].title, "title abc");
    assert!(entries[0].summary_html.starts_with("Likes: 3<br/>"));
    assert_eq!(entries[1].id, "tag:qiita.com,2024:unknown");
    assert_eq!(entries[1].updated, now);
    assert_eq!(build_entry_id(&dated, ts("1999-12-31T23:59:59Z")), "tag:qiita.com,1999:abc");
    assert_eq!(default_feed_updated(&entries, ts("2025-01-01T00:00:00Z")), now);
    assert_eq!(default_feed_updated(&Vec::new(), ts("2025-01-01T00:00:00Z")), ts("2025-01-01T00:00:00Z"));
}
