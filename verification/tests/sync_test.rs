//! Tests of the sync orchestrator: dedup-aware merging, idempotency,
//! partial-failure isolation, and the end-to-end scenario.

use ferrofeed::client::{ParsedFeed, ParsedFeedItem};
use ferrofeed::store::Db;
use ferrofeed::sync::{
    add_feed_from_fetch, merge_feed_items, sync_feeds, AddFeedError, FetchOutcome,
};

fn item(title: &str, link: &str, published: Option<i64>) -> ParsedFeedItem {
    ParsedFeedItem {
        title: Some(title.to_string()),
        link: Some(link.to_string()),
        description: None,
        authors: Vec::new(),
        published,
    }
}

fn feed_with(items: Vec<ParsedFeedItem>) -> ParsedFeed {
    ParsedFeed { title: Some("Example".to_string()), items }
}

#[test]
fn test_merge_counts_only_new_links() {
    let mut db = Db::new();
    db.add_feed_at("https://example.com/feed.xml", None, 1)
        .expect("failed to add feed");
    let fid = db.list_feeds()[0].id;

    let incoming = vec![
        item("One", "/item1", Some(10)),
        item("Two", "/item2", Some(20)),
        item("One again", "/item1", Some(10)),
    ];
    let n = merge_feed_items(&mut db, fid, &incoming, 99);
    // The repeated link within one batch is inserted once.
    assert_eq!(n, 2);
    assert_eq!(db.get_feed_items(fid).len(), 2);
}

#[test]
fn test_sync_twice_adds_nothing_the_second_time() {
    let mut db = Db::new();
    db.add_feed_at("https://a.example/feed.xml", None, 1)
        .expect("failed to add feed");
    db.add_feed_at("https://b.example/feed.xml", None, 2)
        .expect("failed to add feed");

    let outcomes = vec![
        FetchOutcome::Fetched(feed_with(vec![
            item("A1", "/a1", Some(10)),
            item("A2", "/a2", Some(20)),
        ])),
        FetchOutcome::Fetched(feed_with(vec![item("B1", "/b1", None)])),
    ];

    let first = sync_feeds(&mut db, &outcomes, 100);
    assert_eq!(first.total_new, 3);
    assert_eq!(first.per_feed.len(), 2);
    assert_eq!(first.per_feed[0].new_items, 2);
    assert_eq!(first.per_feed[1].new_items, 1);

    // Unchanged sources: the second run inserts nothing.
    let second = sync_feeds(&mut db, &outcomes, 200);
    assert_eq!(second.total_new, 0);
    assert_eq!(second.per_feed[0].new_items, 0);
    assert_eq!(second.per_feed[1].new_items, 0);
}

#[test]
fn test_second_sync_leaves_rows_unchanged() {
    let mut db = Db::new();
    db.add_feed_at("https://a.example/feed.xml", None, 1)
        .expect("failed to add feed");
    let fid = db.list_feeds()[0].id;

    let outcomes = vec![FetchOutcome::Fetched(feed_with(vec![
        item("A1", "/a1", Some(10)),
        item("A2", "/a2", Some(20)),
    ]))];
    sync_feeds(&mut db, &outcomes, 100);
    let before = db.get_feed_items(fid);
    assert_eq!(before.len(), 2);

    // A run over unchanged content is append-only with nothing to
    // append: every stored row stays bit-for-bit the same.
    let summary = sync_feeds(&mut db, &outcomes, 200);
    assert_eq!(summary.total_new, 0);
    let after = db.get_feed_items(fid);
    assert_eq!(before, after);
}

#[test]
fn test_one_failed_fetch_leaves_other_feeds_unaffected() {
    let mut db = Db::new();
    db.add_feed_at("https://a.example/feed.xml", None, 1)
        .expect("failed to add feed");
    db.add_feed_at("https://b.example/feed.xml", None, 2)
        .expect("failed to add feed");
    db.add_feed_at("https://c.example/feed.xml", None, 3)
        .expect("failed to add feed");

    let outcomes = vec![
        FetchOutcome::Fetched(feed_with(vec![item("A1", "/a1", Some(1))])),
        FetchOutcome::FetchFailed("connection refused".to_string()),
        FetchOutcome::Fetched(feed_with(vec![
            item("C1", "/c1", Some(1)),
            item("C2", "/c2", Some(2)),
        ])),
    ];

    let summary = sync_feeds(&mut db, &outcomes, 100);
    assert_eq!(summary.per_feed.len(), 3);
    assert_eq!(summary.per_feed[0].new_items, 1);
    assert!(summary.per_feed[0].error.is_none());
    assert_eq!(summary.per_feed[1].new_items, 0);
    assert_eq!(
        summary.per_feed[1].error,
        Some("connection refused".to_string())
    );
    assert_eq!(summary.per_feed[2].new_items, 2);
    assert!(summary.per_feed[2].error.is_none());
    assert_eq!(summary.total_new, 3);

    // The failed feed got no rows at all.
    let failed_id = summary.per_feed[1].feed_id;
    assert_eq!(db.get_feed_items(failed_id).len(), 0);
}

#[test]
fn test_sync_joins_author_names() {
    let mut db = Db::new();
    db.add_feed_at("https://a.example/feed.xml", None, 1)
        .expect("failed to add feed");
    let fid = db.list_feeds()[0].id;

    let incoming = vec![ParsedFeedItem {
        title: Some("Post".to_string()),
        link: Some("/post".to_string()),
        description: None,
        authors: vec!["Alice".to_string(), "Bob".to_string()],
        published: None,
    }];
    merge_feed_items(&mut db, fid, &incoming, 5);

    let items = db.get_feed_items(fid);
    assert_eq!(items[0].author, Some("Alice, Bob".to_string()));
}

#[test]
fn test_add_feed_from_fetch_failure_creates_no_feed() {
    let mut db = Db::new();
    let outcome = FetchOutcome::FetchFailed("404 Not Found".to_string());
    let result = add_feed_from_fetch(&mut db, "https://gone.example/feed.xml", &outcome, 7);
    match result {
        Err(AddFeedError::FetchFailed(cause)) => assert_eq!(cause, "404 Not Found"),
        _ => panic!("expected a fetch failure"),
    }
    assert_eq!(db.list_feeds().len(), 0);
}

#[test]
fn test_add_feed_from_fetch_takes_title_and_rejects_duplicates() {
    let mut db = Db::new();
    let outcome = FetchOutcome::Fetched(feed_with(vec![item("One", "/item1", None)]));

    add_feed_from_fetch(&mut db, "https://example.com/feed.xml", &outcome, 7)
        .expect("failed to add feed");
    let feeds = db.list_feeds();
    assert_eq!(feeds.len(), 1);
    assert_eq!(feeds[0].title, Some("Example".to_string()));

    let again = add_feed_from_fetch(&mut db, "https://example.com/feed.xml", &outcome, 8);
    assert!(matches!(again, Err(AddFeedError::Conflict)));
    assert_eq!(db.list_feeds().len(), 1);
}

#[test]
fn test_end_to_end_scenario() {
    let mut db = Db::new();

    // Add the feed, validated by a successful fetch.
    let fetched = FetchOutcome::Fetched(feed_with(vec![
        item("First", "/item1", Some(100)),
        item("Second", "/item2", Some(50)),
    ]));
    add_feed_from_fetch(&mut db, "https://example.com/feed.xml", &fetched, 10)
        .expect("failed to add feed");
    let feed_id = db.list_feeds()[0].id;

    // First sync stores both items, unread.
    let outcomes = vec![fetched];
    let summary = sync_feeds(&mut db, &outcomes, 20);
    assert_eq!(summary.total_new, 2);
    let items = db.get_feed_items(feed_id);
    assert_eq!(items.len(), 2);
    assert!(items.iter().all(|it| !it.is_read));

    // Re-sync with the same two items: still exactly two.
    let summary = sync_feeds(&mut db, &outcomes, 30);
    assert_eq!(summary.total_new, 0);
    let items = db.get_feed_items(feed_id);
    assert_eq!(items.len(), 2);

    // Mark /item1's item read; /item2's is unaffected.
    let item1_id = items
        .iter()
        .find(|it| it.link.as_deref() == Some("/item1"))
        .expect("missing /item1")
        .id;
    db.mark_item_read(item1_id).expect("failed to mark read");
    let items = db.get_feed_items(feed_id);
    for it in &items {
        if it.link.as_deref() == Some("/item1") {
            assert!(it.is_read);
        } else {
            assert!(!it.is_read);
        }
    }

    // Remove the feed: no feeds remain and the old id lists nothing.
    assert!(db.remove_feed("https://example.com/feed.xml"));
    assert_eq!(db.list_feeds().len(), 0);
    assert_eq!(db.get_feed_items(feed_id).len(), 0);
}
