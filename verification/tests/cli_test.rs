//! A run-through of the engine's command surface, as a caller's
//! command-line front end drives it: add, list, sync, schedule,
//! remove.

use ferrofeed::client::{ParsedFeed, ParsedFeedItem};
use ferrofeed::schedule::minutes_to_crontab_schedule;
use ferrofeed::store::Db;
use ferrofeed::sync::{add_feed_from_fetch, sync_feeds, FetchOutcome};

fn create_test_db() -> Db {
    Db::new()
}

fn sample_outcome() -> FetchOutcome {
    FetchOutcome::Fetched(ParsedFeed {
        title: Some("Test Feed".to_string()),
        items: vec![ParsedFeedItem {
            title: Some("Post".to_string()),
            link: Some("/post".to_string()),
            description: None,
            authors: Vec::new(),
            published: None,
        }],
    })
}

#[test]
fn test_run_help() {
    // Every operation of the command surface responds on a fresh store.
    let mut db = create_test_db();

    let outcome = sample_outcome();
    add_feed_from_fetch(&mut db, "https://example.com/feed.xml", &outcome, 1)
        .expect("add responds");
    assert_eq!(db.list_feeds().len(), 1);

    let outcomes = vec![outcome];
    let summary = sync_feeds(&mut db, &outcomes, 2);
    assert_eq!(summary.per_feed.len(), 1);

    minutes_to_crontab_schedule(60).expect("schedule responds");

    assert!(db.remove_feed("https://example.com/feed.xml"));
}

#[test]
fn cli_test_test_list_feeds_empty() {
    let db = create_test_db();
    let result = db.list_feeds();
    assert!(result.is_empty());
}

#[test]
fn cli_test_test_list_feeds_with_data() {
    let mut db = create_test_db();
    db.add_feed("https://example.com/feed.xml", Some("Test Feed"))
        .expect("failed to add feed");

    let result = db.list_feeds();
    assert!(result.len() == 1);
}

#[test]
fn cli_test_test_remove_feed_success() {
    let mut db = create_test_db();
    db.add_feed("https://example.com/feed.xml", Some("Test Feed"))
        .expect("failed to add feed");

    let result = db.remove_feed("https://example.com/feed.xml");
    assert!(result);

    let feeds = db.list_feeds();
    assert_eq!(feeds.len(), 0);
}

#[test]
fn cli_test_test_remove_feed_not_found() {
    let mut db = create_test_db();
    let result = db.remove_feed("https://nonexistent.com/feed.xml");
    assert!(!result);
}
