//! Tests of the feed store: uniqueness, dedup, cascade delete,
//! ordering and read-marking.

use ferrofeed::store::{Db, StoreError};

fn create_test_db() -> Db {
    Db::new()
}

#[test]
fn test_add_and_list_feeds() {
    let mut db = create_test_db();

    // Add a feed
    db.add_feed("https://example.com/feed.xml", Some("Test Feed"))
        .expect("failed to add feed");

    // List feeds
    let feeds = db.list_feeds();
    assert_eq!(feeds.len(), 1);
    assert_eq!(feeds[0].url, "https://example.com/feed.xml");
    assert_eq!(feeds[0].title, Some("Test Feed".to_string()));
}

#[test]
fn test_add_duplicate_feed_fails() {
    let mut db = create_test_db();

    db.add_feed("https://example.com/feed.xml", Some("Test Feed"))
        .expect("failed to add feed");

    // Try to add duplicate
    let result = db.add_feed("https://example.com/feed.xml", Some("Duplicate"));
    assert!(result.is_err());
    assert!(matches!(result, Err(StoreError::Conflict)));
}

#[test]
fn test_remove_feed() {
    let mut db = create_test_db();

    db.add_feed("https://example.com/feed.xml", Some("Test Feed"))
        .expect("failed to add feed");

    // Remove the feed
    let deleted = db.remove_feed("https://example.com/feed.xml");
    assert!(deleted);

    // Verify it's gone
    let feeds = db.list_feeds();
    assert_eq!(feeds.len(), 0);
}

#[test]
fn test_remove_nonexistent_feed() {
    let mut db = create_test_db();

    let deleted = db.remove_feed("https://nonexistent.com/feed.xml");
    assert!(!deleted);
}

#[test]
fn test_add_feed_items() {
    let mut db = create_test_db();

    db.add_feed("https://example.com/feed.xml", Some("Test Feed"))
        .expect("failed to add feed");

    let feeds = db.list_feeds();
    let feed_id = feeds[0].id;

    // Add an item
    let inserted = db
        .add_feed_item(
            feed_id,
            Some("Test Item"),
            Some("https://example.com/item1"),
            Some("Item description"),
            Some("Author"),
            Some(1234567890),
        )
        .expect("failed to add item");
    assert!(inserted);

    // Get items for feed
    let items = db.get_feed_items(feed_id);
    assert_eq!(items.len(), 1);
    assert_eq!(items[0].title, Some("Test Item".to_string()));
    assert_eq!(items[0].link, Some("https://example.com/item1".to_string()));
}

#[test]
fn test_add_duplicate_feed_item() {
    let mut db = create_test_db();

    db.add_feed("https://example.com/feed.xml", Some("Test Feed"))
        .expect("failed to add feed");

    let feeds = db.list_feeds();
    let feed_id = feeds[0].id;

    // Add an item
    let inserted = db
        .add_feed_item(
            feed_id,
            Some("Test Item"),
            Some("https://example.com/item1"),
            Some("Description"),
            Some("Author"),
            Some(1234567890),
        )
        .expect("failed to add item");
    assert!(inserted);

    // Try to add duplicate (same feed_id and link)
    let inserted = db
        .add_feed_item(
            feed_id,
            Some("Different Title"),
            Some("https://example.com/item1"),
            Some("Different Description"),
            Some("Author"),
            Some(1234567890),
        )
        .expect("failed to add duplicate item");
    assert!(!inserted);

    // Verify only one item exists
    let items = db.get_feed_items(feed_id);
    assert_eq!(items.len(), 1);
}

#[test]
fn test_cascade_delete_feed_items() {
    let mut db = create_test_db();

    db.add_feed("https://example.com/feed.xml", Some("Test Feed"))
        .expect("failed to add feed");

    let feeds = db.list_feeds();
    let feed_id = feeds[0].id;

    // Add items
    db.add_feed_item(
        feed_id,
        Some("Item 1"),
        Some("https://example.com/item1"),
        None,
        None,
        None,
    )
    .expect("failed to add item");

    db.add_feed_item(
        feed_id,
        Some("Item 2"),
        Some("https://example.com/item2"),
        None,
        None,
        None,
    )
    .expect("failed to add item");

    // Verify items exist
    let items = db.get_feed_items(feed_id);
    assert_eq!(items.len(), 2);

    // Remove the feed
    db.remove_feed("https://example.com/feed.xml");

    // Verify the feed is gone and its items with it
    let feeds = db.list_feeds();
    assert_eq!(feeds.len(), 0);
    let items = db.get_feed_items(feed_id);
    assert_eq!(items.len(), 0);
}

#[test]
fn test_mark_item_read() {
    let mut db = create_test_db();

    db.add_feed("https://example.com/feed.xml", Some("Test Feed"))
        .expect("failed to add feed");

    let feeds = db.list_feeds();
    let feed_id = feeds[0].id;

    db.add_feed_item(
        feed_id,
        Some("Test Item"),
        Some("https://example.com/item1"),
        None,
        None,
        None,
    )
    .expect("failed to add item");

    let items = db.get_feed_items(feed_id);
    assert!(!items[0].is_read);

    // Mark as read
    db.mark_item_read(items[0].id)
        .expect("failed to mark item as read");

    // Verify it's marked as read
    let items = db.get_feed_items(feed_id);
    assert!(items[0].is_read);
}

#[test]
fn test_items_ordered_by_published_descending_absent_last() {
    let mut db = create_test_db();
    db.add_feed_at("https://example.com/feed.xml", Some("Test Feed"), 50)
        .expect("failed to add feed");
    let feed_id = db.list_feeds()[0].id;

    db.add_feed_item_at(feed_id, Some("Middle"), Some("/a"), None, None, Some(100), 7)
        .expect("failed to add item");
    db.add_feed_item_at(feed_id, Some("Undated"), Some("/b"), None, None, None, 7)
        .expect("failed to add item");
    db.add_feed_item_at(feed_id, Some("Newest"), Some("/c"), None, None, Some(200), 7)
        .expect("failed to add item");

    let items = db.get_feed_items(feed_id);
    assert_eq!(items.len(), 3);
    assert_eq!(items[0].published, Some(200));
    assert_eq!(items[1].published, Some(100));
    // An item without a published time sorts last.
    assert_eq!(items[2].published, None);
    assert_eq!(items[2].title, Some("Undated".to_string()));
}

#[test]
fn test_mark_item_read_is_idempotent() {
    let mut db = create_test_db();
    db.add_feed("https://example.com/feed.xml", None)
        .expect("failed to add feed");
    let feed_id = db.list_feeds()[0].id;
    db.add_feed_item(feed_id, Some("Item"), Some("/x"), None, None, None)
        .expect("failed to add item");
    let id = db.get_feed_items(feed_id)[0].id;

    db.mark_item_read(id).expect("failed to mark item as read");
    db.mark_item_read(id).expect("failed to mark item as read twice");

    let items = db.get_feed_items(feed_id);
    assert_eq!(items.len(), 1);
    assert!(items[0].is_read);
}

#[test]
fn test_at_most_one_linkless_item_per_feed() {
    let mut db = create_test_db();
    db.add_feed("https://example.com/feed.xml", None)
        .expect("failed to add feed");
    let feed_id = db.list_feeds()[0].id;

    // An absent link collides only with another absent link: the
    // second linkless item is not inserted.
    let inserted = db
        .add_feed_item(feed_id, Some("First"), None, None, None, None)
        .expect("failed to add item");
    assert!(inserted);
    let inserted = db
        .add_feed_item(feed_id, Some("Second"), None, None, None, None)
        .expect("failed to add second linkless item");
    assert!(!inserted);

    let items = db.get_feed_items(feed_id);
    assert_eq!(items.len(), 1);
    assert_eq!(items[0].title, Some("First".to_string()));
}

#[test]
fn test_add_item_for_unknown_feed_is_not_found() {
    let mut db = create_test_db();
    let result = db.add_feed_item(42, Some("Orphan"), Some("/x"), None, None, None);
    assert!(matches!(result, Err(StoreError::NotFound)));
}

#[test]
fn test_duplicate_feed_leaves_original_untouched() {
    let mut db = create_test_db();
    db.add_feed_at("https://example.com/feed.xml", Some("Original"), 11)
        .expect("failed to add feed");

    let result = db.add_feed_at("https://example.com/feed.xml", Some("Duplicate"), 99);
    assert!(matches!(result, Err(StoreError::Conflict)));

    let feeds = db.list_feeds();
    assert_eq!(feeds.len(), 1);
    assert_eq!(feeds[0].title, Some("Original".to_string()));
    assert_eq!(feeds[0].created_at, 11);
}
