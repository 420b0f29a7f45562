//! Tests of feed decoding and normalization.

use ferrofeed::client::{parse_feed, normalize_entry, RawEntry};

fn raw_entry() -> RawEntry {
    RawEntry {
        title: None,
        links: Vec::new(),
        summary: None,
        content_body: None,
        content_src: None,
        authors: Vec::new(),
        published: None,
        updated: None,
    }
}

#[test]
fn test_parse_feed_decodes_rss_document() {
    let xml = r#"<?xml version="1.0"?>
<rss version="2.0">
  <channel>
    <title>Example Feed</title>
    <link>https://example.com/</link>
    <description>An example</description>
    <item>
      <title>First Post</title>
      <link>https://example.com/item1</link>
      <description>Hello</description>
    </item>
    <item>
      <title>Second Post</title>
      <link>https://example.com/item2</link>
    </item>
  </channel>
</rss>"#;
    let parsed = parse_feed(&xml.as_bytes().to_vec()).expect("a valid RSS document decodes");
    assert_eq!(parsed.title, Some("Example Feed".to_string()));
    assert_eq!(parsed.items.len(), 2);
    assert_eq!(parsed.items[0].title, Some("First Post".to_string()));
    assert_eq!(
        parsed.items[0].link,
        Some("https://example.com/item1".to_string())
    );
    assert_eq!(parsed.items[0].description, Some("Hello".to_string()));
    assert_eq!(
        parsed.items[1].link,
        Some("https://example.com/item2".to_string())
    );
}

#[test]
fn test_parse_feed_rejects_garbage() {
    let garbage = b"this is not a feed".to_vec();
    assert!(parse_feed(&garbage).is_none());
}

#[test]
fn test_parse_feed_survives_overflowing_duration() {
    // A duration whose seconds overflow an unsigned 64-bit count makes
    // the decoder panic internally; the document must come back as a
    // failed decode, not crash the caller.
    let xml = r#"<?xml version="1.0"?>
<rss version="2.0" xmlns:itunes="http://www.itunes.com/dtds/podcast-1.0.dtd">
  <channel>
    <title>Example Feed</title>
    <item>
      <title>Episode</title>
      <itunes:duration>9999999999999999999999999</itunes:duration>
    </item>
  </channel>
</rss>"#;
    assert!(parse_feed(&xml.as_bytes().to_vec()).is_none());
}

#[test]
fn test_normalize_takes_first_link() {
    let mut e = raw_entry();
    e.links = vec!["/first".to_string(), "/second".to_string()];
    let p = normalize_entry(&e);
    assert_eq!(p.link, Some("/first".to_string()));

    let p = normalize_entry(&raw_entry());
    assert_eq!(p.link, None);
}

#[test]
fn test_normalize_description_fallback_chain() {
    let mut e = raw_entry();
    e.summary = Some("summary".to_string());
    e.content_body = Some("body".to_string());
    e.content_src = Some("src".to_string());
    assert_eq!(normalize_entry(&e).description, Some("summary".to_string()));

    let mut e = raw_entry();
    e.content_body = Some("body".to_string());
    e.content_src = Some("src".to_string());
    assert_eq!(normalize_entry(&e).description, Some("body".to_string()));

    let mut e = raw_entry();
    e.content_src = Some("src".to_string());
    assert_eq!(normalize_entry(&e).description, Some("src".to_string()));

    assert_eq!(normalize_entry(&raw_entry()).description, None);
}

#[test]
fn test_normalize_published_falls_back_to_updated() {
    let mut e = raw_entry();
    e.published = Some(111);
    e.updated = Some(222);
    assert_eq!(normalize_entry(&e).published, Some(111));

    let mut e = raw_entry();
    e.updated = Some(222);
    assert_eq!(normalize_entry(&e).published, Some(222));

    assert_eq!(normalize_entry(&raw_entry()).published, None);
}

#[test]
fn test_normalize_trims_authors_and_drops_empty_names() {
    let mut e = raw_entry();
    e.authors = vec![
        Some("  Alice  ".to_string()),
        Some("   ".to_string()),
        None,
        Some("Bob".to_string()),
    ];
    let p = normalize_entry(&e);
    assert_eq!(p.authors, vec!["Alice".to_string(), "Bob".to_string()]);
}
