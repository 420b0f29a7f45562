//! Decoding and normalization of fetched feed documents.
//!
//! The wire-format decoding itself is an external capability: the
//! decoder turns raw bytes into a raw record of plain values. The
//! normalization rules — description fallback, author trimming,
//! published-time fallback — are this module's own verified logic.

use crate::text::{clone_opt_string, opt_strs_view, strs_view};
use feed_rs::parser::parse;
use vstd::prelude::*;

verus! {

/// The decoder's raw output for one entry, before normalization.
#[derive(Debug)]
pub struct RawEntry {
    /// Title of the entry, as decoded.
    pub title: Option<String>,
    /// All links of the entry, in document order.
    pub links: Vec<String>,
    /// Short summary, when the document carries one.
    pub summary: Option<String>,
    /// Inline content body, when the document carries one.
    pub content_body: Option<String>,
    /// Reference to out-of-line content, when the document carries one.
    pub content_src: Option<String>,
    /// Author names, as decoded; a person may lack a name.
    pub authors: Vec<Option<String>>,
    /// Published time (Unix timestamp), when present.
    pub published: Option<i64>,
    /// Updated time (Unix timestamp), when present.
    pub updated: Option<i64>,
}

/// The entry type of the external decoder's feed model; opaque here.
#[verifier::external_type_specification]
#[verifier::external_body]
pub struct ExEntry(feed_rs::model::Entry);

/// A decoded feed document: its title, and its entries still in the
/// external decoder's model.
#[derive(Debug)]
pub struct RawDoc {
    /// Title of the feed, as decoded.
    pub title: Option<String>,
    /// The entries, in document order.
    pub entries: Vec<feed_rs::model::Entry>,
}

/// One normalized feed entry.
#[derive(Debug)]
pub struct ParsedFeedItem {
    /// The title of the item.
    pub title: Option<String>,
    /// The link to the full content: the entry's first link.
    pub link: Option<String>,
    /// The description: summary, else content body, else content source.
    pub description: Option<String>,
    /// Trimmed, non-empty author names.
    pub authors: Vec<String>,
    /// Published date, falling back to the updated date.
    pub published: Option<i64>,
}

/// A normalized feed record: title plus ordered items, independent of
/// the original wire format.
#[derive(Debug)]
pub struct ParsedFeed {
    /// The title of the feed.
    pub title: Option<String>,
    /// The feed items, in document order.
    pub items: Vec<ParsedFeedItem>,
}

/// What the external decoder makes of a feed document, projected to
/// plain values: `None` on a malformed, unrecognized or otherwise
/// rejected document, else the feed title's view and the raw record
/// of each entry, in order. This projection is a function of the
/// bytes alone; the entry ids the decoder may generate afresh lie
/// outside it.
pub uninterp spec fn decoded_feed(bytes: Seq<u8>) -> Option<(Option<Seq<char>>, Seq<RawEntry>)>;

/// What one decoded entry holds, as plain values: titles, links,
/// summary, content, author names and timestamps. A function of the
/// entry value alone.
pub uninterp spec fn raw_entry_of(e: feed_rs::model::Entry) -> RawEntry;

/// What trimming leading and trailing whitespace leaves of a string.
pub uninterp spec fn trimmed_of(s: Seq<char>) -> Seq<char>;

/// Normalized authors: the present names, trimmed, keeping the
/// non-empty ones, in order.
pub open spec fn norm_authors(names: Seq<Option<Seq<char>>>) -> Seq<Seq<char>>
    decreases names.len(),
{
    if names.len() == 0 {
        Seq::empty()
    } else {
        let rest = norm_authors(names.drop_first());
        match names[0] {
            Some(n) => if trimmed_of(n).len() > 0 {
                seq![trimmed_of(n)] + rest
            } else {
                rest
            },
            None => rest,
        }
    }
}

/// The normalized link: the entry's first link, when it has any.
pub open spec fn norm_link(e: RawEntry) -> Option<Seq<char>> {
    if e.links@.len() > 0 {
        Some(e.links@[0]@)
    } else {
        None
    }
}

/// The normalized description: the summary when present, else the
/// content body, else the content source reference.
pub open spec fn norm_description(e: RawEntry) -> Option<Seq<char>> {
    if e.summary is Some {
        Some(e.summary->0@)
    } else if e.content_body is Some {
        Some(e.content_body->0@)
    } else {
        crate::store::os_view(e.content_src)
    }
}

/// The normalized published time: the published time when present,
/// else the updated time.
pub open spec fn norm_published(e: RawEntry) -> Option<i64> {
    if e.published is Some {
        e.published
    } else {
        e.updated
    }
}

/// Whether `p` is the normalization of the raw entry `e`.
pub open spec fn is_normalized_item(e: RawEntry, p: ParsedFeedItem) -> bool {
    &&& crate::store::os_view(p.title) == crate::store::os_view(e.title)
    &&& crate::store::os_view(p.link) == norm_link(e)
    &&& crate::store::os_view(p.description) == norm_description(e)
    &&& p.published == norm_published(e)
    &&& strs_view(p.authors@) == norm_authors(opt_strs_view(e.authors@))
}

/// Whether `p` is the normalization of a document whose decoded title
/// is `title` and whose decoded entries are `raws`, in order.
pub open spec fn is_normalized_feed(
    title: Option<Seq<char>>,
    raws: Seq<RawEntry>,
    p: ParsedFeed,
) -> bool {
    &&& crate::store::os_view(p.title) == title
    &&& p.items@.len() == raws.len()
    &&& forall|i: int| 0 <= i < raws.len() ==> is_normalized_item(raws[i], #[trigger] p.items@[i])
}

/// Relies on `feed_rs::parser::parse`: decodes an RSS/Atom/JSON feed
/// document, failing on an unrecognized one. The decoder panics on
/// numeric duration fields that overflow an unsigned 64-bit count of
/// seconds, so the call runs on a scoped thread — relying on
/// `crossbeam_utils::thread::scope`, whose `join` reports a panic as
/// an error — and such a document counts as a failed decode. Whether
/// decoding fails, the feed title, and the per-entry projection
/// `raw_entry_of` are all functions of the document bytes alone; the
/// entry ids the decoder may generate afresh are outside the
/// projection, and nothing is claimed of them.
#[verifier::external_body]
fn decode_document(bytes: &Vec<u8>) -> (r: Option<RawDoc>)
    ensures
        match (r, decoded_feed(bytes@)) {
            (None, None) => true,
            (Some(doc), Some(d)) => {
                &&& crate::store::os_view(doc.title) == d.0
                &&& doc.entries@.map_values(|e: feed_rs::model::Entry| raw_entry_of(e)) == d.1
            },
            _ => false,
        },
{
    let f = crossbeam_utils::thread::scope(|s| s.spawn(|_| parse(&bytes[..]).ok()).join().ok().flatten())
        .ok()
        .flatten()?;
    Some(RawDoc { title: f.title.map(|t| t.content), entries: f.entries })
}

/// Relies on the `feed_rs` entry model — its title, links, summary,
/// content, authors, published and updated fields — and on chrono's
/// `DateTime::timestamp` for the integer timestamps.
#[verifier::external_body]
fn entry_to_raw(e: &feed_rs::model::Entry) -> (r: RawEntry)
    ensures
        r == raw_entry_of(*e),
{
    RawEntry {
        title: e.title.clone().map(|t| t.content),
        links: e.links.iter().map(|l| l.href.clone()).collect(),
        summary: e.summary.clone().map(|t| t.content),
        content_body: e.content.as_ref().and_then(|c| c.body.clone()),
        content_src: e.content.as_ref().and_then(|c| c.src.clone()).map(|l| l.href),
        authors: e.authors.iter().map(|p| p.name.clone()).collect(),
        published: e.published.map(|d| d.timestamp()),
        updated: e.updated.map(|d| d.timestamp()),
    }
}

/// Relies on `str::trim`: removes leading and trailing whitespace;
/// the result depends on the characters alone.
#[verifier::external_body]
fn trim_str(s: &str) -> (r: String)
    ensures
        r@ == trimmed_of(s@),
{
    s.trim().to_owned()
}

/// The normalized author list: present names, trimmed, non-empty ones
/// kept in order.
#[verifier::loop_isolation(false)]
fn normalize_authors(names: &Vec<Option<String>>) -> (r: Vec<String>)
    ensures
        strs_view(r@) == norm_authors(opt_strs_view(names@)),
{
    let ghost nv = opt_strs_view(names@);
    let mut r: Vec<String> = Vec::new();
    let mut i: usize = 0;
    proof {
        assert(nv.skip(0) =~= nv);
        assert(Seq::<Seq<char>>::empty() + norm_authors(nv) =~= norm_authors(nv));
    }
    while i < names.len()
        invariant
            i <= names@.len(),
            nv.len() == names@.len(),
            strs_view(r@) + norm_authors(nv.skip(i as int)) == norm_authors(nv),
        decreases names@.len() - i,
    {
        proof {
            assert(nv.skip(i as int)[0] == nv[i as int]);
            assert(nv.skip(i as int).drop_first() =~= nv.skip(i as int + 1));
        }
        match &names[i] {
            Some(n) => {
                let t = trim_str(n.as_str());
                if !t.as_str().is_empty() {
                    let ghost prev = r@;
                    r.push(t);
                    proof {
                        assert(strs_view(r@) =~= strs_view(prev) + seq![trimmed_of(nv[i as int]->0)]);
                        assert((strs_view(prev) + seq![trimmed_of(nv[i as int]->0)]) + norm_authors(
                            nv.skip(i as int + 1),
                        ) =~= strs_view(prev) + (seq![trimmed_of(nv[i as int]->0)] + norm_authors(
                            nv.skip(i as int + 1),
                        )));
                    }
                }
            },
            None => {},
        }
        i += 1;
    }
    proof {
        assert(nv.skip(nv.len() as int) =~= Seq::<Option<Seq<char>>>::empty());
        assert(strs_view(r@) + Seq::<Seq<char>>::empty() =~= strs_view(r@));
    }
    r
}

/// Normalize one raw entry: first link, description fallback chain,
/// trimmed non-empty authors, published time falling back to updated.
pub fn normalize_entry(e: &RawEntry) -> (p: ParsedFeedItem)
    ensures
        is_normalized_item(*e, p),
{
    let link = if e.links.len() > 0 {
        Some(e.links[0].clone())
    } else {
        None
    };
    let description = match &e.summary {
        Some(s) => Some(s.clone()),
        None => match &e.content_body {
            Some(b) => Some(b.clone()),
            None => clone_opt_string(&e.content_src),
        },
    };
    let published = match e.published {
        Some(t) => Some(t),
        None => e.updated,
    };
    ParsedFeedItem {
        title: clone_opt_string(&e.title),
        link,
        description,
        authors: normalize_authors(&e.authors),
        published,
    }
}

/// Decode a fetched feed document and normalize it. Returns `None`
/// exactly when the decoder rejects the document; the fetcher surfaces
/// that as a fetch failure carrying the URL and cause.
#[verifier::loop_isolation(false)]
pub fn parse_feed(bytes: &Vec<u8>) -> (r: Option<ParsedFeed>)
    ensures
        match decoded_feed(bytes@) {
            None => r is None,
            Some(d) => r is Some && is_normalized_feed(d.0, d.1, r->0),
        },
{
    let doc = match decode_document(bytes) {
        None => {
            return None;
        },
        Some(d) => d,
    };
    let ghost d = decoded_feed(bytes@)->0;
    proof {
        assert(d.1.len() == doc.entries@.len());
    }
    let mut items: Vec<ParsedFeedItem> = Vec::new();
    let mut i: usize = 0;
    while i < doc.entries.len()
        invariant
            i <= doc.entries@.len(),
            items@.len() == i,
            forall|k: int| 0 <= k < i ==> is_normalized_item(d.1[k], #[trigger] items@[k]),
        decreases doc.entries@.len() - i,
    {
        let raw = entry_to_raw(&doc.entries[i]);
        proof {
            assert(raw == d.1[i as int]);
        }
        items.push(normalize_entry(&raw));
        i += 1;
    }
    Some(ParsedFeed { title: clone_opt_string(&doc.title), items })
}

} // verus!
