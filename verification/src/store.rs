//! The feed store: durable records of feeds and their items.
//!
//! The store enforces the data-model invariants: feed URLs are unique,
//! surrogate ids are never reused, no two items of one feed share a
//! link, and removing a feed removes all of its items (cascade delete).

use crate::text::{clone_opt_string, str_eq};
use vstd::prelude::*;

verus! {

/// A registered remote source, identified by its URL.
#[derive(Debug, Clone, PartialEq, Eq)]
pub struct Feed {
    /// Surrogate key, assigned by the store on creation; never reused.
    pub id: usize,
    /// The URL of the source; unique among all feeds, immutable after creation.
    pub url: String,
    /// Optional title, set at creation from fetched metadata.
    pub title: Option<String>,
    /// Creation time (Unix timestamp).
    pub created_at: i64,
}

/// One normalized entry ingested from a feed.
#[derive(Debug, Clone, PartialEq, Eq)]
pub struct FeedItem {
    /// Surrogate key, assigned by the store on insertion; never reused.
    pub id: usize,
    /// The owning feed; an item cannot outlive its feed.
    pub feed_id: usize,
    /// Title of the entry.
    pub title: Option<String>,
    /// Link to the full content; part of the dedup key (feed_id, link).
    pub link: Option<String>,
    /// Description or summary of the entry.
    pub description: Option<String>,
    /// Author names, joined into one display string.
    pub author: Option<String>,
    /// Published date (Unix timestamp).
    pub published: Option<i64>,
    /// Whether the user has read the item; flipped only by explicit action.
    pub is_read: bool,
    /// Ingestion time (Unix timestamp), distinct from `published`.
    pub created_at: i64,
}

/// Errors of the feed store.
#[derive(Debug, Clone, Copy, PartialEq, Eq, Structural)]
pub enum StoreError {
    /// An insert would duplicate a feed URL.
    Conflict,
    /// The operation referenced a feed that does not exist.
    NotFound,
}

impl StoreError {
    /// A short human-readable description of the error.
    pub fn message(&self) -> (m: &'static str)
        ensures
            *self is Conflict ==> m@ == "a feed with this URL already exists"@,
            *self is NotFound ==> m@ == "no such feed"@,
    {
        match self {
            StoreError::Conflict => "a feed with this URL already exists",
            StoreError::NotFound => "no such feed",
        }
    }
}

/// The view of an optional owned string as an optional character sequence.
pub open spec fn os_view(o: Option<String>) -> Option<Seq<char>> {
    match o {
        Some(s) => Some(s@),
        None => None,
    }
}

/// The view of an optional borrowed string as an optional character sequence.
pub open spec fn or_view(o: Option<&str>) -> Option<Seq<char>> {
    match o {
        Some(s) => Some(s@),
        None => None,
    }
}

/// Whether some feed in `feeds` has the URL `url`.
pub open spec fn has_feed_url(feeds: Seq<Feed>, url: Seq<char>) -> bool {
    exists|i: int| 0 <= i < feeds.len() && (#[trigger] feeds[i]).url@ == url
}

/// The index of the feed with URL `url`, where one exists.
pub open spec fn feed_url_index(feeds: Seq<Feed>, url: Seq<char>) -> int {
    choose|i: int| 0 <= i < feeds.len() && (#[trigger] feeds[i]).url@ == url
}

/// Whether some feed in `feeds` has the id `id`.
pub open spec fn has_feed_id(feeds: Seq<Feed>, id: usize) -> bool {
    exists|i: int| 0 <= i < feeds.len() && (#[trigger] feeds[i]).id == id
}

/// Whether some item of feed `fid` in `items` has the link `link`.
/// An absent link collides only with another absent link.
pub open spec fn has_item_link(items: Seq<FeedItem>, fid: usize, link: Option<Seq<char>>) -> bool {
    exists|j: int|
        0 <= j < items.len() && (#[trigger] items[j]).feed_id == fid && os_view(items[j].link)
            == link
}

/// The items of `items` that do not belong to feed `fid`, in order.
pub open spec fn items_without_feed(items: Seq<FeedItem>, fid: usize) -> Seq<FeedItem>
    decreases items.len(),
{
    if items.len() == 0 {
        Seq::empty()
    } else {
        let rest = items_without_feed(items.drop_first(), fid);
        if items[0].feed_id == fid {
            rest
        } else {
            seq![items[0]] + rest
        }
    }
}

/// The items of `items` that belong to feed `fid`, in order.
pub open spec fn items_of_feed(items: Seq<FeedItem>, fid: usize) -> Seq<FeedItem>
    decreases items.len(),
{
    if items.len() == 0 {
        Seq::empty()
    } else {
        let rest = items_of_feed(items.drop_first(), fid);
        if items[0].feed_id == fid {
            seq![items[0]] + rest
        } else {
            rest
        }
    }
}

/// Listing order: published descending; items lacking a published
/// time sort last; ties are not distinguished.
pub open spec fn listed_no_later(a: FeedItem, b: FeedItem) -> bool {
    match (a.published, b.published) {
        (Some(x), Some(y)) => x >= y,
        (Some(_), None) => true,
        (None, Some(_)) => false,
        (None, None) => true,
    }
}

/// Whether `s` is sorted by published time, descending, absent times last.
pub open spec fn sorted_for_listing(s: Seq<FeedItem>) -> bool {
    forall|i: int, j: int|
        0 <= i < j < s.len() ==> listed_no_later(#[trigger] s[i], #[trigger] s[j])
}

/// `it` with its read mark set.
pub open spec fn marked_read(it: FeedItem) -> FeedItem {
    FeedItem { is_read: true, ..it }
}

/// The feed store: feeds and items with uniqueness, cascade-delete and
/// id-freshness invariants.
#[derive(Debug)]
pub struct Db {
    feeds: Vec<Feed>,
    items: Vec<FeedItem>,
    next_feed_id: usize,
    next_item_id: usize,
}

impl Db {
    /// The stored feeds, in insertion order.
    pub closed spec fn feeds(&self) -> Seq<Feed> {
        self.feeds@
    }

    /// The stored items, in insertion order.
    pub closed spec fn items(&self) -> Seq<FeedItem> {
        self.items@
    }

    /// All feed ids ever assigned are below this watermark.
    pub closed spec fn feed_watermark(&self) -> int {
        self.next_feed_id as int
    }

    /// All item ids ever assigned are below this watermark.
    pub closed spec fn item_watermark(&self) -> int {
        self.next_item_id as int
    }

    /// Well-formedness: unique feed ids and URLs, unique item ids,
    /// unique (feed_id, link) pairs, no orphaned items, fresh watermarks.
    pub open spec fn wf(&self) -> bool {
        &&& forall|i: int, j: int|
            0 <= i < j < self.feeds().len() ==> (#[trigger] self.feeds()[i]).id != (
            #[trigger] self.feeds()[j]).id
        &&& forall|i: int, j: int|
            0 <= i < j < self.feeds().len() ==> (#[trigger] self.feeds()[i]).url@ != (
            #[trigger] self.feeds()[j]).url@
        &&& forall|i: int, j: int|
            0 <= i < j < self.items().len() ==> (#[trigger] self.items()[i]).id != (
            #[trigger] self.items()[j]).id
        &&& forall|i: int, j: int|
            0 <= i < j < self.items().len() ==> !((#[trigger] self.items()[i]).feed_id == (
            #[trigger] self.items()[j]).feed_id && os_view(self.items()[i].link) == os_view(
                self.items()[j].link,
            ))
        &&& forall|j: int|
            0 <= j < self.items().len() ==> has_feed_id(
                self.feeds(),
                (#[trigger] self.items()[j]).feed_id,
            )
        &&& forall|i: int|
            0 <= i < self.feeds().len() ==> (#[trigger] self.feeds()[i]).id
                < self.feed_watermark()
        &&& forall|j: int|
            0 <= j < self.items().len() ==> (#[trigger] self.items()[j]).id
                < self.item_watermark()
        &&& 1 <= self.feed_watermark() <= usize::MAX as int
        &&& 1 <= self.item_watermark() <= usize::MAX as int
    }

    /// Create an empty store.
    pub fn new() -> (db: Db)
        ensures
            db.wf(),
            db.feeds() == Seq::<Feed>::empty(),
            db.items() == Seq::<FeedItem>::empty(),
            db.feed_watermark() == 1,
            db.item_watermark() == 1,
    {
        Db { feeds: Vec::new(), items: Vec::new(), next_feed_id: 1, next_item_id: 1 }
    }

    /// The current item-id watermark, for callers that must bound
    /// how many more items can be assigned fresh ids.
    pub fn item_id_watermark(&self) -> (n: usize)
        ensures
            n as int == self.item_watermark(),
    {
        self.next_item_id
    }

    /// The index of the feed with the given URL, if present.
    fn find_feed_by_url(&self, url: &str) -> (r: Option<usize>)
        ensures
            match r {
                Some(i) => i < self.feeds().len() && self.feeds()[i as int].url@ == url@,
                None => !has_feed_url(self.feeds(), url@),
            },
    {
        let mut i: usize = 0;
        while i < self.feeds.len()
            invariant
                i <= self.feeds().len(),
                forall|k: int| 0 <= k < i ==> (#[trigger] self.feeds()[k]).url@ != url@,
            decreases self.feeds().len() - i,
        {
            if str_eq(self.feeds[i].url.as_str(), url) {
                return Some(i);
            }
            i += 1;
        }
        None
    }

    /// The index of the feed with the given id, if present.
    fn find_feed_by_id(&self, id: usize) -> (r: Option<usize>)
        ensures
            match r {
                Some(i) => i < self.feeds().len() && self.feeds()[i as int].id == id,
                None => !has_feed_id(self.feeds(), id),
            },
    {
        let mut i: usize = 0;
        while i < self.feeds.len()
            invariant
                i <= self.feeds().len(),
                forall|k: int| 0 <= k < i ==> (#[trigger] self.feeds()[k]).id != id,
            decreases self.feeds().len() - i,
        {
            if self.feeds[i].id == id {
                return Some(i);
            }
            i += 1;
        }
        None
    }

    /// Whether feed `fid` already stores an item with this link.
    fn has_item_with_link(&self, fid: usize, link: Option<&str>) -> (r: bool)
        ensures
            r == has_item_link(self.items(), fid, or_view(link)),
    {
        let mut j: usize = 0;
        while j < self.items.len()
            invariant
                j <= self.items().len(),
                forall|k: int|
                    0 <= k < j ==> !((#[trigger] self.items()[k]).feed_id == fid && os_view(
                        self.items()[k].link,
                    ) == or_view(link)),
            decreases self.items().len() - j,
        {
            if self.items[j].feed_id == fid {
                let same = match (&self.items[j].link, link) {
                    (Some(a), Some(b)) => str_eq(a.as_str(), b),
                    (None, None) => true,
                    _ => false,
                };
                if same {
                    return true;
                }
            }
            j += 1;
        }
        false
    }

    /// Register a feed with an explicit creation time. Fails with
    /// `Conflict` when the URL is already present, leaving the store
    /// unchanged.
    pub fn add_feed_at(&mut self, url: &str, title: Option<&str>, now: i64) -> (r: Result<
        (),
        StoreError,
    >)
        requires
            old(self).wf(),
            old(self).feed_watermark() < usize::MAX as int,
        ensures
            final(self).wf(),
            has_feed_url(old(self).feeds(), url@) ==> r == Err::<(), StoreError>(
                StoreError::Conflict,
            ) && *final(self) == *old(self),
            !has_feed_url(old(self).feeds(), url@) ==> ({
                &&& r == Ok::<(), StoreError>(())
                &&& final(self).feeds().len() == old(self).feeds().len() + 1
                &&& final(self).feeds().take(old(self).feeds().len() as int) == old(self).feeds()
                &&& final(self).feeds().last().id as int == old(self).feed_watermark()
                &&& final(self).feeds().last().url@ == url@
                &&& os_view(final(self).feeds().last().title) == or_view(title)
                &&& final(self).feeds().last().created_at == now
                &&& final(self).items() == old(self).items()
                &&& final(self).feed_watermark() == old(self).feed_watermark() + 1
                &&& final(self).item_watermark() == old(self).item_watermark()
            }),
    {
        if self.find_feed_by_url(url).is_some() {
            return Err(StoreError::Conflict);
        }
        let id = self.next_feed_id;
        let title_owned = match title {
            Some(t) => Some(t.to_owned()),
            None => None,
        };
        let feed = Feed { id, url: url.to_owned(), title: title_owned, created_at: now };
        self.feeds.push(feed);
        self.next_feed_id = id + 1;
        proof {
            assert(final(self).feeds().take(old(self).feeds().len() as int) =~= old(
                self,
            ).feeds());
            assert forall|j: int| 0 <= j < final(self).items().len() implies has_feed_id(
                final(self).feeds(),
                (#[trigger] final(self).items()[j]).feed_id,
            ) by {
                let k = choose|k: int|
                    0 <= k < old(self).feeds().len() && (#[trigger] old(self).feeds()[k]).id == old(
                        self,
                    ).items()[j].feed_id;
                assert(final(self).feeds()[k].id == old(self).items()[j].feed_id);
            }
        }
        Ok(())
    }

    /// Register a feed, stamping the current time as its creation time.
    pub fn add_feed(&mut self, url: &str, title: Option<&str>) -> (r: Result<(), StoreError>)
        requires
            old(self).wf(),
            old(self).feed_watermark() < usize::MAX as int,
        ensures
            final(self).wf(),
            has_feed_url(old(self).feeds(), url@) ==> r == Err::<(), StoreError>(
                StoreError::Conflict,
            ) && *final(self) == *old(self),
            !has_feed_url(old(self).feeds(), url@) ==> ({
                &&& r == Ok::<(), StoreError>(())
                &&& final(self).feeds().len() == old(self).feeds().len() + 1
                &&& final(self).feeds().take(old(self).feeds().len() as int) == old(self).feeds()
                &&& final(self).feeds().last().id as int == old(self).feed_watermark()
                &&& final(self).feeds().last().url@ == url@
                &&& os_view(final(self).feeds().last().title) == or_view(title)
                &&& final(self).items() == old(self).items()
                &&& final(self).feed_watermark() == old(self).feed_watermark() + 1
                &&& final(self).item_watermark() == old(self).item_watermark()
            }),
    {
        let now = now_unix();
        self.add_feed_at(url, title, now)
    }
}

/// Relies on `time::OffsetDateTime::now_utc` and `unix_timestamp`:
/// the current wall-clock time as seconds since the Unix epoch.
/// Nothing is promised of the value; callers take it as given.
#[verifier::external_body]
fn now_unix() -> i64 {
    time::OffsetDateTime::now_utc().unix_timestamp()
}

/// Whether `a` sorts no later than `b` in the listing order.
fn listed_le(a: &FeedItem, b: &FeedItem) -> (r: bool)
    ensures
        r == listed_no_later(*a, *b),
{
    match (a.published, b.published) {
        (Some(x), Some(y)) => x >= y,
        (Some(_), None) => true,
        (None, Some(_)) => false,
        (None, None) => true,
    }
}

/// The position where `it` belongs in the listing-sorted `v`: everything
/// before it sorts no later than `it`, and `it` sorts no later than
/// everything from the position on.
fn find_listing_pos(v: &Vec<FeedItem>, it: &FeedItem) -> (pos: usize)
    requires
        sorted_for_listing(v@),
    ensures
        pos <= v@.len(),
        forall|k: int| 0 <= k < pos ==> listed_no_later(#[trigger] v@[k], *it),
        forall|k: int| pos <= k < v@.len() ==> listed_no_later(*it, #[trigger] v@[k]),
{
    let mut pos: usize = 0;
    while pos < v.len()
        invariant
            pos <= v@.len(),
            sorted_for_listing(v@),
            forall|k: int| 0 <= k < pos ==> listed_no_later(#[trigger] v@[k], *it),
        decreases v@.len() - pos,
    {
        if !listed_le(&v[pos], it) {
            proof {
                assert forall|k: int| pos <= k < v@.len() implies listed_no_later(
                    *it,
                    #[trigger] v@[k],
                ) by {
                    assert(listed_no_later(*it, v@[pos as int]));
                    if k > pos {
                        assert(listed_no_later(v@[pos as int], v@[k]));
                    }
                }
            }
            return pos;
        }
        pos += 1;
    }
    pos
}

/// Inserting a value anywhere in a sequence adds it to the multiset of
/// the sequence's elements.
proof fn lemma_insert_to_multiset(s: Seq<FeedItem>, pos: int, x: FeedItem)
    requires
        0 <= pos <= s.len(),
    ensures
        s.insert(pos, x).to_multiset() =~= s.to_multiset().insert(x),
{
    broadcast use vstd::seq_lib::group_to_multiset_ensures;
    broadcast use vstd::multiset::group_multiset_axioms;

    let t = s.insert(pos, x);
    assert(t[pos] == x);
    assert(t.remove(pos) =~= s);
    assert(t.to_multiset().remove(x) =~= s.to_multiset());
    assert(t.contains(x));
    assert(t.to_multiset().count(x) > 0);
    assert forall|e: FeedItem| t.to_multiset().count(e) == s.to_multiset().insert(x).count(
        e,
    ) by {
        if e == x {
            assert(s.to_multiset().count(x) == t.to_multiset().count(x) - 1);
        } else {
            assert(s.to_multiset().count(e) == t.to_multiset().count(e));
        }
    }
}

/// An owned copy of an optional borrowed string, with the same view.
fn to_owned_opt(o: Option<&str>) -> (r: Option<String>)
    ensures
        os_view(r) == or_view(o),
{
    match o {
        Some(s) => Some(s.to_owned()),
        None => None,
    }
}

/// A copy of a feed record, equal to the original.
fn clone_feed(f: &Feed) -> (r: Feed)
    ensures
        r == *f,
{
    Feed { id: f.id, url: f.url.clone(), title: clone_opt_string(&f.title), created_at: f.created_at }
}

/// A copy of an item record, equal to the original.
fn clone_feed_item(it: &FeedItem) -> (r: FeedItem)
    ensures
        r == *it,
{
    FeedItem {
        id: it.id,
        feed_id: it.feed_id,
        title: clone_opt_string(&it.title),
        link: clone_opt_string(&it.link),
        description: clone_opt_string(&it.description),
        author: clone_opt_string(&it.author),
        published: it.published,
        is_read: it.is_read,
        created_at: it.created_at,
    }
}

impl Db {
    /// Remove the feed with the given URL together with all of its
    /// items (cascade delete). Returns whether a feed was removed;
    /// removing an unknown URL is a no-op, not an error.
    #[verifier::loop_isolation(false)]
    pub fn remove_feed(&mut self, url: &str) -> (r: bool)
        requires
            old(self).wf(),
        ensures
            final(self).wf(),
            r == has_feed_url(old(self).feeds(), url@),
            !r ==> *final(self) == *old(self),
            r ==> ({
                let idx = feed_url_index(old(self).feeds(), url@);
                let fid = old(self).feeds()[idx].id;
                &&& final(self).feeds() == old(self).feeds().remove(idx)
                &&& final(self).items() == items_without_feed(old(self).items(), fid)
                &&& forall|k: int|
                    0 <= k < final(self).items().len() ==> (#[trigger] final(self).items()[k]).feed_id
                        != fid
                &&& final(self).feed_watermark() == old(self).feed_watermark()
                &&& final(self).item_watermark() == old(self).item_watermark()
            }),
    {
        let idx = match self.find_feed_by_url(url) {
            None => {
                return false;
            },
            Some(i) => i,
        };
        proof {
            let c = feed_url_index(old(self).feeds(), url@);
            assert(0 <= c < old(self).feeds().len() && old(self).feeds()[c].url@ == url@);
            assert(c == idx as int);
        }
        let fid = self.feeds[idx].id;
        self.feeds.remove(idx);
        let ghost all_items = self.items@;
        let mut kept: Vec<FeedItem> = Vec::new();
        let mut j: usize = 0;
        proof {
            assert(all_items.skip(0) =~= all_items);
            assert(Seq::<FeedItem>::empty() + items_without_feed(all_items, fid)
                =~= items_without_feed(all_items, fid));
        }
        while j < self.items.len()
            invariant
                j <= all_items.len(),
                self.items@ == all_items,
                kept@ + items_without_feed(all_items.skip(j as int), fid) == items_without_feed(
                    all_items,
                    fid,
                ),
                forall|k: int|
                    0 <= k < kept@.len() ==> exists|m: int|
                        0 <= m < j && #[trigger] kept@[k] == all_items[m],
                forall|k: int| 0 <= k < kept@.len() ==> (#[trigger] kept@[k]).feed_id != fid,
                forall|k1: int, k2: int|
                    0 <= k1 < k2 < kept@.len() ==> (#[trigger] kept@[k1]).id != (
                    #[trigger] kept@[k2]).id,
                forall|k1: int, k2: int|
                    0 <= k1 < k2 < kept@.len() ==> !((#[trigger] kept@[k1]).feed_id == (
                    #[trigger] kept@[k2]).feed_id && os_view(kept@[k1].link) == os_view(
                        kept@[k2].link,
                    )),
            decreases all_items.len() - j,
        {
            proof {
                assert(all_items.skip(j as int).len() > 0);
                assert(all_items.skip(j as int)[0] == all_items[j as int]);
                assert(all_items.skip(j as int).drop_first() =~= all_items.skip(j as int + 1));
            }
            if self.items[j].feed_id != fid {
                let it = clone_feed_item(&self.items[j]);
                let ghost prev = kept@;
                kept.push(it);
                proof {
                    assert(kept@ =~= prev + seq![all_items[j as int]]);
                    assert((prev + seq![all_items[j as int]]) + items_without_feed(
                        all_items.skip(j as int + 1),
                        fid,
                    ) =~= prev + (seq![all_items[j as int]] + items_without_feed(
                        all_items.skip(j as int + 1),
                        fid,
                    )));
                    assert forall|k: int| 0 <= k < kept@.len() implies exists|m: int|
                        0 <= m < j + 1 && #[trigger] kept@[k] == all_items[m] by {
                        if k < prev.len() {
                            let m = choose|m: int| 0 <= m < j && prev[k] == all_items[m];
                            assert(kept@[k] == all_items[m]);
                        } else {
                            assert(kept@[k] == all_items[j as int]);
                        }
                    }
                    assert forall|k1: int, k2: int|
                        0 <= k1 < k2 < kept@.len() implies (#[trigger] kept@[k1]).id != (
                    #[trigger] kept@[k2]).id && !(kept@[k1].feed_id == kept@[k2].feed_id && os_view(
                        kept@[k1].link,
                    ) == os_view(kept@[k2].link)) by {
                        if k2 == prev.len() {
                            let m = choose|m: int| 0 <= m < j && prev[k1] == all_items[m];
                            assert(kept@[k1] == all_items[m]);
                            assert(kept@[k2] == all_items[j as int]);
                        }
                    }
                }
            }
            j += 1;
        }
        proof {
            assert(all_items.skip(all_items.len() as int) =~= Seq::<FeedItem>::empty());
            assert(kept@ + Seq::<FeedItem>::empty() =~= kept@);
        }
        self.items = kept;
        proof {
            self.lemma_wf_after_remove(*old(self), idx as int, fid, all_items);
        }
        true
    }

    /// Insert an item for feed `feed_id` with an explicit ingestion time,
    /// unless the feed already stores an item with this link. The dedup
    /// check and the insert are one atomic operation on the store.
    /// Returns `Ok(true)` iff a new row was inserted; `Ok(false)` when
    /// the (feed_id, link) pair is already present, leaving the store
    /// unchanged; `Err(NotFound)` when no feed has this id.
    pub fn add_feed_item_at(
        &mut self,
        feed_id: usize,
        title: Option<&str>,
        link: Option<&str>,
        description: Option<&str>,
        author: Option<&str>,
        published: Option<i64>,
        now: i64,
    ) -> (r: Result<bool, StoreError>)
        requires
            old(self).wf(),
            old(self).item_watermark() < usize::MAX as int,
        ensures
            final(self).wf(),
            !has_feed_id(old(self).feeds(), feed_id) ==> r == Err::<bool, StoreError>(
                StoreError::NotFound,
            ) && *final(self) == *old(self),
            has_feed_id(old(self).feeds(), feed_id) && has_item_link(
                old(self).items(),
                feed_id,
                or_view(link),
            ) ==> r == Ok::<bool, StoreError>(false) && *final(self) == *old(self),
            has_feed_id(old(self).feeds(), feed_id) && !has_item_link(
                old(self).items(),
                feed_id,
                or_view(link),
            ) ==> ({
                &&& r == Ok::<bool, StoreError>(true)
                &&& final(self).items().len() == old(self).items().len() + 1
                &&& final(self).items().take(old(self).items().len() as int) == old(self).items()
                &&& final(self).items().last().id as int == old(self).item_watermark()
                &&& final(self).items().last().feed_id == feed_id
                &&& os_view(final(self).items().last().title) == or_view(title)
                &&& os_view(final(self).items().last().link) == or_view(link)
                &&& os_view(final(self).items().last().description) == or_view(description)
                &&& os_view(final(self).items().last().author) == or_view(author)
                &&& final(self).items().last().published == published
                &&& final(self).items().last().is_read == false
                &&& final(self).items().last().created_at == now
                &&& final(self).feeds() == old(self).feeds()
                &&& final(self).feed_watermark() == old(self).feed_watermark()
                &&& final(self).item_watermark() == old(self).item_watermark() + 1
            }),
    {
        if self.find_feed_by_id(feed_id).is_none() {
            return Err(StoreError::NotFound);
        }
        if self.has_item_with_link(feed_id, link) {
            return Ok(false);
        }
        let id = self.next_item_id;
        let item = FeedItem {
            id,
            feed_id,
            title: to_owned_opt(title),
            link: to_owned_opt(link),
            description: to_owned_opt(description),
            author: to_owned_opt(author),
            published,
            is_read: false,
            created_at: now,
        };
        self.items.push(item);
        self.next_item_id = id + 1;
        proof {
            assert(final(self).items().take(old(self).items().len() as int) =~= old(self).items());
            assert forall|j: int| 0 <= j < final(self).items().len() implies has_feed_id(
                final(self).feeds(),
                (#[trigger] final(self).items()[j]).feed_id,
            ) by {
                if j < old(self).items().len() {
                    assert(has_feed_id(old(self).feeds(), old(self).items()[j].feed_id));
                }
            }
        }
        Ok(true)
    }

    /// Insert an item for feed `feed_id`, stamping the current time as
    /// its ingestion time.
    pub fn add_feed_item(
        &mut self,
        feed_id: usize,
        title: Option<&str>,
        link: Option<&str>,
        description: Option<&str>,
        author: Option<&str>,
        published: Option<i64>,
    ) -> (r: Result<bool, StoreError>)
        requires
            old(self).wf(),
            old(self).item_watermark() < usize::MAX as int,
        ensures
            final(self).wf(),
            !has_feed_id(old(self).feeds(), feed_id) ==> r == Err::<bool, StoreError>(
                StoreError::NotFound,
            ) && *final(self) == *old(self),
            has_feed_id(old(self).feeds(), feed_id) && has_item_link(
                old(self).items(),
                feed_id,
                or_view(link),
            ) ==> r == Ok::<bool, StoreError>(false) && *final(self) == *old(self),
            has_feed_id(old(self).feeds(), feed_id) && !has_item_link(
                old(self).items(),
                feed_id,
                or_view(link),
            ) ==> ({
                &&& r == Ok::<bool, StoreError>(true)
                &&& final(self).items().len() == old(self).items().len() + 1
                &&& final(self).items().take(old(self).items().len() as int) == old(self).items()
                &&& final(self).items().last().id as int == old(self).item_watermark()
                &&& final(self).items().last().feed_id == feed_id
                &&& os_view(final(self).items().last().title) == or_view(title)
                &&& os_view(final(self).items().last().link) == or_view(link)
                &&& os_view(final(self).items().last().description) == or_view(description)
                &&& os_view(final(self).items().last().author) == or_view(author)
                &&& final(self).items().last().published == published
                &&& final(self).items().last().is_read == false
                &&& final(self).feeds() == old(self).feeds()
                &&& final(self).feed_watermark() == old(self).feed_watermark()
                &&& final(self).item_watermark() == old(self).item_watermark() + 1
            }),
    {
        let now = now_unix();
        self.add_feed_item_at(feed_id, title, link, description, author, published, now)
    }

    /// All stored feeds, in insertion order.
    pub fn list_feeds(&self) -> (r: Vec<Feed>)
        ensures
            r@ == self.feeds(),
    {
        let mut r: Vec<Feed> = Vec::new();
        let mut i: usize = 0;
        while i < self.feeds.len()
            invariant
                i <= self.feeds().len(),
                r@ == self.feeds().take(i as int),
            decreases self.feeds().len() - i,
        {
            r.push(clone_feed(&self.feeds[i]));
            proof {
                assert(r@ =~= self.feeds().take(i as int + 1));
            }
            i += 1;
        }
        proof {
            assert(r@ =~= self.feeds());
        }
        r
    }

    /// All items of feed `feed_id`, ordered by published time descending;
    /// items lacking a published time come last. The result is exactly
    /// the feed's stored items, reordered.
    #[verifier::loop_isolation(false)]
    pub fn get_feed_items(&self, feed_id: usize) -> (r: Vec<FeedItem>)
        ensures
            r@.to_multiset() == items_of_feed(self.items(), feed_id).to_multiset(),
            r@.len() == items_of_feed(self.items(), feed_id).len(),
            sorted_for_listing(r@),
            forall|k: int| 0 <= k < r@.len() ==> (#[trigger] r@[k]).feed_id == feed_id,
    {
        broadcast use vstd::seq_lib::group_to_multiset_ensures;
        broadcast use vstd::multiset::group_multiset_axioms;

        let ghost all_items = self.items@;
        let ghost wanted = items_of_feed(all_items, feed_id);
        let mut r: Vec<FeedItem> = Vec::new();
        let mut j: usize = 0;
        proof {
            assert(all_items.skip(0) =~= all_items);
        }
        while j < self.items.len()
            invariant
                j <= all_items.len(),
                self.items@ == all_items,
                r@.to_multiset().add(items_of_feed(all_items.skip(j as int), feed_id).to_multiset())
                    =~= wanted.to_multiset(),
                r@.len() + items_of_feed(all_items.skip(j as int), feed_id).len() == wanted.len(),
                sorted_for_listing(r@),
                forall|k: int| 0 <= k < r@.len() ==> (#[trigger] r@[k]).feed_id == feed_id,
            decreases all_items.len() - j,
        {
            proof {
                assert(all_items.skip(j as int)[0] == all_items[j as int]);
                assert(all_items.skip(j as int).drop_first() =~= all_items.skip(j as int + 1));
            }
            let ghost before = items_of_feed(all_items.skip(j as int), feed_id);
            let ghost after = items_of_feed(all_items.skip(j as int + 1), feed_id);
            if self.items[j].feed_id == feed_id {
                let it = clone_feed_item(&self.items[j]);
                proof {
                    assert(before == seq![all_items[j as int]] + after);
                    assert(before.drop_first() =~= after);
                    assert(before.to_multiset() =~= after.to_multiset().insert(
                        all_items[j as int],
                    )) by {
                        assert(before =~= after.insert(0, all_items[j as int]));
                        lemma_insert_to_multiset(after, 0, all_items[j as int]);
                    }
                }
                let pos = find_listing_pos(&r, &it);
                let ghost prev = r@;
                r.insert(pos, it);
                proof {
                    lemma_insert_to_multiset(prev, pos as int, it);
                    assert forall|i1: int, i2: int|
                        0 <= i1 < i2 < r@.len() implies listed_no_later(
                        #[trigger] r@[i1],
                        #[trigger] r@[i2],
                    ) by {
                        assert(r@ == prev.insert(pos as int, it));
                        if i1 < pos && i2 > pos {
                            assert(r@[i1] == prev[i1]);
                            assert(r@[i2] == prev[i2 - 1]);
                        } else if i1 == pos && i2 > pos {
                            assert(r@[i2] == prev[i2 - 1]);
                        } else if i2 == pos && i1 < pos {
                            assert(r@[i1] == prev[i1]);
                        }
                    }
                }
            }
            j += 1;
        }
        proof {
            assert(all_items.skip(all_items.len() as int) =~= Seq::<FeedItem>::empty());
            assert(r@.to_multiset() =~= wanted.to_multiset());
        }
        r
    }

    /// Mark the item with the given id as read. Idempotent: marking a
    /// read item again, or an unknown id, changes nothing else.
    #[verifier::loop_isolation(false)]
    pub fn mark_item_read(&mut self, item_id: usize) -> (r: Result<(), StoreError>)
        requires
            old(self).wf(),
        ensures
            final(self).wf(),
            r == Ok::<(), StoreError>(()),
            final(self).feeds() == old(self).feeds(),
            final(self).feed_watermark() == old(self).feed_watermark(),
            final(self).item_watermark() == old(self).item_watermark(),
            final(self).items().len() == old(self).items().len(),
            forall|j: int|
                0 <= j < old(self).items().len() ==> final(self).items()[j] == (if (
                #[trigger] old(self).items()[j]).id == item_id {
                    marked_read(old(self).items()[j])
                } else {
                    old(self).items()[j]
                }),
    {
        let mut j: usize = 0;
        while j < self.items.len()
            invariant
                j <= old(self).items().len(),
                self.items@.len() == old(self).items().len(),
                self.feeds@ == old(self).feeds(),
                self.next_feed_id == old(self).next_feed_id,
                self.next_item_id == old(self).next_item_id,
                forall|k: int|
                    0 <= k < j ==> self.items@[k] == (if (#[trigger] old(self).items()[k]).id
                        == item_id {
                        marked_read(old(self).items()[k])
                    } else {
                        old(self).items()[k]
                    }),
                forall|k: int|
                    j <= k < self.items@.len() ==> #[trigger] self.items@[k] == old(
                        self,
                    ).items()[k],
            decreases self.items@.len() - j,
        {
            if self.items[j].id == item_id {
                self.items[j].is_read = true;
            }
            j += 1;
        }
        proof {
            assert forall|i: int, j: int|
                0 <= i < j < self.items().len() implies (#[trigger] self.items()[i]).id != (
            #[trigger] self.items()[j]).id && !(self.items()[i].feed_id == self.items()[j].feed_id
                && os_view(self.items()[i].link) == os_view(self.items()[j].link)) by {
                assert(old(self).items()[i].id != old(self).items()[j].id);
            }
            assert forall|j: int| 0 <= j < self.items().len() implies has_feed_id(
                self.feeds(),
                (#[trigger] self.items()[j]).feed_id,
            ) && self.items()[j].id < self.item_watermark() by {
                assert(self.items()[j].feed_id == old(self).items()[j].feed_id);
                assert(self.items()[j].id == old(self).items()[j].id);
            }
        }
        Ok(())
    }

    /// The removed-feed state is well-formed: helper proof for `remove_feed`.
    proof fn lemma_wf_after_remove(&self, prev: Db, idx: int, fid: usize, all_items: Seq<FeedItem>)
        requires
            prev.wf(),
            0 <= idx < prev.feeds().len(),
            prev.feeds()[idx].id == fid,
            all_items == prev.items(),
            self.feeds() == prev.feeds().remove(idx),
            forall|k: int|
                0 <= k < self.items().len() ==> exists|m: int|
                    0 <= m < all_items.len() && #[trigger] self.items()[k] == all_items[m],
            forall|k: int| 0 <= k < self.items().len() ==> (#[trigger] self.items()[k]).feed_id != fid,
            forall|k1: int, k2: int|
                0 <= k1 < k2 < self.items().len() ==> (#[trigger] self.items()[k1]).id != (
                #[trigger] self.items()[k2]).id,
            forall|k1: int, k2: int|
                0 <= k1 < k2 < self.items().len() ==> !((#[trigger] self.items()[k1]).feed_id == (
                #[trigger] self.items()[k2]).feed_id && os_view(self.items()[k1].link) == os_view(
                    self.items()[k2].link,
                )),
            self.feed_watermark() == prev.feed_watermark(),
            self.item_watermark() == prev.item_watermark(),
        ensures
            self.wf(),
    {
        assert forall|i: int, j: int| 0 <= i < j < self.feeds().len() implies (
        #[trigger] self.feeds()[i]).id != (#[trigger] self.feeds()[j]).id && self.feeds()[i].url@
            != self.feeds()[j].url@ by {
            let i0 = if i < idx { i } else { i + 1 };
            let j0 = if j < idx { j } else { j + 1 };
            assert(self.feeds()[i] == prev.feeds()[i0]);
            assert(self.feeds()[j] == prev.feeds()[j0]);
        }
        assert forall|j: int| 0 <= j < self.items().len() implies has_feed_id(
            self.feeds(),
            (#[trigger] self.items()[j]).feed_id,
        ) by {
            let g = self.items()[j].feed_id;
            let m = choose|m: int| 0 <= m < all_items.len() && self.items()[j] == all_items[m];
            assert(has_feed_id(prev.feeds(), g));
            let k = choose|k: int| 0 <= k < prev.feeds().len() && (#[trigger] prev.feeds()[k]).id == g;
            assert(k != idx);
            let k1 = if k < idx { k } else { k - 1 };
            assert(self.feeds()[k1] == prev.feeds()[k]);
        }
        assert forall|i: int| 0 <= i < self.feeds().len() implies (#[trigger] self.feeds()[i]).id
            < self.feed_watermark() by {
            let i0 = if i < idx { i } else { i + 1 };
            assert(self.feeds()[i] == prev.feeds()[i0]);
        }
        assert forall|j: int| 0 <= j < self.items().len() implies (#[trigger] self.items()[j]).id
            < self.item_watermark() by {
            let m = choose|m: int| 0 <= m < all_items.len() && self.items()[j] == all_items[m];
        }
    }
}

/// Cascade delete, first half: once no stored item belongs to a feed
/// — as `remove_feed` guarantees of the feed it removed — listing
/// that feed yields nothing.
pub proof fn lemma_removed_feed_lists_nothing(items: Seq<FeedItem>, fid: usize)
    requires
        forall|k: int| 0 <= k < items.len() ==> (#[trigger] items[k]).feed_id != fid,
    ensures
        items_of_feed(items, fid) == Seq::<FeedItem>::empty(),
    decreases items.len(),
{
    if items.len() > 0 {
        assert forall|k: int| 0 <= k < items.drop_first().len() implies (
        #[trigger] items.drop_first()[k]).feed_id != fid by {
            assert(items.drop_first()[k] == items[k + 1]);
        }
        lemma_removed_feed_lists_nothing(items.drop_first(), fid);
    }
}

/// Cascade delete, second half: dropping one feed's items — as
/// `remove_feed` does — leaves every other feed's item list exactly
/// as it was.
pub proof fn lemma_cascade_keeps_other_feeds(items: Seq<FeedItem>, fid: usize, g: usize)
    requires
        g != fid,
    ensures
        items_of_feed(items_without_feed(items, fid), g) == items_of_feed(items, g),
    decreases items.len(),
{
    if items.len() > 0 {
        let rest = items.drop_first();
        lemma_cascade_keeps_other_feeds(rest, fid, g);
        if items[0].feed_id == fid {
            assert(items_without_feed(items, fid) == items_without_feed(rest, fid));
            assert(items_of_feed(items, g) == items_of_feed(rest, g));
        } else {
            let kept = items_without_feed(rest, fid);
            assert(items_without_feed(items, fid) == seq![items[0]] + kept);
            assert((seq![items[0]] + kept)[0] == items[0]);
            assert((seq![items[0]] + kept).drop_first() =~= kept);
            if items[0].feed_id == g {
                assert(items_of_feed(seq![items[0]] + kept, g) == seq![items[0]] + items_of_feed(
                    kept,
                    g,
                ));
                assert(items_of_feed(items, g) == seq![items[0]] + items_of_feed(rest, g));
            } else {
                assert(items_of_feed(seq![items[0]] + kept, g) == items_of_feed(kept, g));
                assert(items_of_feed(items, g) == items_of_feed(rest, g));
            }
        }
    }
}

/// Dedup key: no two items stored in a well-formed store share the
/// (feed_id, link) pair; an absent link collides only with another
/// absent link. Together with the `add_feed_item` contract — which
/// returns `Ok(false)` and leaves the store unchanged on an
/// already-seen pair — this pins the store's dedup behaviour.
pub proof fn lemma_dedup_key_unique(db: &Db)
    requires
        db.wf(),
    ensures
        forall|i: int, j: int|
            0 <= i < j < db.items().len() ==> !((#[trigger] db.items()[i]).feed_id == (
            #[trigger] db.items()[j]).feed_id && os_view(db.items()[i].link) == os_view(
                db.items()[j].link,
            )),
{
}

/// Feed identity: no two feeds stored in a well-formed store share a
/// URL. Together with the `add_feed` contract — which returns
/// `Conflict` and leaves the store unchanged on a duplicate URL —
/// this pins the uniqueness of feed URLs.
pub proof fn lemma_feed_url_unique(db: &Db)
    requires
        db.wf(),
    ensures
        forall|i: int, j: int|
            0 <= i < j < db.feeds().len() ==> (#[trigger] db.feeds()[i]).url@ != (
            #[trigger] db.feeds()[j]).url@,
{
}

} // verus!
