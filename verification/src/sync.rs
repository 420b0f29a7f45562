//! The sync orchestrator: merging fetched feed content into the store
//! with per-feed and per-item failure isolation.
//!
//! The fetcher hands this module one outcome per registered feed; the
//! merge inserts exactly the entries whose (feed_id, link) pair is not
//! yet stored. Running the merge twice on unchanged content inserts
//! nothing the second time.

use crate::client::{ParsedFeed, ParsedFeedItem};
use crate::text::strs_view;
use crate::store::{
    Db, Feed, FeedItem, has_feed_id, has_feed_url, has_item_link, os_view,
};
use crate::text::opt_deref;
use vstd::prelude::*;

verus! {

/// The outcome of fetching and decoding one feed.
#[derive(Debug)]
pub enum FetchOutcome {
    /// The feed was fetched and decoded into a normalized record.
    Fetched(ParsedFeed),
    /// Network, status or decode failure, with its cause.
    FetchFailed(String),
}

/// What one feed contributed to a sync run.
#[derive(Debug)]
pub struct FeedSyncResult {
    /// The feed this result is about.
    pub feed_id: usize,
    /// How many previously unseen items were inserted.
    pub new_items: usize,
    /// The fetch failure, when the feed could not be fetched.
    pub error: Option<String>,
}

/// Aggregated summary of one sync run.
#[derive(Debug)]
pub struct SyncSummary {
    /// One result per registered feed, in feed-list order.
    pub per_feed: Vec<FeedSyncResult>,
    /// The sum of all per-feed insertion counts.
    pub total_new: usize,
}

/// The dedup keys of incoming items, in order.
pub open spec fn parsed_link_seq(items: Seq<ParsedFeedItem>) -> Seq<Option<Seq<char>>> {
    items.map_values(|p: ParsedFeedItem| os_view(p.link))
}

/// The set of values occurring in `links`.
pub open spec fn links_set(links: Seq<Option<Seq<char>>>) -> Set<Option<Seq<char>>> {
    Set::new(|l: Option<Seq<char>>| links.contains(l))
}

/// The dedup keys stored for feed `fid`.
pub open spec fn feed_links(items: Seq<FeedItem>, fid: usize) -> Set<Option<Seq<char>>> {
    Set::new(|l: Option<Seq<char>>| has_item_link(items, fid, l))
}

/// How many links of `links`, taken in order, are not yet in `seen`,
/// counting each unseen value once.
pub open spec fn new_link_count(
    seen: Set<Option<Seq<char>>>,
    links: Seq<Option<Seq<char>>>,
) -> nat
    decreases links.len(),
{
    if links.len() == 0 {
        0
    } else if seen.contains(links[0]) {
        new_link_count(seen, links.drop_first())
    } else {
        1 + new_link_count(seen.insert(links[0]), links.drop_first())
    }
}

/// How many items one feed's outcome inserts against the given store
/// contents: zero for a failed fetch.
pub open spec fn feed_new_count(items: Seq<FeedItem>, fid: usize, outcome: FetchOutcome) -> nat {
    match outcome {
        FetchOutcome::Fetched(pf) => new_link_count(
            feed_links(items, fid),
            parsed_link_seq(pf.items@),
        ),
        FetchOutcome::FetchFailed(_) => 0,
    }
}

/// The number of incoming items across all outcomes.
pub open spec fn total_incoming(outcomes: Seq<FetchOutcome>) -> nat
    decreases outcomes.len(),
{
    if outcomes.len() == 0 {
        0
    } else {
        (match outcomes[0] {
            FetchOutcome::Fetched(pf) => pf.items@.len(),
            FetchOutcome::FetchFailed(_) => 0,
        }) + total_incoming(outcomes.drop_first())
    }
}

/// The total insertion count of a sync run over `feeds` with the given
/// outcomes, against the given store contents.
pub open spec fn total_new_count(
    items: Seq<FeedItem>,
    feeds: Seq<Feed>,
    outcomes: Seq<FetchOutcome>,
) -> nat
    decreases outcomes.len(),
{
    if outcomes.len() == 0 || feeds.len() == 0 {
        0
    } else {
        feed_new_count(items, feeds[0].id, outcomes[0]) + total_new_count(
            items,
            feeds.drop_first(),
            outcomes.drop_first(),
        )
    }
}

/// The author display string: the names joined with ", ", or absent
/// when there are none.
pub open spec fn joined_authors(names: Seq<Seq<char>>) -> Option<Seq<char>> {
    if names.len() == 0 {
        None
    } else {
        Some(joined_rest(names))
    }
}

/// The non-empty join of `names` with ", ".
pub open spec fn joined_rest(names: Seq<Seq<char>>) -> Seq<char>
    decreases names.len(),
{
    if names.len() <= 1 {
        names[0]
    } else {
        joined_rest(names.drop_last()) + seq![',', ' '] + names.last()
    }
}

/// Whether the stored item `it` is what merging the incoming item `p`
/// into feed `fid` at time `now` stores.
pub open spec fn stored_from(it: FeedItem, p: ParsedFeedItem, fid: usize, now: i64) -> bool {
    &&& it.feed_id == fid
    &&& os_view(it.title) == os_view(p.title)
    &&& os_view(it.link) == os_view(p.link)
    &&& os_view(it.description) == os_view(p.description)
    &&& os_view(it.author) == joined_authors(strs_view(p.authors@))
    &&& it.published == p.published
    &&& it.is_read == false
    &&& it.created_at == now
}

/// Whether `it` is what merging outcome `j` of a sync run stores: the
/// outcome is a fetched feed owned by the `j`-th registered feed, and
/// `it` derives from one of its incoming items.
pub open spec fn from_outcome_at(
    it: FeedItem,
    feeds: Seq<Feed>,
    outcomes: Seq<FetchOutcome>,
    j: int,
    now: i64,
) -> bool {
    &&& 0 <= j < outcomes.len()
    &&& j < feeds.len()
    &&& match outcomes[j] {
        FetchOutcome::Fetched(pf) => exists|t: int|
            0 <= t < pf.items@.len() && stored_from(it, #[trigger] pf.items@[t], feeds[j].id, now),
        FetchOutcome::FetchFailed(_) => false,
    }
}

/// Whether `it` is what some fetched outcome of a sync run stores.
/// No outcome of a failed fetch qualifies: a failed feed gets no rows.
pub open spec fn stored_from_some_outcome(
    it: FeedItem,
    feeds: Seq<Feed>,
    outcomes: Seq<FetchOutcome>,
    now: i64,
) -> bool {
    exists|j: int| #[trigger] from_outcome_at(it, feeds, outcomes, j, now)
}

/// Join author names with ", " into one display string; absent when
/// the list is empty.
#[verifier::loop_isolation(false)]
pub fn join_authors(authors: &Vec<String>) -> (r: Option<String>)
    ensures
        os_view(r) == joined_authors(strs_view(authors@)),
{
    let ghost names = strs_view(authors@);
    if authors.len() == 0 {
        return None;
    }
    let mut s = authors[0].clone();
    let mut i: usize = 1;
    proof {
        assert(names.take(1).len() == 1);
        assert(names.take(1)[0] == names[0]);
        assert(s@ == joined_rest(names.take(1)));
    }
    while i < authors.len()
        invariant
            1 <= i <= authors@.len(),
            s@ == joined_rest(names.take(i as int)),
        decreases authors@.len() - i,
    {
        let ghost prev = s@;
        s.append(", ");
        s.append(authors[i].as_str());
        proof {
            reveal_strlit(", ");
            assert(", "@ =~= seq![',', ' ']);
            assert(s@ =~= prev + seq![',', ' '] + names[i as int]);
            assert(names.take(i as int + 1).drop_last() =~= names.take(i as int));
            assert(names.take(i as int + 1).last() == names[i as int]);
            assert(s@ == joined_rest(names.take(i as int + 1)));
        }
        i += 1;
    }
    proof {
        assert(names.take(names.len() as int) =~= names);
    }
    Some(s)
}

/// Appending an item for feed `fid` adds exactly its link to that
/// feed's stored dedup keys and leaves every other feed's keys alone.
proof fn lemma_feed_links_push(items: Seq<FeedItem>, it: FeedItem)
    ensures
        feed_links(items.push(it), it.feed_id) =~= feed_links(items, it.feed_id).insert(
            os_view(it.link),
        ),
        forall|g: usize|
            g != it.feed_id ==> #[trigger] feed_links(items.push(it), g) =~= feed_links(items, g),
{
    let t = items.push(it);
    assert forall|g: usize, l: Option<Seq<char>>|
        has_item_link(items, g, l) implies #[trigger] has_item_link(t, g, l) by {
        let j = choose|j: int|
            0 <= j < items.len() && (#[trigger] items[j]).feed_id == g && os_view(items[j].link)
                == l;
        assert(t[j].feed_id == g && os_view(t[j].link) == l);
    }
    assert(has_item_link(t, it.feed_id, os_view(it.link))) by {
        assert(t[items.len() as int].feed_id == it.feed_id);
    }
    assert forall|g: usize, l: Option<Seq<char>>|
        #[trigger] has_item_link(t, g, l) && !(g == it.feed_id && l == os_view(it.link)) implies
        has_item_link(items, g, l) by {
        let j = choose|j: int|
            0 <= j < t.len() && (#[trigger] t[j]).feed_id == g && os_view(t[j].link) == l;
        if j < items.len() {
            assert(items[j].feed_id == g && os_view(items[j].link) == l);
        }
    }
}

/// Merge the incoming items of one feed into the store: insert each
/// entry whose (feed_id, link) pair is not yet stored, in order, and
/// count the insertions. A storage refusal on one entry cannot occur
/// here: the feed exists and id space is reserved by the caller.
#[verifier::loop_isolation(false)]
pub fn merge_feed_items(db: &mut Db, feed_id: usize, items: &Vec<ParsedFeedItem>, now: i64) -> (n:
    usize)
    requires
        old(db).wf(),
        has_feed_id(old(db).feeds(), feed_id),
        old(db).item_watermark() + items@.len() <= usize::MAX as int,
    ensures
        final(db).wf(),
        final(db).feeds() == old(db).feeds(),
        final(db).feed_watermark() == old(db).feed_watermark(),
        n as nat == new_link_count(feed_links(old(db).items(), feed_id), parsed_link_seq(items@)),
        n <= items@.len(),
        final(db).item_watermark() == old(db).item_watermark() + n,
        feed_links(final(db).items(), feed_id) == feed_links(old(db).items(), feed_id).union(
            links_set(parsed_link_seq(items@)),
        ),
        forall|g: usize|
            g != feed_id ==> #[trigger] feed_links(final(db).items(), g) == feed_links(
                old(db).items(),
                g,
            ),
        final(db).items().len() == old(db).items().len() + n,
        final(db).items().take(old(db).items().len() as int) == old(db).items(),
        forall|k: int|
            old(db).items().len() <= k < final(db).items().len() ==> exists|t: int|
                0 <= t < items@.len() && stored_from(
                    #[trigger] final(db).items()[k],
                    items@[t],
                    feed_id,
                    now,
                ),
    {
        let ghost links = parsed_link_seq(items@);
        let ghost seen0 = feed_links(old(db).items(), feed_id);
        let mut n: usize = 0;
        let mut i: usize = 0;
        proof {
            assert(links.skip(0) =~= links);
            assert(links.take(0) =~= Seq::<Option<Seq<char>>>::empty());
            assert(seen0.union(links_set(links.take(0))) =~= seen0);
            assert(db.items().take(old(db).items().len() as int) =~= old(db).items());
        }
        while i < items.len()
            invariant
                i <= items@.len(),
                n <= i,
                db.wf(),
                db.feeds() == old(db).feeds(),
                db.feed_watermark() == old(db).feed_watermark(),
                db.item_watermark() == old(db).item_watermark() + n,
                links.len() == items@.len(),
                n as nat + new_link_count(feed_links(db.items(), feed_id), links.skip(i as int))
                    == new_link_count(seen0, links),
                feed_links(db.items(), feed_id) == seen0.union(links_set(links.take(i as int))),
                forall|g: usize|
                    g != feed_id ==> #[trigger] feed_links(db.items(), g) == feed_links(
                        old(db).items(),
                        g,
                    ),
                db.items().len() == old(db).items().len() + n,
                db.items().take(old(db).items().len() as int) == old(db).items(),
                forall|k: int|
                    old(db).items().len() <= k < db.items().len() ==> exists|t: int|
                        0 <= t < items@.len() && stored_from(
                            #[trigger] db.items()[k],
                            items@[t],
                            feed_id,
                            now,
                        ),
            decreases items@.len() - i,
        {
            let p = &items[i];
            proof {
                assert(links[i as int] == os_view(p.link));
                assert(links.skip(i as int)[0] == links[i as int]);
                assert(links.skip(i as int).drop_first() =~= links.skip(i as int + 1));
            }
            let author = join_authors(&p.authors);
            let ghost before = db.items();
            let r = db.add_feed_item_at(
                feed_id,
                opt_deref(&p.title),
                opt_deref(&p.link),
                opt_deref(&p.description),
                opt_deref(&author),
                p.published,
                now,
            );
            match r {
                Err(_) => {
                    proof {
                        assert(false);
                    }
                },
                Ok(true) => {
                    n += 1;
                    proof {
                        let it = db.items().last();
                        assert(db.items() =~= before.push(it));
                        lemma_feed_links_push(before, it);
                        assert(os_view(it.link) == links[i as int]);
                        assert(feed_links(db.items(), feed_id) =~= feed_links(
                            before,
                            feed_id,
                        ).insert(links[i as int]));
                        assert(feed_links(db.items(), feed_id) =~= seen0.union(
                            links_set(links.take(i as int + 1)),
                        )) by {
                            assert forall|l: Option<Seq<char>>|
                                links_set(links.take(i as int + 1)).contains(l) implies links_set(
                                links.take(i as int),
                            ).insert(links[i as int]).contains(l) by {
                                let t = choose|t: int|
                                    0 <= t < links.take(i as int + 1).len() && #[trigger] links.take(
                                        i as int + 1,
                                    )[t] == l;
                                if t < i {
                                    assert(links.take(i as int)[t] == l);
                                }
                            }
                            assert forall|l: Option<Seq<char>>|
                                links_set(links.take(i as int)).insert(
                                    links[i as int],
                                ).contains(l) implies links_set(
                                links.take(i as int + 1),
                            ).contains(l) by {
                                if links_set(links.take(i as int)).contains(l) {
                                    let t = choose|t: int|
                                        0 <= t < links.take(i as int).len() && #[trigger] links.take(
                                            i as int,
                                        )[t] == l;
                                    assert(links.take(i as int + 1)[t] == l);
                                } else {
                                    assert(links.take(i as int + 1)[i as int] == l);
                                }
                            }
                        }
                        assert(!feed_links(before, feed_id).contains(links[i as int])) by {
                            assert(!has_item_link(before, feed_id, links[i as int]));
                        }
                        assert(db.items().take(old(db).items().len() as int) =~= old(db).items());
                        assert(stored_from(it, items@[i as int], feed_id, now));
                        assert forall|k: int|
                            old(db).items().len() <= k < db.items().len() implies exists|t: int|
                            0 <= t < items@.len() && stored_from(
                                #[trigger] db.items()[k],
                                items@[t],
                                feed_id,
                                now,
                            ) by {
                            if k < db.items().len() - 1 {
                                assert(db.items()[k] == before[k]);
                                let t = choose|t: int|
                                    0 <= t < items@.len() && stored_from(
                                        before[k],
                                        items@[t],
                                        feed_id,
                                        now,
                                    );
                                assert(stored_from(db.items()[k], items@[t], feed_id, now));
                            } else {
                                assert(stored_from(db.items()[k], items@[i as int], feed_id, now));
                            }
                        }
                    }
                },
                Ok(false) => {
                    proof {
                        assert(has_item_link(before, feed_id, links[i as int]));
                        assert(feed_links(db.items(), feed_id).contains(links[i as int]));
                        assert(links.take(i as int + 1) =~= links.take(i as int).push(
                            links[i as int],
                        ));
                        assert(feed_links(db.items(), feed_id) =~= seen0.union(
                            links_set(links.take(i as int + 1)),
                        )) by {
                            assert forall|l: Option<Seq<char>>|
                                links_set(links.take(i as int + 1)).contains(l) implies (
                            seen0.union(links_set(links.take(i as int))).contains(l)) by {
                                let t = choose|t: int|
                                    0 <= t < links.take(i as int + 1).len() && #[trigger] links.take(
                                        i as int + 1,
                                    )[t] == l;
                                if t < i {
                                    assert(links.take(i as int)[t] == l);
                                } else {
                                    assert(l == links[i as int]);
                                }
                            }
                            assert forall|l: Option<Seq<char>>|
                                links_set(links.take(i as int)).contains(l) implies links_set(
                                links.take(i as int + 1),
                            ).contains(l) by {
                                let t = choose|t: int|
                                    0 <= t < links.take(i as int).len() && #[trigger] links.take(
                                        i as int,
                                    )[t] == l;
                                assert(links.take(i as int + 1)[t] == l);
                            }
                        }
                    }
                },
            }
            i += 1;
        }
        proof {
            assert(links.skip(links.len() as int) =~= Seq::<Option<Seq<char>>>::empty());
            assert(links.take(links.len() as int) =~= links);
        }
        n
    }

/// Sync all registered feeds: apply one fetch outcome per feed, in
/// feed-list order. A failed fetch is recorded for its feed and does
/// not disturb any other feed's merge; insertion counts are summed.
/// A sync run only appends: every row stored before the run is kept
/// bit-for-bit, and every appended row derives from an incoming item
/// of a successfully fetched feed.
#[verifier::loop_isolation(false)]
pub fn sync_feeds(db: &mut Db, outcomes: &Vec<FetchOutcome>, now: i64) -> (s: SyncSummary)
    requires
        old(db).wf(),
        outcomes@.len() == old(db).feeds().len(),
        old(db).item_watermark() + total_incoming(outcomes@) <= usize::MAX as int,
    ensures
        final(db).wf(),
        final(db).feeds() == old(db).feeds(),
        final(db).feed_watermark() == old(db).feed_watermark(),
        final(db).items().take(old(db).items().len() as int) == old(db).items(),
        final(db).items().len() == old(db).items().len() + s.total_new,
        final(db).item_watermark() == old(db).item_watermark() + s.total_new,
        forall|k: int|
            old(db).items().len() <= k < final(db).items().len() ==> stored_from_some_outcome(
                #[trigger] final(db).items()[k],
                old(db).feeds(),
                outcomes@,
                now,
            ),
        s.per_feed@.len() == outcomes@.len(),
        forall|i: int|
            0 <= i < outcomes@.len() ==> ({
                let f = old(db).feeds()[i];
                let res = #[trigger] s.per_feed@[i];
                &&& res.feed_id == f.id
                &&& res.new_items as nat == feed_new_count(old(db).items(), f.id, outcomes@[i])
                &&& match outcomes@[i] {
                    FetchOutcome::FetchFailed(m) => os_view(res.error) == Some::<Seq<char>>(m@),
                    FetchOutcome::Fetched(_) => res.error is None,
                }
                &&& feed_links(final(db).items(), f.id) == (match outcomes@[i] {
                    FetchOutcome::Fetched(pf) => feed_links(old(db).items(), f.id).union(
                        links_set(parsed_link_seq(pf.items@)),
                    ),
                    FetchOutcome::FetchFailed(_) => feed_links(old(db).items(), f.id),
                })
            }),
        s.total_new as nat == total_new_count(old(db).items(), old(db).feeds(), outcomes@),
        s.total_new as nat <= total_incoming(outcomes@),
{
    let ghost feeds0 = old(db).feeds();
    let ghost items0 = old(db).items();
    let feeds = db.list_feeds();
    let mut per_feed: Vec<FeedSyncResult> = Vec::new();
    let mut total: usize = 0;
    let mut i: usize = 0;
    proof {
        assert(feeds0.skip(0) =~= feeds0);
        assert(outcomes@.skip(0) =~= outcomes@);
        assert(items0.take(items0.len() as int) =~= items0);
    }
    while i < feeds.len()
        invariant
            i <= feeds0.len(),
            feeds@ == feeds0,
            outcomes@.len() == feeds0.len(),
            db.wf(),
            db.feeds() == feeds0,
            db.feed_watermark() == old(db).feed_watermark(),
            per_feed@.len() == i,
            total as nat + total_new_count(
                items0,
                feeds0.skip(i as int),
                outcomes@.skip(i as int),
            ) == total_new_count(items0, feeds0, outcomes@),
            db.item_watermark() == old(db).item_watermark() + total,
            db.item_watermark() + total_incoming(outcomes@.skip(i as int)) <= usize::MAX as int,
            total as nat + total_incoming(outcomes@.skip(i as int)) <= total_incoming(outcomes@),
            db.items().take(items0.len() as int) == items0,
            db.items().len() == items0.len() + total,
            forall|k: int|
                items0.len() <= k < db.items().len() ==> stored_from_some_outcome(
                    #[trigger] db.items()[k],
                    feeds0,
                    outcomes@,
                    now,
                ),
            forall|j: int|
                i <= j < feeds0.len() ==> #[trigger] feed_links(db.items(), feeds0[j].id)
                    == feed_links(items0, feeds0[j].id),
            forall|j: int|
                0 <= j < i ==> ({
                    let f = feeds0[j];
                    let res = #[trigger] per_feed@[j];
                    &&& res.feed_id == f.id
                    &&& res.new_items as nat == feed_new_count(items0, f.id, outcomes@[j])
                    &&& match outcomes@[j] {
                        FetchOutcome::FetchFailed(m) => os_view(res.error) == Some::<Seq<char>>(
                            m@,
                        ),
                        FetchOutcome::Fetched(_) => res.error is None,
                    }
                    &&& feed_links(db.items(), f.id) == (match outcomes@[j] {
                        FetchOutcome::Fetched(pf) => feed_links(items0, f.id).union(
                            links_set(parsed_link_seq(pf.items@)),
                        ),
                        FetchOutcome::FetchFailed(_) => feed_links(items0, f.id),
                    })
                }),
        decreases feeds0.len() - i,
    {
        let fid = feeds[i].id;
        proof {
            assert(feeds0.skip(i as int)[0] == feeds0[i as int]);
            assert(feeds0.skip(i as int).drop_first() =~= feeds0.skip(i as int + 1));
            assert(outcomes@.skip(i as int)[0] == outcomes@[i as int]);
            assert(outcomes@.skip(i as int).drop_first() =~= outcomes@.skip(i as int + 1));
            assert(has_feed_id(db.feeds(), fid)) by {
                assert(db.feeds()[i as int].id == fid);
            }
        }
        let ghost before = db.items();
        let oc = &outcomes[i];
        match oc {
            FetchOutcome::Fetched(pf) => {
                let n = merge_feed_items(db, fid, &pf.items, now);
                proof {
                    assert(n as nat == feed_new_count(items0, fid, outcomes@[i as int]));
                    assert(total + n <= usize::MAX);
                }
                total += n;
                per_feed.push(FeedSyncResult { feed_id: fid, new_items: n, error: None });
                proof {
                    assert forall|j: int|
                        i + 1 <= j < feeds0.len() implies #[trigger] feed_links(
                        db.items(),
                        feeds0[j].id,
                    ) == feed_links(items0, feeds0[j].id) by {
                        assert(feeds0[j].id != fid);
                        assert(feed_links(db.items(), feeds0[j].id) == feed_links(
                            before,
                            feeds0[j].id,
                        ));
                    }
                    assert forall|j: int| 0 <= j < i implies feeds0[j].id != fid by {}
                    assert(db.items().take(items0.len() as int) =~= items0);
                    assert forall|k: int|
                        items0.len() <= k < db.items().len() implies stored_from_some_outcome(
                        #[trigger] db.items()[k],
                        feeds0,
                        outcomes@,
                        now,
                    ) by {
                        if k < before.len() {
                            assert(db.items().take(before.len() as int)[k] == db.items()[k]);
                            assert(db.items()[k] == before[k]);
                            assert(stored_from_some_outcome(before[k], feeds0, outcomes@, now));
                        } else {
                            let t = choose|t: int|
                                0 <= t < pf.items@.len() && stored_from(
                                    db.items()[k],
                                    #[trigger] pf.items@[t],
                                    fid,
                                    now,
                                );
                            assert(outcomes@[i as int] == FetchOutcome::Fetched(*pf));
                            assert(from_outcome_at(db.items()[k], feeds0, outcomes@, i as int, now));
                        }
                    }
                }
            },
            FetchOutcome::FetchFailed(m) => {
                per_feed.push(
                    FeedSyncResult { feed_id: fid, new_items: 0, error: Some(m.clone()) },
                );
            },
        }
        i += 1;
    }
    proof {
        assert(feeds0.skip(feeds0.len() as int) =~= Seq::<Feed>::empty());
        assert(outcomes@.skip(outcomes@.len() as int) =~= Seq::<FetchOutcome>::empty());
    }
    SyncSummary { per_feed, total_new: total }
}

/// Errors of registering a feed by URL.
#[derive(Debug)]
pub enum AddFeedError {
    /// The source could not be fetched or decoded; no feed was created.
    FetchFailed(String),
    /// A feed with this URL already exists; the stored one is untouched.
    Conflict,
}

impl AddFeedError {
    /// A short human-readable description of the error.
    pub fn message(&self) -> (m: &'static str)
        ensures
            *self is FetchFailed ==> m@ == "the feed could not be fetched"@,
            *self is Conflict ==> m@ == "a feed with this URL already exists"@,
    {
        match self {
            AddFeedError::FetchFailed(_) => "the feed could not be fetched",
            AddFeedError::Conflict => "a feed with this URL already exists",
        }
    }
}

/// Register a feed from the outcome of fetching its URL: the source is
/// fetched first, to validate it and obtain its title; on fetch
/// failure no feed is created and the store is untouched.
pub fn add_feed_from_fetch(db: &mut Db, url: &str, outcome: &FetchOutcome, now: i64) -> (r: Result<
    (),
    AddFeedError,
>)
    requires
        old(db).wf(),
        old(db).feed_watermark() < usize::MAX as int,
    ensures
        final(db).wf(),
        *outcome is FetchFailed ==> ({
            &&& r matches Err(AddFeedError::FetchFailed(m)) && *outcome matches
                FetchOutcome::FetchFailed(c) && m@ == c@
            &&& *final(db) == *old(db)
        }),
        *outcome is Fetched && has_feed_url(old(db).feeds(), url@) ==> ({
            &&& r == Err::<(), AddFeedError>(AddFeedError::Conflict)
            &&& *final(db) == *old(db)
        }),
        *outcome is Fetched && !has_feed_url(old(db).feeds(), url@) ==> ({
            &&& r == Ok::<(), AddFeedError>(())
            &&& final(db).feeds().len() == old(db).feeds().len() + 1
            &&& final(db).feeds().take(old(db).feeds().len() as int) == old(db).feeds()
            &&& final(db).feeds().last().url@ == url@
            &&& (*outcome matches FetchOutcome::Fetched(pf) ==> os_view(
                final(db).feeds().last().title,
            ) == os_view(pf.title))
            &&& final(db).feeds().last().created_at == now
            &&& final(db).items() == old(db).items()
            &&& final(db).feed_watermark() == old(db).feed_watermark() + 1
            &&& final(db).item_watermark() == old(db).item_watermark()
        }),
{
    match outcome {
        FetchOutcome::FetchFailed(m) => Err(AddFeedError::FetchFailed(m.clone())),
        FetchOutcome::Fetched(pf) => {
            match db.add_feed_at(url, opt_deref(&pf.title), now) {
                Ok(()) => Ok(()),
                Err(_) => Err(AddFeedError::Conflict),
            }
        },
    }
}

/// Once `seen` already holds every link of `links`, merging counts
/// nothing as new.
proof fn lemma_new_link_count_zero(seen: Set<Option<Seq<char>>>, links: Seq<Option<Seq<char>>>)
    requires
        forall|t: int| 0 <= t < links.len() ==> seen.contains(#[trigger] links[t]),
    ensures
        new_link_count(seen, links) == 0,
    decreases links.len(),
{
    if links.len() > 0 {
        assert forall|t: int| 0 <= t < links.drop_first().len() implies seen.contains(
            #[trigger] links.drop_first()[t],
        ) by {
            assert(links.drop_first()[t] == links[t + 1]);
        }
        lemma_new_link_count_zero(seen, links.drop_first());
    }
}

/// When no feed's outcome counts anything as new — as on a second run
/// over unchanged content — the run's total is zero, and with it the
/// number of appended rows.
pub proof fn lemma_total_new_count_zero(
    items: Seq<FeedItem>,
    feeds: Seq<Feed>,
    outcomes: Seq<FetchOutcome>,
)
    requires
        forall|i: int|
            0 <= i < outcomes.len() && i < feeds.len() ==> feed_new_count(
                items,
                (#[trigger] feeds[i]).id,
                outcomes[i],
            ) == 0,
    ensures
        total_new_count(items, feeds, outcomes) == 0,
    decreases outcomes.len(),
{
    if outcomes.len() > 0 && feeds.len() > 0 {
        assert forall|i: int|
            0 <= i < outcomes.drop_first().len() && i < feeds.drop_first().len() implies
            feed_new_count(
            items,
            (#[trigger] feeds.drop_first()[i]).id,
            outcomes.drop_first()[i],
        ) == 0 by {
            assert(feeds.drop_first()[i] == feeds[i + 1]);
            assert(outcomes.drop_first()[i] == outcomes[i + 1]);
        }
        lemma_total_new_count_zero(items, feeds.drop_first(), outcomes.drop_first());
    }
}

/// Idempotent sync: after a merge has recorded every incoming link —
/// as `merge_feed_items` guarantees, leaving the feed's stored keys
/// equal to the old keys united with the incoming ones — merging the
/// same links again inserts nothing.
pub proof fn lemma_sync_idempotent(seen: Set<Option<Seq<char>>>, links: Seq<Option<Seq<char>>>)
    ensures
        new_link_count(seen.union(links_set(links)), links) == 0,
{
    assert forall|t: int| 0 <= t < links.len() implies seen.union(links_set(links)).contains(
        #[trigger] links[t],
    ) by {
        assert(links.contains(links[t]));
    }
    lemma_new_link_count_zero(seen.union(links_set(links)), links);
}

/// Partial failure isolation: changing one feed's fetch outcome — for
/// example one failure among many successes — leaves every other
/// feed's insertion count as `sync_feeds` reports it unchanged.
pub proof fn lemma_failure_isolated(
    items: Seq<FeedItem>,
    feeds: Seq<Feed>,
    o1: Seq<FetchOutcome>,
    o2: Seq<FetchOutcome>,
    x: int,
)
    requires
        o1.len() == o2.len(),
        forall|i: int| 0 <= i < o1.len() && i != x ==> o1[i] == o2[i],
    ensures
        forall|i: int|
            0 <= i < o1.len() && i != x && i < feeds.len() ==> feed_new_count(
                items,
                (#[trigger] feeds[i]).id,
                o1[i],
            ) == feed_new_count(items, feeds[i].id, o2[i]),
{
}

} // verus!
