//! The canonical Bluesky post record and the conversion from the feed
//! shapes the network client hands back. Identity is the post URI;
//! snapshots are ordered by descending URI, a stable stand-in for
//! recency since URIs grow with creation order. Session handling and the
//! feed request itself sit with the caller; which feed items become
//! records — reposts skipped, reply references kept only when the parent
//! is a visible post — is decided here.

use vstd::prelude::*;

use crate::record::{no_dup_ids, Record};
use crate::snapshot::{no_order_ties, sorted_out};
use crate::text::{lemma_str_le_antisym, lemma_str_le_total, lemma_str_le_trans, spec_str_le,
    str_le};

verus! {

pub struct BlueskyPost {
    pub uri: String,
    pub created_at: i64,
    pub text: String,
    pub in_reply_to: Option<BlueskyPostReply>,
}

pub struct BlueskyPostReply {
    pub uri: String,
    pub author_did: String,
    pub author_handle: String,
}

/// Why a feed item was delivered.
pub enum FeedReason {
    /// The item is the author's own post.
    Original,
    /// The item is a repost; the archive skips it.
    Repost,
    /// A reason this library does not know.
    Other,
}

/// What a feed item's reply parent resolved to.
pub enum ReplyParentRef {
    /// A visible post, with the fields the record keeps.
    Post(BlueskyPostReply),
    /// The parent was deleted.
    NotFoundPost,
    /// The parent's author has blocked visibility.
    BlockedPost,
    /// A parent shape this library does not know.
    Other,
}

/// One item of an author feed, reduced to the fields the archive reads.
/// The timestamp is UTC seconds since the Unix epoch, already parsed
/// from the post record's date.
pub struct FeedViewItem {
    pub reason: FeedReason,
    pub reply_parent: Option<ReplyParentRef>,
    pub uri: String,
    pub text: String,
    pub created_at: i64,
}

impl Record for BlueskyPost {
    open spec fn ts(&self) -> int {
        self.created_at as int
    }

    open spec fn same_id(&self, other: &Self) -> bool {
        self.uri@ == other.uri@
    }

    open spec fn placed_le(&self, other: &Self) -> bool {
        spec_str_le(other.uri@, self.uri@)
    }

    proof fn lemma_same_id_refl(&self) {
    }

    proof fn lemma_same_id_sym(&self, other: &Self) {
    }

    proof fn lemma_placed_le_total(&self, other: &Self) {
        lemma_str_le_total(other.uri@, self.uri@);
    }

    proof fn lemma_placed_le_trans(a: &Self, b: &Self, c: &Self) {
        lemma_str_le_trans(c.uri@, b.uri@, a.uri@);
    }

    fn eq_id(&self, other: &Self) -> (r: bool) {
        self.uri == other.uri
    }

    fn ts_secs(&self) -> (t: i64) {
        self.created_at
    }

    fn placed_before(&self, other: &Self) -> (r: bool) {
        str_le(other.uri.as_str(), self.uri.as_str())
    }
}

/// Posts in snapshot order are unique per record set: two posts tied in
/// the order share a URI, so a set without duplicate URIs has no ties.
pub proof fn lemma_post_order_ties(s: Seq<BlueskyPost>)
    requires
        no_dup_ids(s),
    ensures
        no_order_ties(s),
{
    assert forall|a: BlueskyPost, b: BlueskyPost|
        s.contains(a) && s.contains(b) && #[trigger] a.placed_le(&b) && #[trigger] b.placed_le(
            &a,
        ) implies a == b by {
        lemma_str_le_antisym(a.uri@, b.uri@);
        let i = choose|i: int| 0 <= i < s.len() && s[i] == a;
        let j = choose|j: int| 0 <= j < s.len() && s[j] == b;
        if i != j {
            assert(!s[i].same_id(&s[j]));
        }
    }
}

/// Writing a year of posts is deterministic: any two snapshot-ordered
/// arrangements of the same duplicate-free post set are identical.
pub proof fn lemma_post_snapshot_deterministic(x: Seq<BlueskyPost>, y: Seq<BlueskyPost>)
    requires
        sorted_out(x),
        sorted_out(y),
        x.to_multiset() == y.to_multiset(),
        no_dup_ids(x),
    ensures
        x == y,
{
    lemma_post_order_ties(x);
    crate::snapshot::lemma_sorted_unique_by_place(x, y);
}

/// The reply reference a feed item's parent yields: only a parent that
/// is a visible post is kept.
pub open spec fn spec_reply_of(parent: Option<ReplyParentRef>) -> Option<BlueskyPostReply> {
    match parent {
        Some(ReplyParentRef::Post(rep)) => Some(rep),
        _ => None,
    }
}

/// The record one feed item yields: none for a repost.
pub open spec fn spec_post_of_item(item: FeedViewItem) -> Option<BlueskyPost> {
    match item.reason {
        FeedReason::Repost => None,
        _ => Some(
            BlueskyPost {
                uri: item.uri,
                created_at: item.created_at,
                text: item.text,
                in_reply_to: spec_reply_of(item.reply_parent),
            },
        ),
    }
}

/// The records of one feed page, in delivery order.
pub open spec fn spec_posts_of_feed(feed: Seq<FeedViewItem>) -> Seq<BlueskyPost> {
    feed.filter_map(|item: FeedViewItem| spec_post_of_item(item))
}

/// Converts one fetched feed page into canonical records, in delivery
/// order, skipping reposts and unknown parent shapes.
#[verifier::loop_isolation(false)]
pub fn posts_from_feed(feed: Vec<FeedViewItem>) -> (posts: Vec<BlueskyPost>)
    ensures
        posts@ == spec_posts_of_feed(feed@),
{
    broadcast use Seq::lemma_filter_map_take_succ;

    let ghost f = |item: FeedViewItem| spec_post_of_item(item);
    let ghost orig = feed@;
    let mut feed = feed;
    let mut posts: Vec<BlueskyPost> = Vec::new();
    proof {
        assert(orig.take(0).filter_map(f) =~= Seq::<BlueskyPost>::empty());
    }
    let n = feed.len();
    let mut i: usize = 0;
    while i < n
        invariant
            i <= n,
            n == orig.len(),
            feed@ == orig.skip(i as int),
            posts@ == orig.take(i as int).filter_map(f),
        decreases n - i,
    {
        let item = feed.remove(0);
        proof {
            assert(orig.skip(i as int)[0] == orig[i as int]);
            assert(feed@ =~= orig.skip(i as int + 1));
        }
        let FeedViewItem { reason, reply_parent, uri, text, created_at } = item;
        match reason {
            FeedReason::Repost => {},
            _ => {
                let in_reply_to = match reply_parent {
                    Some(ReplyParentRef::Post(rep)) => Some(rep),
                    _ => None,
                };
                posts.push(BlueskyPost { uri, created_at, text, in_reply_to });
            },
        }
        i = i + 1;
    }
    proof {
        assert(orig.take(n as int) =~= orig);
    }
    posts
}

} // verus!
