//! The canonical tweet record: the normalized form both tweet sources
//! (the timeline API and the archive export) converge on. Identity is
//! the numeric tweet id; snapshots are ordered by descending id, which
//! stands in for recency since ids grow over time.

use vstd::prelude::*;

use crate::record::{no_dup_ids, Record};
use crate::snapshot::{no_order_ties, sorted_out};
use crate::twitter;
use crate::twitter::{ArchivedTweet, ArchivedTweetEntities, ArchivedTweetUrlEntity};

verus! {

pub struct Tweet {
    pub id: u64,
    pub created_at: i64,
    pub text: String,
    pub entities: Option<TweetEntities>,
    pub in_reply_to: Option<TweetReply>,
}

pub struct TweetEntities {
    pub urls: Option<Vec<TweetUrlEntity>>,
    pub media: Option<Vec<TweetMediaEntity>>,
}

impl TweetEntities {
    /// Entity sets with nothing in them are dropped from the record.
    pub fn is_empty(&self) -> (r: bool)
        ensures
            r == (self.urls is None && self.media is None),
    {
        self.urls.is_none() && self.media.is_none()
    }

    /// `None` when the entity set holds nothing, `Some(self)` otherwise.
    pub fn into_option(self) -> (r: Option<TweetEntities>)
        ensures
            r == if self.urls is None && self.media is None {
                Option::<TweetEntities>::None
            } else {
                Some(self)
            },
    {
        if self.is_empty() {
            None
        } else {
            Some(self)
        }
    }
}

pub struct TweetUrlEntity {
    pub display_url: String,
    pub expanded_url: Option<String>,
    pub url: String,
}

#[derive(Clone, Copy, Debug, PartialEq, Eq, Structural)]
pub enum MediaType {
    Photo,
    Video,
    Gif,
}

/// The canonical media kind for an archive media kind.
pub open spec fn spec_media_type(m: twitter::MediaType) -> MediaType {
    match m {
        twitter::MediaType::Photo => MediaType::Photo,
        twitter::MediaType::Video => MediaType::Video,
        twitter::MediaType::Gif => MediaType::Gif,
    }
}

impl From<twitter::MediaType> for MediaType {
    fn from(value: twitter::MediaType) -> (r: MediaType) {
        match value {
            twitter::MediaType::Photo => MediaType::Photo,
            twitter::MediaType::Video => MediaType::Video,
            twitter::MediaType::Gif => MediaType::Gif,
        }
    }
}

impl vstd::std_specs::convert::FromSpecImpl<twitter::MediaType> for MediaType {
    open spec fn obeys_from_spec() -> bool {
        true
    }

    open spec fn from_spec(m: twitter::MediaType) -> MediaType {
        spec_media_type(m)
    }
}

pub struct TweetMediaEntity {
    pub id: u64,
    pub media_type: MediaType,
    pub url: String,
}

pub struct TweetReply {
    pub status_id: u64,
    pub user_id: u64,
    pub user_name: String,
}

impl Record for Tweet {
    open spec fn ts(&self) -> int {
        self.created_at as int
    }

    open spec fn same_id(&self, other: &Self) -> bool {
        self.id == other.id
    }

    open spec fn placed_le(&self, other: &Self) -> bool {
        self.id >= other.id
    }

    proof fn lemma_same_id_refl(&self) {
    }

    proof fn lemma_same_id_sym(&self, other: &Self) {
    }

    proof fn lemma_placed_le_total(&self, other: &Self) {
    }

    proof fn lemma_placed_le_trans(a: &Self, b: &Self, c: &Self) {
    }

    fn eq_id(&self, other: &Self) -> (r: bool) {
        self.id == other.id
    }

    fn ts_secs(&self) -> (t: i64) {
        self.created_at
    }

    fn placed_before(&self, other: &Self) -> (r: bool) {
        self.id >= other.id
    }
}

/// Tweets in snapshot order are unique per record set: two tweets tied
/// in the order share an id, so a set without duplicate ids has no ties.
pub proof fn lemma_tweet_order_ties(s: Seq<Tweet>)
    requires
        no_dup_ids(s),
    ensures
        no_order_ties(s),
{
    assert forall|a: Tweet, b: Tweet|
        s.contains(a) && s.contains(b) && #[trigger] a.placed_le(&b) && #[trigger] b.placed_le(
            &a,
        ) implies a == b by {
        let i = choose|i: int| 0 <= i < s.len() && s[i] == a;
        let j = choose|j: int| 0 <= j < s.len() && s[j] == b;
        if i != j {
            assert(!s[i].same_id(&s[j]));
        }
    }
}

/// Writing a year of tweets is deterministic: any two snapshot-ordered
/// arrangements of the same duplicate-free tweet set are identical.
pub proof fn lemma_tweet_snapshot_deterministic(x: Seq<Tweet>, y: Seq<Tweet>)
    requires
        sorted_out(x),
        sorted_out(y),
        x.to_multiset() == y.to_multiset(),
        no_dup_ids(x),
    ensures
        x == y,
{
    lemma_tweet_order_ties(x);
    crate::snapshot::lemma_sorted_unique_by_place(x, y);
}

/// The canonical URL entity an archive URL entity yields, if any.
pub open spec fn spec_url_entity(e: ArchivedTweetUrlEntity) -> Option<TweetUrlEntity> {
    match e {
        ArchivedTweetUrlEntity::WellFormed(w) => Some(
            TweetUrlEntity {
                display_url: w.display_url,
                expanded_url: w.expanded_url,
                url: w.url,
            },
        ),
        ArchivedTweetUrlEntity::Malformed { .. } => None,
    }
}

/// The canonical media entity for an archive media entity.
pub open spec fn spec_media_entity(e: twitter::ArchivedTweetMediaEntity) -> TweetMediaEntity {
    TweetMediaEntity { id: e.id, media_type: spec_media_type(e.media_type), url: e.media_url_https }
}

/// The well-formed URL entities of an archive entity set, in order.
pub open spec fn spec_urls_of(e: ArchivedTweetEntities) -> Seq<TweetUrlEntity> {
    e.urls@.filter_map(|u: ArchivedTweetUrlEntity| spec_url_entity(u))
}

/// How a converted tweet's entity set relates to the archive's: URL
/// entities keep only the well-formed ones and are dropped when none
/// remain; media entities map across one for one; an entity set with
/// neither is dropped altogether.
pub open spec fn entities_match(src: ArchivedTweetEntities, out: Option<TweetEntities>) -> bool {
    let urls = spec_urls_of(src);
    if urls.len() == 0 && src.media is None {
        out is None
    } else {
        &&& out matches Some(en)
        &&& if urls.len() == 0 {
            en.urls is None
        } else {
            en.urls matches Some(v) && v@ == urls
        }
        &&& match (src.media, en.media) {
            (Some(ms), Some(mo)) => mo@ == ms@.map_values(
                |m: twitter::ArchivedTweetMediaEntity| spec_media_entity(m),
            ),
            (None, None) => true,
            _ => false,
        }
    }
}

/// How a converted tweet's reply reference relates to the archive's
/// fields: present exactly when all three fields are.
pub open spec fn reply_match(src: ArchivedTweet, out: Option<TweetReply>) -> bool {
    match (src.in_reply_to_status_id, src.in_reply_to_user_id, src.in_reply_to_screen_name) {
        (Some(sid), Some(uid), Some(name)) => out matches Some(rep) && rep.status_id == sid
            && rep.user_id == uid && rep.user_name == name,
        _ => out is None,
    }
}

#[verifier::loop_isolation(false)]
fn convert_urls(urls: Vec<ArchivedTweetUrlEntity>) -> (out: Vec<TweetUrlEntity>)
    ensures
        out@ == urls@.filter_map(|u: ArchivedTweetUrlEntity| spec_url_entity(u)),
{
    broadcast use Seq::lemma_filter_map_take_succ;

    let ghost f = |u: ArchivedTweetUrlEntity| spec_url_entity(u);
    let ghost orig = urls@;
    let mut urls = urls;
    let mut out: Vec<TweetUrlEntity> = Vec::new();
    proof {
        assert(orig.take(0).filter_map(f) =~= Seq::<TweetUrlEntity>::empty());
    }
    let n = urls.len();
    let mut i: usize = 0;
    while i < n
        invariant
            i <= n,
            n == orig.len(),
            urls@ == orig.skip(i as int),
            out@ == orig.take(i as int).filter_map(f),
        decreases n - i,
    {
        let u = urls.remove(0);
        proof {
            assert(orig.skip(i as int)[0] == orig[i as int]);
            assert(urls@ =~= orig.skip(i as int + 1));
        }
        match u {
            ArchivedTweetUrlEntity::WellFormed(w) => {
                out.push(
                    TweetUrlEntity {
                        display_url: w.display_url,
                        expanded_url: w.expanded_url,
                        url: w.url,
                    },
                );
            },
            ArchivedTweetUrlEntity::Malformed { .. } => {},
        }
        i = i + 1;
    }
    proof {
        assert(orig.take(n as int) =~= orig);
    }
    out
}

#[verifier::loop_isolation(false)]
fn convert_media(media: Vec<twitter::ArchivedTweetMediaEntity>) -> (out: Vec<TweetMediaEntity>)
    ensures
        out@ == media@.map_values(|m: twitter::ArchivedTweetMediaEntity| spec_media_entity(m)),
{
    let ghost orig = media@;
    let mut media = media;
    let mut out: Vec<TweetMediaEntity> = Vec::new();
    let n = media.len();
    let mut i: usize = 0;
    while i < n
        invariant
            i <= n,
            n == orig.len(),
            media@ == orig.skip(i as int),
            out@ =~= orig.take(i as int).map_values(
                |m: twitter::ArchivedTweetMediaEntity| spec_media_entity(m),
            ),
        decreases n - i,
    {
        let m = media.remove(0);
        proof {
            assert(orig.skip(i as int)[0] == orig[i as int]);
            assert(media@ =~= orig.skip(i as int + 1));
        }
        let kind = MediaType::from(m.media_type);
        out.push(TweetMediaEntity { id: m.id, media_type: kind, url: m.media_url_https });
        proof {
            assert(out@ =~= orig.take(i as int + 1).map_values(
                |mm: twitter::ArchivedTweetMediaEntity| spec_media_entity(mm),
            ));
        }
        i = i + 1;
    }
    proof {
        assert(orig.take(n as int) =~= orig);
    }
    out
}

impl Tweet {
    /// The canonical record for one archived tweet: same id, timestamp
    /// and text; entities and the reply reference normalized as
    /// [`entities_match`] and [`reply_match`] state.
    pub fn from_archived(t: ArchivedTweet) -> (r: Tweet)
        ensures
            r.id == t.id,
            r.created_at == t.created_at,
            r.text == t.full_text,
            entities_match(t.entities, r.entities),
            reply_match(t, r.in_reply_to),
    {
        let ArchivedTweet {
            id,
            created_at,
            full_text,
            entities,
            in_reply_to_status_id,
            in_reply_to_user_id,
            in_reply_to_screen_name,
        } = t;
        let ghost src_entities = entities;
        let ArchivedTweetEntities { urls, media } = entities;
        let converted_urls = convert_urls(urls);
        let url_field: Option<Vec<TweetUrlEntity>> = if converted_urls.len() == 0 {
            None
        } else {
            Some(converted_urls)
        };
        let media_field: Option<Vec<TweetMediaEntity>> = match media {
            Some(ms) => Some(convert_media(ms)),
            None => None,
        };
        let combined = TweetEntities { urls: url_field, media: media_field }.into_option();
        let reply = match (in_reply_to_status_id, in_reply_to_user_id, in_reply_to_screen_name) {
            (Some(status_id), Some(user_id), Some(user_name)) => Some(
                TweetReply { status_id, user_id, user_name },
            ),
            _ => None,
        };
        Tweet { id, created_at, text: full_text, entities: combined, in_reply_to: reply }
    }
}

} // verus!
