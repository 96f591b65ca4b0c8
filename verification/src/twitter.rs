//! Tweets as a Twitter archive export delivers them: the raw record
//! shapes, the retweet filter, and the prelude stripping that turns an
//! archive file's JavaScript assignment into plain JSON. Reading the
//! files and decoding the JSON sit with the caller; everything that
//! decides which tweets are kept is verified here.

use vstd::prelude::*;
use vstd::string::StrSliceExecFns;
use vstd::string::StringExecFns;

use crate::text::{has_prefix, str_has_prefix};

verus! {

/// One tweet as the archive stores it. The timestamp is UTC seconds
/// since the Unix epoch, already parsed out of the archive's date format.
pub struct ArchivedTweet {
    pub id: u64,
    pub created_at: i64,
    pub full_text: String,
    pub entities: ArchivedTweetEntities,
    pub in_reply_to_status_id: Option<u64>,
    pub in_reply_to_user_id: Option<u64>,
    pub in_reply_to_screen_name: Option<String>,
}

/// The characters that open every retweet's text.
pub open spec fn retweet_prefix() -> Seq<char> {
    seq!['R', 'T', ' ', '@']
}

impl ArchivedTweet {
    /// The archive marks retweets only by their text.
    pub open spec fn spec_is_retweet(&self) -> bool {
        has_prefix(self.full_text@, retweet_prefix())
    }

    /// Whether this tweet is a retweet.
    pub fn is_retweet(&self) -> (r: bool)
        ensures
            r == self.spec_is_retweet(),
    {
        proof {
            reveal_strlit("RT @");
            assert("RT @"@ =~= retweet_prefix());
        }
        str_has_prefix(self.full_text.as_str(), "RT @")
    }
}

/// The archive's wrapper object around each tweet.
pub struct ArchivedTweetWrapper {
    pub tweet: ArchivedTweet,
}

pub struct ArchivedTweetEntities {
    pub urls: Vec<ArchivedTweetUrlEntity>,
    pub media: Option<Vec<ArchivedTweetMediaEntity>>,
}

pub struct WellFormedArchivedTweetUrlEntity {
    pub display_url: String,
    pub expanded_url: Option<String>,
    pub url: String,
}

/// Archives hold both complete URL entities and bare leftovers.
pub enum ArchivedTweetUrlEntity {
    WellFormed(WellFormedArchivedTweetUrlEntity),
    Malformed { url: String },
}

#[derive(Clone, Copy, Debug, PartialEq, Eq, Structural)]
pub enum MediaType {
    Photo,
    Video,
    Gif,
}

pub struct ArchivedTweetMediaEntity {
    pub id: u64,
    pub media_type: MediaType,
    pub media_url_https: String,
}

/// Reads tweets out of a Twitter archive export: a list of tweet files
/// and the choice whether retweets are kept (they are dropped unless
/// asked for). The caller reads each file and decodes its JSON; the
/// prelude stripping and the retweet filter are here.
pub struct TwitterArchiveImporter {
    pub tweet_files: Vec<String>,
    pub include_retweets: bool,
}

/// The tweets of `tweets` that an importer keeps: all of them when
/// retweets are included, otherwise everything but retweets.
pub open spec fn spec_kept_tweets(tweets: Seq<ArchivedTweet>, include_retweets: bool) -> Seq<
    ArchivedTweet,
> {
    tweets.filter(|t: ArchivedTweet| include_retweets || !t.spec_is_retweet())
}

impl TwitterArchiveImporter {
    /// An importer over the given tweet files, dropping retweets.
    pub fn new(tweet_files: Vec<String>) -> (s: Self)
        ensures
            s.tweet_files == tweet_files,
            !s.include_retweets,
    {
        TwitterArchiveImporter { tweet_files, include_retweets: false }
    }

    /// Keep retweets as well.
    pub fn include_retweets(&mut self)
        ensures
            final(self).tweet_files == old(self).tweet_files,
            final(self).include_retweets,
    {
        self.include_retweets = true;
    }

    /// Applies the importer's retweet policy to one file's tweets, in
    /// order.
    #[verifier::loop_isolation(false)]
    pub fn kept_tweets(&self, tweets: Vec<ArchivedTweet>) -> (kept: Vec<ArchivedTweet>)
        ensures
            kept@ == spec_kept_tweets(tweets@, self.include_retweets),
    {
        broadcast use Seq::lemma_filter_push;

        let ghost orig = tweets@;
        let ghost pred = |t: ArchivedTweet| self.include_retweets || !t.spec_is_retweet();
        let mut tweets = tweets;
        let mut kept: Vec<ArchivedTweet> = Vec::new();
        proof {
            assert(orig.take(0) =~= Seq::<ArchivedTweet>::empty());
            assert(orig.take(0).filter(pred) =~= Seq::<ArchivedTweet>::empty());
        }
        let mut i: usize = 0;
        let n = tweets.len();
        while i < n
            invariant
                i <= n,
                n == orig.len(),
                tweets@ == orig.skip(i as int),
                kept@ == orig.take(i as int).filter(pred),
            decreases n - i,
        {
            let t = tweets.remove(0);
            proof {
                assert(orig.skip(i as int)[0] == orig[i as int]);
                assert(tweets@ =~= orig.skip(i as int + 1));
                assert(orig.take(i as int + 1) =~= orig.take(i as int).push(orig[i as int]));
            }
            if self.include_retweets || !t.is_retweet() {
                kept.push(t);
            }
            i = i + 1;
        }
        proof {
            assert(orig.take(n as int) =~= orig);
        }
        kept
    }
}

/// The JavaScript assignments that open the archive's tweet files.
pub open spec fn archive_preludes() -> Seq<Seq<char>> {
    seq!["window.YTD.tweets.part0 = "@, "window.YTD.tweets.part1 = "@]
}

/// `contents` with the archive's JavaScript assignment prelude removed:
/// the text after the first matching prelude, or the text unchanged when
/// none matches.
pub open spec fn spec_stripped_archive(contents: Seq<char>) -> Seq<char> {
    if has_prefix(contents, archive_preludes()[0]) {
        contents.skip(archive_preludes()[0].len() as int)
    } else if has_prefix(contents, archive_preludes()[1]) {
        contents.skip(archive_preludes()[1].len() as int)
    } else {
        contents
    }
}

/// Removes the archive's JavaScript assignment prelude from a tweet
/// file's contents, leaving plain JSON.
pub fn strip_archive_prelude(contents: &str) -> (r: String)
    ensures
        r@ == spec_stripped_archive(contents@),
{
    proof {
        reveal_strlit("window.YTD.tweets.part0 = ");
        reveal_strlit("window.YTD.tweets.part1 = ");
    }
    let p0 = "window.YTD.tweets.part0 = ";
    let p1 = "window.YTD.tweets.part1 = ";
    let n = contents.unicode_len();
    if str_has_prefix(contents, p0) {
        let cut = p0.unicode_len();
        let rest = contents.substring_char(cut, n);
        proof {
            assert(rest@ =~= contents@.skip(archive_preludes()[0].len() as int));
        }
        String::from_str(rest)
    } else if str_has_prefix(contents, p1) {
        let cut = p1.unicode_len();
        let rest = contents.substring_char(cut, n);
        proof {
            assert(rest@ =~= contents@.skip(archive_preludes()[1].len() as int));
        }
        String::from_str(rest)
    } else {
        String::from_str(contents)
    }
}

} // verus!
