use activity_archive::bluesky::{
    posts_from_feed, BlueskyPostReply, FeedReason, FeedViewItem, ReplyParentRef,
};
use activity_archive::lastfm::types::{
    Album, Artist, NowPlayingTrack, PlayedOrNowPlayingTrack, Track as RawTrack, TrackDate,
};
use activity_archive::lastfm::{tracks_from_page, LastfmFetcher, Track};
use activity_archive::sort_records;
use activity_archive::tweet::{MediaType, Tweet};
use activity_archive::twitter::{
    strip_archive_prelude, ArchivedTweet, ArchivedTweetEntities, ArchivedTweetMediaEntity,
    ArchivedTweetUrlEntity, TwitterArchiveImporter, WellFormedArchivedTweetUrlEntity,
};

fn archived(id: u64, text: &str) -> ArchivedTweet {
    ArchivedTweet {
        id,
        created_at: 1700000000,
        full_text: text.to_string(),
        entities: ArchivedTweetEntities { urls: Vec::new(), media: None },
        in_reply_to_status_id: None,
        in_reply_to_user_id: None,
        in_reply_to_screen_name: None,
    }
}

#[test]
fn retweets_are_recognized_by_text() {
    assert!(archived(1, "RT @someone: hello").is_retweet());
    assert!(!archived(2, "original thought").is_retweet());
    assert!(!archived(3, "RT").is_retweet());
}

#[test]
fn importer_drops_retweets_unless_asked() {
    let mut importer = TwitterArchiveImporter::new(vec!["tweets.js".to_string()]);
    let kept = importer.kept_tweets(vec![archived(1, "RT @x: no"), archived(2, "yes")]);
    assert_eq!(kept.len(), 1);
    assert_eq!(kept[0].id, 2);

    importer.include_retweets();
    let kept = importer.kept_tweets(vec![archived(1, "RT @x: no"), archived(2, "yes")]);
    assert_eq!(kept.len(), 2);
}

#[test]
fn archive_prelude_is_stripped() {
    let stripped = strip_archive_prelude("window.YTD.tweets.part0 = [ {\"tweet\": {}} ]");
    assert_eq!(stripped, "[ {\"tweet\": {}} ]");
    let stripped = strip_archive_prelude("window.YTD.tweets.part1 = []");
    assert_eq!(stripped, "[]");
    let stripped = strip_archive_prelude("[1, 2]");
    assert_eq!(stripped, "[1, 2]");
}

#[test]
fn archived_tweet_converts_field_by_field() {
    let mut t = archived(42, "hello");
    t.entities.urls.push(ArchivedTweetUrlEntity::Malformed { url: "bad".to_string() });
    t.entities.urls.push(ArchivedTweetUrlEntity::WellFormed(WellFormedArchivedTweetUrlEntity {
        display_url: "d".to_string(),
        expanded_url: Some("e".to_string()),
        url: "u".to_string(),
    }));
    t.entities.media = Some(vec![ArchivedTweetMediaEntity {
        id: 7,
        media_type: activity_archive::twitter::MediaType::Video,
        media_url_https: "m".to_string(),
    }]);
    t.in_reply_to_status_id = Some(5);
    t.in_reply_to_user_id = Some(6);
    t.in_reply_to_screen_name = Some("friend".to_string());

    let tweet = Tweet::from_archived(t);
    assert_eq!(tweet.id, 42);
    assert_eq!(tweet.created_at, 1700000000);
    assert_eq!(tweet.text, "hello");
    let entities = tweet.entities.expect("entities kept");
    let urls = entities.urls.expect("urls kept");
    assert_eq!(urls.len(), 1);
    assert_eq!(urls[0].display_url, "d");
    assert_eq!(urls[0].expanded_url.as_deref(), Some("e"));
    assert_eq!(urls[0].url, "u");
    let media = entities.media.expect("media kept");
    assert_eq!(media.len(), 1);
    assert_eq!(media[0].id, 7);
    assert!(matches!(media[0].media_type, MediaType::Video));
    assert_eq!(media[0].url, "m");
    let reply = tweet.in_reply_to.expect("reply kept");
    assert_eq!(reply.status_id, 5);
    assert_eq!(reply.user_id, 6);
    assert_eq!(reply.user_name, "friend");
}

#[test]
fn empty_entities_become_none() {
    let t = archived(1, "plain");
    let tweet = Tweet::from_archived(t);
    assert!(tweet.entities.is_none());
    assert!(tweet.in_reply_to.is_none());

    // A partial reply triple is not a reply.
    let mut t = archived(2, "plain");
    t.in_reply_to_status_id = Some(9);
    let tweet = Tweet::from_archived(t);
    assert!(tweet.in_reply_to.is_none());
}

#[test]
fn tweets_sort_descending_by_id() {
    let tweets: Vec<Tweet> =
        vec![archived(2, "b"), archived(9, "c"), archived(4, "a")].into_iter().map(
            Tweet::from_archived,
        ).collect();
    let sorted = sort_records(tweets);
    let ids: Vec<u64> = sorted.iter().map(|t| t.id).collect();
    assert_eq!(ids, vec![9, 4, 2]);
}

fn feed_item(reason: FeedReason, uri: &str) -> FeedViewItem {
    FeedViewItem {
        reason,
        reply_parent: None,
        uri: uri.to_string(),
        text: "post".to_string(),
        created_at: 1710000000,
    }
}

#[test]
fn feed_conversion_skips_reposts() {
    let feed = vec![
        feed_item(FeedReason::Original, "one"),
        feed_item(FeedReason::Repost, "two"),
        feed_item(FeedReason::Other, "three"),
    ];
    let posts = posts_from_feed(feed);
    let uris: Vec<&str> = posts.iter().map(|p| p.uri.as_str()).collect();
    assert_eq!(uris, vec!["one", "three"]);
}

#[test]
fn feed_conversion_keeps_only_visible_reply_parents() {
    let mut with_post = feed_item(FeedReason::Original, "a");
    with_post.reply_parent = Some(ReplyParentRef::Post(BlueskyPostReply {
        uri: "parent".to_string(),
        author_did: "did:x".to_string(),
        author_handle: "handle".to_string(),
    }));
    let mut with_missing = feed_item(FeedReason::Original, "b");
    with_missing.reply_parent = Some(ReplyParentRef::NotFoundPost);
    let mut with_blocked = feed_item(FeedReason::Original, "c");
    with_blocked.reply_parent = Some(ReplyParentRef::BlockedPost);

    let posts = posts_from_feed(vec![with_post, with_missing, with_blocked]);
    assert_eq!(posts.len(), 3);
    let reply = posts[0].in_reply_to.as_ref().expect("visible parent kept");
    assert_eq!(reply.uri, "parent");
    assert_eq!(reply.author_did, "did:x");
    assert_eq!(reply.author_handle, "handle");
    assert!(posts[1].in_reply_to.is_none());
    assert!(posts[2].in_reply_to.is_none());
}

fn raw_track(name: &str, artist: &str, album: &str, ts: i64) -> RawTrack {
    RawTrack {
        name: name.to_string(),
        artist: Artist { name: artist.to_string() },
        album: Album { name: album.to_string() },
        date: TrackDate { timestamp: ts, text: String::new() },
    }
}

#[test]
fn page_conversion_drops_now_playing() {
    let items = vec![
        PlayedOrNowPlayingTrack::NowPlaying(NowPlayingTrack {
            name: "spinning".to_string(),
            artist: Artist { name: "x".to_string() },
            album: Album { name: "y".to_string() },
        }),
        PlayedOrNowPlayingTrack::Played(raw_track("song", "band", "album", 1700000100)),
    ];
    let tracks = tracks_from_page(items);
    assert_eq!(tracks.len(), 1);
    assert_eq!(tracks[0].name, "song");
    assert_eq!(tracks[0].artist, "band");
    assert_eq!(tracks[0].album, "album");
    assert_eq!(tracks[0].listened_at, 1700000100);
}

#[test]
fn tracks_sort_by_time_then_name_descending() {
    let t = |name: &str, ts: i64| Track {
        name: name.to_string(),
        artist: "a".to_string(),
        album: "b".to_string(),
        listened_at: ts,
    };
    let sorted = sort_records(vec![t("alpha", 10), t("beta", 20), t("gamma", 20)]);
    let names: Vec<&str> = sorted.iter().map(|x| x.name.as_str()).collect();
    assert_eq!(names, vec!["gamma", "beta", "alpha"]);
}

#[test]
fn sort_is_a_function_of_content_not_insertion_order() {
    let t = |name: &str, ts: i64| Track {
        name: name.to_string(),
        artist: "a".to_string(),
        album: "b".to_string(),
        listened_at: ts,
    };
    let one = sort_records(vec![t("x", 1), t("y", 2), t("z", 3)]);
    let two = sort_records(vec![t("z", 3), t("x", 1), t("y", 2)]);
    let names = |v: &Vec<Track>| v.iter().map(|x| x.name.clone()).collect::<Vec<_>>();
    assert_eq!(names(&one), names(&two));
    assert_eq!(names(&one), vec!["z", "y", "x"]);
}

#[test]
fn listens_tied_on_time_and_name_are_both_kept() {
    // Two distinct listens can share a timestamp and a track name (two
    // artists, one title, one second). They are different records, so
    // both are stored and both are persisted.
    let t = |artist: &str| Track {
        name: "same title".to_string(),
        artist: artist.to_string(),
        album: "b".to_string(),
        listened_at: 1700000000,
    };
    let sorted = sort_records(vec![t("one"), t("two")]);
    assert_eq!(sorted.len(), 2);
    let mut artists: Vec<&str> = sorted.iter().map(|x| x.artist.as_str()).collect();
    artists.sort();
    assert_eq!(artists, vec!["one", "two"]);
}

#[test]
fn recent_tracks_query_is_exact() {
    let fetcher = LastfmFetcher::new("alice".to_string(), "k123".to_string());
    let query = fetcher.recent_tracks_query(3);
    assert_eq!(
        query,
        "user=alice&api_key=k123&method=user.getrecenttracks&format=json&limit=200&page=3"
    );
    let url = fetcher.recent_tracks_url(3);
    assert!(url.starts_with("https://ws.audioscrobbler.com/2.0/?user=alice&"));
    assert!(url.ends_with("&page=3"));
}
