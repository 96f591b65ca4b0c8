//! Verified core of a personal activity archiver: an incremental,
//! multi-source synchronization engine that pages through a source of
//! activity records, partitions them by calendar year, deduplicates them
//! against previously persisted records, stops at the resume boundary,
//! and hands each touched year back in a deterministic order.

pub mod bluesky;
pub mod engine;
pub mod files;
pub mod lastfm;
pub mod record;
pub mod snapshot;
pub mod source;
pub mod store;
pub mod text;
pub mod time;
pub mod tweet;
pub mod twitter;

pub use bluesky::{
    lemma_post_order_ties, lemma_post_snapshot_deterministic, posts_from_feed, spec_post_of_item,
    spec_posts_of_feed, spec_reply_of, BlueskyPost, BlueskyPostReply, FeedReason, FeedViewItem,
    ReplyParentRef,
};
pub use engine::{
    lemma_full_sync_page_complete, lemma_full_sync_run_complete, lemma_incremental_idempotent,
    pages_in_range, sync_items, sync_run, PageOutcome, SyncEngine, SyncMode,
};
pub use files::{
    cache_file_name, is_year_file_name, lemma_year_file_name_round_trip, parse_year_file_name,
    select_latest_snapshot, snapshot_file_name, toml_suffix, year_file_stem,
};
pub use lastfm::types::{
    Album, Artist, GetRecentTracksResponse, Metadata, NowPlayingTrack, PlayedOrNowPlayingTrack,
    RecentTracks, TrackDate,
};
pub use lastfm::{
    distinct_listen_keys, lemma_track_snapshot_deterministic, spec_canonical_track, spec_played_of,
    spec_query_string, spec_recent_tracks_pairs, spec_tracks_of_page, tracks_from_page,
    LastfmFetcher, Track,
};
pub use record::{no_dup_ids, seq_contains_id, Record};
pub use snapshot::{
    lemma_no_dup_ids_permutation, lemma_snapshot_no_dup_ids, lemma_sorted_unique_by_place,
    no_order_ties, placed_le_fn, sort_records, sorted_out,
};
pub use source::{Source, VecSource};
pub use store::{
    map_contains_id, map_insert, map_records, record_year, seed_records, YearPartition, YearStore,
};
pub use text::{
    all_digits, digits_val, has_prefix, spec_digits, spec_str_le, str_has_prefix, str_le,
    trim_trailing_amp, uint_to_string,
};
pub use time::{ts_in_range, year_of_ts, year_of_unix, MAX_TS_SECS};
pub use tweet::{
    entities_match, lemma_tweet_order_ties, lemma_tweet_snapshot_deterministic, reply_match,
    spec_media_entity, spec_media_type, spec_url_entity, spec_urls_of, MediaType, Tweet,
    TweetEntities, TweetMediaEntity, TweetReply, TweetUrlEntity,
};
pub use twitter::{
    spec_kept_tweets, spec_stripped_archive, strip_archive_prelude, ArchivedTweet,
    ArchivedTweetEntities, ArchivedTweetMediaEntity, ArchivedTweetUrlEntity, ArchivedTweetWrapper,
    TwitterArchiveImporter, WellFormedArchivedTweetUrlEntity,
};
