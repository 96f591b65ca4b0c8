//! The shapes the scrobble history endpoint answers with, reduced to
//! plain values: the caller decodes the JSON body into these. A track's
//! date is UTC seconds since the Unix epoch plus the endpoint's own text
//! rendering of it.

use vstd::prelude::*;

verus! {

/// The response to a recent-tracks page request.
pub struct GetRecentTracksResponse {
    pub recent_tracks: RecentTracks,
}

pub struct RecentTracks {
    pub track: Vec<PlayedOrNowPlayingTrack>,
    pub metadata: Metadata,
}

/// A page mixes finished listens with the track playing right now,
/// which has no date yet and is never archived.
pub enum PlayedOrNowPlayingTrack {
    Played(Track),
    NowPlaying(NowPlayingTrack),
}

pub struct Track {
    pub name: String,
    pub artist: Artist,
    pub album: Album,
    pub date: TrackDate,
}

pub struct NowPlayingTrack {
    pub name: String,
    pub artist: Artist,
    pub album: Album,
}

pub struct Artist {
    pub name: String,
}

pub struct Album {
    pub name: String,
}

pub struct TrackDate {
    pub timestamp: i64,
    pub text: String,
}

/// Paging bookkeeping the endpoint reports with every page.
pub struct Metadata {
    pub page: i32,
    pub total_pages: i32,
    pub per_page: i32,
    pub total: i32,
}

} // verus!
