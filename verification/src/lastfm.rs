//! The canonical listening-event record and the scrobble-history
//! fetcher's verified half. A listening event has no natural id, so its
//! identity is all of its significant fields together; snapshots are
//! ordered by descending timestamp with the track name, descending, as
//! the tie-break. The HTTP request itself sits with the caller; the
//! request query it sends is built and specified here.

use vstd::prelude::*;
use vstd::string::StringExecFns;

use crate::record::{no_dup_ids, Record};
use crate::snapshot::{no_order_ties, sorted_out};
use crate::text::{
    int_to_string, lemma_str_le_antisym, lemma_str_le_total, lemma_str_le_trans, spec_int_chars,
    spec_str_le, str_le, trim_amp, trim_trailing_amp,
};

pub mod types;

use types::PlayedOrNowPlayingTrack;

verus! {

/// One finished listen, normalized.
pub struct Track {
    pub name: String,
    pub artist: String,
    pub album: String,
    pub listened_at: i64,
}

impl Record for Track {
    open spec fn ts(&self) -> int {
        self.listened_at as int
    }

    open spec fn same_id(&self, other: &Self) -> bool {
        &&& self.name@ == other.name@
        &&& self.artist@ == other.artist@
        &&& self.album@ == other.album@
        &&& self.listened_at == other.listened_at
    }

    open spec fn placed_le(&self, other: &Self) -> bool {
        self.listened_at > other.listened_at || (self.listened_at == other.listened_at
            && spec_str_le(other.name@, self.name@))
    }

    proof fn lemma_same_id_refl(&self) {
    }

    proof fn lemma_same_id_sym(&self, other: &Self) {
    }

    proof fn lemma_placed_le_total(&self, other: &Self) {
        if self.listened_at == other.listened_at {
            lemma_str_le_total(other.name@, self.name@);
        }
    }

    proof fn lemma_placed_le_trans(a: &Self, b: &Self, c: &Self) {
        if a.listened_at == b.listened_at && b.listened_at == c.listened_at {
            lemma_str_le_trans(c.name@, b.name@, a.name@);
        }
    }

    fn eq_id(&self, other: &Self) -> (r: bool) {
        self.name == other.name && self.artist == other.artist && self.album == other.album
            && self.listened_at == other.listened_at
    }

    fn ts_secs(&self) -> (t: i64) {
        self.listened_at
    }

    fn placed_before(&self, other: &Self) -> (r: bool) {
        if self.listened_at != other.listened_at {
            self.listened_at > other.listened_at
        } else {
            str_le(other.name.as_str(), self.name.as_str())
        }
    }
}

/// No two listening events of `s` share both their timestamp and their
/// track name. Distinct listens can tie on both — the same track name at
/// the same second by two artists — and for such sets the snapshot order
/// does not determine a unique sequence.
pub open spec fn distinct_listen_keys(s: Seq<Track>) -> bool {
    forall|i: int, j: int|
        #![trigger s[i], s[j]]
        0 <= i < j < s.len() ==> !(s[i].listened_at == s[j].listened_at && s[i].name@
            == s[j].name@)
}

/// Writing a year of listens is deterministic whenever no two distinct
/// listens tie on timestamp and track name together.
pub proof fn lemma_track_snapshot_deterministic(x: Seq<Track>, y: Seq<Track>)
    requires
        sorted_out(x),
        sorted_out(y),
        x.to_multiset() == y.to_multiset(),
        distinct_listen_keys(x),
    ensures
        x == y,
{
    assert(no_order_ties(x)) by {
        assert forall|a: Track, b: Track|
            x.contains(a) && x.contains(b) && #[trigger] a.placed_le(&b) && #[trigger] b.placed_le(
                &a,
            ) implies a == b by {
            lemma_str_le_antisym(a.name@, b.name@);
            let i = choose|i: int| 0 <= i < x.len() && x[i] == a;
            let j = choose|j: int| 0 <= j < x.len() && x[j] == b;
            if i < j {
                assert(!(x[i].listened_at == x[j].listened_at && x[i].name@ == x[j].name@));
            } else if j < i {
                assert(!(x[j].listened_at == x[i].listened_at && x[j].name@ == x[i].name@));
            }
        }
    }
    crate::snapshot::lemma_sorted_unique_by_place(x, y);
}

/// The canonical record for one raw track.
pub open spec fn spec_canonical_track(t: types::Track) -> Track {
    Track {
        name: t.name,
        artist: t.artist.name,
        album: t.album.name,
        listened_at: t.date.timestamp,
    }
}

/// The record one page entry yields: none while a track is still
/// playing.
pub open spec fn spec_played_of(e: PlayedOrNowPlayingTrack) -> Option<Track> {
    match e {
        PlayedOrNowPlayingTrack::Played(t) => Some(spec_canonical_track(t)),
        PlayedOrNowPlayingTrack::NowPlaying(_) => None,
    }
}

/// The records of one fetched page, in delivery order.
pub open spec fn spec_tracks_of_page(items: Seq<PlayedOrNowPlayingTrack>) -> Seq<Track> {
    items.filter_map(|e: PlayedOrNowPlayingTrack| spec_played_of(e))
}

/// Converts one fetched page into canonical records, in delivery order,
/// dropping the still-playing entry.
#[verifier::loop_isolation(false)]
pub fn tracks_from_page(items: Vec<PlayedOrNowPlayingTrack>) -> (tracks: Vec<Track>)
    ensures
        tracks@ == spec_tracks_of_page(items@),
{
    broadcast use Seq::lemma_filter_map_take_succ;

    let ghost f = |e: PlayedOrNowPlayingTrack| spec_played_of(e);
    let ghost orig = items@;
    let mut items = items;
    let mut tracks: Vec<Track> = Vec::new();
    proof {
        assert(orig.take(0).filter_map(f) =~= Seq::<Track>::empty());
    }
    let n = items.len();
    let mut i: usize = 0;
    while i < n
        invariant
            i <= n,
            n == orig.len(),
            items@ == orig.skip(i as int),
            tracks@ == orig.take(i as int).filter_map(f),
        decreases n - i,
    {
        let e = items.remove(0);
        proof {
            assert(orig.skip(i as int)[0] == orig[i as int]);
            assert(items@ =~= orig.skip(i as int + 1));
        }
        match e {
            PlayedOrNowPlayingTrack::Played(t) => {
                tracks.push(
                    Track {
                        name: t.name,
                        artist: t.artist.name,
                        album: t.album.name,
                        listened_at: t.date.timestamp,
                    },
                );
            },
            PlayedOrNowPlayingTrack::NowPlaying(_) => {},
        }
        i = i + 1;
    }
    proof {
        assert(orig.take(n as int) =~= orig);
    }
    tracks
}

/// A query string as `key=value&` runs, in order, unescaped.
pub open spec fn spec_query_string(pairs: Seq<(Seq<char>, Seq<char>)>) -> Seq<char>
    decreases pairs.len(),
{
    if pairs.len() == 0 {
        Seq::empty()
    } else {
        spec_query_string(pairs.drop_last()) + pairs.last().0 + seq!['='] + pairs.last().1
            + seq!['&']
    }
}

/// Relies on querystring::stringify: joins each pair as `key=value&`, in
/// order, with no escaping.
#[verifier::external_body]
fn stringify_pairs(pairs: Vec<(&str, &str)>) -> (r: String)
    ensures
        r@ == spec_query_string(pairs@.map_values(|p: (&str, &str)| (p.0@, p.1@))),
{
    querystring::stringify(pairs)
}

/// The query pairs of a recent-tracks page request.
pub open spec fn spec_recent_tracks_pairs(user: Seq<char>, api_key: Seq<char>, page: int) -> Seq<
    (Seq<char>, Seq<char>),
> {
    seq![
        ("user"@, user),
        ("api_key"@, api_key),
        ("method"@, "user.getrecenttracks"@),
        ("format"@, "json"@),
        ("limit"@, "200"@),
        ("page"@, spec_int_chars(page)),
    ]
}

/// The scrobble-history fetcher's configuration: the account whose
/// history is archived and the API key the endpoint requires. The
/// caller performs the HTTP request for [`LastfmFetcher::recent_tracks_url`]
/// and decodes the JSON into [`types::GetRecentTracksResponse`].
pub struct LastfmFetcher {
    pub user: String,
    pub api_key: String,
}

impl LastfmFetcher {
    pub fn new(user: String, api_key: String) -> (s: Self)
        ensures
            s.user == user,
            s.api_key == api_key,
    {
        LastfmFetcher { user, api_key }
    }

    /// The query string of a recent-tracks page request: the fixed pairs
    /// joined unescaped, with the trailing separator trimmed.
    pub fn recent_tracks_query(&self, page: i32) -> (q: String)
        ensures
            q@ == trim_amp(
                spec_query_string(
                    spec_recent_tracks_pairs(self.user@, self.api_key@, page as int),
                ),
            ),
    {
        let page_s = int_to_string(page as i64);
        let mut pairs: Vec<(&str, &str)> = Vec::new();
        pairs.push(("user", self.user.as_str()));
        pairs.push(("api_key", self.api_key.as_str()));
        pairs.push(("method", "user.getrecenttracks"));
        pairs.push(("format", "json"));
        pairs.push(("limit", "200"));
        pairs.push(("page", page_s.as_str()));
        proof {
            assert(pairs@.map_values(|p: (&str, &str)| (p.0@, p.1@)) =~= spec_recent_tracks_pairs(
                self.user@,
                self.api_key@,
                page as int,
            ));
        }
        let joined = stringify_pairs(pairs);
        trim_trailing_amp(joined.as_str())
    }

    /// The full URL of a recent-tracks page request.
    pub fn recent_tracks_url(&self, page: i32) -> (u: String)
        ensures
            u@ == "https://ws.audioscrobbler.com/2.0/?"@ + trim_amp(
                spec_query_string(
                    spec_recent_tracks_pairs(self.user@, self.api_key@, page as int),
                ),
            ),
    {
        let mut u = String::from_str("https://ws.audioscrobbler.com/2.0/?");
        let q = self.recent_tracks_query(page);
        u.append(q.as_str());
        u
    }
}

} // verus!
