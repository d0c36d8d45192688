//! What the Spotify web API sends and takes, and how its tracks become the
//! room's tracks.
use crate::shared::{Track, TrackArt};
use vstd::prelude::*;

verus! {

/// The body of a request to play tracks from a position.
#[derive(Debug, PartialEq, Clone)]
pub struct PlayRequest {
    pub uris: Vec<String>,
    pub position_ms: u32,
}

/// The body of a request to queue a track.
#[derive(Debug, PartialEq, Clone)]
pub struct QueueRequest {
    pub uri: String,
}

/// A Spotify user.
#[derive(Debug, PartialEq, Clone)]
pub struct SpotifyProfile {
    pub id: String,
    pub display_name: String,
}

/// An image of an album.
#[derive(Debug, PartialEq, Clone)]
pub struct SpotifyImage {
    pub height: u32,
    pub width: u32,
    pub url: String,
}

/// An album, with its images.
#[derive(Debug, PartialEq, Clone)]
pub struct SpotifyAlbum {
    pub id: String,
    pub name: String,
    pub images: Vec<SpotifyImage>,
}

/// A track as Spotify describes it.
#[derive(Debug, PartialEq, Clone)]
pub struct SpotifyTrack {
    pub id: String,
    pub name: String,
    pub uri: String,
    pub duration_ms: u32,
    pub artists: Vec<SpotifyArtist>,
    pub album: SpotifyAlbum,
}

/// The answer to a search.
#[derive(Debug, PartialEq, Clone)]
pub struct SpotifySearchResult {
    pub tracks: SpotifyTrackList,
}

/// The tracks found by a search.
#[derive(Debug, PartialEq, Clone)]
pub struct SpotifyTrackList {
    pub items: Vec<SpotifyTrack>,
}

/// An artist of a track.
#[derive(Debug, PartialEq, Clone)]
pub struct SpotifyArtist {
    pub name: String,
}

impl From<SpotifyImage> for TrackArt {
    fn from(spotify_art: SpotifyImage) -> (art: Self) {
        TrackArt { uri: spotify_art.url, width: spotify_art.width, height: spotify_art.height }
    }
}

impl vstd::std_specs::convert::FromSpecImpl<SpotifyImage> for TrackArt {
    open spec fn obeys_from_spec() -> bool {
        true
    }

    open spec fn from_spec(v: SpotifyImage) -> TrackArt {
        TrackArt { uri: v.url, width: v.width, height: v.height }
    }
}

/// The names of the artists, separated by ", ".
pub open spec fn joined_names(artists: Seq<SpotifyArtist>) -> Seq<char>
    decreases artists.len(),
{
    if artists.len() == 0 {
        Seq::empty()
    } else if artists.len() == 1 {
        artists[0].name@
    } else {
        joined_names(artists.drop_last()) + ", "@ + artists.last().name@
    }
}

/// Joins the names of the artists with ", ".
pub fn artist_names(artists: &Vec<SpotifyArtist>) -> (names: String)
    ensures
        names@ == joined_names(artists@),
{
    let mut names = String::new();
    let n = artists.len();
    let mut i: usize = 0;
    proof {
        reveal_strlit(", ");
    }
    while i < n
        invariant
            i <= n,
            n == artists@.len(),
            names@ == joined_names(artists@.take(i as int)),
            ", "@ == seq![',', ' '],
        decreases n - i,
    {
        proof {
            assert(artists@.take(i + 1).drop_last() =~= artists@.take(i as int));
        }
        if i > 0 {
            names.append(", ");
        }
        names.append(artists[i].name.as_str());
        proof {
            if i == 0 {
                assert(joined_names(artists@.take(0)) =~= Seq::<char>::empty());
                assert(names@ =~= artists@[0].name@);
            }
        }
        i = i + 1;
    }
    assert(artists@.take(n as int) =~= artists@);
    names
}

/// `track` is the room's track for the Spotify track `spotify_track`: its
/// ids and texts, the names of its artists joined with ", ", and the last
/// image of its album as art (or an empty art when the album has none).
pub open spec fn converted_track(spotify_track: SpotifyTrack, track: Track) -> bool {
    &&& track.id == spotify_track.id
    &&& track.name == spotify_track.name
    &&& track.uri == spotify_track.uri
    &&& track.duration_ms == spotify_track.duration_ms
    &&& track.artist@ == joined_names(spotify_track.artists@)
    &&& spotify_track.album.images@.len() > 0 ==> {
        let last = spotify_track.album.images@.last();
        track.artwork == (TrackArt { uri: last.url, width: last.width, height: last.height })
    }
    &&& spotify_track.album.images@.len() == 0 ==> track.artwork.uri@.len() == 0
        && track.artwork.width == 0 && track.artwork.height == 0
}

/// The room's track for a Spotify track (see `converted_track`).
pub fn track_from_spotify(spotify_track: SpotifyTrack) -> (track: Track)
    ensures
        converted_track(spotify_track, track),
        track.id == spotify_track.id,
        track.name == spotify_track.name,
        track.uri == spotify_track.uri,
        track.duration_ms == spotify_track.duration_ms,
        track.artist@ == joined_names(spotify_track.artists@),
        spotify_track.album.images@.len() > 0 ==> {
            let last = spotify_track.album.images@.last();
            track.artwork == (TrackArt { uri: last.url, width: last.width, height: last.height })
        },
        spotify_track.album.images@.len() == 0 ==> track.artwork.uri@.len() == 0
            && track.artwork.width == 0 && track.artwork.height == 0,
{
    let artist = artist_names(&spotify_track.artists);
    let SpotifyTrack { id, name, uri, duration_ms, artists, album } = spotify_track;
    let mut images = album.images;
    let artwork = match images.pop() {
        Some(image) => TrackArt::from(image),
        None => TrackArt::default(),
    };
    Track { id: id, name: name, artist: artist, uri: uri, duration_ms: duration_ms, artwork: artwork }
}

} // verus!
