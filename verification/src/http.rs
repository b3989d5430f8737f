//! The HTTP service layer's envelope and response shapes, with the
//! builders that fill them.  Routing, serialization and the socket belong
//! to the surrounding program; the shapes and their filling are library
//! logic.

use vstd::prelude::*;
use crate::metadata::ArtistMetadata;
use crate::store::{AlbumRow, SongRow};
use crate::text::spec_u64_digits;
use crate::text::u64_to_string;

verus! {

/// Whether a request succeeded, as the envelope reports it.
#[derive(Clone, Copy, Debug, PartialEq, Eq, Structural)]
pub enum Status {
    Success,
    Error,
}

/// The envelope of a failed request.
pub struct ErrorResponse {
    pub status: Status,
    pub message: String,
}

/// The envelope of a successful request.
pub struct SuccessResponse<T> {
    pub status: Status,
    pub message: T,
}

/// The service handle; running it belongs to the surrounding program.
pub struct Server {}

/// The liveness probe's body.
pub struct TestResponse {
    pub state: String,
}

/// One album with its songs, in the service layer's shape.
pub struct AlbumResponse {
    pub id: String,
    pub name: String,
    pub artist: String,
    pub artist_id: String,
    pub album_description: String,
    pub year: i32,
    pub song_count: i32,
    pub songs: Vec<SongRow>,
}

/// One artist with biography, links and albums.
pub struct ArtistResponse {
    pub id: String,
    pub name: String,
    pub image: String,
    pub biography: String,
    pub links: ArtistLinks,
    pub albums: Vec<AlbumRow>,
}

/// The outward links collected for one artist.
pub struct ArtistLinks {
    pub all_music: Option<String>,
    pub amazon_music: Option<String>,
    pub apple_music: Option<String>,
    pub deezer: Option<String>,
    pub discogs: Option<String>,
    pub facebook: Option<String>,
    pub itunes: Option<String>,
    pub spotify: Option<String>,
    pub tidal: Option<String>,
    pub twitter: Option<String>,
    pub wiki: Option<String>,
    pub youtube: Option<String>,
}

/// One playlist with its songs.
pub struct PlayListResponse {
    pub id: String,
    pub name: String,
    pub songs: Vec<SongRow>,
}

/// The new value of a song's `liked` flag.
pub struct LikeResponse {
    pub liked: bool,
}

/// One song, in the service layer's shape.
pub struct SongResponse {
    pub id: String,
    pub path: String,
    pub title: String,
    pub disk: i32,
    pub artist: String,
    pub album_name: String,
    pub length: u32,
    pub year: i32,
    pub album_id: String,
    pub liked: bool,
}

/// The artist listing's query parameters.
pub struct GetAllArtists {
    pub sort: Option<String>,
    pub size: Option<u64>,
    pub page: Option<u64>,
}

/// The task endpoint's query parameter.
pub struct TaskQuery {
    pub task: Option<String>,
}

/// The task endpoint's acknowledgement.
pub struct TaskResponse {
    pub status: String,
}

/// The album listing's query parameters.
pub struct GetAllAlbums {
    pub sort: Option<String>,
    pub size: Option<u64>,
    pub page: Option<u64>,
}

fn opt_clone(o: &Option<String>) -> (r: Option<String>)
    ensures
        r == *o,
{
    match o {
        Some(s) => Some(s.clone()),
        None => None,
    }
}

/// Fills the link block from an enrichment record; the one link the record
/// does not collect stays empty.
pub fn artist_links(m: &ArtistMetadata) -> (r: ArtistLinks)
    ensures
        r.all_music == m.all_music,
        r.amazon_music == m.amazon_music,
        r.apple_music == m.apple_music,
        r.deezer == m.deezer,
        r.discogs == m.discogs,
        r.facebook == m.facebook,
        r.itunes is None,
        r.spotify == m.spotify,
        r.tidal == m.tidal,
        r.twitter == m.twitter,
        r.wiki == m.wiki,
        r.youtube == m.youtube,
{
    ArtistLinks {
        all_music: opt_clone(&m.all_music),
        amazon_music: opt_clone(&m.amazon_music),
        apple_music: opt_clone(&m.apple_music),
        deezer: opt_clone(&m.deezer),
        discogs: opt_clone(&m.discogs),
        facebook: opt_clone(&m.facebook),
        itunes: None,
        spotify: opt_clone(&m.spotify),
        tidal: opt_clone(&m.tidal),
        twitter: opt_clone(&m.twitter),
        wiki: opt_clone(&m.wiki),
        youtube: opt_clone(&m.youtube),
    }
}

/// Acknowledges an accepted task request.
pub fn task_sent_response() -> (r: TaskResponse)
    ensures
        r.status@ == "sent"@,
{
    TaskResponse { status: String::from_str("sent") }
}

/// Fills the playlist response from its parts.
pub fn playlist_response(id: u64, name: &String, songs: Vec<SongRow>) -> (r: PlayListResponse)
    ensures
        r.id@ == spec_u64_digits(id as int),
        r.name == *name,
        r.songs == songs,
{
    PlayListResponse { id: u64_to_string(id), name: name.clone(), songs }
}

} // verus!
