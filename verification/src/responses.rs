//! The serving layer's response shapes over the store's rows, with the
//! builders that fill them.  Identifiers are rendered as decimal text at
//! this edge; serialization itself belongs to the surrounding program.

use vstd::prelude::*;
use crate::store::{AlbumRow, ArtistRow, SongRow};
use crate::text::{spec_u64_digits, u64_to_string};

verus! {

/// One album with its songs, as the album endpoint returns it.
pub struct AlbumResponse {
    pub id: String,
    pub name: String,
    pub artist: String,
    pub artist_id: String,
    pub album_description: String,
    pub year: i32,
    pub song_count: i32,
    pub songs: Vec<SongRow>,
}

/// One artist with its albums, as the artist endpoint returns it.
pub struct ArtistResponse {
    pub id: String,
    pub name: String,
    pub image: String,
    pub bio: String,
    pub albums: Vec<AlbumRow>,
}

/// One playlist with its songs.
pub struct PlayListResponse {
    pub id: String,
    pub name: String,
    pub songs: Vec<SongRow>,
}

/// The new value of a song's `liked` flag.
pub struct LikeResponse {
    pub liked: bool,
}

/// One song, as the song endpoint returns it.
pub struct SongResponse {
    pub id: String,
    pub path: String,
    pub title: String,
    pub disk: i32,
    pub artist: String,
    pub album_name: String,
    pub length: u32,
    pub year: i32,
    pub album_id: String,
    pub liked: bool,
}

/// The artist listing's query parameters.
pub struct GetAllArtists {
    pub sort: Option<String>,
    pub size: Option<u64>,
    pub page: Option<u64>,
}

/// The album listing's query parameters.
pub struct GetAllAlbums {
    pub sort: Option<String>,
    pub size: Option<u64>,
    pub page: Option<u64>,
}

/// An optional identifier rendered as decimal text; empty when absent.
pub open spec fn spec_opt_id_text(id: Option<u64>) -> Seq<char> {
    match id {
        Some(v) => spec_u64_digits(v as int),
        None => Seq::<char>::empty(),
    }
}

/// Renders an optional identifier, with the empty string for a missing
/// link, as the row readers do.
pub fn opt_id_text(id: Option<u64>) -> (r: String)
    ensures
        r@ == spec_opt_id_text(id),
{
    match id {
        Some(v) => u64_to_string(v),
        None => String::new(),
    }
}

/// Fills the song response from a song row and its album's name.
pub fn song_response(song: &SongRow, album_name: &String) -> (r: SongResponse)
    ensures
        r.id@ == spec_u64_digits(song.id as int),
        r.path == song.path,
        r.title == song.title,
        r.disk == song.disc as i32,
        r.artist == song.artist,
        r.album_name == *album_name,
        r.length == song.length,
        r.year == song.year,
        r.album_id@ == spec_opt_id_text(song.album_id),
        r.liked == song.liked,
    {
        SongResponse {
            id: u64_to_string(song.id),
            path: song.path.clone(),
            title: song.title.clone(),
            disk: #[verifier::truncate] (song.disc as i32),
            artist: song.artist.clone(),
            album_name: album_name.clone(),
            length: song.length,
            year: song.year,
            album_id: opt_id_text(song.album_id),
            liked: song.liked,
        }
    }

/// Fills the album response from an album row and its songs.
pub fn album_response(album: &AlbumRow, songs: Vec<SongRow>) -> (r: AlbumResponse)
    requires
        songs@.len() <= i32::MAX,
    ensures
        r.id@ == spec_u64_digits(album.id as int),
        r.name == album.name,
        r.artist == album.album_artist,
        r.artist_id@ == spec_opt_id_text(album.artist_id),
        r.album_description@.len() == 0,
        r.year == album.year,
        r.song_count == songs@.len(),
        r.songs == songs,
{
    let song_count = songs.len() as i32;
    AlbumResponse {
        id: u64_to_string(album.id),
        name: album.name.clone(),
        artist: album.album_artist.clone(),
        artist_id: opt_id_text(album.artist_id),
        album_description: String::new(),
        year: album.year,
        song_count,
        songs,
    }
}

/// Fills the artist response from an artist row and its albums.
pub fn artist_response(artist: &ArtistRow, albums: Vec<AlbumRow>) -> (r: ArtistResponse)
    ensures
        r.id@ == spec_u64_digits(artist.id as int),
        r.name == artist.name,
        r.image@.len() == 0,
        r.bio@.len() == 0,
        r.albums == albums,
{
    ArtistResponse {
        id: u64_to_string(artist.id),
        name: artist.name.clone(),
        image: String::new(),
        bio: String::new(),
        albums,
    }
}

/// Wraps a toggled `liked` flag.
pub fn like_response(liked: bool) -> (r: LikeResponse)
    ensures
        r.liked == liked,
{
    LikeResponse { liked }
}

} // verus!
