//! The response shapes and their builders, plus settings and the scanner
//! handle.

use deaftone::http::{artist_links, task_sent_response, Status};
use deaftone::metadata::ArtistMetadata;
use deaftone::responses::{album_response, artist_response, like_response, song_response};
use deaftone::scanner::Scanner;
use deaftone::settings::Settings;
use deaftone::store::Store;
use deaftone::tag_helper::{get_metadata_flac, StreamInfo};
use deaftone::tags::TagBlock;

fn seeded_store() -> Store {
    let mut s = Store::new();
    let now = "2024-01-01 00:00:00".to_string();
    let a = s.create_artist(&"X".to_string(), &None, &now);
    let mut b = TagBlock::new();
    b.add("TITLE".to_string(), "T".to_string());
    b.add("ARTIST".to_string(), "X".to_string());
    b.add("ALBUMARTIST".to_string(), "X".to_string());
    b.add("ALBUM".to_string(), "A".to_string());
    let si = StreamInfo { total_samples: 44100, sample_rate: 44100, bits_per_sample: 16, num_channels: 2 };
    let md = get_metadata_flac(&"m/a/01.flac".to_string(), &"m/a".to_string(), Some(&b), Some(&si))
        .unwrap();
    let alb = s.create_album(None, a, &md, &"m/a".to_string(), &now);
    s.create_song(alb, &md, &now);
    s
}

#[test]
fn song_response_renders_ids() {
    let s = seeded_store();
    let song = &s.songs[0];
    let r = song_response(song, &"A".to_string());
    assert_eq!(r.id, song.id.to_string());
    assert_eq!(r.album_id, song.album_id.unwrap().to_string());
    assert_eq!(r.title, "T");
    assert_eq!(r.album_name, "A");
    assert_eq!(r.length, 1);
    assert!(!r.liked);
}

#[test]
fn album_response_counts_songs() {
    let s = seeded_store();
    let album = &s.albums[0];
    let songs = s.songs_for_album(album.id);
    let r = album_response(album, songs);
    assert_eq!(r.id, album.id.to_string());
    assert_eq!(r.name, "A");
    assert_eq!(r.artist, "X");
    assert_eq!(r.artist_id, album.artist_id.unwrap().to_string());
    assert_eq!(r.song_count, 1);
    assert_eq!(r.songs.len(), 1);
    assert_eq!(r.album_description, "");
}

#[test]
fn artist_response_carries_albums() {
    let s = seeded_store();
    let artist = &s.artists[0];
    let albums = s.albums_for_artist(artist.id);
    let r = artist_response(artist, albums);
    assert_eq!(r.id, artist.id.to_string());
    assert_eq!(r.name, "X");
    assert_eq!(r.albums.len(), 1);
    assert_eq!(r.image, "");
    assert_eq!(r.bio, "");
}

#[test]
fn link_block_mirrors_enrichment() {
    let mut m = ArtistMetadata::new();
    m.youtube = Some("yt".to_string());
    m.wiki = Some("wd".to_string());
    let links = artist_links(&m);
    assert_eq!(links.youtube, Some("yt".to_string()));
    assert_eq!(links.wiki, Some("wd".to_string()));
    assert!(links.itunes.is_none());
    assert!(links.spotify.is_none());
}

#[test]
fn small_builders() {
    assert!(like_response(true).liked);
    assert_eq!(task_sent_response().status, "sent");
    assert!(matches!(Status::Success, Status::Success));
}

#[test]
fn settings_defaults() {
    let s = Settings::new_default();
    assert_eq!(s.log_level, "info");
    assert_eq!(s.db_path, "./deaftone.sqlite");
    assert_eq!(s.media_path, "./music");
}

#[test]
fn scanner_wraps_settings() {
    let scanner = Scanner::new(Settings::new_default()).unwrap();
    assert_eq!(scanner.settings.media_path, "./music");
}
