//! The row store: upserts, lookups, deletions and orphan cleanup.

use deaftone::store::Store;
use deaftone::tag_helper::{get_metadata_flac, StreamInfo};
use deaftone::tags::TagBlock;

fn meta(path: &str, title: &str, artist: &str, album: &str) -> deaftone::tag_helper::AudioMetadata {
    let mut b = TagBlock::new();
    b.add("TITLE".to_string(), title.to_string());
    b.add("ARTIST".to_string(), artist.to_string());
    b.add("ALBUMARTIST".to_string(), artist.to_string());
    b.add("ALBUM".to_string(), album.to_string());
    let si = StreamInfo { total_samples: 88200, sample_rate: 44100, bits_per_sample: 16, num_channels: 2 };
    get_metadata_flac(&path.to_string(), &"m/a".to_string(), Some(&b), Some(&si)).unwrap()
}

fn now() -> String {
    "2024-01-01 00:00:00".to_string()
}

#[test]
fn artist_create_and_find() {
    let mut s = Store::new();
    assert_eq!(s.find_artist_by_name(&"The Band".to_string()), None);
    let id = s.create_artist(&"The Band".to_string(), &None, &now());
    assert_eq!(s.find_artist_by_name(&"The Band".to_string()), Some(id));
    assert_eq!(s.artists.len(), 1);
    assert_eq!(s.artists[0].name, "The Band");
}

#[test]
fn album_create_and_find() {
    let mut s = Store::new();
    let a = s.create_artist(&"The Band".to_string(), &None, &now());
    let md = meta("m/a/01.flac", "T", "The Band", "An Album");
    assert_eq!(s.find_album(&"An Album".to_string(), &"m/a".to_string()), None);
    let b = s.create_album(Some("m/a/cover.jpg".to_string()), a, &md, &"m/a".to_string(), &now());
    assert_eq!(s.find_album(&"An Album".to_string(), &"m/a".to_string()), Some(b));
    assert_eq!(s.albums[0].artist_id, Some(a));
    assert_eq!(s.albums[0].cover, Some("m/a/cover.jpg".to_string()));
    assert_eq!(s.albums[0].path, "m/a");
}

#[test]
fn song_upsert_keeps_identity() {
    let mut s = Store::new();
    let a = s.create_artist(&"The Band".to_string(), &None, &now());
    let md = meta("m/a/01.flac", "First Title", "The Band", "An Album");
    let b = s.create_album(None, a, &md, &"m/a".to_string(), &now());
    s.create_song(b, &md, &now());
    assert_eq!(s.songs.len(), 1);
    let first_id = s.songs[0].id;
    assert!(!s.songs[0].liked);

    // re-inserting the same path updates rather than duplicates
    let md2 = meta("m/a/01.flac", "New Title", "The Band", "An Album");
    s.create_song(b, &md2, &now());
    assert_eq!(s.songs.len(), 1);
    assert_eq!(s.songs[0].id, first_id);
    assert_eq!(s.songs[0].title, "New Title");

    // a different path gets its own row
    let md3 = meta("m/a/02.flac", "Other", "The Band", "An Album");
    s.create_song(b, &md3, &now());
    assert_eq!(s.songs.len(), 2);
    assert_ne!(s.songs[1].id, first_id);
}

#[test]
fn like_toggles_and_survives_upsert() {
    let mut s = Store::new();
    let a = s.create_artist(&"X".to_string(), &None, &now());
    let md = meta("m/a/01.flac", "T", "X", "A");
    let b = s.create_album(None, a, &md, &"m/a".to_string(), &now());
    s.create_song(b, &md, &now());
    let id = s.songs[0].id;
    assert_eq!(s.like_song(id), Some(true));
    assert_eq!(s.like_song(9999), None);
    s.create_song(b, &md, &now());
    assert!(s.songs[0].liked, "the liked flag belongs to the serving layer and survives a rescan");
    assert_eq!(s.like_song(id), Some(false));
}

#[test]
fn directory_insert_updates_mtime() {
    let mut s = Store::new();
    s.insert_directory(&"m/a".to_string(), 100, &now());
    assert_eq!(s.directories.len(), 1);
    let id = s.directories[0].id;
    s.insert_directory(&"m/a".to_string(), 200, &now());
    assert_eq!(s.directories.len(), 1);
    assert_eq!(s.directories[0].id, id);
    assert_eq!(s.directories[0].mtime, 200);
}

#[test]
fn prefix_deletion_and_directory_removal() {
    let mut s = Store::new();
    let a = s.create_artist(&"X".to_string(), &None, &now());
    let md1 = meta("m/a/01.flac", "T1", "X", "A");
    let md2 = meta("m/b/01.flac", "T2", "X", "B");
    let b1 = s.create_album(None, a, &md1, &"m/a".to_string(), &now());
    let b2 = s.create_album(None, a, &md2, &"m/b".to_string(), &now());
    s.create_song(b1, &md1, &now());
    s.create_song(b2, &md2, &now());
    s.insert_directory(&"m/a".to_string(), 1, &now());
    s.insert_directory(&"m/b".to_string(), 1, &now());

    s.delete_songs_with_prefix(&"m/a".to_string());
    s.remove_directory(&"m/a".to_string());
    assert_eq!(s.songs.len(), 1);
    assert_eq!(s.songs[0].path, "m/b/01.flac");
    assert_eq!(s.directories.len(), 1);
    assert_eq!(s.directories[0].path, "m/b");
}

#[test]
fn orphan_cleanup_scenario() {
    // seed one artist with one album with one song; delete the song; after
    // cleanup both the album and the artist are gone
    let mut s = Store::new();
    let a = s.create_artist(&"Solo".to_string(), &None, &now());
    let md = meta("m/a/only.flac", "Only", "Solo", "One");
    let b = s.create_album(None, a, &md, &"m/a".to_string(), &now());
    s.create_song(b, &md, &now());
    s.delete_songs_with_prefix(&"m/a/only.flac".to_string());
    assert_eq!(s.songs.len(), 0);
    s.reap_orphans();
    assert_eq!(s.albums.len(), 0);
    assert_eq!(s.artists.len(), 0);
}

#[test]
fn cleanup_keeps_referenced_rows() {
    let mut s = Store::new();
    let a = s.create_artist(&"Kept".to_string(), &None, &now());
    let md = meta("m/a/01.flac", "T", "Kept", "A");
    let b = s.create_album(None, a, &md, &"m/a".to_string(), &now());
    s.create_song(b, &md, &now());
    let orphan_artist = s.create_artist(&"Gone".to_string(), &None, &now());
    let md2 = meta("m/b/01.flac", "T2", "Gone", "B");
    let _orphan_album = s.create_album(None, orphan_artist, &md2, &"m/b".to_string(), &now());
    s.reap_orphans();
    // referential integrity after reconciliation: every album kept has a
    // song, every artist kept has an album
    assert_eq!(s.albums.len(), 1);
    assert_eq!(s.artists.len(), 1);
    assert_eq!(s.artists[0].name, "Kept");
    for album in &s.albums {
        assert!(s.songs.iter().any(|song| song.album_id == Some(album.id)));
    }
    for artist in &s.artists {
        assert!(s.albums.iter().any(|album| album.artist_id == Some(artist.id)));
    }
}

#[test]
fn getters_find_rows() {
    let mut s = Store::new();
    let a = s.create_artist(&"X".to_string(), &None, &now());
    let md = meta("m/a/01.flac", "T", "X", "A");
    let b = s.create_album(None, a, &md, &"m/a".to_string(), &now());
    s.create_song(b, &md, &now());
    let sid = s.songs[0].id;
    assert_eq!(s.get_song_by_id(sid).unwrap().title, "T");
    assert!(s.get_song_by_id(777).is_none());
    assert_eq!(s.get_song_by_path(&"m/a/01.flac".to_string()).unwrap().id, sid);
    assert_eq!(s.get_album_by_id(b).unwrap().name, "A");
    assert_eq!(s.get_artist_by_id(a).unwrap().name, "X");
    assert_eq!(s.songs_for_album(b).len(), 1);
    assert_eq!(s.albums_for_artist(a).len(), 1);
    assert_eq!(s.songs_for_album(9999).len(), 0);
}
