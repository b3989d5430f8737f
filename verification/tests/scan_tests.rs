//! The scanner: directory batches, full and partial walks, change
//! detection, and scan idempotence end to end.

use deaftone::change::{check_directory, DirStatus};
use deaftone::scan::{DirReport, ScanService, ScanType, TagSource, TrackFile};
use deaftone::store::Store;
use deaftone::tag_helper::StreamInfo;
use deaftone::tags::TagBlock;

fn track(path: &str, title: &str, artist: &str, album: &str) -> TrackFile {
    let mut b = TagBlock::new();
    b.add("TITLE".to_string(), title.to_string());
    b.add("ARTIST".to_string(), artist.to_string());
    b.add("ALBUMARTIST".to_string(), artist.to_string());
    b.add("ALBUM".to_string(), album.to_string());
    b.add("TRACKNUMBER".to_string(), "1".to_string());
    let stream = StreamInfo {
        total_samples: 441000,
        sample_rate: 44100,
        bits_per_sample: 16,
        num_channels: 2,
    };
    TrackFile { path: path.to_string(), source: TagSource::Tags { tags: b, stream: Some(stream) } }
}

fn unreadable(path: &str) -> TrackFile {
    TrackFile { path: path.to_string(), source: TagSource::Unreadable }
}

fn dir(path: &str, mtime: i64, files: &[&str], tracks: Vec<TrackFile>) -> DirReport {
    DirReport {
        path: path.to_string(),
        present: true,
        mtime,
        files: files.iter().map(|f| f.to_string()).collect(),
        tracks,
    }
}

fn now() -> String {
    "2024-01-01 00:00:00".to_string()
}

#[test]
fn change_detection_verdicts() {
    assert_eq!(check_directory(true, 3, 101, Some(100)), DirStatus::Modified);
    assert_eq!(check_directory(true, 3, 100, Some(100)), DirStatus::Unchanged);
    assert_eq!(check_directory(true, 3, 99, Some(100)), DirStatus::Unchanged);
    assert_eq!(check_directory(false, 0, 100, Some(100)), DirStatus::Missing);
    assert_eq!(check_directory(true, 0, 100, Some(100)), DirStatus::Missing);
    assert_eq!(check_directory(true, 3, 100, None), DirStatus::New);
}

#[test]
fn batch_reuses_artist_and_album() {
    // ten tracks sharing one album name issue exactly one artist and one
    // album lookup-or-create, not ten
    let mut svc = ScanService::new(Store::new());
    let mut tracks = Vec::new();
    for i in 0..10 {
        tracks.push(track(
            &format!("m/a/{:02}.flac", i),
            &format!("Track {}", i),
            "The Band",
            "One Album",
        ));
    }
    let d = dir("m/a", 100, &["m/a/cover.jpg"], tracks);
    let out = svc.scan_dir(&d, &now());
    assert_eq!(out.processed, 10);
    assert_eq!(out.skipped, 0);
    assert_eq!(out.artist_resolutions, 1);
    assert_eq!(out.album_resolutions, 1);
    assert_eq!(svc.store.artists.len(), 1);
    assert_eq!(svc.store.albums.len(), 1);
    assert_eq!(svc.store.songs.len(), 10);
    assert_eq!(svc.store.albums[0].cover, Some("m/a/cover.jpg".to_string()));
    for song in &svc.store.songs {
        assert_eq!(song.album_id, Some(svc.store.albums[0].id));
    }
}

#[test]
fn batch_skips_unreadable_tracks() {
    let mut svc = ScanService::new(Store::new());
    let d = dir(
        "m/a",
        100,
        &[],
        vec![
            unreadable("m/a/broken.flac"),
            track("m/a/good.flac", "Good", "B", "A"),
            TrackFile { path: "m/a/notes.txt".to_string(), source: TagSource::Unreadable },
        ],
    );
    let out = svc.scan_dir(&d, &now());
    assert_eq!(out.processed, 1);
    assert_eq!(out.skipped, 1, "only audio files count as skipped");
    assert_eq!(svc.store.songs.len(), 1);
    assert_eq!(svc.store.songs[0].title, "Good");
}

#[test]
fn full_walk_records_directories_and_skips_hidden() {
    let mut svc = ScanService::new(Store::new());
    let tree = vec![
        dir("m/a", 100, &[], vec![track("m/a/01.flac", "T1", "X", "A")]),
        dir("m/.hidden", 100, &[], vec![track("m/.hidden/01.flac", "T2", "X", "H")]),
        dir("m/b", 200, &[], vec![track("m/b/01.flac", "T3", "Y", "B")]),
    ];
    svc.walk_full_initial(&tree, &now());
    assert!(svc.store.scanned_full);
    assert_eq!(svc.store.directories.len(), 2);
    assert_eq!(svc.store.songs.len(), 2);
    assert!(svc.store.songs.iter().all(|s| !s.path.contains(".hidden")));
}

#[test]
fn full_scan_twice_is_idempotent() {
    // identical artist, album and song counts and ids after the second run
    let tree = vec![
        dir("m/a", 100, &[], vec![
            track("m/a/01.flac", "T1", "X", "A"),
            track("m/a/02.flac", "T2", "X", "A"),
        ]),
        dir("m/b", 200, &[], vec![track("m/b/01.flac", "T3", "Y", "B")]),
    ];
    let mut svc = ScanService::new(Store::new());
    let mut status = false;
    svc.start_scan(ScanType::FullScan, &tree, &mut status);
    assert!(!status);
    let artists1: Vec<u64> = svc.store.artists.iter().map(|r| r.id).collect();
    let albums1: Vec<u64> = svc.store.albums.iter().map(|r| r.id).collect();
    let songs1: Vec<u64> = svc.store.songs.iter().map(|r| r.id).collect();

    svc.start_scan(ScanType::FullScan, &tree, &mut status);
    let artists2: Vec<u64> = svc.store.artists.iter().map(|r| r.id).collect();
    let albums2: Vec<u64> = svc.store.albums.iter().map(|r| r.id).collect();
    let songs2: Vec<u64> = svc.store.songs.iter().map(|r| r.id).collect();

    assert_eq!(artists1, artists2);
    assert_eq!(albums1, albums2);
    assert_eq!(songs1, songs2);
}

#[test]
fn partial_walk_applies_verdicts() {
    let tree = vec![
        dir("m/a", 100, &["m/a/01.flac"], vec![track("m/a/01.flac", "Old", "X", "A")]),
        dir("m/b", 100, &["m/b/01.flac"], vec![track("m/b/01.flac", "B", "Y", "B")]),
    ];
    let mut svc = ScanService::new(Store::new());
    svc.walk_full_initial(&tree, &now());
    assert_eq!(svc.store.songs.len(), 2);

    // the first directory was modified, the second vanished
    let fs = vec![
        dir("m/a", 150, &["m/a/01.flac"], vec![track("m/a/01.flac", "New", "X", "A")]),
        DirReport {
            path: "m/b".to_string(),
            present: false,
            mtime: 0,
            files: Vec::new(),
            tracks: Vec::new(),
        },
    ];
    svc.walk_partial(&fs, &now());
    assert_eq!(svc.store.directories.len(), 1);
    assert_eq!(svc.store.directories[0].path, "m/a");
    assert_eq!(svc.store.directories[0].mtime, 150);
    assert_eq!(svc.store.songs.len(), 1);
    assert_eq!(svc.store.songs[0].title, "New");
}

#[test]
fn partial_walk_leaves_unchanged_directories_alone() {
    let tree = vec![dir("m/a", 100, &[], vec![track("m/a/01.flac", "T", "X", "A")])];
    let mut svc = ScanService::new(Store::new());
    svc.walk_full_initial(&tree, &now());
    let before = svc.store.songs[0].updated_at.clone();

    let fs = vec![dir("m/a", 100, &["m/a/01.flac"], vec![track("m/a/01.flac", "T", "X", "A")])];
    svc.walk_partial(&fs, &"2024-02-02 00:00:00".to_string());
    assert_eq!(svc.store.songs[0].updated_at, before);
    assert_eq!(svc.store.directories[0].mtime, 100);
}
