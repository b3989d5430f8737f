//! Artist enrichment: link picking and text normalization.

use deaftone::metadata::{ArtistMetadata, RelationInfo};

fn rel(kind: &str, url: Option<&str>) -> RelationInfo {
    RelationInfo { relation_type: kind.to_string(), url: url.map(|u| u.to_string()) }
}

#[test]
fn new_record_is_empty() {
    let m = ArtistMetadata::new();
    assert!(m.biography.is_none());
    assert!(m.all_music.is_none());
    assert!(m.youtube.is_none());
    assert!(m.wiki.is_none());
    assert!(m.discogs.is_none());
}

#[test]
fn link_picking() {
    let mut m = ArtistMetadata::new();
    let rels = Some(vec![
        rel("youtube", Some("yt1")),
        rel("allmusic", Some("am1")),
        rel("allmusic", Some("am2")),
        rel("wikidata", Some("wd1")),
        rel("discogs", Some("dg1")),
        rel("youtube", Some("yt2")),
        rel("bandcamp", Some("ignored")),
        rel("youtube", None),
    ]);
    m.get_links(&rels);
    assert_eq!(m.youtube, Some("yt2".to_string()), "the last address of a kind wins");
    assert_eq!(m.all_music, Some("am1".to_string()), "the biography site keeps the first");
    assert_eq!(m.wiki, Some("wd1".to_string()));
    assert_eq!(m.discogs, Some("dg1".to_string()));
    assert!(m.spotify.is_none());
}

#[test]
fn link_picking_leaves_missing_kinds_alone() {
    let mut m = ArtistMetadata::new();
    m.youtube = Some("kept".to_string());
    m.get_links(&Some(vec![rel("discogs", Some("dg"))]));
    assert_eq!(m.youtube, Some("kept".to_string()));
    assert_eq!(m.discogs, Some("dg".to_string()));
}

#[test]
fn whitespace_trimming_collapses_spaces() {
    assert_eq!(ArtistMetadata::trim_whitespace("  a   b  "), "a b");
    assert_eq!(ArtistMetadata::trim_whitespace("plain"), "plain");
    assert_eq!(ArtistMetadata::trim_whitespace("   "), "");
    assert_eq!(ArtistMetadata::trim_whitespace("\n\t text \t\n"), "text");
    // only plain spaces are collapsed; inner tabs stay
    assert_eq!(ArtistMetadata::trim_whitespace(" a\t\tb "), "a\t\tb");
}
