//! Metadata extraction: tag lookup, year resolution and the error cases.

use deaftone::tag_helper::{get_metadata_flac, get_year, parse_year, StreamInfo, TagError};
use deaftone::tags::TagBlock;
use deaftone::text::{parse_i32, parse_u32, str_contains, str_ends_with, str_starts_with, u64_to_string};

fn block(pairs: &[(&str, &str)]) -> TagBlock {
    let mut b = TagBlock::new();
    for (k, v) in pairs {
        b.add(k.to_string(), v.to_string());
    }
    b
}

#[test]
fn year_prefers_year_over_date() {
    let b = block(&[("YEAR", "1999"), ("DATE", "2005-01-01")]);
    assert_eq!(get_year(&b), 1999);
}

#[test]
fn year_falls_back_to_date_prefix() {
    let b = block(&[("DATE", "2005-01-01")]);
    assert_eq!(get_year(&b), 2005);
}

#[test]
fn year_falls_back_to_original_year() {
    let b = block(&[("ORIGINALYEAR", "1987")]);
    assert_eq!(get_year(&b), 1987);
}

#[test]
fn year_defaults_to_zero() {
    let b = block(&[("YEAR", "99"), ("DATE", "05")]);
    assert_eq!(get_year(&b), 0);
    let empty = TagBlock::new();
    assert_eq!(get_year(&empty), 0);
}

#[test]
fn parse_year_truncates_full_dates() {
    assert_eq!(parse_year("2005-01-01"), 2005);
    assert_eq!(parse_year("1999"), 1999);
    assert_eq!(parse_year("not a year"), 0);
}

#[test]
fn numeric_parsers_match_std() {
    assert_eq!(parse_u32("42"), Some(42));
    assert_eq!(parse_u32("+7"), Some(7));
    assert_eq!(parse_u32("4294967295"), Some(u32::MAX));
    assert_eq!(parse_u32("4294967296"), None);
    assert_eq!(parse_u32(""), None);
    assert_eq!(parse_u32("12a"), None);
    assert_eq!(parse_i32("-2147483648"), Some(i32::MIN));
    assert_eq!(parse_i32("2147483647"), Some(i32::MAX));
    assert_eq!(parse_i32("2147483648"), None);
    assert_eq!(parse_i32("-0"), Some(0));
}

#[test]
fn decimal_rendering() {
    assert_eq!(u64_to_string(0), "0");
    assert_eq!(u64_to_string(42), "42");
    assert_eq!(u64_to_string(1234567890), "1234567890");
}

#[test]
fn string_searches() {
    assert!(str_ends_with("track.flac", ".flac"));
    assert!(!str_ends_with("track.mp3", ".flac"));
    assert!(str_starts_with("music/a/b", "music/a"));
    assert!(str_contains("folder.cover.jpg", "cover."));
    assert!(!str_contains("folder.jpg", "cover."));
}

#[test]
fn tag_block_collects_values_per_key() {
    let mut b = TagBlock::new();
    b.add("GENRE".to_string(), "Rock".to_string());
    b.add("GENRE".to_string(), "Pop".to_string());
    b.add("TITLE".to_string(), "Song".to_string());
    assert_eq!(b.first_value("GENRE"), Some("Rock".to_string()));
    assert_eq!(b.values_cloned("GENRE"), Some(vec!["Rock".to_string(), "Pop".to_string()]));
    assert_eq!(b.first_value("ALBUM"), None);
    assert_eq!(b.first_value_or("ALBUM", "fallback"), "fallback");
}

fn stream() -> StreamInfo {
    StreamInfo { total_samples: 441000, sample_rate: 44100, bits_per_sample: 16, num_channels: 2 }
}

#[test]
fn extraction_fills_fields() {
    let b = block(&[
        ("TITLE", "A Song"),
        ("ARTIST", "Someone"),
        ("ALBUM", "An Album"),
        ("ALBUMARTIST", "The Band"),
        ("TRACKNUMBER", "7"),
        ("DISCNUMBER", "2"),
        ("YEAR", "1999"),
        ("LYRICIST", "Writer"),
    ]);
    let si = stream();
    let md = get_metadata_flac(
        &"m/a/01.flac".to_string(),
        &"m/a".to_string(),
        Some(&b),
        Some(&si),
    )
    .unwrap();
    assert_eq!(md.name, "A Song");
    assert_eq!(md.artist, "Someone");
    assert_eq!(md.album_name, "An Album");
    assert_eq!(md.album_artist, "The Band");
    assert_eq!(md.track, 7);
    assert_eq!(md.disc, 2);
    assert_eq!(md.year, 1999);
    assert_eq!(md.lyricist, Some("Writer".to_string()));
    assert_eq!(md.length, 10);
    assert_eq!(md.sample_rate, Some(44100));
    assert_eq!(md.channels, Some(2));
    assert_eq!(md.bit_depth, Some(16));
    assert_eq!(md.path, "m/a/01.flac");
    assert_eq!(md.parent_path, "m/a");
}

#[test]
fn extraction_uses_fallback_titles() {
    let b = TagBlock::new();
    let si = stream();
    let md =
        get_metadata_flac(&"p.flac".to_string(), &"p".to_string(), Some(&b), Some(&si)).unwrap();
    assert_eq!(md.name, "FAILED TO READ TITLE DEAFTONE");
    assert_eq!(md.artist, "FAILED TO READ ARTIST DEAFTONE");
    assert_eq!(md.album_name, "FAILED TO READ ALBUM DEAFTONE");
    assert_eq!(md.track, 0);
    assert_eq!(md.year, 0);
}

#[test]
fn extraction_error_cases() {
    let si = stream();
    let r = get_metadata_flac(&"p.flac".to_string(), &"p".to_string(), None, Some(&si));
    assert_eq!(r.unwrap_err(), TagError::UnreadableTags);

    let b = TagBlock::new();
    let r = get_metadata_flac(&"p.flac".to_string(), &"p".to_string(), Some(&b), None);
    assert_eq!(r.unwrap_err(), TagError::MissingStreamInfo);

    let bad = StreamInfo { total_samples: 1, sample_rate: 0, bits_per_sample: 16, num_channels: 2 };
    let r = get_metadata_flac(&"p.flac".to_string(), &"p".to_string(), Some(&b), Some(&bad));
    assert_eq!(r.unwrap_err(), TagError::InvalidSampleRate);
}
