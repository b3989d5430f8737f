//! Metadata extractor: turns one audio file's tag block and stream
//! information into a normalized metadata record.  The year resolution
//! order — a 4-character `YEAR` tag, else a 4-character prefix of `DATE`,
//! else a 4-character `ORIGINALYEAR`, else 0 — is significant and fixed
//! here; duration is derived from the container's sample count and rate.

use vstd::prelude::*;
use crate::tags::{TagBlock, opt_list, opt_text, spec_first, spec_first_or, spec_values};
use crate::text::{parse_i32, parse_u32, spec_parse_i32, spec_parse_u32};

verus! {

/// The normalized metadata record extracted from one audio file.
#[derive(Debug)]
pub struct AudioMetadata {
    pub name: String,
    pub artist: String,
    pub artist_sort: Option<String>,
    pub album_name: String,
    pub album_artist: String,
    pub album_sort: Option<String>,
    pub genre: Option<Vec<String>>,
    pub style: Option<Vec<String>>,
    pub discogs_albumid: Option<String>,
    pub discogs_artistid: Option<String>,
    pub discogs_labelid: Option<String>,
    pub lyricist: Option<String>,
    pub composer: Option<String>,
    pub composer_sort: Option<String>,
    pub work: Option<String>,
    pub mb_workid: Option<String>,
    pub arranger: Option<String>,
    pub grouping: Option<String>,
    pub year: i32,
    pub lyrics: Option<String>,
    pub comments: Option<String>,
    pub bpm: Option<i32>,
    pub compilation: Option<String>,
    pub mb_track_id: Option<String>,
    pub mb_album_id: Option<String>,
    pub mb_artist_id: Option<String>,
    pub mb_albumartist_id: Option<String>,
    pub mb_releasetrack_id: Option<String>,
    pub mb_releasegroup_id: Option<String>,
    pub trackdisambig: Option<String>,
    pub album_type: Option<String>,
    pub acoustid_fingerprint: Option<String>,
    pub acoustid_id: Option<String>,
    pub asin: Option<String>,
    pub isrc: Option<String>,
    pub catalog_num: Option<String>,
    pub script: Option<String>,
    pub country: Option<String>,
    pub albumstatus: Option<String>,
    pub media: Option<String>,
    pub album_disambig: Option<String>,
    pub release_group_disambig: Option<String>,
    pub encodedby: Option<String>,
    pub original_year: Option<String>,
    pub initial_key: Option<String>,
    pub bit_rate: Option<i64>,
    pub encoder_settings: Option<String>,
    pub channels: Option<u8>,
    pub bit_depth: Option<u8>,
    pub sample_rate: Option<u32>,
    pub track: u32,
    pub disc: u32,
    pub length: u32,
    pub label: Option<String>,
    pub path: String,
    pub parent_path: String,
}

/// The stream-information block of the container: sample count and layout.
pub struct StreamInfo {
    pub total_samples: u64,
    pub sample_rate: u32,
    pub bits_per_sample: u8,
    pub num_channels: u8,
}

/// Why extraction of one file failed.  Any failure is recovered locally by
/// the caller: the file is skipped and the directory batch continues.
#[derive(Clone, Copy, Debug, PartialEq, Eq, Structural)]
pub enum TagError {
    /// The file has no parseable tag block.
    UnreadableTags,
    /// The container carries no stream-information block.
    MissingStreamInfo,
    /// The stream-information block gives a sample rate of zero, so no
    /// duration can be derived.
    InvalidSampleRate,
}

/// The tag value under `key`, or the empty string when absent.
pub open spec fn spec_tag_or_empty(t: Seq<(String, Vec<String>)>, key: Seq<char>) -> Seq<char> {
    match spec_first(t, key) {
        Some(v) => v,
        None => Seq::<char>::empty(),
    }
}

/// The year read from one date-like tag value: the first four characters
/// when the value is exactly ten characters long (a full date), else the
/// whole value, read as a number; 0 when it does not parse.
pub open spec fn spec_parse_year(s: Seq<char>) -> i32 {
    let t = if s.len() == 10 {
        s.take(4)
    } else {
        s
    };
    match spec_parse_i32(t) {
        Some(v) => v,
        None => 0,
    }
}

/// The resolved year of a tag block: a `YEAR` value of at least four
/// characters wins, else a `DATE` value of at least four characters, else
/// an `ORIGINALYEAR` value of at least four characters, else 0.
pub open spec fn spec_year(t: Seq<(String, Vec<String>)>) -> i32 {
    let year = spec_tag_or_empty(t, "YEAR"@);
    let date = spec_tag_or_empty(t, "DATE"@);
    let original_year = spec_tag_or_empty(t, "ORIGINALYEAR"@);
    if year.len() >= 4 {
        spec_parse_year(year)
    } else if date.len() >= 4 {
        spec_parse_year(date)
    } else if original_year.len() >= 4 {
        spec_parse_year(original_year)
    } else {
        0
    }
}

/// The track or disc number read from a tag value: the parsed number, or 0.
pub open spec fn spec_number_or_zero(t: Seq<(String, Vec<String>)>, key: Seq<char>) -> u32 {
    match spec_first(t, key) {
        Some(v) => match spec_parse_u32(v) {
            Some(n) => n,
            None => 0,
        },
        None => 0,
    }
}

/// Parses one date-like tag value into a year number.
pub fn parse_year(year: &str) -> (y: i32)
    ensures
        y == spec_parse_year(year@),
{
    let n = year.unicode_len();
    let r = if n == 10 {
        parse_i32(year.substring_char(0, 4))
    } else {
        parse_i32(year)
    };
    match r {
        Some(v) => v,
        None => 0,
    }
}

/// Resolves the year of a tag block, preferring `YEAR`, then `DATE`, then
/// `ORIGINALYEAR`, each only when at least four characters long.
pub fn get_year(tags: &TagBlock) -> (y: i32)
    requires
        tags.wf(),
    ensures
        y == spec_year(tags.entries@),
{
    let year = tags.first_value_or("YEAR", "");
    let date = tags.first_value_or("DATE", "");
    let original_year = tags.first_value_or("ORIGINALYEAR", "");
    proof {
        reveal_strlit("");
    }
    if year.as_str().unicode_len() >= 4 {
        parse_year(year.as_str())
    } else if date.as_str().unicode_len() >= 4 {
        parse_year(date.as_str())
    } else if original_year.as_str().unicode_len() >= 4 {
        parse_year(original_year.as_str())
    } else {
        0
    }
}

fn number_or_zero(tags: &TagBlock, key: &str) -> (n: u32)
    requires
        tags.wf(),
    ensures
        n == spec_number_or_zero(tags.entries@, key@),
{
    match tags.first_value(key) {
        Some(v) => match parse_u32(v.as_str()) {
            Some(n) => n,
            None => 0,
        },
        None => 0,
    }
}

/// All the field values of the record, as functions of the inputs.
pub open spec fn spec_extracted(
    m: AudioMetadata,
    t: Seq<(String, Vec<String>)>,
    stream: StreamInfo,
    path: Seq<char>,
    parent_path: Seq<char>,
) -> bool {
    &&& m.name@ == spec_first_or(t, "TITLE"@, "FAILED TO READ TITLE DEAFTONE"@)
    &&& m.artist@ == spec_first_or(t, "ARTIST"@, "FAILED TO READ ARTIST DEAFTONE"@)
    &&& opt_text(m.artist_sort) == spec_first(t, "ARTISTSORT"@)
    &&& m.album_name@ == spec_first_or(t, "ALBUM"@, "FAILED TO READ ALBUM DEAFTONE"@)
    &&& m.album_artist@ == spec_first_or(t, "ALBUMARTIST"@, "FAILED TO READ ALBUM DEAFTONE"@)
    &&& opt_text(m.album_sort) == spec_first(t, "ALBUMSORT"@)
    &&& opt_list(m.genre) == spec_values(t, "GENRE"@)
    &&& opt_list(m.style) == spec_values(t, "STYLE"@)
    &&& opt_text(m.discogs_albumid) == spec_first(t, "DISCOGS_ALBUMID"@)
    &&& opt_text(m.discogs_artistid) == spec_first(t, "DISCOGS_ARTISTID"@)
    &&& opt_text(m.discogs_labelid) == spec_first(t, "DISCOGS_LABELID"@)
    &&& opt_text(m.lyricist) == spec_first(t, "LYRICIST"@)
    &&& opt_text(m.composer) == spec_first(t, "COMPOSER"@)
    &&& opt_text(m.composer_sort) == spec_first(t, "COMPOSERSORT"@)
    &&& opt_text(m.work) == spec_first(t, "WORK"@)
    &&& opt_text(m.mb_workid) == spec_first(t, "MUSICBRAINZ_WORKID"@)
    &&& opt_text(m.arranger) == spec_first(t, "ARRANGER"@)
    &&& opt_text(m.grouping) == spec_first(t, "GROUPING"@)
    &&& m.year == spec_year(t)
    &&& opt_text(m.lyrics) == spec_first(t, "LYRICS"@)
    &&& opt_text(m.comments) == spec_first(t, "COMMENTS"@)
    &&& m.bpm == (match spec_first(t, "BPM"@) {
        Some(v) => spec_parse_i32(v),
        None => None,
    })
    &&& opt_text(m.compilation) == spec_first(t, "COMPILATION"@)
    &&& opt_text(m.mb_track_id) == spec_first(t, "MUSICBRAINZ_RELEASETRACKID"@)
    &&& opt_text(m.mb_album_id) == spec_first(t, "MUSICBRAINZ_ALBUMID"@)
    &&& opt_text(m.mb_artist_id) == spec_first(t, "MUSICBRAINZ_ARTISTID"@)
    &&& opt_text(m.mb_albumartist_id) == spec_first(t, "MUSICBRAINZ_ALBUMARTISTID"@)
    &&& opt_text(m.mb_releasetrack_id) == spec_first(t, "MUSICBRAINZ_RELEASETRACKID"@)
    &&& opt_text(m.mb_releasegroup_id) == spec_first(t, "MUSICBRAINZ_RELEASEGROUPID"@)
    &&& opt_text(m.trackdisambig) == spec_first(t, "TRACKDISAMBIG"@)
    &&& opt_text(m.album_type) == spec_first(t, "RELEASETYPE"@)
    &&& opt_text(m.acoustid_fingerprint) == spec_first(t, "ACOUSTID_FINGERPRINT"@)
    &&& opt_text(m.acoustid_id) == spec_first(t, "ACOUSTID_ID"@)
    &&& opt_text(m.asin) == spec_first(t, "ASIN"@)
    &&& opt_text(m.isrc) == spec_first(t, "ISRC"@)
    &&& opt_text(m.catalog_num) == spec_first(t, "CATALOGNUMBER"@)
    &&& opt_text(m.script) == spec_first(t, "SCRIPT"@)
    &&& opt_text(m.country) == spec_first(t, "RELEASECOUNTRY"@)
    &&& opt_text(m.albumstatus) == spec_first(t, "RELEASESTATUS"@)
    &&& opt_text(m.media) == spec_first(t, "MEDIA"@)
    &&& opt_text(m.album_disambig) == spec_first(t, "album_disambig"@)
    &&& opt_text(m.release_group_disambig) == spec_first(t, "release_group_disambig"@)
    &&& opt_text(m.encodedby) == spec_first(t, "ENCODEDBY"@)
    &&& opt_text(m.original_year) == spec_first(t, "ORIGINALYEAR"@)
    &&& opt_text(m.initial_key) == spec_first(t, "KEY"@)
    &&& m.bit_rate == Some(0i64)
    &&& opt_text(m.encoder_settings) == spec_first(t, "ENCODERSETTINGS"@)
    &&& m.channels == Some(stream.num_channels)
    &&& m.bit_depth == Some(stream.bits_per_sample)
    &&& m.sample_rate == Some(stream.sample_rate)
    &&& m.track == spec_number_or_zero(t, "TRACKNUMBER"@)
    &&& m.disc == spec_number_or_zero(t, "DISCNUMBER"@)
    &&& stream.sample_rate != 0 && m.length == (stream.total_samples as int
        / stream.sample_rate as int) % 0x1_0000_0000
    &&& opt_text(m.label) == spec_first(t, "LABEL"@)
    &&& m.path@ == path
    &&& m.parent_path@ == parent_path
}

/// Builds the metadata record for one file from its tag block and stream
/// information, read beforehand by the caller.  `tags` is `None` when the
/// file had no parseable tag block.  Fails exactly when the tag block is
/// missing, the stream information is missing, or the sample rate is zero;
/// otherwise every field is the function of the inputs that
/// [`spec_extracted`] states.
pub fn get_metadata_flac(
    path: &String,
    parent_path: &String,
    tags: Option<&TagBlock>,
    stream: Option<&StreamInfo>,
) -> (r: Result<AudioMetadata, TagError>)
    requires
        (match tags {
            Some(t) => t.wf(),
            None => true,
        }),
    ensures
        (match r {
            Ok(m) => tags is Some && stream is Some && spec_extracted(
                m,
                tags->Some_0.entries@,
                *stream->Some_0,
                path@,
                parent_path@,
            ),
            Err(e) => match e {
                TagError::UnreadableTags => tags is None,
                TagError::MissingStreamInfo => tags is Some && stream is None,
                TagError::InvalidSampleRate => tags is Some && stream is Some
                    && stream->Some_0.sample_rate == 0,
            },
        }),
{
    let t = match tags {
        Some(t) => t,
        None => {
            return Err(TagError::UnreadableTags);
        },
    };
    let si = match stream {
        Some(si) => si,
        None => {
            return Err(TagError::MissingStreamInfo);
        },
    };
    if si.sample_rate == 0 {
        return Err(TagError::InvalidSampleRate);
    }
    let length_u64 = si.total_samples / (si.sample_rate as u64);
    let length: u32 = (length_u64 % 0x1_0000_0000) as u32;
    proof {
        assert(length_u64 == si.total_samples as int / si.sample_rate as int);
        assert(length == length_u64 as int % 0x1_0000_0000);
    }
    let metadata = AudioMetadata {
        name: t.first_value_or("TITLE", "FAILED TO READ TITLE DEAFTONE"),
        artist: t.first_value_or("ARTIST", "FAILED TO READ ARTIST DEAFTONE"),
        artist_sort: t.first_value("ARTISTSORT"),
        album_name: t.first_value_or("ALBUM", "FAILED TO READ ALBUM DEAFTONE"),
        album_artist: t.first_value_or("ALBUMARTIST", "FAILED TO READ ALBUM DEAFTONE"),
        album_sort: t.first_value("ALBUMSORT"),
        genre: t.values_cloned("GENRE"),
        style: t.values_cloned("STYLE"),
        discogs_albumid: t.first_value("DISCOGS_ALBUMID"),
        discogs_artistid: t.first_value("DISCOGS_ARTISTID"),
        discogs_labelid: t.first_value("DISCOGS_LABELID"),
        lyricist: t.first_value("LYRICIST"),
        composer: t.first_value("COMPOSER"),
        composer_sort: t.first_value("COMPOSERSORT"),
        work: t.first_value("WORK"),
        mb_workid: t.first_value("MUSICBRAINZ_WORKID"),
        arranger: t.first_value("ARRANGER"),
        grouping: t.first_value("GROUPING"),
        year: get_year(t),
        lyrics: t.first_value("LYRICS"),
        comments: t.first_value("COMMENTS"),
        bpm: match t.first_value("BPM") {
            Some(v) => parse_i32(v.as_str()),
            None => None,
        },
        compilation: t.first_value("COMPILATION"),
        mb_track_id: t.first_value("MUSICBRAINZ_RELEASETRACKID"),
        mb_album_id: t.first_value("MUSICBRAINZ_ALBUMID"),
        mb_artist_id: t.first_value("MUSICBRAINZ_ARTISTID"),
        mb_albumartist_id: t.first_value("MUSICBRAINZ_ALBUMARTISTID"),
        mb_releasetrack_id: t.first_value("MUSICBRAINZ_RELEASETRACKID"),
        mb_releasegroup_id: t.first_value("MUSICBRAINZ_RELEASEGROUPID"),
        trackdisambig: t.first_value("TRACKDISAMBIG"),
        album_type: t.first_value("RELEASETYPE"),
        acoustid_fingerprint: t.first_value("ACOUSTID_FINGERPRINT"),
        acoustid_id: t.first_value("ACOUSTID_ID"),
        asin: t.first_value("ASIN"),
        isrc: t.first_value("ISRC"),
        catalog_num: t.first_value("CATALOGNUMBER"),
        script: t.first_value("SCRIPT"),
        country: t.first_value("RELEASECOUNTRY"),
        albumstatus: t.first_value("RELEASESTATUS"),
        media: t.first_value("MEDIA"),
        album_disambig: t.first_value("album_disambig"),
        release_group_disambig: t.first_value("release_group_disambig"),
        encodedby: t.first_value("ENCODEDBY"),
        original_year: t.first_value("ORIGINALYEAR"),
        initial_key: t.first_value("KEY"),
        bit_rate: Some(0),
        encoder_settings: t.first_value("ENCODERSETTINGS"),
        channels: Some(si.num_channels),
        bit_depth: Some(si.bits_per_sample),
        sample_rate: Some(si.sample_rate),
        track: number_or_zero(t, "TRACKNUMBER"),
        disc: number_or_zero(t, "DISCNUMBER"),
        length,
        label: t.first_value("LABEL"),
        path: path.clone(),
        parent_path: parent_path.clone(),
    };
    Ok(metadata)
}

} // verus!
