//! The directory scanner and tree walker: drives change detection, metadata
//! extraction and row reconciliation over a snapshot of the media tree.
//! The surrounding program walks the filesystem and reads each track's tag
//! block; the engine takes those plain values and performs every decision
//! and every store write, under the contracts below.

use vstd::prelude::*;
use crate::change::{check_directory, spec_check_directory, DirStatus};
use crate::store::{lemma_filter_element_origin, Store};
use crate::tags::{opt_text, spec_first, spec_first_or, TagBlock};
use crate::tag_helper::{
    get_metadata_flac, spec_number_or_zero, spec_year, AudioMetadata, StreamInfo,
};
use crate::text::{spec_contains, spec_ends_with, spec_starts_with, str_contains, str_ends_with};

verus! {

/// Which walk a scan request asks for.
#[derive(Clone, Copy, Debug, PartialEq, Eq, Structural)]
pub enum ScanType {
    /// Visit every directory under the media root.
    FullScan,
    /// Revisit only the directories already known to the store.
    PartialScan,
}

/// What reading one track's tag block yielded.
pub enum TagSource {
    /// The tag block was parsed; the stream-information block may still be
    /// absent.
    Tags { tags: TagBlock, stream: Option<StreamInfo> },
    /// The file had no parseable tag block.
    Unreadable,
}

/// One file of a directory listing that may be an audio track.
pub struct TrackFile {
    pub path: String,
    pub source: TagSource,
}

/// One directory of the media tree as the filesystem shows it: whether the
/// path still exists, its modification time, the names of all its files —
/// for cover-art search — and its candidate tracks with their tag data.
pub struct DirReport {
    pub path: String,
    pub present: bool,
    pub mtime: i64,
    pub files: Vec<String>,
    pub tracks: Vec<TrackFile>,
}

/// The outcome of one directory batch: how many tracks were reconciled, how
/// many skipped over extraction failures, how many artist and album
/// resolutions the batch issued, and the resolved row identifiers it cached.
pub struct BatchOutcome {
    pub processed: usize,
    pub skipped: usize,
    pub artist_resolutions: usize,
    pub album_resolutions: usize,
    pub artist_id: Option<u64>,
    pub album_id: Option<u64>,
}

/// Recognized audio files carry the container's extension.
pub open spec fn track_is_flac(t: TrackFile) -> bool {
    spec_ends_with(t.path@, ".flac"@)
}

/// The comment entries of a track's tag block; empty when unreadable.
pub open spec fn track_entries(t: TrackFile) -> Seq<(String, Vec<String>)> {
    match t.source {
        TagSource::Tags { tags, stream } => tags.entries@,
        TagSource::Unreadable => Seq::empty(),
    }
}

/// Extraction succeeds on a track exactly when its tag block was parsed, a
/// stream-information block is present, and the sample rate is not zero.
pub open spec fn track_readable(t: TrackFile) -> bool {
    match t.source {
        TagSource::Tags { tags, stream } => match stream {
            Some(si) => si.sample_rate != 0,
            None => false,
        },
        TagSource::Unreadable => false,
    }
}

/// A track the scanner reconciles: a readable audio file.
pub open spec fn processable(t: TrackFile) -> bool {
    track_is_flac(t) && track_readable(t)
}

/// A track the scanner skips: an audio file whose extraction fails.
pub open spec fn skipped_track(t: TrackFile) -> bool {
    track_is_flac(t) && !track_readable(t)
}

/// The track's title, with the extractor's fallback.
pub open spec fn track_title(t: TrackFile) -> Seq<char> {
    spec_first_or(track_entries(t), "TITLE"@, "FAILED TO READ TITLE DEAFTONE"@)
}

/// The track's artist, with the extractor's fallback.
pub open spec fn track_artist(t: TrackFile) -> Seq<char> {
    spec_first_or(track_entries(t), "ARTIST"@, "FAILED TO READ ARTIST DEAFTONE"@)
}

/// The track's album name, with the extractor's fallback.
pub open spec fn track_album_name(t: TrackFile) -> Seq<char> {
    spec_first_or(track_entries(t), "ALBUM"@, "FAILED TO READ ALBUM DEAFTONE"@)
}

/// The track's album artist, with the extractor's fallback.
pub open spec fn track_album_artist(t: TrackFile) -> Seq<char> {
    spec_first_or(track_entries(t), "ALBUMARTIST"@, "FAILED TO READ ALBUM DEAFTONE"@)
}

/// The track's external artist identifier, when tagged.
pub open spec fn track_mb_artist_id(t: TrackFile) -> Option<Seq<char>> {
    spec_first(track_entries(t), "MUSICBRAINZ_ARTISTID"@)
}

/// The track's resolved year.
pub open spec fn track_year(t: TrackFile) -> i32 {
    spec_year(track_entries(t))
}

/// The track's number within its disc.
pub open spec fn track_number(t: TrackFile) -> u32 {
    spec_number_or_zero(track_entries(t), "TRACKNUMBER"@)
}

/// The track's disc number.
pub open spec fn track_disc(t: TrackFile) -> u32 {
    spec_number_or_zero(track_entries(t), "DISCNUMBER"@)
}

/// The track's duration in seconds, from sample count and rate.
pub open spec fn track_length(t: TrackFile) -> int {
    match t.source {
        TagSource::Tags { tags, stream } => match stream {
            Some(si) => (si.total_samples as int / si.sample_rate as int) % 0x1_0000_0000,
            None => 0,
        },
        TagSource::Unreadable => 0,
    }
}

/// A track's tag block is well formed when parsed at all.
pub open spec fn track_wf(t: TrackFile) -> bool {
    match t.source {
        TagSource::Tags { tags, stream } => tags.wf(),
        TagSource::Unreadable => true,
    }
}

/// The file paths of a listing are pairwise distinct, as a filesystem
/// guarantees.
pub open spec fn tracks_distinct(ts: Seq<TrackFile>) -> bool {
    forall|i: int, j: int| 0 <= i < j < ts.len() ==> ts[i].path@ != ts[j].path@
}

/// A directory listing is well formed: every tag block is, and the file
/// paths listed as tracks are pairwise distinct.
pub open spec fn report_wf(d: DirReport) -> bool {
    &&& forall|i: int| 0 <= i < d.tracks@.len() ==> track_wf(#[trigger] d.tracks@[i])
    &&& tracks_distinct(d.tracks@)
}

/// How many elements of a sequence satisfy a predicate.
pub open spec fn count_where<A>(s: Seq<A>, p: spec_fn(A) -> bool) -> int
    decreases s.len(),
{
    if s.len() == 0 {
        0
    } else {
        count_where(s.drop_last(), p) + if p(s.last()) {
            1int
        } else {
            0int
        }
    }
}

/// Counting over a one-longer prefix adds the new element's contribution.
pub proof fn lemma_count_step<A>(s: Seq<A>, i: int, p: spec_fn(A) -> bool)
    requires
        0 <= i < s.len(),
    ensures
        count_where(s.take(i + 1), p) == count_where(s.take(i), p) + if p(s[i]) {
            1int
        } else {
            0int
        },
{
    assert(s.take(i + 1).drop_last() =~= s.take(i));
    assert(s.take(i + 1).last() == s[i]);
}

/// A count never exceeds the length, and never falls below zero.
pub proof fn lemma_count_bounds<A>(s: Seq<A>, p: spec_fn(A) -> bool)
    ensures
        0 <= count_where(s, p) <= s.len(),
    decreases s.len(),
{
    if s.len() > 0 {
        lemma_count_bounds(s.drop_last(), p);
    }
}

/// Some track of the listing is processable.
pub open spec fn has_processable(ts: Seq<TrackFile>) -> bool {
    exists|i: int| 0 <= i < ts.len() && processable(#[trigger] ts[i])
}

/// `fi` is the first processable track of the listing.
pub open spec fn is_first_processable(ts: Seq<TrackFile>, fi: int) -> bool {
    &&& 0 <= fi < ts.len()
    &&& processable(ts[fi])
    &&& forall|j: int| 0 <= j < fi ==> !processable(#[trigger] ts[j])
}

/// The cover-art path recorded for a directory: the last listed file whose
/// name contains the cover marker.
pub open spec fn spec_find_cover(files: Seq<String>) -> Option<Seq<char>>
    decreases files.len(),
{
    if files.len() == 0 {
        None
    } else if spec_contains(files.last()@, "cover."@) {
        Some(files.last()@)
    } else {
        spec_find_cover(files.drop_last())
    }
}

/// Searches a directory's file names for cover art, as the scanner does
/// once per album creation.
pub fn find_cover(files: &Vec<String>) -> (cover: Option<String>)
    ensures
        opt_text(cover) == spec_find_cover(files@),
{
    let n = files.len();
    let mut cover: Option<String> = None;
    let mut i: usize = 0;
    proof {
        assert(files@.take(0) =~= Seq::<String>::empty());
    }
    while i < n
        invariant
            0 <= i <= n,
            n == files@.len(),
            opt_text(cover) == spec_find_cover(files@.take(i as int)),
        decreases n - i,
    {
        if str_contains(files[i].as_str(), "cover.") {
            cover = Some(files[i].clone());
        }
        proof {
            assert(files@.take(i + 1).drop_last() =~= files@.take(i as int));
            assert(files@.take(i + 1).last() == files@[i as int]);
        }
        i = i + 1;
    }
    proof {
        assert(files@.take(n as int) =~= files@);
    }
    cover
}

/// How one batch resolved its artist: the cached identifier names a row
/// carrying the first readable track's album artist; the table is unchanged
/// when that name already had a row, and grew by exactly that row when not.
pub open spec fn artist_resolution_post(
    o: Store,
    n: Store,
    aid: u64,
    f: TrackFile,
    now: String,
) -> bool {
    &&& exists|i: int|
        0 <= i < n.artists@.len() && (#[trigger] n.artists@[i]).id == aid && n.artists@[i].name@
            == track_album_artist(f)
    &&& if o.has_artist_name(track_album_artist(f)) {
        n.artists@ == o.artists@
    } else {
        &&& n.artists@.len() == o.artists@.len() + 1
        &&& forall|j: int| 0 <= j < o.artists@.len() ==> n.artists@[j] == #[trigger] o.artists@[j]
        &&& n.artists@.last().id == aid
        &&& n.artists@.last().name@ == track_album_artist(f)
        &&& opt_text(n.artists@.last().mb_artist_id) == track_mb_artist_id(f)
        &&& n.artists@.last().created_at == now
        &&& n.artists@.last().updated_at == now
    }
}

/// How one batch resolved its album: the cached identifier names a row
/// keyed by the first readable track's album name and the directory; the
/// table is unchanged when that key already had a row, and grew by exactly
/// that row — linked to the resolved artist, with the directory's cover art
/// and the track's year — when not.
pub open spec fn album_resolution_post(
    o: Store,
    n: Store,
    bid: u64,
    aid: u64,
    f: TrackFile,
    d: Seq<char>,
    files: Seq<String>,
    now: String,
) -> bool {
    &&& exists|i: int|
        0 <= i < n.albums@.len() && (#[trigger] n.albums@[i]).id == bid && n.albums@[i].name@
            == track_album_name(f) && n.albums@[i].path@ == d
    &&& if o.has_album_key(track_album_name(f), d) {
        n.albums@ == o.albums@
    } else {
        &&& n.albums@.len() == o.albums@.len() + 1
        &&& forall|j: int| 0 <= j < o.albums@.len() ==> n.albums@[j] == #[trigger] o.albums@[j]
        &&& n.albums@.last().id == bid
        &&& n.albums@.last().name@ == track_album_name(f)
        &&& n.albums@.last().path@ == d
        &&& n.albums@.last().artist_id == Some(aid)
        &&& opt_text(n.albums@.last().cover) == spec_find_cover(files)
        &&& n.albums@.last().album_artist@ == track_album_artist(f)
        &&& n.albums@.last().year == track_year(f)
        &&& n.albums@.last().created_at == now
        &&& n.albums@.last().updated_at == now
    }
}

/// The song row at `j` after a batch over `ts`: refreshed from its track
/// when some readable track carries its path — identity, creation time and
/// the `liked` flag kept — and untouched otherwise.
pub open spec fn song_row_evolved(
    o: Store,
    n: Store,
    ts: Seq<TrackFile>,
    bid: u64,
    now: String,
    j: int,
) -> bool {
    if exists|k: int|
        0 <= k < ts.len() && processable(#[trigger] ts[k]) && ts[k].path@ == o.songs@[j].path@ {
        let k = choose|k: int|
            0 <= k < ts.len() && processable(#[trigger] ts[k]) && ts[k].path@
                == o.songs@[j].path@;
        &&& n.songs@[j].id == o.songs@[j].id
        &&& n.songs@[j].path == o.songs@[j].path
        &&& n.songs@[j].title@ == track_title(ts[k])
        &&& n.songs@[j].artist@ == track_artist(ts[k])
        &&& n.songs@[j].album_id == Some(bid)
        &&& n.songs@[j].track == track_number(ts[k])
        &&& n.songs@[j].disc == track_disc(ts[k])
        &&& n.songs@[j].year == track_year(ts[k])
        &&& n.songs@[j].length == track_length(ts[k])
        &&& n.songs@[j].liked == o.songs@[j].liked
        &&& n.songs@[j].created_at == o.songs@[j].created_at
        &&& n.songs@[j].updated_at == now
    } else {
        n.songs@[j] == o.songs@[j]
    }
}

/// A song row created by a batch, for a readable track whose path was new.
pub open spec fn song_row_appended(
    o: Store,
    n: Store,
    ts: Seq<TrackFile>,
    bid: u64,
    now: String,
    j: int,
) -> bool {
    exists|k: int|
        0 <= k < ts.len() && processable(#[trigger] ts[k]) && !o.has_song_path(ts[k].path@) && {
            &&& n.songs@[j].path@ == ts[k].path@
            &&& n.songs@[j].title@ == track_title(ts[k])
            &&& n.songs@[j].artist@ == track_artist(ts[k])
            &&& n.songs@[j].album_id == Some(bid)
            &&& n.songs@[j].track == track_number(ts[k])
            &&& n.songs@[j].disc == track_disc(ts[k])
            &&& n.songs@[j].year == track_year(ts[k])
            &&& n.songs@[j].length == track_length(ts[k])
            &&& n.songs@[j].liked == false
            &&& n.songs@[j].created_at == now
            &&& n.songs@[j].updated_at == now
            &&& o.next_id <= n.songs@[j].id < n.next_id
        }
}

/// The tracks a batch reconciles.
pub open spec fn processable_pred() -> spec_fn(TrackFile) -> bool {
    |t: TrackFile| processable(t)
}

/// The tracks a batch skips.
pub open spec fn skip_pred() -> spec_fn(TrackFile) -> bool {
    |t: TrackFile| skipped_track(t)
}

/// The tracks a batch creates new song rows for: readable, at a path the
/// store did not index yet.
pub open spec fn new_song_pred(o: Store) -> spec_fn(TrackFile) -> bool {
    |t: TrackFile| processable(t) && !o.has_song_path(t.path@)
}

/// How the song table evolved over one batch: existing rows are kept or
/// refreshed in place, new rows — one per readable track at a path not yet
/// indexed — are appended, and every readable track ends up indexed.
pub open spec fn songs_scan_post(
    o: Store,
    n: Store,
    ts: Seq<TrackFile>,
    bid: u64,
    now: String,
) -> bool {
    &&& n.songs@.len() == o.songs@.len() + count_where(ts, new_song_pred(o))
    &&& forall|j: int|
        0 <= j < o.songs@.len() ==> #[trigger] song_row_evolved(o, n, ts, bid, now, j)
    &&& forall|j: int|
        o.songs@.len() <= j < n.songs@.len() ==> #[trigger] song_row_appended(
            o,
            n,
            ts,
            bid,
            now,
            j,
        )
    &&& forall|k: int|
        0 <= k < ts.len() && processable(#[trigger] ts[k]) ==> n.has_song_path(ts[k].path@)
}

/// The whole contract of one directory batch over the listing `ts` of the
/// directory at `d` holding `files`.
pub open spec fn scan_dir_post(
    o: Store,
    n: Store,
    ts: Seq<TrackFile>,
    d: Seq<char>,
    files: Seq<String>,
    out: BatchOutcome,
    now: String,
) -> bool {
    &&& n.wf()
    &&& n.directories@ == o.directories@
    &&& n.scanned_full == o.scanned_full
    &&& o.next_id <= n.next_id <= o.next_id + 2 + ts.len()
    &&& out.processed == count_where(ts, processable_pred())
    &&& out.skipped == count_where(ts, skip_pred())
    &&& out.artist_resolutions == (if has_processable(ts) {
        1int
    } else {
        0int
    })
    &&& out.album_resolutions == (if has_processable(ts) {
        1int
    } else {
        0int
    })
    &&& !has_processable(ts) ==> n == o && out.artist_id is None && out.album_id is None
    &&& has_processable(ts) ==> out.artist_id is Some && out.album_id is Some && exists|fi: int|
        {
            &&& #[trigger] is_first_processable(ts, fi)
            &&& artist_resolution_post(o, n, out.artist_id->0, ts[fi], now)
            &&& album_resolution_post(
                o,
                n,
                out.album_id->0,
                out.artist_id->0,
                ts[fi],
                d,
                files,
                now,
            )
            &&& songs_scan_post(o, n, ts, out.album_id->0, now)
        }
}

/// A predicate no element satisfies counts zero.
proof fn lemma_count_zero<A>(s: Seq<A>, p: spec_fn(A) -> bool)
    requires
        forall|i: int| 0 <= i < s.len() ==> !p(#[trigger] s[i]),
    ensures
        count_where(s, p) == 0,
    decreases s.len(),
{
    if s.len() > 0 {
        assert(forall|i: int|
            0 <= i < s.drop_last().len() ==> s.drop_last()[i] == #[trigger] s[i]);
        lemma_count_zero(s.drop_last(), p);
    }
}

/// A store whose song table equals the old one satisfies the song contract
/// of a batch prefix holding no readable track.
proof fn lemma_songs_post_trivial(o: Store, n: Store, ts_pre: Seq<TrackFile>, bid: u64, now: String)
    requires
        n.songs@ == o.songs@,
        o.next_id <= n.next_id,
        forall|k: int| 0 <= k < ts_pre.len() ==> !processable(#[trigger] ts_pre[k]),
    ensures
        songs_scan_post(o, n, ts_pre, bid, now),
{
    lemma_count_zero(ts_pre, new_song_pred(o));
    assert forall|j: int|
        0 <= j < o.songs@.len() implies #[trigger] song_row_evolved(o, n, ts_pre, bid, now, j) by {
        assert(forall|k: int|
            !(0 <= k < ts_pre.len() && processable(#[trigger] ts_pre[k]) && ts_pre[k].path@
                == o.songs@[j].path@));
    }
}

/// Extending a batch prefix by a track the scanner does not reconcile
/// leaves the song contract intact.
proof fn lemma_songs_post_extend_nonproc(
    o: Store,
    n: Store,
    ts: Seq<TrackFile>,
    i: int,
    bid: u64,
    now: String,
)
    requires
        0 <= i < ts.len(),
        !processable(ts[i]),
        tracks_distinct(ts),
        songs_scan_post(o, n, ts.take(i), bid, now),
    ensures
        songs_scan_post(o, n, ts.take(i + 1), bid, now),
{
    let tsa = ts.take(i);
    let tsb = ts.take(i + 1);
    lemma_count_step(ts, i, new_song_pred(o));
    assert forall|j: int|
        0 <= j < o.songs@.len() implies #[trigger] song_row_evolved(o, n, tsb, bid, now, j) by {
        assert(song_row_evolved(o, n, tsa, bid, now, j));
        if exists|k: int|
            0 <= k < tsb.len() && processable(#[trigger] tsb[k]) && tsb[k].path@
                == o.songs@[j].path@ {
            let kb = choose|k: int|
                0 <= k < tsb.len() && processable(#[trigger] tsb[k]) && tsb[k].path@
                    == o.songs@[j].path@;
            assert(tsb[kb] == ts[kb]);
            assert(kb != i);
            assert(tsa[kb] == ts[kb]);
            assert(exists|k: int|
                0 <= k < tsa.len() && processable(#[trigger] tsa[k]) && tsa[k].path@
                    == o.songs@[j].path@);
            let ka = choose|k: int|
                0 <= k < tsa.len() && processable(#[trigger] tsa[k]) && tsa[k].path@
                    == o.songs@[j].path@;
            assert(tsa[ka] == ts[ka]);
            assert(ts[ka].path@ == ts[kb].path@);
            assert(ka == kb);
        } else {
            assert(!(exists|k: int|
                0 <= k < tsa.len() && processable(#[trigger] tsa[k]) && tsa[k].path@
                    == o.songs@[j].path@)) by {
                assert(forall|k: int|
                    0 <= k < tsa.len() ==> tsa[k] == #[trigger] tsb[k]);
            }
        }
    }
    assert forall|j: int|
        o.songs@.len() <= j < n.songs@.len() implies #[trigger] song_row_appended(
        o,
        n,
        tsb,
        bid,
        now,
        j,
    ) by {
        assert(song_row_appended(o, n, tsa, bid, now, j));
        let k = choose|k: int|
            0 <= k < tsa.len() && processable(#[trigger] tsa[k]) && !o.has_song_path(
                tsa[k].path@,
            ) && n.songs@[j].path@ == tsa[k].path@;
        assert(tsb[k] == tsa[k]);
    }
    assert forall|k: int|
        0 <= k < tsb.len() && processable(#[trigger] tsb[k]) implies n.has_song_path(
        tsb[k].path@,
    ) by {
        assert(k != i);
        assert(tsa[k] == tsb[k]);
    }
}

/// Extending a batch prefix by a readable track whose row the store just
/// inserted or refreshed re-establishes the song contract.
proof fn lemma_songs_post_step_process(
    o: Store,
    cur: Store,
    nxt: Store,
    ts: Seq<TrackFile>,
    i: int,
    bid: u64,
    now: String,
    md: AudioMetadata,
)
    requires
        o.wf(),
        cur.wf(),
        0 <= i < ts.len(),
        processable(ts[i]),
        tracks_distinct(ts),
        songs_scan_post(o, cur, ts.take(i), bid, now),
        o.next_id <= cur.next_id,
        md.path@ == ts[i].path@,
        md.name@ == track_title(ts[i]),
        md.artist@ == track_artist(ts[i]),
        md.track == track_number(ts[i]),
        md.disc == track_disc(ts[i]),
        md.year == track_year(ts[i]),
        md.length == track_length(ts[i]),
        cur.has_song_path(md.path@) ==> exists|j: int|
            0 <= j < cur.songs@.len() && (#[trigger] cur.songs@[j]).path@ == md.path@
                && nxt.songs@ == cur.songs@.update(
                j,
                Store::song_updated(cur.songs@[j], bid, md, now),
            ) && nxt.next_id == cur.next_id,
        !cur.has_song_path(md.path@) ==> nxt.songs@ == cur.songs@.push(
            Store::song_created(cur.next_id, bid, md, now),
        ) && nxt.next_id == cur.next_id + 1,
    ensures
        songs_scan_post(o, nxt, ts.take(i + 1), bid, now),
{
    let tsa = ts.take(i);
    let tsb = ts.take(i + 1);
    lemma_count_step(ts, i, new_song_pred(o));
    lemma_count_bounds(tsa, new_song_pred(o));
    lemma_count_bounds(tsb, new_song_pred(o));
    // within the batch, no earlier track carries this path
    assert(forall|k: int| 0 <= k < i ==> (#[trigger] ts[k]).path@ != ts[i].path@);
    // old rows keep their paths in `cur`
    assert forall|j: int|
        0 <= j < o.songs@.len() implies (#[trigger] cur.songs@[j]).path@
        == o.songs@[j].path@ by {
        assert(song_row_evolved(o, cur, tsa, bid, now, j));
    }
    // appended rows carry paths of earlier readable tracks
    assert forall|j: int| #![trigger cur.songs@[j]]
        o.songs@.len() <= j < cur.songs@.len() implies exists|k: int|
        0 <= k < i && #[trigger] ts[k].path@ == cur.songs@[j].path@ by {
        assert(song_row_appended(o, cur, tsa, bid, now, j));
        let k = choose|k: int|
            0 <= k < tsa.len() && processable(#[trigger] tsa[k]) && !o.has_song_path(
                tsa[k].path@,
            ) && cur.songs@[j].path@ == tsa[k].path@;
        assert(ts[k].path@ == cur.songs@[j].path@);
    }
    // hence the store has this path now exactly when the old store had it
    assert(cur.has_song_path(md.path@) <==> o.has_song_path(md.path@)) by {
        if cur.has_song_path(md.path@) {
            let j = choose|j: int|
                0 <= j < cur.songs@.len() && (#[trigger] cur.songs@[j]).path@ == md.path@;
            if j >= o.songs@.len() {
                let k = choose|k: int| 0 <= k < i && #[trigger] ts[k].path@ == cur.songs@[j].path@;
                assert(ts[k].path@ == md.path@);
                assert(md.path@ == ts[i].path@);
                assert(ts[k].path@ != ts[i].path@);
                assert(false);
            } else {
                assert(cur.songs@[j].path@ == o.songs@[j].path@);
                assert(o.songs@[j].path@ == md.path@);
            }
        }
        if o.has_song_path(md.path@) {
            let j = choose|j: int|
                0 <= j < o.songs@.len() && (#[trigger] o.songs@[j]).path@ == md.path@;
            assert(cur.songs@[j].path@ == md.path@);
        }
    }
    if o.has_song_path(md.path@) {
        let j0 = choose|j: int|
            0 <= j < cur.songs@.len() && (#[trigger] cur.songs@[j]).path@ == md.path@
                && nxt.songs@ == cur.songs@.update(
                j,
                Store::song_updated(cur.songs@[j], bid, md, now),
            ) && nxt.next_id == cur.next_id;
        assert(j0 < o.songs@.len());
        assert(cur.songs@[j0] == o.songs@[j0]) by {
            assert(song_row_evolved(o, cur, tsa, bid, now, j0));
            if exists|k: int|
                0 <= k < tsa.len() && processable(#[trigger] tsa[k]) && tsa[k].path@
                    == o.songs@[j0].path@ {
                let k = choose|k: int|
                    0 <= k < tsa.len() && processable(#[trigger] tsa[k]) && tsa[k].path@
                        == o.songs@[j0].path@;
                assert(ts[k].path@ == ts[i].path@);
                assert(false);
            }
        }
        assert(nxt.songs@.len() == o.songs@.len() + count_where(tsb, new_song_pred(o)));
        assert forall|j: int|
            0 <= j < o.songs@.len() implies #[trigger] song_row_evolved(o, nxt, tsb, bid, now, j) by {
            if j == j0 {
                assert(tsb[i] == ts[i]);
                assert(processable(tsb[i]) && tsb[i].path@ == o.songs@[j].path@);
                let k = choose|k: int|
                    0 <= k < tsb.len() && processable(#[trigger] tsb[k]) && tsb[k].path@
                        == o.songs@[j].path@;
                assert(tsb[k] == ts[k]);
                if k != i {
                    assert(ts[k].path@ == ts[i].path@);
                    assert(false);
                }
                assert(nxt.songs@[j] == Store::song_updated(o.songs@[j0], bid, md, now));
            } else {
                assert(nxt.songs@[j] == cur.songs@[j]);
                assert(song_row_evolved(o, cur, tsa, bid, now, j));
                if exists|k: int|
                    0 <= k < tsb.len() && processable(#[trigger] tsb[k]) && tsb[k].path@
                        == o.songs@[j].path@ {
                    let kb = choose|k: int|
                        0 <= k < tsb.len() && processable(#[trigger] tsb[k]) && tsb[k].path@
                            == o.songs@[j].path@;
                    assert(tsb[kb] == ts[kb]);
                    if kb == i {
                        // two old rows with one path is impossible
                        assert(o.songs@[j].path@ == md.path@);
                        assert(o.songs@[j0].path@ == md.path@);
                        assert(false);
                    }
                    assert(tsa[kb] == ts[kb]);
                    let ka = choose|k: int|
                        0 <= k < tsa.len() && processable(#[trigger] tsa[k]) && tsa[k].path@
                            == o.songs@[j].path@;
                    assert(ka == kb);
                } else {
                    assert(forall|k: int| 0 <= k < tsa.len() ==> tsa[k] == #[trigger] tsb[k]);
                }
            }
        }
        assert forall|j: int|
            o.songs@.len() <= j < nxt.songs@.len() implies #[trigger] song_row_appended(
            o,
            nxt,
            tsb,
            bid,
            now,
            j,
        ) by {
            assert(song_row_appended(o, cur, tsa, bid, now, j));
            let k = choose|k: int|
                0 <= k < tsa.len() && processable(#[trigger] tsa[k]) && !o.has_song_path(
                    tsa[k].path@,
                ) && cur.songs@[j].path@ == tsa[k].path@;
            assert(nxt.songs@[j] == cur.songs@[j]);
            assert(tsb[k] == tsa[k]);
        }
        assert forall|k: int|
            0 <= k < tsb.len() && processable(#[trigger] tsb[k]) implies nxt.has_song_path(
            tsb[k].path@,
        ) by {
            if k == i {
                assert(nxt.songs@[j0].path@ == md.path@);
            } else {
                assert(tsa[k] == tsb[k]);
                assert(cur.has_song_path(tsa[k].path@));
                let j = choose|j: int|
                    0 <= j < cur.songs@.len() && (#[trigger] cur.songs@[j]).path@ == tsa[k].path@;
                if j == j0 {
                    assert(nxt.songs@[j0].path@ == md.path@);
                } else {
                    assert(nxt.songs@[j].path@ == tsa[k].path@);
                }
            }
        }
    } else {
        // a new row was appended
        assert(nxt.songs@ == cur.songs@.push(Store::song_created(cur.next_id, bid, md, now)));
        assert(nxt.songs@.len() == o.songs@.len() + count_where(tsb, new_song_pred(o)));
        assert forall|j: int|
            0 <= j < o.songs@.len() implies #[trigger] song_row_evolved(o, nxt, tsb, bid, now, j) by {
            assert(nxt.songs@[j] == cur.songs@[j]);
            assert(song_row_evolved(o, cur, tsa, bid, now, j));
            if exists|k: int|
                0 <= k < tsb.len() && processable(#[trigger] tsb[k]) && tsb[k].path@
                    == o.songs@[j].path@ {
                let kb = choose|k: int|
                    0 <= k < tsb.len() && processable(#[trigger] tsb[k]) && tsb[k].path@
                        == o.songs@[j].path@;
                assert(tsb[kb] == ts[kb]);
                if kb == i {
                    assert(o.has_song_path(md.path@));
                    assert(false);
                }
                assert(tsa[kb] == ts[kb]);
                let ka = choose|k: int|
                    0 <= k < tsa.len() && processable(#[trigger] tsa[k]) && tsa[k].path@
                        == o.songs@[j].path@;
                assert(ka == kb);
            } else {
                assert(forall|k: int| 0 <= k < tsa.len() ==> tsa[k] == #[trigger] tsb[k]);
            }
        }
        assert forall|j: int|
            o.songs@.len() <= j < nxt.songs@.len() implies #[trigger] song_row_appended(
            o,
            nxt,
            tsb,
            bid,
            now,
            j,
        ) by {
            if j < cur.songs@.len() {
                assert(song_row_appended(o, cur, tsa, bid, now, j));
                let k = choose|k: int|
                    0 <= k < tsa.len() && processable(#[trigger] tsa[k]) && !o.has_song_path(
                        tsa[k].path@,
                    ) && cur.songs@[j].path@ == tsa[k].path@;
                assert(nxt.songs@[j] == cur.songs@[j]);
                assert(tsb[k] == tsa[k]);
                assert(0 <= k < tsb.len() && processable(tsb[k]) && !o.has_song_path(tsb[k].path@)
                    && nxt.songs@[j].path@ == tsb[k].path@);
            } else {
                assert(nxt.songs@[j] == Store::song_created(cur.next_id, bid, md, now));
                assert(tsb[i] == ts[i]);
                assert(0 <= i < tsb.len() && processable(tsb[i]) && !o.has_song_path(tsb[i].path@)
                    && nxt.songs@[j].path@ == tsb[i].path@);
            }
        }
        assert forall|k: int|
            0 <= k < tsb.len() && processable(#[trigger] tsb[k]) implies nxt.has_song_path(
            tsb[k].path@,
        ) by {
            if k == i {
                assert(nxt.songs@[nxt.songs@.len() - 1].path@ == md.path@);
            } else {
                assert(tsa[k] == tsb[k]);
                assert(cur.has_song_path(tsa[k].path@));
                let j = choose|j: int|
                    0 <= j < cur.songs@.len() && (#[trigger] cur.songs@[j]).path@ == tsa[k].path@;
                assert(nxt.songs@[j].path@ == tsa[k].path@);
            }
        }
    }
}

/// A path with a dot-prefixed segment, which a full scan skips.
pub open spec fn spec_hidden_path(p: Seq<char>) -> bool {
    exists|i: int| 0 <= i < p.len() && #[trigger] p[i] == '.' && (i == 0 || p[i - 1] == '/')
}

/// Whether any path segment starts with a dot.
pub fn is_hidden_path(p: &str) -> (r: bool)
    ensures
        r == spec_hidden_path(p@),
{
    let n = p.unicode_len();
    let mut i: usize = 0;
    while i < n
        invariant
            0 <= i <= n,
            n == p@.len(),
            forall|j: int| 0 <= j < i ==> !(#[trigger] p@[j] == '.' && (j == 0 || p@[j - 1] == '/')),
        decreases n - i,
    {
        if p.get_char(i) == '.' && (i == 0 || p.get_char(i - 1) == '/') {
            return true;
        }
        i = i + 1;
    }
    false
}

/// A directory a full scan visits: its path holds no hidden segment.
pub open spec fn eligible_dir(d: DirReport) -> bool {
    !spec_hidden_path(d.path@)
}

/// The media tree snapshot is well formed: every listing is, the directory
/// paths are pairwise distinct, and no file is listed under two
/// directories.
pub open spec fn tree_wf(dirs: Seq<DirReport>) -> bool {
    &&& forall|i: int| 0 <= i < dirs.len() ==> report_wf(#[trigger] dirs[i])
    &&& forall|i: int, j: int| 0 <= i < j < dirs.len() ==> dirs[i].path@ != dirs[j].path@
    &&& forall|a: int, b: int, i: int, j: int|
        0 <= a < dirs.len() && 0 <= b < dirs.len() && a != b && 0 <= i < dirs[a].tracks@.len()
            && 0 <= j < dirs[b].tracks@.len() ==> (#[trigger] dirs[a].tracks@[i]).path@ != (
        #[trigger] dirs[b].tracks@[j]).path@
}

/// How many fresh identifiers a walk over the tree may consume: one
/// directory row, one artist and one album per directory, plus one per
/// track.
pub open spec fn tree_budget(dirs: Seq<DirReport>) -> int
    decreases dirs.len(),
{
    if dirs.len() == 0 {
        0
    } else {
        tree_budget(dirs.drop_last()) + 3 + dirs.last().tracks@.len()
    }
}

proof fn lemma_tree_budget_step(dirs: Seq<DirReport>, i: int)
    requires
        0 <= i < dirs.len(),
    ensures
        tree_budget(dirs.take(i + 1)) == tree_budget(dirs.take(i)) + 3 + dirs[i].tracks@.len(),
{
    assert(dirs.take(i + 1).drop_last() =~= dirs.take(i));
    assert(dirs.take(i + 1).last() == dirs[i]);
}

proof fn lemma_tree_budget_mono(dirs: Seq<DirReport>, i: int)
    requires
        0 <= i <= dirs.len(),
    ensures
        0 <= tree_budget(dirs.take(i)) <= tree_budget(dirs),
    decreases dirs.len(),
{
    if i < dirs.len() {
        assert(dirs.drop_last().take(i) =~= dirs.take(i));
        lemma_tree_budget_mono(dirs.drop_last(), i);
    } else {
        assert(dirs.take(i) =~= dirs);
        lemma_tree_budget_nonneg(dirs);
    }
}

proof fn lemma_tree_budget_nonneg(dirs: Seq<DirReport>)
    ensures
        tree_budget(dirs) >= 0,
    decreases dirs.len(),
{
    if dirs.len() > 0 {
        lemma_tree_budget_nonneg(dirs.drop_last());
    }
}

/// A song row's identity: what every reconciliation pass keeps.
pub open spec fn song_identity_kept(a: crate::store::SongRow, b: crate::store::SongRow) -> bool {
    &&& b.path == a.path
    &&& b.id == a.id
    &&& b.liked == a.liked
    &&& b.created_at == a.created_at
}

/// A directory row's identity: what re-observing the path keeps.
pub open spec fn dir_identity_kept(
    a: crate::store::DirectoryRow,
    b: crate::store::DirectoryRow,
) -> bool {
    &&& b.path == a.path
    &&& b.id == a.id
    &&& b.created_at == a.created_at
}

/// A walk never removes rows and never rewrites identities: artist and
/// album rows are kept verbatim at their indices, song and directory rows
/// keep their identity fields, and new rows only append.
pub open spec fn rows_preserved(o: Store, n: Store) -> bool {
    &&& o.artists@.len() <= n.artists@.len()
    &&& forall|j: int| 0 <= j < o.artists@.len() ==> n.artists@[j] == #[trigger] o.artists@[j]
    &&& o.albums@.len() <= n.albums@.len()
    &&& forall|j: int| 0 <= j < o.albums@.len() ==> n.albums@[j] == #[trigger] o.albums@[j]
    &&& o.songs@.len() <= n.songs@.len()
    &&& forall|j: int|
        0 <= j < o.songs@.len() ==> song_identity_kept(#[trigger] o.songs@[j], n.songs@[j])
    &&& o.directories@.len() <= n.directories@.len()
    &&& forall|j: int|
        0 <= j < o.directories@.len() ==> dir_identity_kept(
            #[trigger] o.directories@[j],
            n.directories@[j],
        )
    &&& o.next_id <= n.next_id
}

/// An artist row a walk appended: its name was new, and is the album
/// artist of the first readable track of some visited directory.
pub open spec fn artist_appended_from(o: Store, n: Store, dirs: Seq<DirReport>, j: int) -> bool {
    &&& !o.has_artist_name(n.artists@[j].name@)
    &&& exists|di: int, fi: int|
        0 <= di < dirs.len() && eligible_dir(dirs[di]) && #[trigger] is_first_processable(
            dirs[di].tracks@,
            fi,
        ) && n.artists@[j].name@ == track_album_artist(dirs[di].tracks@[fi])
}

/// An album row a walk appended: its key was new, and is the album key of
/// the first readable track of the visited directory it lies in.
pub open spec fn album_appended_from(o: Store, n: Store, dirs: Seq<DirReport>, j: int) -> bool {
    &&& !o.has_album_key(n.albums@[j].name@, n.albums@[j].path@)
    &&& exists|di: int, fi: int|
        0 <= di < dirs.len() && eligible_dir(dirs[di]) && #[trigger] is_first_processable(
            dirs[di].tracks@,
            fi,
        ) && n.albums@[j].name@ == track_album_name(dirs[di].tracks@[fi]) && n.albums@[j].path@
            == dirs[di].path@
}

/// A song row a walk appended: its path was not indexed, and is a readable
/// track of some visited directory.
pub open spec fn song_appended_from(o: Store, n: Store, dirs: Seq<DirReport>, j: int) -> bool {
    &&& !o.has_song_path(n.songs@[j].path@)
    &&& exists|di: int, k: int|
        0 <= di < dirs.len() && eligible_dir(dirs[di]) && 0 <= k < dirs[di].tracks@.len()
            && processable(#[trigger] dirs[di].tracks@[k]) && n.songs@[j].path@
            == dirs[di].tracks@[k].path@
}

/// Everything a walk appended is accounted for by the visited tree.
pub open spec fn walk_appended_ok(o: Store, n: Store, dirs: Seq<DirReport>) -> bool {
    &&& forall|j: int|
        o.artists@.len() <= j < n.artists@.len() ==> #[trigger] artist_appended_from(
            o,
            n,
            dirs,
            j,
        )
    &&& forall|j: int|
        o.albums@.len() <= j < n.albums@.len() ==> #[trigger] album_appended_from(o, n, dirs, j)
    &&& forall|j: int|
        o.songs@.len() <= j < n.songs@.len() ==> #[trigger] song_appended_from(o, n, dirs, j)
}

/// One visited directory is fully recorded in the store: its row carries
/// the observed modification time; every readable track is indexed and
/// linked to the directory's one album row; and artist and album rows for
/// the batch's keys exist.
pub open spec fn dir_covered(n: Store, d: DirReport) -> bool {
    &&& exists|j: int|
        0 <= j < n.directories@.len() && (#[trigger] n.directories@[j]).path@ == d.path@
            && n.directories@[j].mtime == d.mtime
    &&& has_processable(d.tracks@) ==> exists|fi: int|
        {
            &&& #[trigger] is_first_processable(d.tracks@, fi)
            &&& n.has_artist_name(track_album_artist(d.tracks@[fi]))
            &&& exists|ja: int|
                0 <= ja < n.albums@.len() && (#[trigger] n.albums@[ja]).name@ == track_album_name(
                    d.tracks@[fi],
                ) && n.albums@[ja].path@ == d.path@ && (forall|k: int|
                    0 <= k < d.tracks@.len() && processable(#[trigger] d.tracks@[k])
                        ==> exists|js: int|
                        0 <= js < n.songs@.len() && (#[trigger] n.songs@[js]).path@
                            == d.tracks@[k].path@ && n.songs@[js].album_id == Some(
                            n.albums@[ja].id,
                        ))
        }
}

/// Every eligible directory of the tree is fully recorded.
pub open spec fn walk_covered(n: Store, dirs: Seq<DirReport>) -> bool {
    forall|di: int|
        0 <= di < dirs.len() && eligible_dir(#[trigger] dirs[di]) ==> dir_covered(n, dirs[di])
}

/// What a walk may append is already accounted for by a longer prefix.
proof fn lemma_appended_extend(o: Store, n: Store, dirs: Seq<DirReport>, i: int)
    requires
        0 <= i < dirs.len(),
        walk_appended_ok(o, n, dirs.take(i)),
    ensures
        walk_appended_ok(o, n, dirs.take(i + 1)),
{
    let tsa = dirs.take(i);
    let tsb = dirs.take(i + 1);
    assert(forall|di: int| 0 <= di < i ==> tsb[di] == #[trigger] tsa[di]);
    assert forall|j: int|
        o.artists@.len() <= j < n.artists@.len() implies #[trigger] artist_appended_from(
        o,
        n,
        tsb,
        j,
    ) by {
        assert(artist_appended_from(o, n, tsa, j));
        let (di, fi) = choose|di: int, fi: int|
            0 <= di < tsa.len() && eligible_dir(tsa[di]) && #[trigger] is_first_processable(
                tsa[di].tracks@,
                fi,
            ) && n.artists@[j].name@ == track_album_artist(tsa[di].tracks@[fi]);
        assert(tsb[di] == tsa[di]);
        assert(is_first_processable(tsb[di].tracks@, fi));
    }
    assert forall|j: int|
        o.albums@.len() <= j < n.albums@.len() implies #[trigger] album_appended_from(
        o,
        n,
        tsb,
        j,
    ) by {
        assert(album_appended_from(o, n, tsa, j));
        let (di, fi) = choose|di: int, fi: int|
            0 <= di < tsa.len() && eligible_dir(tsa[di]) && #[trigger] is_first_processable(
                tsa[di].tracks@,
                fi,
            ) && n.albums@[j].name@ == track_album_name(tsa[di].tracks@[fi]) && n.albums@[j].path@
                == tsa[di].path@;
        assert(tsb[di] == tsa[di]);
        assert(is_first_processable(tsb[di].tracks@, fi));
    }
    assert forall|j: int|
        o.songs@.len() <= j < n.songs@.len() implies #[trigger] song_appended_from(
        o,
        n,
        tsb,
        j,
    ) by {
        assert(song_appended_from(o, n, tsa, j));
        let (di, k) = choose|di: int, k: int|
            0 <= di < tsa.len() && eligible_dir(tsa[di]) && 0 <= k < tsa[di].tracks@.len()
                && processable(#[trigger] tsa[di].tracks@[k]) && n.songs@[j].path@
                == tsa[di].tracks@[k].path@;
        assert(tsb[di] == tsa[di]);
        assert(processable(tsb[di].tracks@[k]));
    }
}

/// A covered prefix stays covered when the next directory is skipped.
proof fn lemma_covered_extend_skip(n: Store, dirs: Seq<DirReport>, i: int)
    requires
        0 <= i < dirs.len(),
        walk_covered(n, dirs.take(i)),
        !eligible_dir(dirs[i]),
    ensures
        walk_covered(n, dirs.take(i + 1)),
{
    let tsa = dirs.take(i);
    let tsb = dirs.take(i + 1);
    assert forall|di: int|
        0 <= di < tsb.len() && eligible_dir(#[trigger] tsb[di]) implies dir_covered(
        n,
        tsb[di],
    ) by {
        assert(tsb[di] == dirs[di]);
        assert(di < i);
        assert(tsa[di] == dirs[di]);
    }
}

/// One walk step: the facts carried over the visited prefix extend across
/// scanning one more eligible directory and refreshing its directory row.
proof fn lemma_walk_step(
    olds: Store,
    cur: Store,
    mid: Store,
    nxt: Store,
    dirs: Seq<DirReport>,
    i: int,
    out: BatchOutcome,
    now: String,
)
    requires
        tree_wf(dirs),
        0 <= i < dirs.len(),
        eligible_dir(dirs[i]),
        olds.wf(),
        cur.wf(),
        rows_preserved(olds, cur),
        walk_appended_ok(olds, cur, dirs.take(i)),
        walk_covered(cur, dirs.take(i)),
        scan_dir_post(cur, mid, dirs[i].tracks@, dirs[i].path@, dirs[i].files@, out, now),
        mid.wf(),
        nxt.wf(),
        mid.has_dir_path(dirs[i].path@) ==> exists|j: int|
            0 <= j < mid.directories@.len() && (#[trigger] mid.directories@[j]).path@
                == dirs[i].path@ && nxt.directories@ == mid.directories@.update(
                j,
                Store::dir_updated(mid.directories@[j], dirs[i].mtime, now),
            ),
        !mid.has_dir_path(dirs[i].path@) ==> nxt.directories@ == mid.directories@.push(
            Store::dir_created(mid.next_id, dirs[i].path, dirs[i].mtime, now),
        ),
        nxt.artists@ == mid.artists@,
        nxt.albums@ == mid.albums@,
        nxt.songs@ == mid.songs@,
        mid.next_id <= nxt.next_id <= mid.next_id + 1,
        forall|j: int|
            0 <= j < olds.songs@.len() && !tree_has_track_path(
                dirs,
                (#[trigger] olds.songs@[j]).path@,
            ) ==> cur.songs@[j] == olds.songs@[j],
    ensures
        rows_preserved(olds, nxt),
        walk_appended_ok(olds, nxt, dirs.take(i + 1)),
        walk_covered(nxt, dirs.take(i + 1)),
        forall|j: int|
            0 <= j < olds.songs@.len() && !tree_has_track_path(
                dirs,
                (#[trigger] olds.songs@[j]).path@,
            ) ==> nxt.songs@[j] == olds.songs@[j],
{
    let ts = dirs[i].tracks@;
    let d = dirs[i].path@;
    let files = dirs[i].files@;
    // row preservation across the batch
    assert(rows_preserved(cur, mid)) by {
        if has_processable(ts) {
            let fi = choose|fi: int|
                {
                    &&& #[trigger] is_first_processable(ts, fi)
                    &&& artist_resolution_post(cur, mid, out.artist_id->0, ts[fi], now)
                    &&& album_resolution_post(
                        cur,
                        mid,
                        out.album_id->0,
                        out.artist_id->0,
                        ts[fi],
                        d,
                        files,
                        now,
                    )
                    &&& songs_scan_post(cur, mid, ts, out.album_id->0, now)
                };
            lemma_count_bounds(ts, new_song_pred(cur));
            assert forall|j: int|
                0 <= j < cur.songs@.len() implies song_identity_kept(
                #[trigger] cur.songs@[j],
                mid.songs@[j],
            ) by {
                assert(song_row_evolved(cur, mid, ts, out.album_id->0, now, j));
            }
        }
    }
    assert(rows_preserved(mid, nxt)) by {
        if mid.has_dir_path(d) {
            let j = choose|j: int|
                0 <= j < mid.directories@.len() && (#[trigger] mid.directories@[j]).path@ == d
                    && nxt.directories@ == mid.directories@.update(
                    j,
                    Store::dir_updated(mid.directories@[j], dirs[i].mtime, now),
                );
            assert(forall|k: int|
                0 <= k < mid.directories@.len() ==> dir_identity_kept(
                    #[trigger] mid.directories@[k],
                    nxt.directories@[k],
                ));
        }
    }
    assert(rows_preserved(olds, nxt));
    // everything appended is accounted for
    lemma_appended_extend(olds, cur, dirs, i);
    let tsb = dirs.take(i + 1);
    assert(tsb[i] == dirs[i]);
    assert forall|j: int|
        olds.artists@.len() <= j < nxt.artists@.len() implies #[trigger] artist_appended_from(
        olds,
        nxt,
        tsb,
        j,
    ) by {
        if j < cur.artists@.len() {
            assert(artist_appended_from(olds, cur, tsb, j));
            assert(nxt.artists@[j] == cur.artists@[j]) by {
                if has_processable(ts) {
                } else {
                    assert(mid == cur);
                }
            }
        } else {
            // the batch created this artist
            assert(has_processable(ts)) by {
                if !has_processable(ts) {
                    assert(mid == cur);
                }
            }
            let fi = choose|fi: int|
                {
                    &&& #[trigger] is_first_processable(ts, fi)
                    &&& artist_resolution_post(cur, mid, out.artist_id->0, ts[fi], now)
                    &&& album_resolution_post(
                        cur,
                        mid,
                        out.album_id->0,
                        out.artist_id->0,
                        ts[fi],
                        d,
                        files,
                        now,
                    )
                    &&& songs_scan_post(cur, mid, ts, out.album_id->0, now)
                };
            assert(!cur.has_artist_name(track_album_artist(ts[fi])));
            assert(j == cur.artists@.len());
            assert(nxt.artists@[j].name@ == track_album_artist(ts[fi]));
            assert(!olds.has_artist_name(nxt.artists@[j].name@)) by {
                if olds.has_artist_name(nxt.artists@[j].name@) {
                    let w = choose|w: int|
                        0 <= w < olds.artists@.len() && (#[trigger] olds.artists@[w]).name@
                            == nxt.artists@[j].name@;
                    assert(cur.artists@[w] == olds.artists@[w]);
                    assert(cur.has_artist_name(nxt.artists@[j].name@));
                }
            }
            assert(is_first_processable(tsb[i].tracks@, fi));
        }
    }
    assert forall|j: int|
        olds.albums@.len() <= j < nxt.albums@.len() implies #[trigger] album_appended_from(
        olds,
        nxt,
        tsb,
        j,
    ) by {
        if j < cur.albums@.len() {
            assert(album_appended_from(olds, cur, tsb, j));
            assert(nxt.albums@[j] == cur.albums@[j]) by {
                if has_processable(ts) {
                } else {
                    assert(mid == cur);
                }
            }
        } else {
            assert(has_processable(ts)) by {
                if !has_processable(ts) {
                    assert(mid == cur);
                }
            }
            let fi = choose|fi: int|
                {
                    &&& #[trigger] is_first_processable(ts, fi)
                    &&& artist_resolution_post(cur, mid, out.artist_id->0, ts[fi], now)
                    &&& album_resolution_post(
                        cur,
                        mid,
                        out.album_id->0,
                        out.artist_id->0,
                        ts[fi],
                        d,
                        files,
                        now,
                    )
                    &&& songs_scan_post(cur, mid, ts, out.album_id->0, now)
                };
            assert(!cur.has_album_key(track_album_name(ts[fi]), d));
            assert(j == cur.albums@.len());
            assert(nxt.albums@[j].name@ == track_album_name(ts[fi]) && nxt.albums@[j].path@ == d);
            assert(!olds.has_album_key(nxt.albums@[j].name@, nxt.albums@[j].path@)) by {
                if olds.has_album_key(nxt.albums@[j].name@, nxt.albums@[j].path@) {
                    let w = choose|w: int|
                        0 <= w < olds.albums@.len() && (#[trigger] olds.albums@[w]).name@
                            == nxt.albums@[j].name@ && olds.albums@[w].path@
                            == nxt.albums@[j].path@;
                    assert(cur.albums@[w] == olds.albums@[w]);
                    assert(cur.has_album_key(nxt.albums@[j].name@, nxt.albums@[j].path@));
                }
            }
            assert(is_first_processable(tsb[i].tracks@, fi));
        }
    }
    assert forall|j: int|
        olds.songs@.len() <= j < nxt.songs@.len() implies #[trigger] song_appended_from(
        olds,
        nxt,
        tsb,
        j,
    ) by {
        if j < cur.songs@.len() {
            assert(song_appended_from(olds, cur, tsb, j));
            assert(nxt.songs@[j].path@ == cur.songs@[j].path@) by {
                if has_processable(ts) {
                    let fi = choose|fi: int|
                        {
                            &&& #[trigger] is_first_processable(ts, fi)
                            &&& artist_resolution_post(cur, mid, out.artist_id->0, ts[fi], now)
                            &&& album_resolution_post(
                                cur,
                                mid,
                                out.album_id->0,
                                out.artist_id->0,
                                ts[fi],
                                d,
                                files,
                                now,
                            )
                            &&& songs_scan_post(cur, mid, ts, out.album_id->0, now)
                        };
                    assert(song_row_evolved(cur, mid, ts, out.album_id->0, now, j));
                } else {
                    assert(mid == cur);
                }
            }
        } else {
            assert(has_processable(ts)) by {
                if !has_processable(ts) {
                    assert(mid == cur);
                }
            }
            let fi = choose|fi: int|
                {
                    &&& #[trigger] is_first_processable(ts, fi)
                    &&& artist_resolution_post(cur, mid, out.artist_id->0, ts[fi], now)
                    &&& album_resolution_post(
                        cur,
                        mid,
                        out.album_id->0,
                        out.artist_id->0,
                        ts[fi],
                        d,
                        files,
                        now,
                    )
                    &&& songs_scan_post(cur, mid, ts, out.album_id->0, now)
                };
            assert(song_row_appended(cur, mid, ts, out.album_id->0, now, j));
            let k = choose|k: int|
                0 <= k < ts.len() && processable(#[trigger] ts[k]) && !cur.has_song_path(
                    ts[k].path@,
                ) && mid.songs@[j].path@ == ts[k].path@;
            assert(!olds.has_song_path(nxt.songs@[j].path@)) by {
                if olds.has_song_path(nxt.songs@[j].path@) {
                    let w = choose|w: int|
                        0 <= w < olds.songs@.len() && (#[trigger] olds.songs@[w]).path@
                            == nxt.songs@[j].path@;
                    assert(song_identity_kept(olds.songs@[w], cur.songs@[w]));
                    assert(cur.has_song_path(nxt.songs@[j].path@));
                }
            }
            assert(processable(tsb[i].tracks@[k]));
            assert(nxt.songs@[j].path@ == tsb[i].tracks@[k].path@);
        }
    }
    // coverage: previously covered directories stay covered
    assert forall|di: int|
        0 <= di < tsb.len() && eligible_dir(#[trigger] tsb[di]) implies dir_covered(
        nxt,
        tsb[di],
    ) by {
        if di < i {
            assert(tsb[di] == dirs.take(i)[di]);
            lemma_dir_covered_carry(cur, mid, nxt, dirs, i, di, out, now);
        } else {
            assert(tsb[di] == dirs[i]);
            lemma_dir_covered_new(cur, mid, nxt, dirs, i, out, now);
        }
    }
    // songs at paths outside the tree stay untouched
    assert forall|j: int|
        0 <= j < olds.songs@.len() && !tree_has_track_path(
            dirs,
            (#[trigger] olds.songs@[j]).path@,
        ) implies nxt.songs@[j] == olds.songs@[j] by {
        assert(cur.songs@[j] == olds.songs@[j]);
        if has_processable(ts) {
            let fi = choose|fi: int|
                {
                    &&& #[trigger] is_first_processable(ts, fi)
                    &&& artist_resolution_post(cur, mid, out.artist_id->0, ts[fi], now)
                    &&& album_resolution_post(
                        cur,
                        mid,
                        out.album_id->0,
                        out.artist_id->0,
                        ts[fi],
                        d,
                        files,
                        now,
                    )
                    &&& songs_scan_post(cur, mid, ts, out.album_id->0, now)
                };
            lemma_count_bounds(ts, new_song_pred(cur));
            assert(song_row_evolved(cur, mid, ts, out.album_id->0, now, j));
            if exists|k: int|
                0 <= k < ts.len() && processable(#[trigger] ts[k]) && ts[k].path@
                    == cur.songs@[j].path@ {
                let k = choose|k: int|
                    0 <= k < ts.len() && processable(#[trigger] ts[k]) && ts[k].path@
                        == cur.songs@[j].path@;
                assert(processable(dirs[i].tracks@[k]));
                assert(dirs[i].tracks@[k].path@ == olds.songs@[j].path@);
                assert(tree_has_track_path(dirs, olds.songs@[j].path@));
                assert(false);
            }
            assert(mid.songs@[j] == cur.songs@[j]);
        } else {
            assert(mid == cur);
        }
        assert(nxt.songs@[j] == mid.songs@[j]);
    }
}

/// A directory covered before a later batch stays covered: the batch
/// touches no file of another directory, and the directory-row refresh
/// touches only the visited path.
proof fn lemma_dir_covered_carry(
    cur: Store,
    mid: Store,
    nxt: Store,
    dirs: Seq<DirReport>,
    i: int,
    di: int,
    out: BatchOutcome,
    now: String,
)
    requires
        tree_wf(dirs),
        0 <= di < dirs.len(),
        0 <= i < dirs.len(),
        di != i,
        cur.wf(),
        dir_covered(cur, dirs[di]),
        scan_dir_post(cur, mid, dirs[i].tracks@, dirs[i].path@, dirs[i].files@, out, now),
        mid.has_dir_path(dirs[i].path@) ==> exists|j: int|
            0 <= j < mid.directories@.len() && (#[trigger] mid.directories@[j]).path@
                == dirs[i].path@ && nxt.directories@ == mid.directories@.update(
                j,
                Store::dir_updated(mid.directories@[j], dirs[i].mtime, now),
            ),
        !mid.has_dir_path(dirs[i].path@) ==> nxt.directories@ == mid.directories@.push(
            Store::dir_created(mid.next_id, dirs[i].path, dirs[i].mtime, now),
        ),
        nxt.artists@ == mid.artists@,
        nxt.albums@ == mid.albums@,
        nxt.songs@ == mid.songs@,
    ensures
        dir_covered(nxt, dirs[di]),
{
    let ts = dirs[i].tracks@;
    let dd = dirs[di];
    // the directory row survives with its recorded time
    let jd = choose|j: int|
        0 <= j < cur.directories@.len() && (#[trigger] cur.directories@[j]).path@ == dd.path@
            && cur.directories@[j].mtime == dd.mtime;
    assert(mid.directories@ == cur.directories@);
    assert(dd.path@ != dirs[i].path@);
    if mid.has_dir_path(dirs[i].path@) {
        let ju = choose|j: int|
            0 <= j < mid.directories@.len() && (#[trigger] mid.directories@[j]).path@
                == dirs[i].path@ && nxt.directories@ == mid.directories@.update(
                j,
                Store::dir_updated(mid.directories@[j], dirs[i].mtime, now),
            );
        assert(ju != jd);
        assert(nxt.directories@[jd] == mid.directories@[jd]);
    } else {
        assert(nxt.directories@[jd] == mid.directories@[jd]);
    }
    if has_processable(dd.tracks@) {
        let fi = choose|fi: int|
            {
                &&& #[trigger] is_first_processable(dd.tracks@, fi)
                &&& cur.has_artist_name(track_album_artist(dd.tracks@[fi]))
                &&& exists|ja: int|
                    0 <= ja < cur.albums@.len() && (#[trigger] cur.albums@[ja]).name@
                        == track_album_name(dd.tracks@[fi]) && cur.albums@[ja].path@ == dd.path@
                        && (forall|k: int|
                        0 <= k < dd.tracks@.len() && processable(#[trigger] dd.tracks@[k])
                            ==> exists|js: int|
                            0 <= js < cur.songs@.len() && (#[trigger] cur.songs@[js]).path@
                                == dd.tracks@[k].path@ && cur.songs@[js].album_id == Some(
                                cur.albums@[ja].id,
                            ))
            };
        let ja = choose|ja: int|
            0 <= ja < cur.albums@.len() && (#[trigger] cur.albums@[ja]).name@ == track_album_name(
                dd.tracks@[fi],
            ) && cur.albums@[ja].path@ == dd.path@ && (forall|k: int|
                0 <= k < dd.tracks@.len() && processable(#[trigger] dd.tracks@[k])
                    ==> exists|js: int|
                    0 <= js < cur.songs@.len() && (#[trigger] cur.songs@[js]).path@
                        == dd.tracks@[k].path@ && cur.songs@[js].album_id == Some(
                        cur.albums@[ja].id,
                    ));
        // artists and albums only grow across the batch
        assert(forall|j: int|
            0 <= j < cur.artists@.len() ==> mid.artists@[j] == #[trigger] cur.artists@[j]) by {
            if has_processable(ts) {
            } else {
                assert(mid == cur);
            }
        }
        assert(forall|j: int|
            0 <= j < cur.albums@.len() ==> mid.albums@[j] == #[trigger] cur.albums@[j]) by {
            if has_processable(ts) {
            } else {
                assert(mid == cur);
            }
        }
        assert(cur.albums@.len() <= mid.albums@.len()) by {
            if has_processable(ts) {
            } else {
                assert(mid == cur);
            }
        }
        assert(nxt.has_artist_name(track_album_artist(dd.tracks@[fi]))) by {
            let w = choose|w: int|
                0 <= w < cur.artists@.len() && (#[trigger] cur.artists@[w]).name@
                    == track_album_artist(dd.tracks@[fi]);
            assert(nxt.artists@[w].name@ == track_album_artist(dd.tracks@[fi]));
        }
        assert(nxt.albums@[ja] == cur.albums@[ja]);
        assert forall|k: int|
            0 <= k < dd.tracks@.len() && processable(#[trigger] dd.tracks@[k]) implies exists|
            js: int,
        |
            0 <= js < nxt.songs@.len() && (#[trigger] nxt.songs@[js]).path@ == dd.tracks@[k].path@
                && nxt.songs@[js].album_id == Some(nxt.albums@[ja].id) by {
            let js = choose|js: int|
                0 <= js < cur.songs@.len() && (#[trigger] cur.songs@[js]).path@
                    == dd.tracks@[k].path@ && cur.songs@[js].album_id == Some(cur.albums@[ja].id);
            // the later batch does not touch this row: its path belongs to
            // another directory
            assert(mid.songs@[js] == cur.songs@[js]) by {
                if has_processable(ts) {
                    let fj = choose|fj: int|
                        {
                            &&& #[trigger] is_first_processable(ts, fj)
                            &&& artist_resolution_post(cur, mid, out.artist_id->0, ts[fj], now)
                            &&& album_resolution_post(
                                cur,
                                mid,
                                out.album_id->0,
                                out.artist_id->0,
                                ts[fj],
                                dirs[i].path@,
                                dirs[i].files@,
                                now,
                            )
                            &&& songs_scan_post(cur, mid, ts, out.album_id->0, now)
                        };
                    lemma_count_bounds(ts, new_song_pred(cur));
                    assert(song_row_evolved(cur, mid, ts, out.album_id->0, now, js));
                    if exists|w: int|
                        0 <= w < ts.len() && processable(#[trigger] ts[w]) && ts[w].path@
                            == cur.songs@[js].path@ {
                        let w = choose|w: int|
                            0 <= w < ts.len() && processable(#[trigger] ts[w]) && ts[w].path@
                                == cur.songs@[js].path@;
                        assert(ts[w].path@ != dd.tracks@[k].path@);
                        assert(false);
                    }
                } else {
                    assert(mid == cur);
                }
            }
            assert(js < nxt.songs@.len()) by {
                if has_processable(ts) {
                    let fj = choose|fj: int|
                        {
                            &&& #[trigger] is_first_processable(ts, fj)
                            &&& artist_resolution_post(cur, mid, out.artist_id->0, ts[fj], now)
                            &&& album_resolution_post(
                                cur,
                                mid,
                                out.album_id->0,
                                out.artist_id->0,
                                ts[fj],
                                dirs[i].path@,
                                dirs[i].files@,
                                now,
                            )
                            &&& songs_scan_post(cur, mid, ts, out.album_id->0, now)
                        };
                    lemma_count_bounds(ts, new_song_pred(cur));
                } else {
                    assert(mid == cur);
                }
            }
            assert(nxt.songs@[js] == cur.songs@[js]);
        }
    }
}

/// The directory just visited is covered: its row was refreshed, and the
/// batch indexed and linked every readable track.
proof fn lemma_dir_covered_new(
    cur: Store,
    mid: Store,
    nxt: Store,
    dirs: Seq<DirReport>,
    i: int,
    out: BatchOutcome,
    now: String,
)
    requires
        tree_wf(dirs),
        0 <= i < dirs.len(),
        cur.wf(),
        mid.wf(),
        scan_dir_post(cur, mid, dirs[i].tracks@, dirs[i].path@, dirs[i].files@, out, now),
        mid.has_dir_path(dirs[i].path@) ==> exists|j: int|
            0 <= j < mid.directories@.len() && (#[trigger] mid.directories@[j]).path@
                == dirs[i].path@ && nxt.directories@ == mid.directories@.update(
                j,
                Store::dir_updated(mid.directories@[j], dirs[i].mtime, now),
            ),
        !mid.has_dir_path(dirs[i].path@) ==> nxt.directories@ == mid.directories@.push(
            Store::dir_created(mid.next_id, dirs[i].path, dirs[i].mtime, now),
        ),
        nxt.artists@ == mid.artists@,
        nxt.albums@ == mid.albums@,
        nxt.songs@ == mid.songs@,
    ensures
        dir_covered(nxt, dirs[i]),
{
    let ts = dirs[i].tracks@;
    let d = dirs[i].path@;
    // the directory row records the observed time
    if mid.has_dir_path(d) {
        let ju = choose|j: int|
            0 <= j < mid.directories@.len() && (#[trigger] mid.directories@[j]).path@ == d
                && nxt.directories@ == mid.directories@.update(
                j,
                Store::dir_updated(mid.directories@[j], dirs[i].mtime, now),
            );
        assert(nxt.directories@[ju].path@ == d && nxt.directories@[ju].mtime == dirs[i].mtime);
    } else {
        let ju = nxt.directories@.len() - 1;
        assert(nxt.directories@[ju].path@ == d && nxt.directories@[ju].mtime == dirs[i].mtime);
    }
    if has_processable(ts) {
        let fi = choose|fi: int|
            {
                &&& #[trigger] is_first_processable(ts, fi)
                &&& artist_resolution_post(cur, mid, out.artist_id->0, ts[fi], now)
                &&& album_resolution_post(
                    cur,
                    mid,
                    out.album_id->0,
                    out.artist_id->0,
                    ts[fi],
                    d,
                    dirs[i].files@,
                    now,
                )
                &&& songs_scan_post(cur, mid, ts, out.album_id->0, now)
            };
        let bid = out.album_id->0;
        assert(nxt.has_artist_name(track_album_artist(ts[fi]))) by {
            let w = choose|w: int|
                0 <= w < mid.artists@.len() && (#[trigger] mid.artists@[w]).id == out.artist_id->0
                    && mid.artists@[w].name@ == track_album_artist(ts[fi]);
            assert(nxt.artists@[w].name@ == track_album_artist(ts[fi]));
        }
        let ja = choose|w: int|
            0 <= w < mid.albums@.len() && (#[trigger] mid.albums@[w]).id == bid
                && mid.albums@[w].name@ == track_album_name(ts[fi]) && mid.albums@[w].path@ == d;
        assert(nxt.albums@[ja].name@ == track_album_name(ts[fi]) && nxt.albums@[ja].path@ == d);
        assert(nxt.albums@[ja].id == bid);
        lemma_count_bounds(ts, new_song_pred(cur));
        assert forall|k: int|
            0 <= k < ts.len() && processable(#[trigger] ts[k]) implies exists|js: int|
            0 <= js < nxt.songs@.len() && (#[trigger] nxt.songs@[js]).path@ == ts[k].path@
                && nxt.songs@[js].album_id == Some(bid) by {
            let p = ts[k].path@;
            if cur.has_song_path(p) {
                let w = choose|w: int|
                    0 <= w < cur.songs@.len() && (#[trigger] cur.songs@[w]).path@ == p;
                assert(song_row_evolved(cur, mid, ts, bid, now, w));
                assert(exists|kk: int|
                    0 <= kk < ts.len() && processable(#[trigger] ts[kk]) && ts[kk].path@
                        == cur.songs@[w].path@);
                let kk = choose|kk: int|
                    0 <= kk < ts.len() && processable(#[trigger] ts[kk]) && ts[kk].path@
                        == cur.songs@[w].path@;
                assert(mid.songs@[w].album_id == Some(bid));
                assert(mid.songs@[w].path == cur.songs@[w].path);
                assert(nxt.songs@[w].path@ == p && nxt.songs@[w].album_id == Some(bid));
            } else {
                assert(mid.has_song_path(p));
                let js = choose|js: int|
                    0 <= js < mid.songs@.len() && (#[trigger] mid.songs@[js]).path@ == p;
                if js < cur.songs@.len() {
                    assert(song_row_evolved(cur, mid, ts, bid, now, js));
                    assert(mid.songs@[js].path == cur.songs@[js].path) by {
                        if exists|kk: int|
                            0 <= kk < ts.len() && processable(#[trigger] ts[kk]) && ts[kk].path@
                                == cur.songs@[js].path@ {
                        }
                    }
                    assert(cur.songs@[js].path@ == p);
                    assert(false);
                }
                assert(song_row_appended(cur, mid, ts, bid, now, js));
                assert(mid.songs@[js].album_id == Some(bid));
                assert(nxt.songs@[js].path@ == p && nxt.songs@[js].album_id == Some(bid));
            }
        }
    }
}

/// Some visited directory lists a readable track at this path.
pub open spec fn tree_has_track_path(dirs: Seq<DirReport>, p: Seq<char>) -> bool {
    exists|di: int, k: int|
        0 <= di < dirs.len() && eligible_dir(dirs[di]) && 0 <= k < dirs[di].tracks@.len()
            && processable(#[trigger] dirs[di].tracks@[k]) && dirs[di].tracks@[k].path@ == p
}

/// The whole contract of a full walk.
pub open spec fn walk_full_post(o: Store, n: Store, dirs: Seq<DirReport>) -> bool {
    &&& n.wf()
    &&& rows_preserved(o, n)
    &&& walk_appended_ok(o, n, dirs)
    &&& walk_covered(n, dirs)
    &&& forall|j: int|
        0 <= j < o.songs@.len() && !tree_has_track_path(dirs, (#[trigger] o.songs@[j]).path@)
            ==> n.songs@[j] == o.songs@[j]
    &&& n.scanned_full == true
    &&& n.next_id <= o.next_id + tree_budget(dirs)
}

/// The filesystem's report for a path, if the path was found at all.
pub open spec fn report_for(fs: Seq<DirReport>, p: Seq<char>) -> Option<DirReport>
    decreases fs.len(),
{
    if fs.len() == 0 {
        None
    } else if fs[0].path@ == p {
        Some(fs[0])
    } else {
        report_for(fs.skip(1), p)
    }
}

/// The change detector's verdict for one known directory against the live
/// filesystem: a path without a report — or reported gone or emptied — is
/// `Missing`; otherwise the modification times decide.
pub open spec fn dir_verdict(row: crate::store::DirectoryRow, fs: Seq<DirReport>) -> DirStatus {
    match report_for(fs, row.path@) {
        None => DirStatus::Missing,
        Some(r) => spec_check_directory(r.present, r.files@.len() as int, r.mtime, Some(row.mtime)),
    }
}

/// How many fresh identifiers revisiting one known directory may consume.
pub open spec fn row_budget(row: crate::store::DirectoryRow, fs: Seq<DirReport>) -> int {
    match report_for(fs, row.path@) {
        None => 0int,
        Some(r) => 3 + r.tracks@.len() as int,
    }
}

/// How many fresh identifiers a partial walk over the known directories may
/// consume.
pub open spec fn dirs_budget(rows: Seq<crate::store::DirectoryRow>, fs: Seq<DirReport>) -> int
    decreases rows.len(),
{
    if rows.len() == 0 {
        0
    } else {
        dirs_budget(rows.drop_last(), fs) + row_budget(rows.last(), fs)
    }
}

proof fn lemma_dirs_budget_step(rows: Seq<crate::store::DirectoryRow>, fs: Seq<DirReport>, i: int)
    requires
        0 <= i < rows.len(),
    ensures
        dirs_budget(rows.take(i + 1), fs) == dirs_budget(rows.take(i), fs) + row_budget(
            rows[i],
            fs,
        ),
{
    assert(rows.take(i + 1).drop_last() =~= rows.take(i));
    assert(rows.take(i + 1).last() == rows[i]);
}

proof fn lemma_dirs_budget_mono(rows: Seq<crate::store::DirectoryRow>, fs: Seq<DirReport>, i: int)
    requires
        0 <= i <= rows.len(),
    ensures
        0 <= dirs_budget(rows.take(i), fs) <= dirs_budget(rows, fs),
    decreases rows.len(),
{
    if i < rows.len() {
        assert(rows.drop_last().take(i) =~= rows.take(i));
        lemma_dirs_budget_mono(rows.drop_last(), fs, i);
        assert(row_budget(rows.last(), fs) >= 0);
    } else {
        assert(rows.take(i) =~= rows);
        lemma_dirs_budget_nonneg(rows, fs);
    }
}

proof fn lemma_dirs_budget_nonneg(rows: Seq<crate::store::DirectoryRow>, fs: Seq<DirReport>)
    ensures
        dirs_budget(rows, fs) >= 0,
    decreases rows.len(),
{
    if rows.len() > 0 {
        lemma_dirs_budget_nonneg(rows.drop_last(), fs);
        assert(row_budget(rows.last(), fs) >= 0);
    }
}

/// The filesystem snapshot of a partial walk is well formed: every listing
/// is, report paths are pairwise distinct, and no file is listed under two
/// reports.
pub open spec fn fs_wf(fs: Seq<DirReport>) -> bool {
    tree_wf(fs)
}

/// The snapshot is consistent with the store's view of vanished
/// directories: no reported file lies under a path whose verdict is
/// `Missing` — a directory that disappeared yields no files.
pub open spec fn fs_consistent(o: Store, fs: Seq<DirReport>) -> bool {
    forall|j: int, di: int, k: int|
        0 <= j < o.directories@.len() && dir_verdict(#[trigger] o.directories@[j], fs)
            == DirStatus::Missing && 0 <= di < fs.len() && 0 <= k < fs[di].tracks@.len()
            ==> !spec_starts_with((#[trigger] fs[di].tracks@[k]).path@, o.directories@[j].path@)
}

/// A covered directory stays covered across removing another directory's
/// row and purging the songs under another path.
proof fn lemma_dir_covered_carry_delete(cur: Store, nxt: Store, d: DirReport, p: Seq<char>)
    requires
        cur.wf(),
        dir_covered(cur, d),
        d.path@ != p,
        forall|k: int|
            0 <= k < d.tracks@.len() ==> !spec_starts_with(
                (#[trigger] d.tracks@[k]).path@,
                p,
            ),
        nxt.artists@ == cur.artists@,
        nxt.albums@ == cur.albums@,
        nxt.songs@ == cur.songs@.filter(
            |s: crate::store::SongRow| !spec_starts_with(s.path@, p),
        ),
        cur.has_dir_path(p) ==> exists|i: int|
            0 <= i < cur.directories@.len() && (#[trigger] cur.directories@[i]).path@ == p
                && nxt.directories@ == cur.directories@.remove(i),
        !cur.has_dir_path(p) ==> nxt.directories@ == cur.directories@,
    ensures
        dir_covered(nxt, d),
{
    broadcast use vstd::seq_lib::group_filter_ensures;

    let jd = choose|j: int|
        0 <= j < cur.directories@.len() && (#[trigger] cur.directories@[j]).path@ == d.path@
            && cur.directories@[j].mtime == d.mtime;
    if cur.has_dir_path(p) {
        let ri = choose|i: int|
            0 <= i < cur.directories@.len() && (#[trigger] cur.directories@[i]).path@ == p
                && nxt.directories@ == cur.directories@.remove(i);
        assert(ri != jd);
        if jd < ri {
            assert(nxt.directories@[jd] == cur.directories@[jd]);
        } else {
            assert(nxt.directories@[jd - 1] == cur.directories@[jd]);
        }
    } else {
        assert(nxt.directories@[jd] == cur.directories@[jd]);
    }
    if has_processable(d.tracks@) {
        let fi = choose|fi: int|
            {
                &&& #[trigger] is_first_processable(d.tracks@, fi)
                &&& cur.has_artist_name(track_album_artist(d.tracks@[fi]))
                &&& exists|ja: int|
                    0 <= ja < cur.albums@.len() && (#[trigger] cur.albums@[ja]).name@
                        == track_album_name(d.tracks@[fi]) && cur.albums@[ja].path@ == d.path@
                        && (forall|k: int|
                        0 <= k < d.tracks@.len() && processable(#[trigger] d.tracks@[k])
                            ==> exists|js: int|
                            0 <= js < cur.songs@.len() && (#[trigger] cur.songs@[js]).path@
                                == d.tracks@[k].path@ && cur.songs@[js].album_id == Some(
                                cur.albums@[ja].id,
                            ))
            };
        let ja = choose|ja: int|
            0 <= ja < cur.albums@.len() && (#[trigger] cur.albums@[ja]).name@ == track_album_name(
                d.tracks@[fi],
            ) && cur.albums@[ja].path@ == d.path@ && (forall|k: int|
                0 <= k < d.tracks@.len() && processable(#[trigger] d.tracks@[k])
                    ==> exists|js: int|
                    0 <= js < cur.songs@.len() && (#[trigger] cur.songs@[js]).path@
                        == d.tracks@[k].path@ && cur.songs@[js].album_id == Some(
                        cur.albums@[ja].id,
                    ));
        assert(nxt.albums@[ja] == cur.albums@[ja]);
        let spred = |s: crate::store::SongRow| !spec_starts_with(s.path@, p);
        assert forall|k: int|
            0 <= k < d.tracks@.len() && processable(#[trigger] d.tracks@[k]) implies exists|
            js: int,
        |
            0 <= js < nxt.songs@.len() && (#[trigger] nxt.songs@[js]).path@ == d.tracks@[k].path@
                && nxt.songs@[js].album_id == Some(nxt.albums@[ja].id) by {
            let js = choose|js: int|
                0 <= js < cur.songs@.len() && (#[trigger] cur.songs@[js]).path@
                    == d.tracks@[k].path@ && cur.songs@[js].album_id == Some(cur.albums@[ja].id);
            assert(spred(cur.songs@[js]));
            cur.songs@.lemma_filter_contains(spred, js);
            let w = choose|w: int|
                0 <= w < nxt.songs@.len() && #[trigger] nxt.songs@[w] == cur.songs@[js];
            assert(nxt.songs@[w].path@ == d.tracks@[k].path@);
        }
    }
}

/// A found report carries the looked-up path and is a member of the
/// snapshot.
proof fn lemma_report_for_props(fs: Seq<DirReport>, p: Seq<char>)
    requires
        report_for(fs, p) is Some,
    ensures
        report_for(fs, p)->0.path@ == p,
        exists|di: int| 0 <= di < fs.len() && #[trigger] fs[di] == report_for(fs, p)->0,
    decreases fs.len(),
{
    if fs.len() > 0 {
        if fs[0].path@ == p {
            assert(fs[0] == report_for(fs, p)->0);
        } else {
            lemma_report_for_props(fs.skip(1), p);
            let di = choose|di: int|
                0 <= di < fs.skip(1).len() && #[trigger] fs.skip(1)[di] == report_for(
                    fs.skip(1),
                    p,
                )->0;
            assert(fs[di + 1] == report_for(fs, p)->0);
        }
    }
}

/// The whole contract of a partial walk: no new directory is discovered; a
/// vanished or emptied directory loses its row and the songs under it; an
/// unchanged directory is untouched; a modified one is rescanned and fully
/// recorded again.
pub open spec fn walk_partial_post(o: Store, n: Store, fs: Seq<DirReport>) -> bool {
    &&& n.wf()
    &&& n.scanned_full == o.scanned_full
    &&& o.next_id <= n.next_id <= o.next_id + dirs_budget(o.directories@, fs)
    &&& forall|k: int|
        0 <= k < n.directories@.len() ==> o.has_dir_path((#[trigger] n.directories@[k]).path@)
    &&& forall|j: int|
        0 <= j < o.directories@.len() && dir_verdict(#[trigger] o.directories@[j], fs)
            == DirStatus::Missing ==> !n.has_dir_path(o.directories@[j].path@) && (forall|s: int|
            0 <= s < n.songs@.len() ==> !spec_starts_with(
                (#[trigger] n.songs@[s]).path@,
                o.directories@[j].path@,
            ))
    &&& forall|j: int|
        0 <= j < o.directories@.len() && dir_verdict(#[trigger] o.directories@[j], fs)
            == DirStatus::Unchanged ==> exists|k: int|
            0 <= k < n.directories@.len() && #[trigger] n.directories@[k] == o.directories@[j]
    &&& forall|j: int|
        0 <= j < o.directories@.len() && dir_verdict(#[trigger] o.directories@[j], fs)
            == DirStatus::Modified ==> dir_covered(n, report_for(fs, o.directories@[j].path@)->0)
}

/// One partial-walk step that found a directory vanished or emptied: the
/// facts recorded for the other known directories carry across purging the
/// songs under its path and removing its row.
proof fn lemma_partial_missing_step(
    olds: Store,
    cur0: Store,
    cur1: Store,
    cur2: Store,
    rows: Seq<crate::store::DirectoryRow>,
    fs: Seq<DirReport>,
    i: int,
)
    requires
        olds.wf(),
        fs_wf(fs),
        fs_consistent(olds, fs),
        rows == olds.directories@,
        0 <= i < rows.len(),
        dir_verdict(rows[i], fs) == DirStatus::Missing,
        cur0.wf(),
        forall|k: int|
            0 <= k < cur0.directories@.len() ==> olds.has_dir_path(
                (#[trigger] cur0.directories@[k]).path@,
            ),
        forall|j2: int|
            i <= j2 < rows.len() ==> #[trigger] row_still_known(cur0, rows[j2]),
        forall|j2: int| 0 <= j2 < i ==> #[trigger] partial_row_done(cur0, rows[j2], fs),
        cur1.wf(),
        cur1.songs@ == cur0.songs@.filter(
            |s: crate::store::SongRow| !spec_starts_with(s.path@, rows[i].path@),
        ),
        cur1.directories@ == cur0.directories@,
        cur1.artists@ == cur0.artists@,
        cur1.albums@ == cur0.albums@,
        cur2.wf(),
        cur1.has_dir_path(rows[i].path@) ==> exists|k: int|
            0 <= k < cur1.directories@.len() && (#[trigger] cur1.directories@[k]).path@
                == rows[i].path@ && cur2.directories@ == cur1.directories@.remove(k),
        !cur1.has_dir_path(rows[i].path@) ==> cur2.directories@ == cur1.directories@,
        cur2.songs@ == cur1.songs@,
        cur2.artists@ == cur1.artists@,
        cur2.albums@ == cur1.albums@,
    ensures
        forall|k: int|
            0 <= k < cur2.directories@.len() ==> olds.has_dir_path(
                (#[trigger] cur2.directories@[k]).path@,
            ),
        forall|j2: int|
            i + 1 <= j2 < rows.len() ==> #[trigger] row_still_known(cur2, rows[j2]),
        forall|j2: int| 0 <= j2 < i + 1 ==> #[trigger] partial_row_done(cur2, rows[j2], fs),
{
    broadcast use vstd::seq_lib::group_filter_ensures;

    let p = rows[i].path@;
    let spred = |s: crate::store::SongRow| !spec_starts_with(s.path@, p);
    if cur1.has_dir_path(p) {
        let ri = choose|k: int|
            0 <= k < cur1.directories@.len() && (#[trigger] cur1.directories@[k]).path@ == p
                && cur2.directories@ == cur1.directories@.remove(k);
        assert(forall|k: int|
            0 <= k < cur2.directories@.len() ==> #[trigger] cur2.directories@[k] == (if k < ri {
                cur1.directories@[k]
            } else {
                cur1.directories@[k + 1]
            }));
        assert(forall|k: int|
            0 <= k < cur2.directories@.len() ==> olds.has_dir_path(
                (#[trigger] cur2.directories@[k]).path@,
            ));
        assert(!cur2.has_dir_path(p)) by {
            if cur2.has_dir_path(p) {
                let k = choose|k: int|
                    0 <= k < cur2.directories@.len() && (#[trigger] cur2.directories@[k]).path@
                        == p;
                if k < ri {
                    assert(cur1.directories@[k].path@ == cur1.directories@[ri].path@);
                    assert(false);
                } else {
                    assert(cur1.directories@[k + 1].path@ == cur1.directories@[ri].path@);
                    assert(false);
                }
            }
        }
        assert forall|j2: int|
            i + 1 <= j2 < rows.len() implies #[trigger] row_still_known(cur2, rows[j2]) by {
            assert(row_still_known(cur0, rows[j2]));
            let k0 = choose|k: int|
                0 <= k < cur0.directories@.len() && #[trigger] cur0.directories@[k] == rows[j2];
            assert(rows[j2].path@ != p);
            assert(k0 != ri);
            if k0 < ri {
                assert(cur2.directories@[k0] == rows[j2]);
            } else {
                assert(cur2.directories@[k0 - 1] == rows[j2]);
            }
        }
    } else {
        assert(!cur2.has_dir_path(p));
        assert forall|j2: int|
            i + 1 <= j2 < rows.len() implies #[trigger] row_still_known(cur2, rows[j2]) by {
            assert(row_still_known(cur0, rows[j2]));
            let k0 = choose|k: int|
                0 <= k < cur0.directories@.len() && #[trigger] cur0.directories@[k] == rows[j2];
            assert(cur2.directories@[k0] == rows[j2]);
        }
    }
    assert forall|j2: int| 0 <= j2 < i + 1 implies #[trigger] partial_row_done(
        cur2,
        rows[j2],
        fs,
    ) by {
        if j2 == i {
            assert(forall|s: int|
                0 <= s < cur2.songs@.len() ==> !spec_starts_with(
                    (#[trigger] cur2.songs@[s]).path@,
                    p,
                ));
        } else {
            assert(partial_row_done(cur0, rows[j2], fs));
            if dir_verdict(rows[j2], fs) == DirStatus::Missing {
                assert(!cur2.has_dir_path(rows[j2].path@)) by {
                    if cur2.has_dir_path(rows[j2].path@) {
                        let k = choose|k: int|
                            0 <= k < cur2.directories@.len() && (
                            #[trigger] cur2.directories@[k]).path@ == rows[j2].path@;
                        assert(cur1.directories@.contains(cur2.directories@[k])) by {
                            if cur1.has_dir_path(p) {
                                let ri = choose|w: int|
                                    0 <= w < cur1.directories@.len() && (
                                    #[trigger] cur1.directories@[w]).path@ == p
                                        && cur2.directories@ == cur1.directories@.remove(w);
                                if k < ri {
                                    assert(cur1.directories@[k] == cur2.directories@[k]);
                                } else {
                                    assert(cur1.directories@[k + 1] == cur2.directories@[k]);
                                }
                            }
                        }
                        let w = choose|w: int|
                            0 <= w < cur1.directories@.len() && cur1.directories@[w]
                                == cur2.directories@[k];
                        assert(cur0.has_dir_path(rows[j2].path@));
                        assert(false);
                    }
                }
                assert forall|s: int|
                    0 <= s < cur2.songs@.len() implies !spec_starts_with(
                    (#[trigger] cur2.songs@[s]).path@,
                    rows[j2].path@,
                ) by {
                    lemma_filter_element_origin(cur0.songs@, spred, s);
                    let w = choose|w: int|
                        0 <= w < cur0.songs@.len() && cur0.songs@[w] == cur2.songs@[s];
                }
            }
            if dir_verdict(rows[j2], fs) == DirStatus::Unchanged {
                assert(row_still_known(cur0, rows[j2]));
                let k0 = choose|k: int|
                    0 <= k < cur0.directories@.len() && #[trigger] cur0.directories@[k]
                        == rows[j2];
                assert(rows[j2].path@ != p);
                if cur1.has_dir_path(p) {
                    let ri = choose|w: int|
                        0 <= w < cur1.directories@.len() && (
                        #[trigger] cur1.directories@[w]).path@ == p && cur2.directories@
                            == cur1.directories@.remove(w);
                    assert(k0 != ri);
                    if k0 < ri {
                        assert(cur2.directories@[k0] == rows[j2]);
                    } else {
                        assert(cur2.directories@[k0 - 1] == rows[j2]);
                    }
                } else {
                    assert(cur2.directories@[k0] == rows[j2]);
                }
            }
            if dir_verdict(rows[j2], fs) == DirStatus::Modified {
                let d = report_for(fs, rows[j2].path@)->0;
                lemma_report_for_props(fs, rows[j2].path@);
                let di = choose|di: int| 0 <= di < fs.len() && #[trigger] fs[di] == d;
                assert(forall|k: int|
                    0 <= k < d.tracks@.len() ==> !spec_starts_with(
                        (#[trigger] d.tracks@[k]).path@,
                        p,
                    ));
                lemma_dir_covered_carry_delete(cur0, cur2, d, p);
            }
        }
    }
}

/// One partial-walk step that found a directory modified: the facts
/// recorded for the other known directories carry across rescanning it and
/// refreshing its row, and the directory itself is now fully recorded.
proof fn lemma_partial_modified_step(
    olds: Store,
    cur0: Store,
    mid: Store,
    cur2: Store,
    rows: Seq<crate::store::DirectoryRow>,
    fs: Seq<DirReport>,
    i: int,
    rep_idx: int,
    out: BatchOutcome,
    now: String,
)
    requires
        olds.wf(),
        fs_wf(fs),
        fs_consistent(olds, fs),
        rows == olds.directories@,
        0 <= i < rows.len(),
        0 <= rep_idx < fs.len(),
        fs[rep_idx] == report_for(fs, rows[i].path@)->0,
        report_for(fs, rows[i].path@) is Some,
        dir_verdict(rows[i], fs) == DirStatus::Modified,
        cur0.wf(),
        mid.wf(),
        cur2.wf(),
        forall|k: int|
            0 <= k < cur0.directories@.len() ==> olds.has_dir_path(
                (#[trigger] cur0.directories@[k]).path@,
            ),
        forall|j2: int|
            i <= j2 < rows.len() ==> #[trigger] row_still_known(cur0, rows[j2]),
        forall|j2: int| 0 <= j2 < i ==> #[trigger] partial_row_done(cur0, rows[j2], fs),
        scan_dir_post(
            cur0,
            mid,
            fs[rep_idx].tracks@,
            fs[rep_idx].path@,
            fs[rep_idx].files@,
            out,
            now,
        ),
        mid.has_dir_path(fs[rep_idx].path@) ==> exists|j: int|
            0 <= j < mid.directories@.len() && (#[trigger] mid.directories@[j]).path@
                == fs[rep_idx].path@ && cur2.directories@ == mid.directories@.update(
                j,
                Store::dir_updated(mid.directories@[j], fs[rep_idx].mtime, now),
            ),
        !mid.has_dir_path(fs[rep_idx].path@) ==> cur2.directories@ == mid.directories@.push(
            Store::dir_created(mid.next_id, fs[rep_idx].path, fs[rep_idx].mtime, now),
        ),
        cur2.artists@ == mid.artists@,
        cur2.albums@ == mid.albums@,
        cur2.songs@ == mid.songs@,
    ensures
        forall|k: int|
            0 <= k < cur2.directories@.len() ==> olds.has_dir_path(
                (#[trigger] cur2.directories@[k]).path@,
            ),
        forall|j2: int|
            i + 1 <= j2 < rows.len() ==> #[trigger] row_still_known(cur2, rows[j2]),
        forall|j2: int| 0 <= j2 < i + 1 ==> #[trigger] partial_row_done(cur2, rows[j2], fs),
{
    let p = rows[i].path@;
    lemma_report_for_props(fs, p);
    assert(fs[rep_idx].path@ == p);
    let ts = fs[rep_idx].tracks@;
    assert(mid.directories@ == cur0.directories@);
    // directory rows after the refresh: same paths, possibly one more `p`
    assert forall|k: int|
        0 <= k < cur2.directories@.len() implies olds.has_dir_path(
        (#[trigger] cur2.directories@[k]).path@,
    ) by {
        if mid.has_dir_path(p) {
            let ju = choose|j: int|
                0 <= j < mid.directories@.len() && (#[trigger] mid.directories@[j]).path@ == p
                    && cur2.directories@ == mid.directories@.update(
                    j,
                    Store::dir_updated(mid.directories@[j], fs[rep_idx].mtime, now),
                );
            if k == ju {
                assert(cur2.directories@[k].path@ == p);
                assert(olds.has_dir_path(p)) by {
                    assert(olds.directories@[i] == rows[i]);
                }
            } else {
                assert(cur2.directories@[k] == mid.directories@[k]);
            }
        } else {
            if k < mid.directories@.len() {
                assert(cur2.directories@[k] == mid.directories@[k]);
            } else {
                assert(cur2.directories@[k].path@ == p);
                assert(olds.has_dir_path(p)) by {
                    assert(olds.directories@[i] == rows[i]);
                }
            }
        }
    }
    assert forall|j2: int|
        i + 1 <= j2 < rows.len() implies #[trigger] row_still_known(cur2, rows[j2]) by {
        assert(row_still_known(cur0, rows[j2]));
        let k0 = choose|k: int|
            0 <= k < cur0.directories@.len() && #[trigger] cur0.directories@[k] == rows[j2];
        assert(rows[j2].path@ != p);
        if mid.has_dir_path(p) {
            let ju = choose|j: int|
                0 <= j < mid.directories@.len() && (#[trigger] mid.directories@[j]).path@ == p
                    && cur2.directories@ == mid.directories@.update(
                    j,
                    Store::dir_updated(mid.directories@[j], fs[rep_idx].mtime, now),
                );
            assert(k0 != ju);
            assert(cur2.directories@[k0] == rows[j2]);
        } else {
            assert(cur2.directories@[k0] == rows[j2]);
        }
    }
    assert forall|j2: int| 0 <= j2 < i + 1 implies #[trigger] partial_row_done(
        cur2,
        rows[j2],
        fs,
    ) by {
        if j2 == i {
            lemma_dir_covered_new(cur0, mid, cur2, fs, rep_idx, out, now);
        } else {
            assert(partial_row_done(cur0, rows[j2], fs));
            if dir_verdict(rows[j2], fs) == DirStatus::Missing {
                let q = rows[j2].path@;
                assert(q != p);
                assert(!cur2.has_dir_path(q)) by {
                    if cur2.has_dir_path(q) {
                        let k = choose|k: int|
                            0 <= k < cur2.directories@.len() && (
                            #[trigger] cur2.directories@[k]).path@ == q;
                        if mid.has_dir_path(p) {
                            let ju = choose|j: int|
                                0 <= j < mid.directories@.len() && (
                                #[trigger] mid.directories@[j]).path@ == p && cur2.directories@
                                    == mid.directories@.update(
                                    j,
                                    Store::dir_updated(mid.directories@[j], fs[rep_idx].mtime, now),
                                );
                            assert(k != ju);
                            assert(mid.directories@[k].path@ == q);
                            assert(cur0.has_dir_path(q));
                            assert(false);
                        } else {
                            if k < mid.directories@.len() {
                                assert(cur0.has_dir_path(q));
                                assert(false);
                            } else {
                                assert(cur2.directories@[k].path@ == p);
                                assert(false);
                            }
                        }
                    }
                }
                assert forall|s: int|
                    0 <= s < cur2.songs@.len() implies !spec_starts_with(
                    (#[trigger] cur2.songs@[s]).path@,
                    q,
                ) by {
                    if has_processable(ts) {
                        let fj = choose|fj: int|
                            {
                                &&& #[trigger] is_first_processable(ts, fj)
                                &&& artist_resolution_post(cur0, mid, out.artist_id->0, ts[fj], now)
                                &&& album_resolution_post(
                                    cur0,
                                    mid,
                                    out.album_id->0,
                                    out.artist_id->0,
                                    ts[fj],
                                    fs[rep_idx].path@,
                                    fs[rep_idx].files@,
                                    now,
                                )
                                &&& songs_scan_post(cur0, mid, ts, out.album_id->0, now)
                            };
                        lemma_count_bounds(ts, new_song_pred(cur0));
                        if s < cur0.songs@.len() {
                            assert(song_row_evolved(cur0, mid, ts, out.album_id->0, now, s));
                            assert(cur2.songs@[s].path@ == cur0.songs@[s].path@) by {
                                if exists|kk: int|
                                    0 <= kk < ts.len() && processable(#[trigger] ts[kk])
                                        && ts[kk].path@ == cur0.songs@[s].path@ {
                                }
                            }
                        } else {
                            assert(song_row_appended(cur0, mid, ts, out.album_id->0, now, s));
                            let kk = choose|kk: int|
                                0 <= kk < ts.len() && processable(#[trigger] ts[kk])
                                    && !cur0.has_song_path(ts[kk].path@) && mid.songs@[s].path@
                                    == ts[kk].path@;
                            assert(!spec_starts_with(ts[kk].path@, q)) by {
                                assert(dir_verdict(olds.directories@[j2], fs)
                                    == DirStatus::Missing);
                            }
                        }
                    } else {
                        assert(mid == cur0);
                    }
                }
            }
            if dir_verdict(rows[j2], fs) == DirStatus::Unchanged {
                assert(row_still_known(cur0, rows[j2]));
                let k0 = choose|k: int|
                    0 <= k < cur0.directories@.len() && #[trigger] cur0.directories@[k]
                        == rows[j2];
                assert(rows[j2].path@ != p);
                if mid.has_dir_path(p) {
                    let ju = choose|j: int|
                        0 <= j < mid.directories@.len() && (#[trigger] mid.directories@[j]).path@
                            == p && cur2.directories@ == mid.directories@.update(
                            j,
                            Store::dir_updated(mid.directories@[j], fs[rep_idx].mtime, now),
                        );
                    assert(k0 != ju);
                    assert(cur2.directories@[k0] == rows[j2]);
                } else {
                    assert(cur2.directories@[k0] == rows[j2]);
                }
            }
            if dir_verdict(rows[j2], fs) == DirStatus::Modified {
                let d = report_for(fs, rows[j2].path@)->0;
                lemma_report_for_props(fs, rows[j2].path@);
                let di = choose|di: int| 0 <= di < fs.len() && #[trigger] fs[di] == d;
                assert(d.path@ == rows[j2].path@);
                assert(di != rep_idx) by {
                    if di == rep_idx {
                        assert(d.path@ == p);
                    }
                }
                lemma_dir_covered_carry(cur0, mid, cur2, fs, rep_idx, di, out, now);
            }
        }
    }
}

/// The store still holds this directory row, verbatim.
pub open spec fn row_still_known(cur: Store, row: crate::store::DirectoryRow) -> bool {
    exists|k: int| 0 <= k < cur.directories@.len() && #[trigger] cur.directories@[k] == row
}

/// One known directory's verdict has been applied to the store.
pub open spec fn partial_row_done(
    cur: Store,
    row: crate::store::DirectoryRow,
    fs: Seq<DirReport>,
) -> bool {
    &&& dir_verdict(row, fs) == DirStatus::Missing ==> !cur.has_dir_path(row.path@) && (forall|
        s: int,
    |
        0 <= s < cur.songs@.len() ==> !spec_starts_with(
            (#[trigger] cur.songs@[s]).path@,
            row.path@,
        ))
    &&& dir_verdict(row, fs) == DirStatus::Unchanged ==> row_still_known(cur, row)
    &&& dir_verdict(row, fs) == DirStatus::Modified ==> dir_covered(
        cur,
        report_for(fs, row.path@)->0,
    )
}

/// The scanning engine: drives change detection, extraction and
/// reconciliation against its store.
pub struct ScanService {
    pub store: Store,
}

impl ScanService {
    /// A scanning engine over the given store.
    pub fn new(store: Store) -> (service: ScanService)
        ensures
            service.store == store,
    {
        ScanService { store }
    }

    /// Scans one directory's listing inside one batch: resolves the artist
    /// and the album once — at the first readable track — then inserts or
    /// refreshes a song row per readable track.  A track whose extraction
    /// fails is skipped and counted; the batch always completes.
    #[verifier::rlimit(60)]
    pub fn scan_dir(&mut self, dir: &DirReport, now: &String) -> (out: BatchOutcome)
        requires
            old(self).store.wf(),
            report_wf(*dir),
            old(self).store.next_id + 2 + dir.tracks@.len() <= u64::MAX,
        ensures
            scan_dir_post(
                old(self).store,
                final(self).store,
                dir.tracks@,
                dir.path@,
                dir.files@,
                out,
                *now,
            ),
    {
        let ghost olds = old(self).store;
        let ghost ts = dir.tracks@;
        let n = dir.tracks.len();
        let mut processed: usize = 0;
        let mut skipped: usize = 0;
        let mut artist_resolutions: usize = 0;
        let mut album_resolutions: usize = 0;
        let mut artist_id: Option<u64> = None;
        let mut album_id: Option<u64> = None;
        let ghost mut gfi: int = 0;
        let mut i: usize = 0;
        proof {
            assert(ts.take(0) =~= Seq::<TrackFile>::empty());
            lemma_count_zero(ts.take(0), processable_pred());
            lemma_count_zero(ts.take(0), skip_pred());
        }
        while i < n
            invariant
                0 <= i <= n,
                n == ts.len(),
                ts == dir.tracks@,
                olds == old(self).store,
                olds.wf(),
                report_wf(*dir),
                olds.next_id + 2 + ts.len() <= u64::MAX,
                self.store.wf(),
                self.store.directories@ == olds.directories@,
                self.store.scanned_full == olds.scanned_full,
                olds.next_id <= self.store.next_id,
                self.store.next_id <= olds.next_id + 2 + count_where(
                    ts.take(i as int),
                    processable_pred(),
                ),
                processed == count_where(ts.take(i as int), processable_pred()),
                skipped == count_where(ts.take(i as int), skip_pred()),
                processed <= i,
                skipped <= i,
                artist_resolutions == (if has_processable(ts.take(i as int)) {
                    1int
                } else {
                    0int
                }),
                album_resolutions == (if has_processable(ts.take(i as int)) {
                    1int
                } else {
                    0int
                }),
                artist_id is Some <==> has_processable(ts.take(i as int)),
                album_id is Some <==> has_processable(ts.take(i as int)),
                !has_processable(ts.take(i as int)) ==> self.store == olds,
                has_processable(ts.take(i as int)) ==> {
                    &&& is_first_processable(ts.take(i as int), gfi)
                    &&& artist_resolution_post(olds, self.store, artist_id->0, ts[gfi], *now)
                    &&& album_resolution_post(
                        olds,
                        self.store,
                        album_id->0,
                        artist_id->0,
                        ts[gfi],
                        dir.path@,
                        dir.files@,
                        *now,
                    )
                    &&& songs_scan_post(olds, self.store, ts.take(i as int), album_id->0, *now)
                },
            decreases n - i,
        {
            let t = &dir.tracks[i];
            proof {
                assert(*t == ts[i as int]);
                lemma_count_step(ts, i as int, processable_pred());
                lemma_count_step(ts, i as int, skip_pred());
                lemma_count_bounds(ts.take(i as int), processable_pred());
                lemma_count_bounds(ts.take(i as int), skip_pred());
            }
            let is_flac = str_ends_with(t.path.as_str(), ".flac");
            if !is_flac {
                proof {
                    assert(!processable(ts[i as int]));
                    assert(!skipped_track(ts[i as int]));
                    assert(has_processable(ts.take(i + 1)) == has_processable(ts.take(i as int)))
                        by {
                        if has_processable(ts.take(i + 1)) {
                            let k = choose|k: int|
                                0 <= k < ts.take(i + 1).len() && processable(
                                    #[trigger] ts.take(i + 1)[k],
                                );
                            assert(ts.take(i + 1)[k] == ts[k]);
                            if k < i {
                                assert(ts.take(i as int)[k] == ts[k]);
                            }
                        }
                        if has_processable(ts.take(i as int)) {
                            let k = choose|k: int|
                                0 <= k < ts.take(i as int).len() && processable(
                                    #[trigger] ts.take(i as int)[k],
                                );
                            assert(ts.take(i + 1)[k] == ts[k]);
                        }
                    }
                    if has_processable(ts.take(i as int)) {
                        assert(is_first_processable(ts.take(i + 1), gfi)) by {
                            assert(ts.take(i + 1)[gfi] == ts.take(i as int)[gfi]);
                            assert(forall|j: int|
                                0 <= j < gfi ==> ts.take(i + 1)[j] == #[trigger] ts.take(
                                    i as int,
                                )[j]);
                        }
                        lemma_songs_post_extend_nonproc(
                            olds,
                            self.store,
                            ts,
                            i as int,
                            album_id->0,
                            *now,
                        );
                    }
                }
                i = i + 1;
                continue ;
            }
            let (tags_opt, stream_opt): (Option<&TagBlock>, Option<&StreamInfo>) = match &t
                .source {
                TagSource::Tags { tags, stream } => (Some(tags), stream.as_ref()),
                TagSource::Unreadable => (None, None),
            };
            proof {
                assert(track_wf(ts[i as int]));
            }
            match get_metadata_flac(&t.path, &dir.path, tags_opt, stream_opt) {
                Err(_) => {
                    skipped = skipped + 1;
                    proof {
                        assert(!track_readable(ts[i as int]));
                        assert(skipped_track(ts[i as int]));
                        assert(!processable(ts[i as int]));
                        assert(has_processable(ts.take(i + 1)) == has_processable(
                            ts.take(i as int),
                        )) by {
                            if has_processable(ts.take(i + 1)) {
                                let k = choose|k: int|
                                    0 <= k < ts.take(i + 1).len() && processable(
                                        #[trigger] ts.take(i + 1)[k],
                                    );
                                assert(ts.take(i + 1)[k] == ts[k]);
                                if k < i {
                                    assert(ts.take(i as int)[k] == ts[k]);
                                }
                            }
                            if has_processable(ts.take(i as int)) {
                                let k = choose|k: int|
                                    0 <= k < ts.take(i as int).len() && processable(
                                        #[trigger] ts.take(i as int)[k],
                                    );
                                assert(ts.take(i + 1)[k] == ts[k]);
                            }
                        }
                        if has_processable(ts.take(i as int)) {
                            assert(is_first_processable(ts.take(i + 1), gfi)) by {
                                assert(ts.take(i + 1)[gfi] == ts.take(i as int)[gfi]);
                                assert(forall|j: int|
                                    0 <= j < gfi ==> ts.take(i + 1)[j] == #[trigger] ts.take(
                                        i as int,
                                    )[j]);
                            }
                            lemma_songs_post_extend_nonproc(
                                olds,
                                self.store,
                                ts,
                                i as int,
                                album_id->0,
                                *now,
                            );
                        }
                    }
                },
                Ok(md) => {
                    proof {
                        assert(track_readable(ts[i as int]));
                        assert(processable(ts[i as int]));
                        assert(track_entries(ts[i as int]) == tags_opt->0.entries@);
                        assert(md.path@ == ts[i as int].path@);
                        assert(md.name@ == track_title(ts[i as int]));
                        assert(md.artist@ == track_artist(ts[i as int]));
                        assert(md.album_name@ == track_album_name(ts[i as int]));
                        assert(md.album_artist@ == track_album_artist(ts[i as int]));
                        assert(opt_text(md.mb_artist_id) == track_mb_artist_id(ts[i as int]));
                        assert(md.track == track_number(ts[i as int]));
                        assert(md.disc == track_disc(ts[i as int]));
                        assert(md.year == track_year(ts[i as int]));
                        assert(md.length == track_length(ts[i as int]));
                    }
                    let ghost was_first = artist_id is None;
                    if artist_id.is_none() {
                        proof {
                            assert(!has_processable(ts.take(i as int)));
                            assert(self.store == olds);
                            gfi = i as int;
                        }
                        artist_resolutions = artist_resolutions + 1;
                        album_resolutions = album_resolutions + 1;
                        match self.store.find_artist_by_name(&md.album_artist) {
                            Some(a) => {
                                artist_id = Some(a);
                            },
                            None => {
                                let a = self.store.create_artist(
                                    &md.album_artist,
                                    &md.mb_artist_id,
                                    now,
                                );
                                artist_id = Some(a);
                            },
                        }
                        proof {
                            assert(artist_resolution_post(
                                olds,
                                self.store,
                                artist_id->0,
                                ts[gfi],
                                *now,
                            ));
                        }
                        let aid = match artist_id {
                            Some(a) => a,
                            None => 0,
                        };
                        match self.store.find_album(&md.album_name, &dir.path) {
                            Some(b) => {
                                album_id = Some(b);
                            },
                            None => {
                                let cover = find_cover(&dir.files);
                                let b = self.store.create_album(
                                    cover,
                                    aid,
                                    &md,
                                    &dir.path,
                                    now,
                                );
                                album_id = Some(b);
                            },
                        }
                        proof {
                            assert(album_resolution_post(
                                olds,
                                self.store,
                                album_id->0,
                                artist_id->0,
                                ts[gfi],
                                dir.path@,
                                dir.files@,
                                *now,
                            ));
                            lemma_songs_post_trivial(
                                olds,
                                self.store,
                                ts.take(i as int),
                                album_id->0,
                                *now,
                            );
                        }
                    }
                    let bid = match album_id {
                        Some(b) => b,
                        None => 0,
                    };
                    proof {
                        assert(self.store.has_album_id(bid));
                    }
                    let ghost cur = self.store;
                    self.store.create_song(bid, &md, now);
                    processed = processed + 1;
                    proof {
                        lemma_songs_post_step_process(
                            olds,
                            cur,
                            self.store,
                            ts,
                            i as int,
                            bid,
                            *now,
                            md,
                        );
                        assert(has_processable(ts.take(i + 1))) by {
                            assert(ts.take(i + 1)[i as int] == ts[i as int]);
                        }
                        assert(is_first_processable(ts.take(i + 1), gfi)) by {
                            if was_first {
                                assert(forall|j: int|
                                    0 <= j < gfi ==> !processable(
                                        #[trigger] ts.take(i as int)[j],
                                    ));
                                assert(forall|j: int|
                                    0 <= j < gfi ==> ts.take(i + 1)[j] == #[trigger] ts.take(
                                        i as int,
                                    )[j]);
                                assert(ts.take(i + 1)[gfi] == ts[gfi]);
                            } else {
                                assert(is_first_processable(ts.take(i as int), gfi));
                                assert(ts.take(i + 1)[gfi] == ts.take(i as int)[gfi]);
                                assert(forall|j: int|
                                    0 <= j < gfi ==> ts.take(i + 1)[j] == #[trigger] ts.take(
                                        i as int,
                                    )[j]);
                            }
                        }
                    }
                },
            }
            i = i + 1;
        }
        proof {
            assert(ts.take(n as int) =~= ts);
        }
        let out = BatchOutcome {
            processed,
            skipped,
            artist_resolutions,
            album_resolutions,
            artist_id,
            album_id,
        };
        proof {
            if has_processable(ts) {
                assert(is_first_processable(ts, gfi));
            }
        }
        out
    }

    /// The initial full walk: visits every directory of the tree snapshot —
    /// skipping hidden paths — scans each unconditionally, records each
    /// directory row with its observed modification time once the batch is
    /// in, and finally sets the "has completed an initial full scan" flag.
    pub fn walk_full_initial(&mut self, dirs: &Vec<DirReport>, now: &String)
        requires
            old(self).store.wf(),
            tree_wf(dirs@),
            old(self).store.next_id + tree_budget(dirs@) <= u64::MAX,
        ensures
            walk_full_post(old(self).store, final(self).store, dirs@),
            final(self).store.scanned_full == true,
    {
        let ghost olds = old(self).store;
        let n = dirs.len();
        let mut i: usize = 0;
        proof {
            assert(dirs@.take(0) =~= Seq::<DirReport>::empty());
        }
        while i < n
            invariant
                0 <= i <= n,
                n == dirs@.len(),
                olds == old(self).store,
                olds.wf(),
                tree_wf(dirs@),
                olds.next_id + tree_budget(dirs@) <= u64::MAX,
                self.store.wf(),
                self.store.scanned_full == olds.scanned_full,
                rows_preserved(olds, self.store),
                walk_appended_ok(olds, self.store, dirs@.take(i as int)),
                walk_covered(self.store, dirs@.take(i as int)),
                forall|j: int|
                    0 <= j < olds.songs@.len() && !tree_has_track_path(
                        dirs@,
                        (#[trigger] olds.songs@[j]).path@,
                    ) ==> self.store.songs@[j] == olds.songs@[j],
                self.store.next_id <= olds.next_id + tree_budget(dirs@.take(i as int)),
            decreases n - i,
        {
            proof {
                lemma_tree_budget_step(dirs@, i as int);
                lemma_tree_budget_mono(dirs@, i + 1);
            }
            let d = &dirs[i];
            if is_hidden_path(d.path.as_str()) {
                proof {
                    lemma_appended_extend(olds, self.store, dirs@, i as int);
                    lemma_covered_extend_skip(self.store, dirs@, i as int);
                }
                i = i + 1;
                continue ;
            }
            proof {
                assert(report_wf(dirs@[i as int]));
                lemma_tree_budget_nonneg(dirs@.take(i as int));
            }
            let ghost cur = self.store;
            let out = self.scan_dir(d, now);
            let ghost mid = self.store;
            proof {
                assert(mid.next_id <= cur.next_id + 2 + d.tracks@.len());
            }
            self.store.insert_directory(&d.path, d.mtime, now);
            proof {
                lemma_walk_step(olds, cur, mid, self.store, dirs@, i as int, out, *now);
            }
            i = i + 1;
        }
        proof {
            assert(dirs@.take(n as int) =~= dirs@);
        }
        let ghost prev = self.store;
        self.store.update_scan_state(true);
        // the flag change touches no table, so every recorded fact carries
        // over to the final store
        proof {
            let fin = self.store;
            assert forall|j: int|
                olds.artists@.len() <= j < fin.artists@.len() implies
                #[trigger] artist_appended_from(olds, fin, dirs@, j) by {
                assert(artist_appended_from(olds, prev, dirs@, j));
                let (di, fi) = choose|di: int, fi: int|
                    0 <= di < dirs@.len() && eligible_dir(dirs@[di])
                        && #[trigger] is_first_processable(dirs@[di].tracks@, fi)
                        && prev.artists@[j].name@ == track_album_artist(dirs@[di].tracks@[fi]);
                assert(is_first_processable(dirs@[di].tracks@, fi));
                assert(fin.artists@[j].name@ == track_album_artist(dirs@[di].tracks@[fi]));
            }
            assert forall|j: int|
                olds.albums@.len() <= j < fin.albums@.len() implies
                #[trigger] album_appended_from(olds, fin, dirs@, j) by {
                assert(album_appended_from(olds, prev, dirs@, j));
                let (di, fi) = choose|di: int, fi: int|
                    0 <= di < dirs@.len() && eligible_dir(dirs@[di])
                        && #[trigger] is_first_processable(dirs@[di].tracks@, fi)
                        && prev.albums@[j].name@ == track_album_name(dirs@[di].tracks@[fi])
                        && prev.albums@[j].path@ == dirs@[di].path@;
                assert(is_first_processable(dirs@[di].tracks@, fi));
                assert(fin.albums@[j].name@ == track_album_name(dirs@[di].tracks@[fi]));
            }
            assert forall|j: int|
                olds.songs@.len() <= j < fin.songs@.len() implies #[trigger] song_appended_from(
                olds,
                fin,
                dirs@,
                j,
            ) by {
                assert(song_appended_from(olds, prev, dirs@, j));
                let (di, k) = choose|di: int, k: int|
                    0 <= di < dirs@.len() && eligible_dir(dirs@[di]) && 0 <= k
                        < dirs@[di].tracks@.len() && processable(
                        #[trigger] dirs@[di].tracks@[k],
                    ) && prev.songs@[j].path@ == dirs@[di].tracks@[k].path@;
                assert(processable(dirs@[di].tracks@[k]));
                assert(fin.songs@[j].path@ == dirs@[di].tracks@[k].path@);
            }
            assert forall|di: int|
                0 <= di < dirs@.len() && eligible_dir(#[trigger] dirs@[di]) implies dir_covered(
                fin,
                dirs@[di],
            ) by {
                assert(dir_covered(prev, dirs@[di]));
            }
            assert(forall|j: int|
                0 <= j < olds.songs@.len() && !tree_has_track_path(
                    dirs@,
                    (#[trigger] olds.songs@[j]).path@,
                ) ==> fin.songs@[j] == olds.songs@[j]);
        }
    }

    /// The filesystem's report for one path, if present.
    fn find_report<'a>(fs: &'a Vec<DirReport>, path: &String) -> (r: Option<&'a DirReport>)
        ensures
            (match r {
                Some(rep) => report_for(fs@, path@) == Some(*rep),
                None => report_for(fs@, path@) is None,
            }),
    {
        let n = fs.len();
        let mut i: usize = 0;
        proof {
            assert(fs@.skip(0) =~= fs@);
        }
        while i < n
            invariant
                0 <= i <= n,
                n == fs@.len(),
                report_for(fs@, path@) == report_for(fs@.skip(i as int), path@),
            decreases n - i,
        {
            if fs[i].path == *path {
                proof {
                    assert(fs@.skip(i as int)[0] == fs@[i as int]);
                }
                return Some(&fs[i]);
            }
            proof {
                assert(fs@.skip(i as int)[0] == fs@[i as int]);
                assert(fs@.skip(i as int).skip(1) =~= fs@.skip(i + 1));
            }
            i = i + 1;
        }
        proof {
            assert(fs@.skip(i as int) =~= Seq::<DirReport>::empty());
        }
        None
    }

    /// The partial walk: revisits only the directories already known to the
    /// store, checking each against the live filesystem snapshot.  A
    /// modified directory is rescanned and its row refreshed; a vanished or
    /// emptied one loses its row and every song under its path; an
    /// unchanged one is left alone.  New directories are not discovered.
    pub fn walk_partial(&mut self, fs: &Vec<DirReport>, now: &String)
        requires
            old(self).store.wf(),
            fs_wf(fs@),
            fs_consistent(old(self).store, fs@),
            old(self).store.next_id + dirs_budget(old(self).store.directories@, fs@)
                <= u64::MAX,
        ensures
            walk_partial_post(old(self).store, final(self).store, fs@),
    {
        let ghost olds = old(self).store;
        let ghost rows = olds.directories@;
        // snapshot the known directories before mutating the table
        let mut snap: Vec<(String, i64)> = Vec::new();
        let dn = self.store.directories.len();
        let mut j: usize = 0;
        while j < dn
            invariant
                0 <= j <= dn,
                dn == self.store.directories@.len(),
                *self == *old(self),
                rows == olds.directories@,
                olds == old(self).store,
                snap@.len() == j,
                forall|k: int|
                    0 <= k < j ==> (#[trigger] snap@[k]).0@ == rows[k].path@ && snap@[k].1
                        == rows[k].mtime,
            decreases dn - j,
        {
            let row = &self.store.directories[j];
            snap.push((row.path.clone(), row.mtime));
            j = j + 1;
        }
        let n = snap.len();
        let mut i: usize = 0;
        proof {
            assert(rows.take(0) =~= Seq::<crate::store::DirectoryRow>::empty());
        }
        while i < n
            invariant
                0 <= i <= n,
                n == rows.len(),
                rows == olds.directories@,
                olds == old(self).store,
                olds.wf(),
                fs_wf(fs@),
                fs_consistent(olds, fs@),
                olds.next_id + dirs_budget(rows, fs@) <= u64::MAX,
                snap@.len() == n,
                forall|k: int|
                    0 <= k < n ==> (#[trigger] snap@[k]).0@ == rows[k].path@ && snap@[k].1
                        == rows[k].mtime,
                self.store.wf(),
                self.store.scanned_full == olds.scanned_full,
                olds.next_id <= self.store.next_id,
                self.store.next_id <= olds.next_id + dirs_budget(rows.take(i as int), fs@),
                forall|k: int|
                    0 <= k < self.store.directories@.len() ==> olds.has_dir_path(
                        (#[trigger] self.store.directories@[k]).path@,
                    ),
                forall|j2: int|
                    i <= j2 < n ==> #[trigger] row_still_known(self.store, rows[j2]),
                forall|j2: int|
                    0 <= j2 < i ==> #[trigger] partial_row_done(self.store, rows[j2], fs@),
            decreases n - i,
        {
            proof {
                lemma_dirs_budget_step(rows, fs@, i as int);
                lemma_dirs_budget_mono(rows, fs@, i + 1);
            }
            let p = &snap[i].0;
            let m = snap[i].1;
            let ghost row = rows[i as int];
            let ghost cur0 = self.store;
            let rep_opt = Self::find_report(fs, p);
            let mut missing = false;
            let mut modified = false;
            let ghost mut rep_idx: int = 0;
            match rep_opt {
                None => {
                    missing = true;
                    proof {
                        assert(dir_verdict(row, fs@) == DirStatus::Missing);
                    }
                },
                Some(rep) => {
                    proof {
                        lemma_report_for_props(fs@, p@);
                        rep_idx = choose|di: int|
                            0 <= di < fs@.len() && #[trigger] fs@[di] == report_for(fs@, p@)->0;
                    }
                    let verdict = check_directory(
                        rep.present,
                        rep.files.len(),
                        rep.mtime,
                        Some(m),
                    );
                    proof {
                        assert(verdict == dir_verdict(row, fs@));
                    }
                    match verdict {
                        DirStatus::Missing => {
                            missing = true;
                        },
                        DirStatus::Modified => {
                            modified = true;
                        },
                        DirStatus::Unchanged => {},
                        DirStatus::New => {},
                    }
                },
            }
            if missing {
                self.store.delete_songs_with_prefix(p);
                let ghost cur1 = self.store;
                self.store.remove_directory(p);
                proof {
                    let cur2 = self.store;
                    lemma_partial_missing_step(olds, cur0, cur1, cur2, rows, fs@, i as int);
                }
            } else if modified {
                let rep = match rep_opt {
                    Some(rep) => rep,
                    None => &fs[0],
                };
                proof {
                    assert(*rep == fs@[rep_idx]);
                    assert(report_wf(fs@[rep_idx]));
                    lemma_dirs_budget_nonneg(rows.take(i as int), fs@);
                    assert(row_budget(row, fs@) == 3 + rep.tracks@.len());
                    assert(self.store.next_id + 2 + rep.tracks@.len() <= u64::MAX);
                }
                let out = self.scan_dir(rep, now);
                let ghost mid = self.store;
                self.store.insert_directory(&rep.path, rep.mtime, now);
                proof {
                    let cur2 = self.store;
                    assert(rep.path@ == p@);
                    lemma_partial_modified_step(
                        olds,
                        cur0,
                        mid,
                        cur2,
                        rows,
                        fs@,
                        i as int,
                        rep_idx,
                        out,
                        *now,
                    );
                }
            } else {
                proof {
                    assert(partial_row_done(self.store, row, fs@)) by {
                        if dir_verdict(row, fs@) == DirStatus::Unchanged {
                            assert(row_still_known(self.store, rows[i as int]));
                        }
                        assert(dir_verdict(row, fs@) != DirStatus::Missing);
                        assert(dir_verdict(row, fs@) != DirStatus::Modified);
                    }
                }
            }
            i = i + 1;
        }
        proof {
            assert(rows.take(n as int) =~= rows);
            let fin = self.store;
            assert forall|j2: int|
                0 <= j2 < olds.directories@.len() && dir_verdict(
                    #[trigger] olds.directories@[j2],
                    fs@,
                ) == DirStatus::Missing implies !fin.has_dir_path(olds.directories@[j2].path@) && (
            forall|s: int|
                0 <= s < fin.songs@.len() ==> !spec_starts_with(
                    (#[trigger] fin.songs@[s]).path@,
                    olds.directories@[j2].path@,
                )) by {
                assert(partial_row_done(fin, rows[j2], fs@));
            }
            assert forall|j2: int|
                0 <= j2 < olds.directories@.len() && dir_verdict(
                    #[trigger] olds.directories@[j2],
                    fs@,
                ) == DirStatus::Unchanged implies exists|k: int|
                0 <= k < fin.directories@.len() && #[trigger] fin.directories@[k]
                    == olds.directories@[j2] by {
                assert(partial_row_done(fin, rows[j2], fs@));
            }
            assert forall|j2: int|
                0 <= j2 < olds.directories@.len() && dir_verdict(
                    #[trigger] olds.directories@[j2],
                    fs@,
                ) == DirStatus::Modified implies dir_covered(
                fin,
                report_for(fs@, olds.directories@[j2].path@)->0,
            ) by {
                assert(partial_row_done(fin, rows[j2], fs@));
            }
        }
    }
}

/// Relies on chrono's `Utc::now`, rendered as naive local date-time text.
/// The value depends on the wall clock, so nothing is promised of it.
#[verifier::external_body]
fn now_text() -> (r: String) {
    chrono::Utc::now().naive_local().to_string()
}

/// How one orphan-cleanup pass relates the store before and after: albums
/// without songs go, then artists without remaining albums; everything
/// else stays; afterwards no album is songless and no artist albumless.
pub open spec fn reap_rel(o: Store, n: Store) -> bool {
    &&& n.wf()
    &&& n.albums@ == o.albums@.filter(crate::store::album_kept_pred(o))
    &&& n.artists@ == o.artists@.filter(crate::store::artist_kept_pred(n))
    &&& n.songs@ == o.songs@
    &&& n.directories@ == o.directories@
    &&& n.scanned_full == o.scanned_full
    &&& n.next_id == o.next_id
    &&& forall|i: int|
        0 <= i < n.albums@.len() ==> n.album_has_song((#[trigger] n.albums@[i]).id)
    &&& forall|i: int|
        0 <= i < n.artists@.len() ==> n.artist_has_album((#[trigger] n.artists@[i]).id)
}

impl ScanService {
    /// Runs one scan to completion: raises the "scan in progress" flag,
    /// walks the tree — fully or only over known directories — runs the
    /// orphan cleanup, and clears the flag, whether or not any directory
    /// yielded work.  Afterwards every album has at least one song and
    /// every artist at least one album.
    pub fn start_scan(
        &mut self,
        scan_type: ScanType,
        snapshot: &Vec<DirReport>,
        status: &mut bool,
    )
        requires
            old(self).store.wf(),
            scan_type == ScanType::FullScan ==> tree_wf(snapshot@) && old(self).store.next_id
                + tree_budget(snapshot@) <= u64::MAX,
            scan_type == ScanType::PartialScan ==> fs_wf(snapshot@) && fs_consistent(
                old(self).store,
                snapshot@,
            ) && old(self).store.next_id + dirs_budget(
                old(self).store.directories@,
                snapshot@,
            ) <= u64::MAX,
        ensures
            *final(status) == false,
            final(self).store.wf(),
            forall|i: int|
                0 <= i < final(self).store.albums@.len() ==> final(self).store.album_has_song(
                    (#[trigger] final(self).store.albums@[i]).id,
                ),
            forall|i: int|
                0 <= i < final(self).store.artists@.len() ==> final(self).store.artist_has_album(
                    (#[trigger] final(self).store.artists@[i]).id,
                ),
            scan_type == ScanType::FullScan ==> exists|mid: Store|
                #[trigger] walk_full_post(old(self).store, mid, snapshot@) && reap_rel(
                    mid,
                    final(self).store,
                ),
            scan_type == ScanType::PartialScan ==> exists|mid: Store|
                #[trigger] walk_partial_post(old(self).store, mid, snapshot@) && reap_rel(
                    mid,
                    final(self).store,
                ),
    {
        *status = true;
        let now = now_text();
        match scan_type {
            ScanType::FullScan => {
                self.walk_full_initial(snapshot, &now);
            },
            ScanType::PartialScan => {
                self.walk_partial(snapshot, &now);
            },
        }
        let ghost mid = self.store;
        self.store.reap_orphans();
        *status = false;
        proof {
            assert(reap_rel(mid, self.store));
        }
    }
}

/// A filter that keeps every element is the identity.
proof fn lemma_filter_all<A>(s: Seq<A>, p: spec_fn(A) -> bool)
    requires
        forall|i: int| 0 <= i < s.len() ==> p(#[trigger] s[i]),
    ensures
        s.filter(p) == s,
    decreases s.len(),
{
    reveal(Seq::filter);
    if s.len() > 0 {
        assert(forall|i: int|
            0 <= i < s.drop_last().len() ==> s.drop_last()[i] == #[trigger] s[i]);
        lemma_filter_all(s.drop_last(), p);
        assert(s.filter(p) =~= s);
    }
}

/// **Idempotence of the full walk.**  A second full scan over an unchanged
/// tree, started from a store that already records the whole tree, appends
/// no artist, album or song row and keeps every row's identifier: counts
/// and ids after the second walk equal those before it.
pub proof fn lemma_full_scan_idempotent(s2: Store, s3: Store, dirs: Seq<DirReport>)
    requires
        s2.wf(),
        walk_covered(s2, dirs),
        walk_full_post(s2, s3, dirs),
    ensures
        s3.artists@.len() == s2.artists@.len(),
        s3.albums@.len() == s2.albums@.len(),
        s3.songs@.len() == s2.songs@.len(),
        forall|j: int|
            0 <= j < s2.artists@.len() ==> #[trigger] s3.artists@[j] == s2.artists@[j],
        forall|j: int| 0 <= j < s2.albums@.len() ==> #[trigger] s3.albums@[j] == s2.albums@[j],
        forall|j: int|
            0 <= j < s2.songs@.len() ==> (#[trigger] s3.songs@[j]).id == s2.songs@[j].id
                && s3.songs@[j].path@ == s2.songs@[j].path@,
{
    if s3.artists@.len() > s2.artists@.len() {
        let j = s2.artists@.len() as int;
        assert(artist_appended_from(s2, s3, dirs, j));
        let (di, fi) = choose|di: int, fi: int|
            0 <= di < dirs.len() && eligible_dir(dirs[di]) && #[trigger] is_first_processable(
                dirs[di].tracks@,
                fi,
            ) && s3.artists@[j].name@ == track_album_artist(dirs[di].tracks@[fi]);
        assert(dir_covered(s2, dirs[di]));
        assert(has_processable(dirs[di].tracks@)) by {
            assert(processable(dirs[di].tracks@[fi]));
        }
        let fc = choose|fc: int|
            {
                &&& #[trigger] is_first_processable(dirs[di].tracks@, fc)
                &&& s2.has_artist_name(track_album_artist(dirs[di].tracks@[fc]))
                &&& exists|ja: int|
                    0 <= ja < s2.albums@.len() && (#[trigger] s2.albums@[ja]).name@
                        == track_album_name(dirs[di].tracks@[fc]) && s2.albums@[ja].path@
                        == dirs[di].path@ && (forall|k: int|
                        0 <= k < dirs[di].tracks@.len() && processable(
                            #[trigger] dirs[di].tracks@[k],
                        ) ==> exists|js: int|
                            0 <= js < s2.songs@.len() && (#[trigger] s2.songs@[js]).path@
                                == dirs[di].tracks@[k].path@ && s2.songs@[js].album_id == Some(
                                s2.albums@[ja].id,
                            ))
            };
        assert(fc == fi) by {
            if fc < fi {
                assert(!processable(dirs[di].tracks@[fc]));
            } else if fi < fc {
                assert(!processable(dirs[di].tracks@[fi]));
            }
        }
        assert(false);
    }
    if s3.albums@.len() > s2.albums@.len() {
        let j = s2.albums@.len() as int;
        assert(album_appended_from(s2, s3, dirs, j));
        let (di, fi) = choose|di: int, fi: int|
            0 <= di < dirs.len() && eligible_dir(dirs[di]) && #[trigger] is_first_processable(
                dirs[di].tracks@,
                fi,
            ) && s3.albums@[j].name@ == track_album_name(dirs[di].tracks@[fi])
                && s3.albums@[j].path@ == dirs[di].path@;
        assert(dir_covered(s2, dirs[di]));
        assert(has_processable(dirs[di].tracks@)) by {
            assert(processable(dirs[di].tracks@[fi]));
        }
        let fc = choose|fc: int|
            {
                &&& #[trigger] is_first_processable(dirs[di].tracks@, fc)
                &&& s2.has_artist_name(track_album_artist(dirs[di].tracks@[fc]))
                &&& exists|ja: int|
                    0 <= ja < s2.albums@.len() && (#[trigger] s2.albums@[ja]).name@
                        == track_album_name(dirs[di].tracks@[fc]) && s2.albums@[ja].path@
                        == dirs[di].path@ && (forall|k: int|
                        0 <= k < dirs[di].tracks@.len() && processable(
                            #[trigger] dirs[di].tracks@[k],
                        ) ==> exists|js: int|
                            0 <= js < s2.songs@.len() && (#[trigger] s2.songs@[js]).path@
                                == dirs[di].tracks@[k].path@ && s2.songs@[js].album_id == Some(
                                s2.albums@[ja].id,
                            ))
            };
        assert(fc == fi) by {
            if fc < fi {
                assert(!processable(dirs[di].tracks@[fc]));
            } else if fi < fc {
                assert(!processable(dirs[di].tracks@[fi]));
            }
        }
        assert(!s2.has_album_key(s3.albums@[j].name@, s3.albums@[j].path@));
        assert(false);
    }
    if s3.songs@.len() > s2.songs@.len() {
        let j = s2.songs@.len() as int;
        assert(song_appended_from(s2, s3, dirs, j));
        let (di, k) = choose|di: int, k: int|
            0 <= di < dirs.len() && eligible_dir(dirs[di]) && 0 <= k < dirs[di].tracks@.len()
                && processable(#[trigger] dirs[di].tracks@[k]) && s3.songs@[j].path@
                == dirs[di].tracks@[k].path@;
        assert(dir_covered(s2, dirs[di]));
        assert(has_processable(dirs[di].tracks@)) by {
            assert(processable(dirs[di].tracks@[k]));
        }
        let fc = choose|fc: int|
            {
                &&& #[trigger] is_first_processable(dirs[di].tracks@, fc)
                &&& s2.has_artist_name(track_album_artist(dirs[di].tracks@[fc]))
                &&& exists|ja: int|
                    0 <= ja < s2.albums@.len() && (#[trigger] s2.albums@[ja]).name@
                        == track_album_name(dirs[di].tracks@[fc]) && s2.albums@[ja].path@
                        == dirs[di].path@ && (forall|kk: int|
                        0 <= kk < dirs[di].tracks@.len() && processable(
                            #[trigger] dirs[di].tracks@[kk],
                        ) ==> exists|js: int|
                            0 <= js < s2.songs@.len() && (#[trigger] s2.songs@[js]).path@
                                == dirs[di].tracks@[kk].path@ && s2.songs@[js].album_id == Some(
                                s2.albums@[ja].id,
                            ))
            };
        let ja = choose|ja: int|
            0 <= ja < s2.albums@.len() && (#[trigger] s2.albums@[ja]).name@ == track_album_name(
                dirs[di].tracks@[fc],
            ) && s2.albums@[ja].path@ == dirs[di].path@ && (forall|kk: int|
                0 <= kk < dirs[di].tracks@.len() && processable(#[trigger] dirs[di].tracks@[kk])
                    ==> exists|js: int|
                    0 <= js < s2.songs@.len() && (#[trigger] s2.songs@[js]).path@
                        == dirs[di].tracks@[kk].path@ && s2.songs@[js].album_id == Some(
                        s2.albums@[ja].id,
                    ));
        assert(s2.has_song_path(dirs[di].tracks@[k].path@)) by {
            let js = choose|js: int|
                0 <= js < s2.songs@.len() && (#[trigger] s2.songs@[js]).path@
                    == dirs[di].tracks@[k].path@ && s2.songs@[js].album_id == Some(
                    s2.albums@[ja].id,
                );
        }
        assert(!s2.has_song_path(s3.songs@[j].path@));
        assert(false);
    }
}

/// **Idempotence of a full scan, cleanup included.**  Starting from a
/// store that a scan over this tree has already produced and cleaned —
/// every visited directory recorded, every album with a song, every
/// artist with an album — running the full walk and the orphan cleanup
/// once more changes no row set: artist and album rows come out verbatim,
/// and the song table keeps its length and every row's identity.
/// A tree track stays linked to its batch album across a repeated walk:
/// whichever album its song row referenced in the covered store, the
/// rescanned store still holds a song referencing it.
#[verifier::rlimit(60)]
proof fn lemma_tree_song_relinked(
    s2: Store,
    s3: Store,
    dirs: Seq<DirReport>,
    di: int,
    k: int,
    b: u64,
)
    requires
        s2.wf(),
        tree_wf(dirs),
        walk_covered(s2, dirs),
        walk_covered(s3, dirs),
        s3.albums@ == s2.albums@,
        0 <= di < dirs.len(),
        eligible_dir(dirs[di]),
        0 <= k < dirs[di].tracks@.len(),
        processable(dirs[di].tracks@[k]),
        exists|js: int|
            0 <= js < s2.songs@.len() && (#[trigger] s2.songs@[js]).path@
                == dirs[di].tracks@[k].path@ && s2.songs@[js].album_id == Some(b),
    ensures
        s3.album_has_song(b),
{
    let d = dirs[di];
    let js = choose|js: int|
        0 <= js < s2.songs@.len() && (#[trigger] s2.songs@[js]).path@ == d.tracks@[k].path@
            && s2.songs@[js].album_id == Some(b);
    assert(dir_covered(s2, d));
    assert(has_processable(d.tracks@)) by {
        assert(processable(d.tracks@[k]));
    }
    let fi2 = choose|fi: int|
        {
            &&& #[trigger] is_first_processable(d.tracks@, fi)
            &&& s2.has_artist_name(track_album_artist(d.tracks@[fi]))
            &&& exists|ja: int|
                0 <= ja < s2.albums@.len() && (#[trigger] s2.albums@[ja]).name@
                    == track_album_name(d.tracks@[fi]) && s2.albums@[ja].path@ == d.path@ && (
                forall|kk: int|
                    0 <= kk < d.tracks@.len() && processable(#[trigger] d.tracks@[kk])
                        ==> exists|js2: int|
                        0 <= js2 < s2.songs@.len() && (#[trigger] s2.songs@[js2]).path@
                            == d.tracks@[kk].path@ && s2.songs@[js2].album_id == Some(
                            s2.albums@[ja].id,
                        ))
        };
    let ja2 = choose|ja: int|
        0 <= ja < s2.albums@.len() && (#[trigger] s2.albums@[ja]).name@ == track_album_name(
            d.tracks@[fi2],
        ) && s2.albums@[ja].path@ == d.path@ && (forall|kk: int|
            0 <= kk < d.tracks@.len() && processable(#[trigger] d.tracks@[kk]) ==> exists|
                js2: int,
            |
                0 <= js2 < s2.songs@.len() && (#[trigger] s2.songs@[js2]).path@
                    == d.tracks@[kk].path@ && s2.songs@[js2].album_id == Some(
                    s2.albums@[ja].id,
                ));
    // the song carrying this track's path is unique, so the referenced
    // album is this directory's batch album
    let js2 = choose|js2: int|
        0 <= js2 < s2.songs@.len() && (#[trigger] s2.songs@[js2]).path@ == d.tracks@[k].path@
            && s2.songs@[js2].album_id == Some(s2.albums@[ja2].id);
    assert(js2 == js);
    assert(b == s2.albums@[ja2].id);
    // after the second walk the same track links to the same batch album
    assert(dir_covered(s3, d));
    let fi3 = choose|fi: int|
        {
            &&& #[trigger] is_first_processable(d.tracks@, fi)
            &&& s3.has_artist_name(track_album_artist(d.tracks@[fi]))
            &&& exists|ja: int|
                0 <= ja < s3.albums@.len() && (#[trigger] s3.albums@[ja]).name@
                    == track_album_name(d.tracks@[fi]) && s3.albums@[ja].path@ == d.path@ && (
                forall|kk: int|
                    0 <= kk < d.tracks@.len() && processable(#[trigger] d.tracks@[kk])
                        ==> exists|js3: int|
                        0 <= js3 < s3.songs@.len() && (#[trigger] s3.songs@[js3]).path@
                            == d.tracks@[kk].path@ && s3.songs@[js3].album_id == Some(
                            s3.albums@[ja].id,
                        ))
        };
    assert(fi3 == fi2) by {
        if fi3 < fi2 {
            assert(!processable(d.tracks@[fi3]));
        } else if fi2 < fi3 {
            assert(!processable(d.tracks@[fi2]));
        }
    }
    let ja3 = choose|ja: int|
        0 <= ja < s3.albums@.len() && (#[trigger] s3.albums@[ja]).name@ == track_album_name(
            d.tracks@[fi3],
        ) && s3.albums@[ja].path@ == d.path@ && (forall|kk: int|
            0 <= kk < d.tracks@.len() && processable(#[trigger] d.tracks@[kk]) ==> exists|
                js3: int,
            |
                0 <= js3 < s3.songs@.len() && (#[trigger] s3.songs@[js3]).path@
                    == d.tracks@[kk].path@ && s3.songs@[js3].album_id == Some(
                    s3.albums@[ja].id,
                ));
    assert(ja3 == ja2) by {
        assert(s3.albums@[ja3] == s2.albums@[ja3]);
        if ja3 != ja2 {
            assert(!(s2.albums@[ja3].name@ == s2.albums@[ja2].name@ && s2.albums@[ja3].path@
                == s2.albums@[ja2].path@));
        }
    }
    let js3 = choose|js3: int|
        0 <= js3 < s3.songs@.len() && (#[trigger] s3.songs@[js3]).path@ == d.tracks@[k].path@
            && s3.songs@[js3].album_id == Some(s3.albums@[ja3].id);
    assert(s3.songs@[js3].album_id == Some(b));
}

/// **Idempotence of a full scan, cleanup included.**  Starting from a
/// store that a scan over this tree has already produced and cleaned —
/// every visited directory recorded, every album with a song, every
/// artist with an album — running the full walk and the orphan cleanup
/// once more changes no row set: artist and album rows come out verbatim,
/// and the song table keeps its length and every row's identity.
pub proof fn lemma_full_scan_and_reap_idempotent(
    s2: Store,
    s3: Store,
    s4: Store,
    dirs: Seq<DirReport>,
)
    requires
        s2.wf(),
        tree_wf(dirs),
        walk_covered(s2, dirs),
        forall|i: int|
            0 <= i < s2.albums@.len() ==> s2.album_has_song((#[trigger] s2.albums@[i]).id),
        forall|i: int|
            0 <= i < s2.artists@.len() ==> s2.artist_has_album((#[trigger] s2.artists@[i]).id),
        walk_full_post(s2, s3, dirs),
        reap_rel(s3, s4),
    ensures
        s4.artists@ == s2.artists@,
        s4.albums@ == s2.albums@,
        s4.songs@.len() == s2.songs@.len(),
        forall|j: int|
            0 <= j < s2.songs@.len() ==> (#[trigger] s4.songs@[j]).id == s2.songs@[j].id
                && s4.songs@[j].path@ == s2.songs@[j].path@,
{
    lemma_full_scan_idempotent(s2, s3, dirs);
    assert(s3.artists@ =~= s2.artists@);
    assert(s3.albums@ =~= s2.albums@);
    // every album still has a song after the second walk: its supporting
    // song either lies outside the tree and was untouched, or is a tree
    // track, which the walk re-linked to the very same batch album
    assert forall|j: int|
        0 <= j < s3.albums@.len() implies crate::store::album_kept_pred(s3)(
        #[trigger] s3.albums@[j],
    ) by {
        let a = s3.albums@[j];
        assert(a == s2.albums@[j]);
        assert(s2.album_has_song(a.id));
        let js = choose|js: int|
            0 <= js < s2.songs@.len() && (#[trigger] s2.songs@[js]).album_id == Some(a.id);
        let p = s2.songs@[js].path@;
        if tree_has_track_path(dirs, p) {
            let (di, k) = choose|di: int, k: int|
                0 <= di < dirs.len() && eligible_dir(dirs[di]) && 0 <= k
                    < dirs[di].tracks@.len() && processable(#[trigger] dirs[di].tracks@[k])
                    && dirs[di].tracks@[k].path@ == p;
            lemma_tree_song_relinked(s2, s3, dirs, di, k, a.id);
        } else {
            assert(s3.songs@[js] == s2.songs@[js]);
            assert(s3.album_has_song(a.id));
        }
    }
    lemma_filter_all(s3.albums@, crate::store::album_kept_pred(s3));
    assert(s4.albums@ == s2.albums@);
    // every artist still has an album in the cleaned store
    assert forall|j: int|
        0 <= j < s3.artists@.len() implies crate::store::artist_kept_pred(s4)(
        #[trigger] s3.artists@[j],
    ) by {
        let r = s3.artists@[j];
        assert(r == s2.artists@[j]);
        assert(s2.artist_has_album(r.id));
        let w = choose|w: int|
            0 <= w < s2.albums@.len() && (#[trigger] s2.albums@[w]).artist_id == Some(r.id);
        assert(s4.albums@[w].artist_id == Some(r.id));
    }
    lemma_filter_all(s3.artists@, crate::store::artist_kept_pred(s4));
    assert(s4.artists@ == s2.artists@);
}

/// **Idempotence of orphan cleanup.**  Running the reconciliation pass a
/// second time on a store it has already cleaned deletes nothing: albums,
/// artists and songs come out unchanged.
pub proof fn lemma_reap_idempotent(s1: Store, s2: Store, s3: Store)
    requires
        reap_rel(s1, s2),
        reap_rel(s2, s3),
    ensures
        s3.albums@ == s2.albums@,
        s3.artists@ == s2.artists@,
        s3.songs@ == s2.songs@,
{
    assert forall|i: int|
        0 <= i < s2.albums@.len() implies crate::store::album_kept_pred(s2)(
        #[trigger] s2.albums@[i],
    ) by {
        assert(s2.album_has_song(s2.albums@[i].id));
    }
    lemma_filter_all(s2.albums@, crate::store::album_kept_pred(s2));
    assert(s3.albums@ == s2.albums@);
    assert forall|i: int|
        0 <= i < s2.artists@.len() implies crate::store::artist_kept_pred(s3)(
        #[trigger] s2.artists@[i],
    ) by {
        assert(s2.artist_has_album(s2.artists@[i].id));
        let w = choose|w: int|
            0 <= w < s2.albums@.len() && (#[trigger] s2.albums@[w]).artist_id == Some(
                s2.artists@[i].id,
            );
        assert(s3.albums@[w].artist_id == Some(s2.artists@[i].id));
    }
    lemma_filter_all(s2.artists@, crate::store::artist_kept_pred(s3));
}

/// **Cleanup keeps the scanned tree recorded** — up to artist naming: after
/// a walk has covered the tree, the reconciliation pass keeps every
/// directory row, every batch album row, and every indexed song with its
/// album link, since those albums all have songs.
pub proof fn lemma_rows_covered_after_reap(s1: Store, s2: Store, dirs: Seq<DirReport>)
    requires
        s1.wf(),
        walk_covered(s1, dirs),
        reap_rel(s1, s2),
    ensures
        forall|di: int|
            0 <= di < dirs.len() && eligible_dir(#[trigger] dirs[di]) ==> dir_rows_covered(
                s2,
                dirs[di],
            ),
{
    broadcast use vstd::seq_lib::group_filter_ensures;

    assert forall|di: int|
        0 <= di < dirs.len() && eligible_dir(#[trigger] dirs[di]) implies dir_rows_covered(
        s2,
        dirs[di],
    ) by {
        let d = dirs[di];
        assert(dir_covered(s1, d));
        if has_processable(d.tracks@) {
            let fi = choose|fi: int|
                {
                    &&& #[trigger] is_first_processable(d.tracks@, fi)
                    &&& s1.has_artist_name(track_album_artist(d.tracks@[fi]))
                    &&& exists|ja: int|
                        0 <= ja < s1.albums@.len() && (#[trigger] s1.albums@[ja]).name@
                            == track_album_name(d.tracks@[fi]) && s1.albums@[ja].path@ == d.path@
                            && (forall|k: int|
                            0 <= k < d.tracks@.len() && processable(#[trigger] d.tracks@[k])
                                ==> exists|js: int|
                                0 <= js < s1.songs@.len() && (#[trigger] s1.songs@[js]).path@
                                    == d.tracks@[k].path@ && s1.songs@[js].album_id == Some(
                                    s1.albums@[ja].id,
                                ))
                };
            let ja = choose|ja: int|
                0 <= ja < s1.albums@.len() && (#[trigger] s1.albums@[ja]).name@
                    == track_album_name(d.tracks@[fi]) && s1.albums@[ja].path@ == d.path@ && (
                forall|k: int|
                    0 <= k < d.tracks@.len() && processable(#[trigger] d.tracks@[k])
                        ==> exists|js: int|
                        0 <= js < s1.songs@.len() && (#[trigger] s1.songs@[js]).path@
                            == d.tracks@[k].path@ && s1.songs@[js].album_id == Some(
                            s1.albums@[ja].id,
                        ));
            // the batch album has a song — its first track's — so cleanup
            // keeps it
            assert(crate::store::album_kept_pred(s1)(s1.albums@[ja])) by {
                let js = choose|js: int|
                    0 <= js < s1.songs@.len() && (#[trigger] s1.songs@[js]).path@
                        == d.tracks@[fi].path@ && s1.songs@[js].album_id == Some(
                        s1.albums@[ja].id,
                    );
                assert(s1.album_has_song(s1.albums@[ja].id));
            }
            s1.albums@.lemma_filter_contains(crate::store::album_kept_pred(s1), ja);
            let ja2 = choose|w: int|
                0 <= w < s2.albums@.len() && #[trigger] s2.albums@[w] == s1.albums@[ja];
            assert(s2.albums@[ja2].name@ == track_album_name(d.tracks@[fi]));
            assert(forall|k: int|
                0 <= k < d.tracks@.len() && processable(#[trigger] d.tracks@[k])
                    ==> exists|js: int|
                    0 <= js < s2.songs@.len() && (#[trigger] s2.songs@[js]).path@
                        == d.tracks@[k].path@ && s2.songs@[js].album_id == Some(
                        s2.albums@[ja2].id,
                    ));
        }
    }
}

/// The part of a directory's coverage that cleanup preserves: the row with
/// its time, and the batch album with every indexed, linked track.
pub open spec fn dir_rows_covered(n: Store, d: DirReport) -> bool {
    &&& exists|j: int|
        0 <= j < n.directories@.len() && (#[trigger] n.directories@[j]).path@ == d.path@
            && n.directories@[j].mtime == d.mtime
    &&& has_processable(d.tracks@) ==> exists|fi: int|
        {
            &&& #[trigger] is_first_processable(d.tracks@, fi)
            &&& exists|ja: int|
                0 <= ja < n.albums@.len() && (#[trigger] n.albums@[ja]).name@ == track_album_name(
                    d.tracks@[fi],
                ) && n.albums@[ja].path@ == d.path@ && (forall|k: int|
                    0 <= k < d.tracks@.len() && processable(#[trigger] d.tracks@[k])
                        ==> exists|js: int|
                        0 <= js < n.songs@.len() && (#[trigger] n.songs@[js]).path@
                            == d.tracks@[k].path@ && n.songs@[js].album_id == Some(
                            n.albums@[ja].id,
                        ))
        }
}

} // verus!
