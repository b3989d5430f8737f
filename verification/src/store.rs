//! The relational store the scanner writes: directory, artist, album and
//! song rows held in memory, with the data-model invariants proved on every
//! operation — paths and names unique where the schema demands it, foreign
//! keys always referencing existing rows.  Identifiers are opaque numbers
//! assigned from a store-wide counter, which is what makes their uniqueness
//! provable.  Persisting the rows is the surrounding program's job.

use vstd::prelude::*;
use crate::tag_helper::AudioMetadata;
use crate::text::spec_starts_with;

verus! {

broadcast use vstd::seq_lib::group_filter_ensures;

/// Extending a prefix by one element extends its filtering by that element
/// exactly when the element passes.
pub proof fn lemma_filter_step<A>(s: Seq<A>, i: int, pred: spec_fn(A) -> bool)
    requires
        0 <= i < s.len(),
    ensures
        s.take(i + 1).filter(pred) == if pred(s[i]) {
            s.take(i).filter(pred).push(s[i])
        } else {
            s.take(i).filter(pred)
        },
{
    reveal(Seq::filter);
    assert(s.take(i + 1).drop_last() =~= s.take(i));
    assert(s.take(i + 1).last() == s[i]);
}

/// A directory known to the index: its path and the modification time
/// observed when it was last scanned.
pub struct DirectoryRow {
    pub id: u64,
    pub path: String,
    pub mtime: i64,
    pub created_at: String,
    pub updated_at: String,
}

/// An artist row: created the first time a track naming the artist is seen.
pub struct ArtistRow {
    pub id: u64,
    pub name: String,
    pub mb_artist_id: Option<String>,
    pub created_at: String,
    pub updated_at: String,
}

/// An album row: one per distinct album name within a directory.
pub struct AlbumRow {
    pub id: u64,
    pub name: String,
    pub artist_id: Option<u64>,
    pub path: String,
    pub cover: Option<String>,
    pub album_artist: String,
    pub year: i32,
    pub created_at: String,
    pub updated_at: String,
}

/// A song row, keyed by its file path: re-inserting the same path updates
/// the mutable fields rather than creating a second row.
pub struct SongRow {
    pub id: u64,
    pub path: String,
    pub title: String,
    pub artist: String,
    pub album_id: Option<u64>,
    pub track: u32,
    pub disc: u32,
    pub year: i32,
    pub length: u32,
    pub liked: bool,
    pub created_at: String,
    pub updated_at: String,
}

impl ArtistRow {
    /// A field-for-field copy of the row.
    pub fn duplicate(&self) -> (copy: ArtistRow)
        ensures
            copy == *self,
    {
        ArtistRow {
            id: self.id,
            name: self.name.clone(),
            mb_artist_id: match &self.mb_artist_id {
                Some(s) => Some(s.clone()),
                None => None,
            },
            created_at: self.created_at.clone(),
            updated_at: self.updated_at.clone(),
        }
    }
}

impl AlbumRow {
    /// A field-for-field copy of the row.
    pub fn duplicate(&self) -> (copy: AlbumRow)
        ensures
            copy == *self,
    {
        AlbumRow {
            id: self.id,
            name: self.name.clone(),
            artist_id: self.artist_id,
            path: self.path.clone(),
            cover: match &self.cover {
                Some(s) => Some(s.clone()),
                None => None,
            },
            album_artist: self.album_artist.clone(),
            year: self.year,
            created_at: self.created_at.clone(),
            updated_at: self.updated_at.clone(),
        }
    }
}

impl SongRow {
    /// A field-for-field copy of the row.
    pub fn duplicate(&self) -> (copy: SongRow)
        ensures
            copy == *self,
    {
        SongRow {
            id: self.id,
            path: self.path.clone(),
            title: self.title.clone(),
            artist: self.artist.clone(),
            album_id: self.album_id,
            track: self.track,
            disc: self.disc,
            year: self.year,
            length: self.length,
            liked: self.liked,
            created_at: self.created_at.clone(),
            updated_at: self.updated_at.clone(),
        }
    }
}

/// The albums the orphan reaper keeps: those with at least one song.
pub open spec fn album_kept_pred(o: Store) -> spec_fn(AlbumRow) -> bool {
    |a: AlbumRow| o.album_has_song(a.id)
}

/// The artists the orphan reaper keeps: those referenced by an album of the
/// store as it stands after album cleanup.
pub open spec fn artist_kept_pred(n: Store) -> spec_fn(ArtistRow) -> bool {
    |r: ArtistRow| n.artist_has_album(r.id)
}

/// The whole index: four row tables, the "has completed an initial full
/// scan" flag, and the identifier counter.
pub struct Store {
    pub directories: Vec<DirectoryRow>,
    pub artists: Vec<ArtistRow>,
    pub albums: Vec<AlbumRow>,
    pub songs: Vec<SongRow>,
    pub scanned_full: bool,
    pub next_id: u64,
}

impl Store {
    /// An artist row with this identifier exists.
    pub open spec fn has_artist_id(self, id: u64) -> bool {
        exists|i: int| 0 <= i < self.artists@.len() && (#[trigger] self.artists@[i]).id == id
    }

    /// An artist row with this name exists.
    pub open spec fn has_artist_name(self, name: Seq<char>) -> bool {
        exists|i: int| 0 <= i < self.artists@.len() && (#[trigger] self.artists@[i]).name@ == name
    }

    /// An album row with this identifier exists.
    pub open spec fn has_album_id(self, id: u64) -> bool {
        exists|i: int| 0 <= i < self.albums@.len() && (#[trigger] self.albums@[i]).id == id
    }

    /// An album row with this (name, directory) key exists.
    pub open spec fn has_album_key(self, name: Seq<char>, path: Seq<char>) -> bool {
        exists|i: int|
            0 <= i < self.albums@.len() && (#[trigger] self.albums@[i]).name@ == name
                && self.albums@[i].path@ == path
    }

    /// A song row with this path exists.
    pub open spec fn has_song_path(self, path: Seq<char>) -> bool {
        exists|i: int| 0 <= i < self.songs@.len() && (#[trigger] self.songs@[i]).path@ == path
    }

    /// A directory row with this path exists.
    pub open spec fn has_dir_path(self, path: Seq<char>) -> bool {
        exists|i: int|
            0 <= i < self.directories@.len() && (#[trigger] self.directories@[i]).path@ == path
    }

    /// Some song references this album.
    pub open spec fn album_has_song(self, album_id: u64) -> bool {
        exists|i: int|
            0 <= i < self.songs@.len() && (#[trigger] self.songs@[i]).album_id == Some(album_id)
    }

    /// Some album references this artist.
    pub open spec fn artist_has_album(self, artist_id: u64) -> bool {
        exists|i: int|
            0 <= i < self.albums@.len() && (#[trigger] self.albums@[i]).artist_id == Some(
                artist_id,
            )
    }

    /// Every identifier in use lies below the counter.
    pub open spec fn ids_below_counter(self) -> bool {
        &&& forall|i: int|
            0 <= i < self.directories@.len() ==> (#[trigger] self.directories@[i]).id
                < self.next_id
        &&& forall|i: int|
            0 <= i < self.artists@.len() ==> (#[trigger] self.artists@[i]).id < self.next_id
        &&& forall|i: int|
            0 <= i < self.albums@.len() ==> (#[trigger] self.albums@[i]).id < self.next_id
        &&& forall|i: int|
            0 <= i < self.songs@.len() ==> (#[trigger] self.songs@[i]).id < self.next_id
    }

    /// The schema's uniqueness constraints.
    pub open spec fn keys_unique(self) -> bool {
        &&& forall|i: int, j: int|
            0 <= i < j < self.directories@.len() ==> self.directories@[i].path@
                != self.directories@[j].path@
        &&& forall|i: int, j: int|
            0 <= i < j < self.artists@.len() ==> self.artists@[i].id != self.artists@[j].id
        &&& forall|i: int, j: int|
            0 <= i < j < self.artists@.len() ==> self.artists@[i].name@ != self.artists@[j].name@
        &&& forall|i: int, j: int|
            0 <= i < j < self.albums@.len() ==> self.albums@[i].id != self.albums@[j].id
        &&& forall|i: int, j: int|
            0 <= i < j < self.albums@.len() ==> !(self.albums@[i].name@ == self.albums@[j].name@
                && self.albums@[i].path@ == self.albums@[j].path@)
        &&& forall|i: int, j: int|
            0 <= i < j < self.songs@.len() ==> self.songs@[i].id != self.songs@[j].id
        &&& forall|i: int, j: int|
            0 <= i < j < self.songs@.len() ==> self.songs@[i].path@ != self.songs@[j].path@
    }

    /// Foreign keys reference existing rows.
    pub open spec fn links_ok(self) -> bool {
        &&& forall|i: int|
            0 <= i < self.albums@.len() ==> (match (#[trigger] self.albums@[i]).artist_id {
                Some(a) => self.has_artist_id(a),
                None => true,
            })
        &&& forall|i: int|
            0 <= i < self.songs@.len() ==> (match (#[trigger] self.songs@[i]).album_id {
                Some(b) => self.has_album_id(b),
                None => true,
            })
    }

    /// The store's invariant, established by `new` and preserved by every
    /// operation.
    pub open spec fn wf(self) -> bool {
        &&& self.ids_below_counter()
        &&& self.keys_unique()
        &&& self.links_ok()
    }

    /// An empty store.
    pub fn new() -> (store: Store)
        ensures
            store.wf(),
            store.directories@.len() == 0,
            store.artists@.len() == 0,
            store.albums@.len() == 0,
            store.songs@.len() == 0,
            !store.scanned_full,
            store.next_id == 0,
    {
        Store {
            directories: Vec::new(),
            artists: Vec::new(),
            albums: Vec::new(),
            songs: Vec::new(),
            scanned_full: false,
            next_id: 0,
        }
    }

    /// Looks an artist up by name, as the scanner does once per directory
    /// batch before deciding whether to create one.
    pub fn find_artist_by_name(&self, name: &String) -> (r: Option<u64>)
        ensures
            (match r {
                Some(id) => exists|i: int|
                    0 <= i < self.artists@.len() && (#[trigger] self.artists@[i]).id == id
                        && self.artists@[i].name@ == name@,
                None => !self.has_artist_name(name@),
            }),
    {
        let n = self.artists.len();
        let mut i: usize = 0;
        while i < n
            invariant
                0 <= i <= n,
                n == self.artists@.len(),
                forall|j: int| 0 <= j < i ==> (#[trigger] self.artists@[j]).name@ != name@,
            decreases n - i,
        {
            if self.artists[i].name == *name {
                return Some(self.artists[i].id);
            }
            i = i + 1;
        }
        None
    }

    /// Creates an artist row under a fresh identifier.  The caller has
    /// already checked that no row carries this name.
    pub fn create_artist(&mut self, name: &String, mb_artist_id: &Option<String>, now: &String) -> (id: u64)
        requires
            old(self).wf(),
            !old(self).has_artist_name(name@),
            old(self).next_id < u64::MAX,
        ensures
            final(self).wf(),
            id == old(self).next_id,
            final(self).next_id == old(self).next_id + 1,
            final(self).artists@ == old(self).artists@.push(
                (ArtistRow {
                    id,
                    name: *name,
                    mb_artist_id: *mb_artist_id,
                    created_at: *now,
                    updated_at: *now,
                }),
            ),
            final(self).directories@ == old(self).directories@,
            final(self).albums@ == old(self).albums@,
            final(self).songs@ == old(self).songs@,
            final(self).scanned_full == old(self).scanned_full,
    {
        let id = self.next_id;
        let mb = match mb_artist_id {
            Some(s) => Some(s.clone()),
            None => None,
        };
        let row = ArtistRow {
            id,
            name: name.clone(),
            mb_artist_id: mb,
            created_at: now.clone(),
            updated_at: now.clone(),
        };
        self.artists.push(row);
        self.next_id = id + 1;
        proof {
            let new = *self;
            let olds = *old(self);
            assert(new.artists@ =~= olds.artists@.push(
                (ArtistRow {
                    id,
                    name: *name,
                    mb_artist_id: *mb_artist_id,
                    created_at: *now,
                    updated_at: *now,
                }),
            ));
            assert forall|i: int, j: int|
                0 <= i < j < new.artists@.len() implies new.artists@[i].name@
                != new.artists@[j].name@ by {
                if j == new.artists@.len() - 1 {
                    assert(!olds.has_artist_name(name@));
                    assert(olds.artists@[i].name@ != name@);
                }
            }
            assert forall|i: int|
                0 <= i < new.albums@.len() implies (match (#[trigger] new.albums@[i]).artist_id {
                Some(a) => new.has_artist_id(a),
                None => true,
            }) by {
                match new.albums@[i].artist_id {
                    Some(a) => {
                        assert(olds.has_artist_id(a));
                        let w = choose|k: int|
                            0 <= k < olds.artists@.len() && (#[trigger] olds.artists@[k]).id == a;
                        assert(new.artists@[w].id == a);
                    },
                    None => {},
                }
            }
            assert forall|i: int|
                0 <= i < new.songs@.len() implies (match (#[trigger] new.songs@[i]).album_id {
                Some(b) => new.has_album_id(b),
                None => true,
            }) by {
                match new.songs@[i].album_id {
                    Some(b) => {
                        assert(olds.has_album_id(b));
                    },
                    None => {},
                }
            }
        }
        id
    }

    /// Looks an album up by its (name, directory) key.
    pub fn find_album(&self, name: &String, path: &String) -> (r: Option<u64>)
        ensures
            (match r {
                Some(id) => exists|i: int|
                    0 <= i < self.albums@.len() && (#[trigger] self.albums@[i]).id == id
                        && self.albums@[i].name@ == name@ && self.albums@[i].path@ == path@,
                None => !self.has_album_key(name@, path@),
            }),
    {
        let n = self.albums.len();
        let mut i: usize = 0;
        while i < n
            invariant
                0 <= i <= n,
                n == self.albums@.len(),
                forall|j: int|
                    0 <= j < i ==> !((#[trigger] self.albums@[j]).name@ == name@
                        && self.albums@[j].path@ == path@),
            decreases n - i,
        {
            if self.albums[i].name == *name && self.albums[i].path == *path {
                return Some(self.albums[i].id);
            }
            i = i + 1;
        }
        None
    }

    /// Creates an album row for one directory under a fresh identifier,
    /// linked to the resolved artist.  The caller has already checked that
    /// no album carries this (name, directory) key.
    pub fn create_album(
        &mut self,
        cover: Option<String>,
        artist_id: u64,
        metadata: &AudioMetadata,
        path: &String,
        now: &String,
    ) -> (id: u64)
        requires
            old(self).wf(),
            !old(self).has_album_key(metadata.album_name@, path@),
            old(self).has_artist_id(artist_id),
            old(self).next_id < u64::MAX,
        ensures
            final(self).wf(),
            id == old(self).next_id,
            final(self).next_id == old(self).next_id + 1,
            final(self).albums@ == old(self).albums@.push(
                (AlbumRow {
                    id,
                    name: metadata.album_name,
                    artist_id: Some(artist_id),
                    path: *path,
                    cover: cover,
                    album_artist: metadata.album_artist,
                    year: metadata.year,
                    created_at: *now,
                    updated_at: *now,
                }),
            ),
            final(self).directories@ == old(self).directories@,
            final(self).artists@ == old(self).artists@,
            final(self).songs@ == old(self).songs@,
            final(self).scanned_full == old(self).scanned_full,
    {
        let id = self.next_id;
        let row = AlbumRow {
            id,
            name: metadata.album_name.clone(),
            artist_id: Some(artist_id),
            path: path.clone(),
            cover,
            album_artist: metadata.album_artist.clone(),
            year: metadata.year,
            created_at: now.clone(),
            updated_at: now.clone(),
        };
        self.albums.push(row);
        self.next_id = id + 1;
        proof {
            let new = *self;
            let olds = *old(self);
            assert(new.albums@ =~= olds.albums@.push(
                (AlbumRow {
                    id,
                    name: metadata.album_name,
                    artist_id: Some(artist_id),
                    path: *path,
                    cover: cover,
                    album_artist: metadata.album_artist,
                    year: metadata.year,
                    created_at: *now,
                    updated_at: *now,
                }),
            ));
            assert forall|i: int, j: int|
                0 <= i < j < new.albums@.len() implies !(new.albums@[i].name@
                == new.albums@[j].name@ && new.albums@[i].path@ == new.albums@[j].path@) by {
                if j == new.albums@.len() - 1 {
                    assert(!olds.has_album_key(metadata.album_name@, path@));
                    assert(!(olds.albums@[i].name@ == metadata.album_name@ && olds.albums@[i].path@
                        == path@));
                }
            }
            assert forall|i: int|
                0 <= i < new.albums@.len() implies (match (#[trigger] new.albums@[i]).artist_id {
                Some(a) => new.has_artist_id(a),
                None => true,
            }) by {
                if i < new.albums@.len() - 1 {
                    match new.albums@[i].artist_id {
                        Some(a) => {
                            assert(olds.has_artist_id(a));
                        },
                        None => {},
                    }
                } else {
                    assert(olds.has_artist_id(artist_id));
                }
            }
            assert forall|i: int|
                0 <= i < new.songs@.len() implies (match (#[trigger] new.songs@[i]).album_id {
                Some(b) => new.has_album_id(b),
                None => true,
            }) by {
                match new.songs@[i].album_id {
                    Some(b) => {
                        assert(olds.has_album_id(b));
                        let w = choose|k: int|
                            0 <= k < olds.albums@.len() && (#[trigger] olds.albums@[k]).id == b;
                        assert(new.albums@[w].id == b);
                    },
                    None => {},
                }
            }
        }
        id
    }

    /// The mutable fields of an existing song row after a re-scan of its
    /// file: title, artist, linkage, numbers, year, duration and the update
    /// timestamp change; identity, path, creation time and the `liked` flag
    /// are kept.
    pub open spec fn song_updated(row: SongRow, album_id: u64, m: AudioMetadata, now: String) -> SongRow {
        SongRow {
            id: row.id,
            path: row.path,
            title: m.name,
            artist: m.artist,
            album_id: Some(album_id),
            track: m.track,
            disc: m.disc,
            year: m.year,
            length: m.length,
            liked: row.liked,
            created_at: row.created_at,
            updated_at: now,
        }
    }

    /// A song row created on first sight of a file.
    pub open spec fn song_created(id: u64, album_id: u64, m: AudioMetadata, now: String) -> SongRow {
        SongRow {
            id,
            path: m.path,
            title: m.name,
            artist: m.artist,
            album_id: Some(album_id),
            track: m.track,
            disc: m.disc,
            year: m.year,
            length: m.length,
            liked: false,
            created_at: now,
            updated_at: now,
        }
    }

    /// Inserts or updates the song row for one extracted file, keyed on the
    /// file path: on conflict the mutable fields are updated and the row's
    /// identity is kept; otherwise a row is created under a fresh
    /// identifier.
    pub fn create_song(&mut self, album_id: u64, metadata: &AudioMetadata, now: &String)
        requires
            old(self).wf(),
            old(self).has_album_id(album_id),
            old(self).next_id < u64::MAX,
        ensures
            final(self).wf(),
            old(self).has_song_path(metadata.path@) ==> exists|i: int|
                0 <= i < old(self).songs@.len() && (#[trigger] old(self).songs@[i]).path@
                    == metadata.path@ && final(self).songs@ == old(self).songs@.update(
                    i,
                    Store::song_updated(old(self).songs@[i], album_id, *metadata, *now),
                ) && final(self).next_id == old(self).next_id,
            !old(self).has_song_path(metadata.path@) ==> final(self).songs@ == old(self).songs@
                .push(Store::song_created(old(self).next_id, album_id, *metadata, *now))
                && final(self).next_id == old(self).next_id + 1,
            final(self).directories@ == old(self).directories@,
            final(self).artists@ == old(self).artists@,
            final(self).albums@ == old(self).albums@,
            final(self).scanned_full == old(self).scanned_full,
    {
        let n = self.songs.len();
        let mut i: usize = 0;
        while i < n
            invariant
                0 <= i <= n,
                n == self.songs@.len(),
                *self == *old(self),
                old(self).wf(),
                old(self).has_album_id(album_id),
                old(self).next_id < u64::MAX,
                forall|j: int| 0 <= j < i ==> (#[trigger] self.songs@[j]).path@ != metadata.path@,
            decreases n - i,
        {
            if self.songs[i].path == metadata.path {
                let row = &mut self.songs[i];
                row.title = metadata.name.clone();
                row.artist = metadata.artist.clone();
                row.album_id = Some(album_id);
                row.track = metadata.track;
                row.disc = metadata.disc;
                row.year = metadata.year;
                row.length = metadata.length;
                row.updated_at = now.clone();
                proof {
                    let new = *self;
                    let olds = *old(self);
                    assert(new.songs@ =~= olds.songs@.update(
                        i as int,
                        Store::song_updated(olds.songs@[i as int], album_id, *metadata, *now),
                    ));
                    assert forall|j: int|
                        0 <= j < new.songs@.len() implies (match (#[trigger] new.songs@[j]).album_id {
                        Some(b) => new.has_album_id(b),
                        None => true,
                    }) by {
                        if j == i {
                            assert(olds.has_album_id(album_id));
                        } else {
                            assert(new.songs@[j] == olds.songs@[j]);
                            match new.songs@[j].album_id {
                                Some(b) => {
                                    assert(olds.has_album_id(b));
                                },
                                None => {},
                            }
                        }
                    }
                    assert(forall|a: int, b: int|
                        0 <= a < b < new.songs@.len() ==> new.songs@[a].path@
                            != new.songs@[b].path@);
                }
                return ;
            }
            i = i + 1;
        }
        let id = self.next_id;
        let row = SongRow {
            id,
            path: metadata.path.clone(),
            title: metadata.name.clone(),
            artist: metadata.artist.clone(),
            album_id: Some(album_id),
            track: metadata.track,
            disc: metadata.disc,
            year: metadata.year,
            length: metadata.length,
            liked: false,
            created_at: now.clone(),
            updated_at: now.clone(),
        };
        self.songs.push(row);
        self.next_id = id + 1;
        proof {
            let new = *self;
            let olds = *old(self);
            assert(new.songs@ =~= olds.songs@.push(
                Store::song_created(id, album_id, *metadata, *now),
            ));
            assert forall|a: int, b: int|
                0 <= a < b < new.songs@.len() implies new.songs@[a].path@
                != new.songs@[b].path@ by {
                if b == new.songs@.len() - 1 {
                    assert(!olds.has_song_path(metadata.path@));
                    assert(olds.songs@[a].path@ != metadata.path@);
                }
            }
            assert forall|j: int|
                0 <= j < new.songs@.len() implies (match (#[trigger] new.songs@[j]).album_id {
                Some(b) => new.has_album_id(b),
                None => true,
            }) by {
                if j < new.songs@.len() - 1 {
                    match new.songs@[j].album_id {
                        Some(b) => {
                            assert(olds.has_album_id(b));
                        },
                        None => {},
                    }
                } else {
                    assert(olds.has_album_id(album_id));
                }
            }
        }
    }

    /// A directory row re-observed by a scan: the modification time and the
    /// update timestamp change; identity, path and creation time are kept.
    pub open spec fn dir_updated(row: DirectoryRow, mtime: i64, now: String) -> DirectoryRow {
        DirectoryRow {
            id: row.id,
            path: row.path,
            mtime,
            created_at: row.created_at,
            updated_at: now,
        }
    }

    /// A directory row created on first sight of a path.
    pub open spec fn dir_created(id: u64, path: String, mtime: i64, now: String) -> DirectoryRow {
        DirectoryRow { id, path, mtime, created_at: now, updated_at: now }
    }

    /// Inserts or refreshes the directory row for a path: on conflict the
    /// modification time and update timestamp are replaced and the row's
    /// identity kept, as the schema's conflict clause does.
    pub fn insert_directory(&mut self, path: &String, mtime: i64, now: &String)
        requires
            old(self).wf(),
            old(self).next_id < u64::MAX,
        ensures
            final(self).wf(),
            old(self).has_dir_path(path@) ==> exists|i: int|
                0 <= i < old(self).directories@.len() && (#[trigger] old(self).directories@[i]).path@ == path@ && final(self).directories@ == old(self).directories@.update(
                    i,
                    Store::dir_updated(old(self).directories@[i], mtime, *now),
                ) && final(self).next_id == old(self).next_id,
            !old(self).has_dir_path(path@) ==> final(self).directories@ == old(self).directories@
                .push(Store::dir_created(old(self).next_id, *path, mtime, *now)) && final(self).next_id == old(self).next_id + 1,
            final(self).artists@ == old(self).artists@,
            final(self).albums@ == old(self).albums@,
            final(self).songs@ == old(self).songs@,
            final(self).scanned_full == old(self).scanned_full,
    {
        let n = self.directories.len();
        let mut i: usize = 0;
        while i < n
            invariant
                0 <= i <= n,
                n == self.directories@.len(),
                *self == *old(self),
                old(self).wf(),
                old(self).next_id < u64::MAX,
                forall|j: int|
                    0 <= j < i ==> (#[trigger] self.directories@[j]).path@ != path@,
            decreases n - i,
        {
            if self.directories[i].path == *path {
                let row = &mut self.directories[i];
                row.mtime = mtime;
                row.updated_at = now.clone();
                proof {
                    let new = *self;
                    let olds = *old(self);
                    assert(new.directories@ =~= olds.directories@.update(
                        i as int,
                        Store::dir_updated(olds.directories@[i as int], mtime, *now),
                    ));
                    assert(forall|a: int, b: int|
                        0 <= a < b < new.directories@.len() ==> new.directories@[a].path@
                            != new.directories@[b].path@);
                }
                return ;
            }
            i = i + 1;
        }
        let id = self.next_id;
        let row = DirectoryRow {
            id,
            path: path.clone(),
            mtime,
            created_at: now.clone(),
            updated_at: now.clone(),
        };
        self.directories.push(row);
        self.next_id = id + 1;
        proof {
            let new = *self;
            let olds = *old(self);
            assert(new.directories@ =~= olds.directories@.push(
                Store::dir_created(id, *path, mtime, *now),
            ));
            assert forall|a: int, b: int|
                0 <= a < b < new.directories@.len() implies new.directories@[a].path@
                != new.directories@[b].path@ by {
                if b == new.directories@.len() - 1 {
                    assert(!olds.has_dir_path(path@));
                    assert(olds.directories@[a].path@ != path@);
                }
            }
        }
    }

    /// Removes the directory row for a path, if one exists.
    pub fn remove_directory(&mut self, path: &String)
        requires
            old(self).wf(),
        ensures
            final(self).wf(),
            old(self).has_dir_path(path@) ==> exists|i: int|
                0 <= i < old(self).directories@.len() && (#[trigger] old(self).directories@[i]).path@ == path@ && final(self).directories@ == old(self).directories@.remove(i),
            !old(self).has_dir_path(path@) ==> final(self).directories@ == old(self).directories@,
            final(self).artists@ == old(self).artists@,
            final(self).albums@ == old(self).albums@,
            final(self).songs@ == old(self).songs@,
            final(self).scanned_full == old(self).scanned_full,
            final(self).next_id == old(self).next_id,
    {
        let n = self.directories.len();
        let mut i: usize = 0;
        while i < n
            invariant
                0 <= i <= n,
                n == self.directories@.len(),
                *self == *old(self),
                old(self).wf(),
                forall|j: int|
                    0 <= j < i ==> (#[trigger] self.directories@[j]).path@ != path@,
            decreases n - i,
        {
            if self.directories[i].path == *path {
                self.directories.remove(i);
                proof {
                    let new = *self;
                    let olds = *old(self);
                    assert(forall|j: int|
                        0 <= j < new.directories@.len() ==> #[trigger] new.directories@[j]
                            == (if j < i {
                            olds.directories@[j]
                        } else {
                            olds.directories@[j + 1]
                        }));
                    assert(forall|a: int, b: int|
                        0 <= a < b < new.directories@.len() ==> new.directories@[a].path@
                            != new.directories@[b].path@);
                    assert(forall|j: int|
                        0 <= j < new.directories@.len() ==> (#[trigger] new.directories@[j]).id
                            < new.next_id);
                }
                return ;
            }
            i = i + 1;
        }
    }

    /// Removes every song whose path lies under the given directory prefix,
    /// as when a known directory has disappeared from disk.
    pub fn delete_songs_with_prefix(&mut self, prefix: &String)
        requires
            old(self).wf(),
        ensures
            final(self).wf(),
            final(self).songs@ == old(self).songs@.filter(
                |s: SongRow| !spec_starts_with(s.path@, prefix@),
            ),
            final(self).directories@ == old(self).directories@,
            final(self).artists@ == old(self).artists@,
            final(self).albums@ == old(self).albums@,
            final(self).scanned_full == old(self).scanned_full,
            final(self).next_id == old(self).next_id,
    {
        let ghost olds = *old(self);
        let ghost pred = |s: SongRow| !spec_starts_with(s.path@, prefix@);
        let mut kept: Vec<SongRow> = Vec::new();
        let n = self.songs.len();
        let mut i: usize = 0;
        proof {
            assert(olds.songs@.take(0).filter(pred) =~= Seq::<SongRow>::empty()) by {
                reveal(Seq::filter);
                assert(olds.songs@.take(0) =~= Seq::<SongRow>::empty());
            }
        }
        while i < n
            invariant
                0 <= i <= n,
                n == self.songs@.len(),
                *self == olds,
                olds == *old(self),
                olds.wf(),
                pred == (|s: SongRow| !spec_starts_with(s.path@, prefix@)),
                kept@ == olds.songs@.take(i as int).filter(pred),
                forall|j: int|
                    0 <= j < kept@.len() ==> exists|k: int|
                        0 <= k < i && #[trigger] kept@[j] == olds.songs@[k],
            decreases n - i,
        {
            let keep = !crate::text::str_starts_with(
                self.songs[i].path.as_str(),
                prefix.as_str(),
            );
            proof {
                lemma_filter_step(olds.songs@, i as int, pred);
            }
            if keep {
                let row = self.songs[i].duplicate();
                kept.push(row);
                proof {
                    assert(kept@ =~= olds.songs@.take(i + 1).filter(pred));
                    assert forall|j: int|
                        0 <= j < kept@.len() implies exists|k: int|
                        0 <= k < i + 1 && #[trigger] kept@[j] == olds.songs@[k] by {
                        if j == kept@.len() - 1 {
                            assert(kept@[j] == olds.songs@[i as int]);
                        }
                    }
                }
            } else {
                proof {
                    assert(kept@ =~= olds.songs@.take(i + 1).filter(pred));
                }
            }
            i = i + 1;
        }
        proof {
            assert(olds.songs@.take(n as int) =~= olds.songs@);
        }
        self.songs = kept;
        proof {
            let new = *self;
            assert forall|a: int, b: int|
                0 <= a < b < new.songs@.len() implies new.songs@[a].path@ != new.songs@[b].path@
                && new.songs@[a].id != new.songs@[b].id by {
                let ka = choose|k: int| 0 <= k < n && new.songs@[a] == olds.songs@[k];
                let kb = choose|k: int| 0 <= k < n && new.songs@[b] == olds.songs@[k];
                if ka == kb {
                    assert(new.songs@[a] == new.songs@[b]);
                    lemma_filter_distinct_positions(olds.songs@, pred, a, b);
                } else {
                }
            }
            assert forall|j: int|
                0 <= j < new.songs@.len() implies (#[trigger] new.songs@[j]).id
                < new.next_id && (match new.songs@[j].album_id {
                Some(b) => new.has_album_id(b),
                None => true,
            }) by {
                let k = choose|k: int| 0 <= k < n && new.songs@[j] == olds.songs@[k];
                match new.songs@[j].album_id {
                    Some(b) => {
                        assert(olds.has_album_id(b));
                    },
                    None => {},
                }
            }
        }
    }

    /// The song row with this identifier, if one exists.
    pub fn get_song_by_id(&self, song_id: u64) -> (r: Option<&SongRow>)
        ensures
            (match r {
                Some(row) => exists|i: int|
                    0 <= i < self.songs@.len() && #[trigger] self.songs@[i] == *row
                        && self.songs@[i].id == song_id,
                None => !(exists|i: int|
                    0 <= i < self.songs@.len() && (#[trigger] self.songs@[i]).id == song_id),
            }),
    {
        let n = self.songs.len();
        let mut i: usize = 0;
        while i < n
            invariant
                0 <= i <= n,
                n == self.songs@.len(),
                forall|j: int| 0 <= j < i ==> (#[trigger] self.songs@[j]).id != song_id,
            decreases n - i,
        {
            if self.songs[i].id == song_id {
                return Some(&self.songs[i]);
            }
            i = i + 1;
        }
        None
    }

    /// The song row at this path, if one exists.
    pub fn get_song_by_path(&self, path: &String) -> (r: Option<&SongRow>)
        ensures
            (match r {
                Some(row) => exists|i: int|
                    0 <= i < self.songs@.len() && #[trigger] self.songs@[i] == *row
                        && self.songs@[i].path@ == path@,
                None => !self.has_song_path(path@),
            }),
    {
        let n = self.songs.len();
        let mut i: usize = 0;
        while i < n
            invariant
                0 <= i <= n,
                n == self.songs@.len(),
                forall|j: int| 0 <= j < i ==> (#[trigger] self.songs@[j]).path@ != path@,
            decreases n - i,
        {
            if self.songs[i].path == *path {
                return Some(&self.songs[i]);
            }
            i = i + 1;
        }
        None
    }

    /// The album row with this identifier, if one exists.
    pub fn get_album_by_id(&self, album_id: u64) -> (r: Option<&AlbumRow>)
        ensures
            (match r {
                Some(row) => exists|i: int|
                    0 <= i < self.albums@.len() && #[trigger] self.albums@[i] == *row
                        && self.albums@[i].id == album_id,
                None => !self.has_album_id(album_id),
            }),
    {
        let n = self.albums.len();
        let mut i: usize = 0;
        while i < n
            invariant
                0 <= i <= n,
                n == self.albums@.len(),
                forall|j: int| 0 <= j < i ==> (#[trigger] self.albums@[j]).id != album_id,
            decreases n - i,
        {
            if self.albums[i].id == album_id {
                return Some(&self.albums[i]);
            }
            i = i + 1;
        }
        None
    }

    /// The artist row with this identifier, if one exists.
    pub fn get_artist_by_id(&self, artist_id: u64) -> (r: Option<&ArtistRow>)
        ensures
            (match r {
                Some(row) => exists|i: int|
                    0 <= i < self.artists@.len() && #[trigger] self.artists@[i] == *row
                        && self.artists@[i].id == artist_id,
                None => !self.has_artist_id(artist_id),
            }),
    {
        let n = self.artists.len();
        let mut i: usize = 0;
        while i < n
            invariant
                0 <= i <= n,
                n == self.artists@.len(),
                forall|j: int| 0 <= j < i ==> (#[trigger] self.artists@[j]).id != artist_id,
            decreases n - i,
        {
            if self.artists[i].id == artist_id {
                return Some(&self.artists[i]);
            }
            i = i + 1;
        }
        None
    }

    /// Copies of all song rows that belong to one album.
    pub fn songs_for_album(&self, album_id: u64) -> (out: Vec<SongRow>)
        ensures
            out@ == self.songs@.filter(|s: SongRow| s.album_id == Some(album_id)),
    {
        let ghost pred = |s: SongRow| s.album_id == Some(album_id);
        let mut out: Vec<SongRow> = Vec::new();
        let n = self.songs.len();
        let mut i: usize = 0;
        proof {
            assert(self.songs@.take(0).filter(pred) =~= Seq::<SongRow>::empty()) by {
                reveal(Seq::filter);
                assert(self.songs@.take(0) =~= Seq::<SongRow>::empty());
            }
        }
        while i < n
            invariant
                0 <= i <= n,
                n == self.songs@.len(),
                pred == (|s: SongRow| s.album_id == Some(album_id)),
                out@ == self.songs@.take(i as int).filter(pred),
            decreases n - i,
        {
            proof {
                lemma_filter_step(self.songs@, i as int, pred);
            }
            let keep = match self.songs[i].album_id {
                Some(b) => b == album_id,
                None => false,
            };
            if keep {
                out.push(self.songs[i].duplicate());
                proof {
                    assert(out@ =~= self.songs@.take(i + 1).filter(pred));
                }
            } else {
                proof {
                    assert(out@ =~= self.songs@.take(i + 1).filter(pred));
                }
            }
            i = i + 1;
        }
        proof {
            assert(self.songs@.take(n as int) =~= self.songs@);
        }
        out
    }

    /// Copies of all album rows that belong to one artist.
    pub fn albums_for_artist(&self, artist_id: u64) -> (out: Vec<AlbumRow>)
        ensures
            out@ == self.albums@.filter(|a: AlbumRow| a.artist_id == Some(artist_id)),
    {
        let ghost pred = |a: AlbumRow| a.artist_id == Some(artist_id);
        let mut out: Vec<AlbumRow> = Vec::new();
        let n = self.albums.len();
        let mut i: usize = 0;
        proof {
            assert(self.albums@.take(0).filter(pred) =~= Seq::<AlbumRow>::empty()) by {
                reveal(Seq::filter);
                assert(self.albums@.take(0) =~= Seq::<AlbumRow>::empty());
            }
        }
        while i < n
            invariant
                0 <= i <= n,
                n == self.albums@.len(),
                pred == (|a: AlbumRow| a.artist_id == Some(artist_id)),
                out@ == self.albums@.take(i as int).filter(pred),
            decreases n - i,
        {
            proof {
                lemma_filter_step(self.albums@, i as int, pred);
            }
            let keep = match self.albums[i].artist_id {
                Some(a) => a == artist_id,
                None => false,
            };
            if keep {
                out.push(self.albums[i].duplicate());
                proof {
                    assert(out@ =~= self.albums@.take(i + 1).filter(pred));
                }
            } else {
                proof {
                    assert(out@ =~= self.albums@.take(i + 1).filter(pred));
                }
            }
            i = i + 1;
        }
        proof {
            assert(self.albums@.take(n as int) =~= self.albums@);
        }
        out
    }

    /// Whether any song references the album, by a scan of the song table.
    fn album_referenced(&self, album_id: u64) -> (r: bool)
        ensures
            r == self.album_has_song(album_id),
    {
        let n = self.songs.len();
        let mut i: usize = 0;
        while i < n
            invariant
                0 <= i <= n,
                n == self.songs@.len(),
                forall|j: int| 0 <= j < i ==> (#[trigger] self.songs@[j]).album_id != Some(album_id),
            decreases n - i,
        {
            match self.songs[i].album_id {
                Some(b) => {
                    if b == album_id {
                        return true;
                    }
                },
                None => {},
            }
            i = i + 1;
        }
        false
    }

    /// Whether any album references the artist, by a scan of the album table.
    fn artist_referenced(&self, artist_id: u64) -> (r: bool)
        ensures
            r == self.artist_has_album(artist_id),
    {
        let n = self.albums.len();
        let mut i: usize = 0;
        while i < n
            invariant
                0 <= i <= n,
                n == self.albums@.len(),
                forall|j: int|
                    0 <= j < i ==> (#[trigger] self.albums@[j]).artist_id != Some(artist_id),
            decreases n - i,
        {
            match self.albums[i].artist_id {
                Some(a) => {
                    if a == artist_id {
                        return true;
                    }
                },
                None => {},
            }
            i = i + 1;
        }
        false
    }

    /// Orphan cleanup after a walk: deletes every album with no referencing
    /// song, then every artist with no referencing album — in that order,
    /// since artist deletion depends on album referential state.  Afterwards
    /// every album has at least one song and every artist at least one
    /// album.
    pub fn reap_orphans(&mut self)
        requires
            old(self).wf(),
        ensures
            final(self).wf(),
            final(self).albums@ == old(self).albums@.filter(album_kept_pred(*old(self))),
            final(self).artists@ == old(self).artists@.filter(artist_kept_pred(*final(self))),
            final(self).songs@ == old(self).songs@,
            final(self).directories@ == old(self).directories@,
            final(self).scanned_full == old(self).scanned_full,
            final(self).next_id == old(self).next_id,
            forall|i: int|
                0 <= i < final(self).albums@.len() ==> final(self).album_has_song(
                    (#[trigger] final(self).albums@[i]).id,
                ),
            forall|i: int|
                0 <= i < final(self).artists@.len() ==> final(self).artist_has_album(
                    (#[trigger] final(self).artists@[i]).id,
                ),
    {
        let ghost olds = *old(self);
        let ghost apred = album_kept_pred(olds);
        let mut kept_albums: Vec<AlbumRow> = Vec::new();
        let n = self.albums.len();
        let mut i: usize = 0;
        proof {
            assert(olds.albums@.take(0).filter(apred) =~= Seq::<AlbumRow>::empty()) by {
                reveal(Seq::filter);
                assert(olds.albums@.take(0) =~= Seq::<AlbumRow>::empty());
            }
        }
        while i < n
            invariant
                0 <= i <= n,
                n == self.albums@.len(),
                *self == olds,
                olds == *old(self),
                olds.wf(),
                apred == (|a: AlbumRow| olds.album_has_song(a.id)),
                kept_albums@ == olds.albums@.take(i as int).filter(apred),
                forall|j: int|
                    0 <= j < kept_albums@.len() ==> exists|k: int|
                        0 <= k < i && #[trigger] kept_albums@[j] == olds.albums@[k],
            decreases n - i,
        {
            let keep = self.album_referenced(self.albums[i].id);
            proof {
                lemma_filter_step(olds.albums@, i as int, apred);
            }
            if keep {
                let row = self.albums[i].duplicate();
                kept_albums.push(row);
                proof {
                    assert(kept_albums@ =~= olds.albums@.take(i + 1).filter(apred));
                    assert forall|j: int|
                        0 <= j < kept_albums@.len() implies exists|k: int|
                        0 <= k < i + 1 && #[trigger] kept_albums@[j] == olds.albums@[k] by {
                        if j == kept_albums@.len() - 1 {
                            assert(kept_albums@[j] == olds.albums@[i as int]);
                        }
                    }
                }
            } else {
                proof {
                    assert(kept_albums@ =~= olds.albums@.take(i + 1).filter(apred));
                }
            }
            i = i + 1;
        }
        proof {
            assert(olds.albums@.take(n as int) =~= olds.albums@);
        }
        self.albums = kept_albums;
        proof {
            lemma_reap_albums_wf(olds, *self, apred);
        }
        let ghost mid = *self;
        let ghost rpred = artist_kept_pred(mid);
        let mut kept_artists: Vec<ArtistRow> = Vec::new();
        let m = self.artists.len();
        let mut i2: usize = 0;
        proof {
            assert(olds.artists@.take(0).filter(rpred) =~= Seq::<ArtistRow>::empty()) by {
                reveal(Seq::filter);
                assert(olds.artists@.take(0) =~= Seq::<ArtistRow>::empty());
            }
        }
        while i2 < m
            invariant
                0 <= i2 <= m,
                m == self.artists@.len(),
                *self == mid,
                mid.wf(),
                mid.artists@ == olds.artists@,
                rpred == (|r: ArtistRow| mid.artist_has_album(r.id)),
                kept_artists@ == olds.artists@.take(i2 as int).filter(rpred),
                forall|j: int|
                    0 <= j < kept_artists@.len() ==> exists|k: int|
                        0 <= k < i2 && #[trigger] kept_artists@[j] == olds.artists@[k],
            decreases m - i2,
        {
            let keep = self.artist_referenced(self.artists[i2].id);
            proof {
                lemma_filter_step(olds.artists@, i2 as int, rpred);
            }
            if keep {
                let row = self.artists[i2].duplicate();
                kept_artists.push(row);
                proof {
                    assert(kept_artists@ =~= olds.artists@.take(i2 + 1).filter(rpred));
                    assert forall|j: int|
                        0 <= j < kept_artists@.len() implies exists|k: int|
                        0 <= k < i2 + 1 && #[trigger] kept_artists@[j] == olds.artists@[k] by {
                        if j == kept_artists@.len() - 1 {
                            assert(kept_artists@[j] == olds.artists@[i2 as int]);
                        }
                    }
                }
            } else {
                proof {
                    assert(kept_artists@ =~= olds.artists@.take(i2 + 1).filter(rpred));
                }
            }
            i2 = i2 + 1;
        }
        proof {
            assert(olds.artists@.take(m as int) =~= olds.artists@);
        }
        self.artists = kept_artists;
        proof {
            lemma_reap_artists_wf(mid, *self, rpred);
            let new = *self;
            lemma_filter_agree(olds.artists@, rpred, artist_kept_pred(new));
            assert(forall|x: ArtistRow| #[trigger] artist_kept_pred(new)(x) == artist_kept_pred(mid)(x));
            assert forall|i: int|
                0 <= i < new.albums@.len() implies new.album_has_song(
                (#[trigger] new.albums@[i]).id,
            ) by {
                assert(apred(new.albums@[i]));
                assert(olds.album_has_song(new.albums@[i].id));
                let w = choose|k: int|
                    0 <= k < olds.songs@.len() && (#[trigger] olds.songs@[k]).album_id == Some(
                        new.albums@[i].id,
                    );
                assert(new.songs@[w].album_id == Some(new.albums@[i].id));
            }
            assert forall|i: int|
                0 <= i < new.artists@.len() implies new.artist_has_album(
                (#[trigger] new.artists@[i]).id,
            ) by {
                assert(rpred(new.artists@[i]));
            }
        }
    }

    /// Sets the persisted "has completed an initial full scan" flag.
    pub fn update_scan_state(&mut self, value: bool)
        requires
            old(self).wf(),
        ensures
            final(self).wf(),
            final(self).scanned_full == value,
            final(self).directories@ == old(self).directories@,
            final(self).artists@ == old(self).artists@,
            final(self).albums@ == old(self).albums@,
            final(self).songs@ == old(self).songs@,
            final(self).next_id == old(self).next_id,
    {
        self.scanned_full = value;
    }

    /// Toggles a song's `liked` flag, the one field the serving layer owns,
    /// and returns the new value; `None` when no song carries the id.
    pub fn like_song(&mut self, song_id: u64) -> (r: Option<bool>)
        requires
            old(self).wf(),
        ensures
            final(self).wf(),
            (match r {
                Some(liked) => exists|i: int|
                    0 <= i < old(self).songs@.len() && (#[trigger] old(self).songs@[i]).id
                        == song_id && liked == !old(self).songs@[i].liked && final(self).songs@
                        == old(self).songs@.update(
                        i,
                        (SongRow { liked, ..old(self).songs@[i] }),
                    ),
                None => !(exists|i: int|
                    0 <= i < old(self).songs@.len() && (#[trigger] old(self).songs@[i]).id
                        == song_id) && final(self).songs@ == old(self).songs@,
            }),
            final(self).directories@ == old(self).directories@,
            final(self).artists@ == old(self).artists@,
            final(self).albums@ == old(self).albums@,
            final(self).scanned_full == old(self).scanned_full,
            final(self).next_id == old(self).next_id,
    {
        let n = self.songs.len();
        let mut i: usize = 0;
        while i < n
            invariant
                0 <= i <= n,
                n == self.songs@.len(),
                *self == *old(self),
                old(self).wf(),
                forall|j: int| 0 <= j < i ==> (#[trigger] self.songs@[j]).id != song_id,
            decreases n - i,
        {
            if self.songs[i].id == song_id {
                let liked = !self.songs[i].liked;
                let row = &mut self.songs[i];
                row.liked = liked;
                proof {
                    let new = *self;
                    let olds = *old(self);
                    assert(new.songs@ =~= olds.songs@.update(
                        i as int,
                        (SongRow { liked, ..olds.songs@[i as int] }),
                    ));
                    assert(forall|a: int, b: int|
                        0 <= a < b < new.songs@.len() ==> new.songs@[a].path@
                            != new.songs@[b].path@ && new.songs@[a].id != new.songs@[b].id);
                    assert forall|j: int|
                        0 <= j < new.songs@.len() implies (match (#[trigger] new.songs@[j]).album_id {
                        Some(b) => new.has_album_id(b),
                        None => true,
                    }) by {
                        match new.songs@[j].album_id {
                            Some(b) => {
                                assert(olds.has_album_id(b));
                            },
                            None => {},
                        }
                    }
                }
                return Some(liked);
            }
            i = i + 1;
        }
        None
    }
}

/// **Path uniqueness.**  In a well-formed store, song paths are pairwise
/// distinct: re-indexing a file at a path the store already holds updates
/// that row and never creates a second one, so no two song rows ever share
/// a path.
pub proof fn lemma_song_paths_unique(s: Store)
    requires
        s.wf(),
    ensures
        forall|i: int, j: int|
            0 <= i < j < s.songs@.len() ==> s.songs@[i].path@ != s.songs@[j].path@,
{
}

/// Predicates that agree on every element of a sequence filter it alike.
proof fn lemma_filter_agree<A>(s: Seq<A>, p: spec_fn(A) -> bool, q: spec_fn(A) -> bool)
    requires
        forall|i: int| 0 <= i < s.len() ==> p(#[trigger] s[i]) == q(s[i]),
    ensures
        s.filter(p) == s.filter(q),
    decreases s.len(),
{
    reveal(Seq::filter);
    if s.len() > 0 {
        assert(forall|i: int|
            0 <= i < s.drop_last().len() ==> p(#[trigger] s.drop_last()[i]) == q(
                s.drop_last()[i],
            ));
        lemma_filter_agree(s.drop_last(), p, q);
        assert(p(s.last()) == q(s.last()));
    }
}

/// After replacing the album table by its referenced rows, the store's
/// invariant still holds.
proof fn lemma_reap_albums_wf(olds: Store, new: Store, apred: spec_fn(AlbumRow) -> bool)
    requires
        olds.wf(),
        apred == (|a: AlbumRow| olds.album_has_song(a.id)),
        new.albums@ == olds.albums@.filter(apred),
        new.directories@ == olds.directories@,
        new.artists@ == olds.artists@,
        new.songs@ == olds.songs@,
        new.next_id == olds.next_id,
    ensures
        new.wf(),
{
    broadcast use vstd::seq_lib::group_filter_ensures;

    assert forall|a: int, b: int|
        0 <= a < b < new.albums@.len() implies new.albums@[a].id != new.albums@[b].id && !(
    new.albums@[a].name@ == new.albums@[b].name@ && new.albums@[a].path@
        == new.albums@[b].path@) by {
        lemma_filter_element_origin(olds.albums@, apred, a);
        lemma_filter_element_origin(olds.albums@, apred, b);
        let ka = choose|k: int| 0 <= k < olds.albums@.len() && olds.albums@[k] == new.albums@[a];
        let kb = choose|k: int| 0 <= k < olds.albums@.len() && olds.albums@[k] == new.albums@[b];
        if ka == kb {
            lemma_filter_distinct_positions(olds.albums@, apred, a, b);
        }
    }
    assert forall|i: int|
        0 <= i < new.albums@.len() implies (#[trigger] new.albums@[i]).id < new.next_id && (
    match new.albums@[i].artist_id {
        Some(w) => new.has_artist_id(w),
        None => true,
    }) by {
        lemma_filter_element_origin(olds.albums@, apred, i);
        let k = choose|k: int| 0 <= k < olds.albums@.len() && olds.albums@[k] == new.albums@[i];
        match new.albums@[i].artist_id {
            Some(w) => {
                assert(olds.has_artist_id(w));
            },
            None => {},
        }
    }
    assert forall|i: int|
        0 <= i < new.songs@.len() implies (match (#[trigger] new.songs@[i]).album_id {
        Some(b) => new.has_album_id(b),
        None => true,
    }) by {
        match new.songs@[i].album_id {
            Some(b) => {
                assert(olds.has_album_id(b));
                let k = choose|k: int|
                    0 <= k < olds.albums@.len() && (#[trigger] olds.albums@[k]).id == b;
                assert(olds.album_has_song(b));
                assert(apred(olds.albums@[k]));
                olds.albums@.lemma_filter_contains(apred, k);
                let j = choose|j: int|
                    0 <= j < new.albums@.len() && new.albums@[j] == olds.albums@[k];
                assert(new.albums@[j].id == b);
            },
            None => {},
        }
    }
}

/// After replacing the artist table by its referenced rows, the store's
/// invariant still holds.
proof fn lemma_reap_artists_wf(mid: Store, new: Store, rpred: spec_fn(ArtistRow) -> bool)
    requires
        mid.wf(),
        rpred == (|r: ArtistRow| mid.artist_has_album(r.id)),
        new.artists@ == mid.artists@.filter(rpred),
        new.directories@ == mid.directories@,
        new.albums@ == mid.albums@,
        new.songs@ == mid.songs@,
        new.next_id == mid.next_id,
    ensures
        new.wf(),
{
    broadcast use vstd::seq_lib::group_filter_ensures;

    assert forall|a: int, b: int|
        0 <= a < b < new.artists@.len() implies new.artists@[a].id != new.artists@[b].id
        && new.artists@[a].name@ != new.artists@[b].name@ by {
        lemma_filter_element_origin(mid.artists@, rpred, a);
        lemma_filter_element_origin(mid.artists@, rpred, b);
        let ka = choose|k: int| 0 <= k < mid.artists@.len() && mid.artists@[k] == new.artists@[a];
        let kb = choose|k: int| 0 <= k < mid.artists@.len() && mid.artists@[k] == new.artists@[b];
        if ka == kb {
            lemma_filter_distinct_positions(mid.artists@, rpred, a, b);
        }
    }
    assert forall|i: int|
        0 <= i < new.artists@.len() implies (#[trigger] new.artists@[i]).id < new.next_id by {
        lemma_filter_element_origin(mid.artists@, rpred, i);
        let k = choose|k: int| 0 <= k < mid.artists@.len() && mid.artists@[k] == new.artists@[i];
    }
    assert forall|i: int|
        0 <= i < new.albums@.len() implies (match (#[trigger] new.albums@[i]).artist_id {
        Some(w) => new.has_artist_id(w),
        None => true,
    }) by {
        match new.albums@[i].artist_id {
            Some(w) => {
                assert(mid.has_artist_id(w));
                let k = choose|k: int|
                    0 <= k < mid.artists@.len() && (#[trigger] mid.artists@[k]).id == w;
                assert(mid.artist_has_album(w));
                assert(rpred(mid.artists@[k]));
                mid.artists@.lemma_filter_contains(rpred, k);
                let j = choose|j: int|
                    0 <= j < new.artists@.len() && new.artists@[j] == mid.artists@[k];
                assert(new.artists@[j].id == w);
            },
            None => {},
        }
    }
}

/// Two positions of a filtered sequence never hold one and the same element
/// occurrence: if the values are equal, the unfiltered sequence held equal
/// elements at two distinct positions too.
proof fn lemma_filter_distinct_positions<A>(s: Seq<A>, pred: spec_fn(A) -> bool, a: int, b: int)
    requires
        0 <= a < b < s.filter(pred).len(),
        s.filter(pred)[a] == s.filter(pred)[b],
    ensures
        exists|i: int, j: int| 0 <= i < j < s.len() && s[i] == s[j],
    decreases s.len(),
{
    reveal(Seq::filter);
    let f = s.filter(pred);
    if s.len() > 0 {
        let sub = s.drop_last().filter(pred);
        if pred(s.last()) {
            if b < f.len() - 1 {
                lemma_filter_distinct_positions(s.drop_last(), pred, a, b);
                let (i, j) = choose|i: int, j: int|
                    0 <= i < j < s.drop_last().len() && s.drop_last()[i] == s.drop_last()[j];
                assert(s[i] == s[j]);
            } else {
                // f[b] is s.last(); f[a] occurs in the filtered front, so it
                // equals some earlier element of s
                lemma_filter_element_origin(s.drop_last(), pred, a);
                let i = choose|i: int| 0 <= i < s.drop_last().len() && s.drop_last()[i] == sub[a];
                assert(s[i] == s[s.len() - 1]);
            }
        } else {
            lemma_filter_distinct_positions(s.drop_last(), pred, a, b);
            let (i, j) = choose|i: int, j: int|
                0 <= i < j < s.drop_last().len() && s.drop_last()[i] == s.drop_last()[j];
            assert(s[i] == s[j]);
        }
    }
}

/// Every element of a filtered sequence occurs in the unfiltered one.
pub proof fn lemma_filter_element_origin<A>(s: Seq<A>, pred: spec_fn(A) -> bool, a: int)
    requires
        0 <= a < s.filter(pred).len(),
    ensures
        exists|i: int| 0 <= i < s.len() && s[i] == s.filter(pred)[a],
    decreases s.len(),
{
    reveal(Seq::filter);
    let f = s.filter(pred);
    if s.len() > 0 {
        let sub = s.drop_last().filter(pred);
        if pred(s.last()) && a == f.len() - 1 {
            assert(s[s.len() - 1] == f[a]);
        } else {
            lemma_filter_element_origin(s.drop_last(), pred, a);
            let i = choose|i: int| 0 <= i < s.drop_last().len() && s.drop_last()[i] == sub[a];
            assert(s[i] == f[a]);
        }
    }
}

} // verus!
