//! Change detector: decides from a directory's on-disk state and its
//! persisted record whether the directory needs (re)scanning.

use vstd::prelude::*;

verus! {

/// Verdict on one directory, comparing the live filesystem with the store.
#[derive(Clone, Copy, Debug, PartialEq, Eq, Structural)]
pub enum DirStatus {
    /// No persisted record exists for the path.
    New,
    /// The on-disk modification time is strictly newer than the stored one.
    Modified,
    /// The on-disk modification time is not newer than the stored one.
    Unchanged,
    /// The path no longer exists, or it holds zero entries.
    Missing,
}

/// What `check_directory` returns, as a function of its inputs.
pub open spec fn spec_check_directory(
    present: bool,
    file_count: int,
    fs_mtime: i64,
    db_mtime: Option<i64>,
) -> DirStatus {
    if !present || file_count == 0 {
        DirStatus::Missing
    } else {
        match db_mtime {
            None => DirStatus::New,
            Some(t) => if fs_mtime > t {
                DirStatus::Modified
            } else {
                DirStatus::Unchanged
            },
        }
    }
}

/// Pure decision function: `present` says whether the path still exists on
/// disk, `file_count` how many entries it holds, `fs_mtime` its current
/// modification time, and `db_mtime` the persisted modification time, if a
/// record exists.  An emptied directory counts as deleted.  The caller is
/// responsible for updating persisted state; this function has no effect.
pub fn check_directory(
    present: bool,
    file_count: usize,
    fs_mtime: i64,
    db_mtime: Option<i64>,
) -> (status: DirStatus)
    ensures
        status == spec_check_directory(present, file_count as int, fs_mtime, db_mtime),
{
    if !present || file_count == 0 {
        DirStatus::Missing
    } else {
        match db_mtime {
            None => DirStatus::New,
            Some(t) => {
                if fs_mtime > t {
                    DirStatus::Modified
                } else {
                    DirStatus::Unchanged
                }
            },
        }
    }
}

} // verus!
