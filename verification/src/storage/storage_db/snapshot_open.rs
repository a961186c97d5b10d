//! Opening the store of a snapshot that has a directory of its own, and closing it again.
//!
//! A permit is taken before a store is opened, so that only so many are open at a time. Stores that
//! are open already are shared through a cache.

use crate::db::settings::ParityDbOpenConfig;
use vstd::prelude::*;

verus! {

/// Why the store of a snapshot cannot be opened.
#[derive(Clone, Copy, Debug, PartialEq, Eq, Structural)]
pub enum OpenError {
    /// There is no such snapshot.
    SnapshotNotFound,
    /// A snapshot to be created is there already.
    SnapshotAlreadyExists,
    /// The store itself cannot be opened.
    Store,
}

/// What the store of a snapshot, or of a delta trie, is opened with: one column, without
/// compression, synced.
pub fn store_config() -> (r: ParityDbOpenConfig)
    ensures
        r == (ParityDbOpenConfig {
            columns: 1,
            compression: None,
            disable_wal: false,
            stats: false,
        }),
{
    ParityDbOpenConfig { columns: 1, compression: None, disable_wal: false, stats: false }
}

/// Where the store comes from.
#[derive(Clone, Copy, Debug, PartialEq, Eq, Structural)]
pub enum OpenFrom {
    /// It is open already.
    Cache,
    /// It has to be opened.
    Disk,
}

/// Where the store of a snapshot comes from. A snapshot that is only read has to be there.
pub fn open(readonly: bool, exists: bool, cached: bool) -> (r: Result<OpenFrom, OpenError>)
    ensures
        r == (if readonly && !exists {
            Err(OpenError::SnapshotNotFound)
        } else if cached {
            Ok(OpenFrom::Cache)
        } else {
            Ok(OpenFrom::Disk)
        }),
{
    if readonly && !exists {
        return Err(OpenError::SnapshotNotFound);
    }
    if cached {
        Ok(OpenFrom::Cache)
    } else {
        Ok(OpenFrom::Disk)
    }
}

/// What comes of a store that was opened from the disk: where that failed because somebody else
/// has opened it meanwhile, that one is shared.
pub fn after_opening(opened: bool, cached_meanwhile: bool) -> (r: Result<OpenFrom, OpenError>)
    ensures
        r == (if opened {
            Ok(OpenFrom::Disk)
        } else if cached_meanwhile {
            Ok(OpenFrom::Cache)
        } else {
            Err(OpenError::Store)
        }),
{
    if opened {
        Ok(OpenFrom::Disk)
    } else if cached_meanwhile {
        Ok(OpenFrom::Cache)
    } else {
        Err(OpenError::Store)
    }
}

/// Whether the store of a new snapshot can be created.
pub fn create(exists: bool) -> (r: Result<(), OpenError>)
    ensures
        match r {
            Ok(_) => !exists,
            Err(e) => exists && e == OpenError::SnapshotAlreadyExists,
        },
{
    if exists {
        Err(OpenError::SnapshotAlreadyExists)
    } else {
        Ok(())
    }
}

/// The permits to give back after an attempt to open: the one that was taken, where it failed.
pub fn permits_after_opening(opened: bool) -> (r: usize)
    ensures
        r == (if opened {
            0int
        } else {
            1
        }),
{
    if opened {
        0
    } else {
        1
    }
}

/// What closing a store comes to.
#[derive(Clone, Copy, Debug, PartialEq, Eq, Structural)]
pub struct Closing {
    /// The directory is removed.
    pub remove_directory: bool,
    /// The cache forgets the store.
    pub forget: bool,
    /// The permits that are given back.
    pub permits: usize,
}

/// What closing a store comes to. The last holder has the cache forget it; a store that was opened
/// with a permit gives it back.
pub fn close(remove_on_close: bool, holders: usize, release_on_drop: bool) -> (r: Closing)
    ensures
        r.remove_directory == remove_on_close,
        r.forget == (holders == 1),
        r.permits == (if release_on_drop {
            1int
        } else {
            0
        }),
{
    Closing {
        remove_directory: remove_on_close,
        forget: holders == 1,
        permits: if release_on_drop {
            1
        } else {
            0
        },
    }
}

} // verus!
