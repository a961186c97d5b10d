//! What a manager of snapshots does for the node.

use crate::hash::EpochId;
use crate::storage::storage_db::mdbx_dual_write::StoreError;
use vstd::prelude::*;

verus! {

/// Where snapshots are stored. Whoever stores them implements this.
pub trait SnapshotDbManagerTrait {
    /// An open snapshot.
    type SnapshotDb;

    /// Opens the snapshot of an epoch, where there is one.
    fn get_snapshot_by_epoch_id(
        &self,
        epoch_id: &EpochId,
        try_open: bool,
        open_mpt_snapshot: bool,
    ) -> Result<Option<Self::SnapshotDb>, StoreError>;
}

/// Has a place where snapshots are stored.
pub trait GetSnapshotDbManager {
    /// An open snapshot.
    type SnapshotDb;

    /// The place.
    type SnapshotDbManager: SnapshotDbManagerTrait<SnapshotDb = Self::SnapshotDb>;

    /// The place.
    fn get_snapshot_db_manager(&self) -> &Self::SnapshotDbManager;
}

/// Opens and removes snapshots. Archive nodes and full nodes remove them differently.
pub trait SnapshotManagerTrait: GetSnapshotDbManager {
    /// Removes a snapshot of the main chain that is no longer needed.
    fn remove_old_main_snapshot(&self, snapshot_epoch_id: &EpochId) -> Result<(), StoreError>;

    /// Removes a snapshot that did not end up on the main chain.
    fn remove_non_main_snapshot(&self, snapshot_epoch_id: &EpochId) -> Result<(), StoreError>;
}

/// Opens the snapshot of an epoch, where there is one.
pub fn get_snapshot_by_epoch_id<M: SnapshotManagerTrait>(
    manager: &M,
    epoch_id: &EpochId,
    try_open: bool,
    open_mpt_snapshot: bool,
) -> (r: Result<Option<M::SnapshotDb>, StoreError>)
    ensures
        exists|place: &M::SnapshotDbManager|
            {
                &&& call_ensures(M::get_snapshot_db_manager, (manager,), place)
                &&& #[trigger] call_ensures(
                    M::SnapshotDbManager::get_snapshot_by_epoch_id,
                    (place, epoch_id, try_open, open_mpt_snapshot),
                    r,
                )
            },
{
    let place = manager.get_snapshot_db_manager();
    let r = place.get_snapshot_by_epoch_id(epoch_id, try_open, open_mpt_snapshot);
    assert(call_ensures(M::get_snapshot_db_manager, (manager,), place));
    r
}

} // verus!
