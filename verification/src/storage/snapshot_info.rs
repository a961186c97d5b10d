//! What the node records about each snapshot, and the map of those records.

use crate::hash::{merkle_null_node, null_epoch, EpochId, MerkleHash};
use crate::storage::epoch_map::EpochMap;
use vstd::prelude::*;

verus! {

/// Whether a snapshot below the maintained range is kept so that peers can sync from it.
#[derive(Clone, Copy, Debug, PartialEq, Eq, Structural)]
pub enum SnapshotKeptToProvideSyncStatus {
    /// An ordinary snapshot.
    No,
    /// Only its info is kept; the snapshot itself is removed.
    InfoOnly,
    /// The info and the snapshot are both kept.
    InfoAndSnapshot,
}

impl Default for SnapshotKeptToProvideSyncStatus {
    fn default() -> (r: Self)
        ensures
            r == SnapshotKeptToProvideSyncStatus::No,
    {
        SnapshotKeptToProvideSyncStatus::No
    }
}

/// The record of one snapshot.
#[derive(Debug)]
pub struct SnapshotInfo {
    pub snapshot_info_kept_to_provide_sync: SnapshotKeptToProvideSyncStatus,
    pub serve_one_step_sync: bool,
    pub merkle_root: MerkleHash,
    pub height: u64,
    pub parent_snapshot_height: u64,
    pub parent_snapshot_epoch_id: EpochId,
    /// The epochs above the parent snapshot, up to the snapshot's own epoch.
    pub main_chain_parts: Vec<EpochId>,
}

/// The record of one snapshot, as a mathematical value.
#[verifier::ext_equal]
pub struct SnapshotInfoView {
    pub kept: SnapshotKeptToProvideSyncStatus,
    pub serve_one_step_sync: bool,
    pub merkle_root: MerkleHash,
    pub height: u64,
    pub parent_height: u64,
    pub parent: EpochId,
    pub parts: Seq<EpochId>,
}

impl SnapshotInfoView {
    /// The record has an epoch of its own: it is genesis, or lists at least one epoch.
    pub open spec fn wf(self) -> bool {
        self.height > 0 ==> self.parts.len() > 0
    }

    /// The epoch that the snapshot is taken at.
    pub open spec fn epoch(self) -> EpochId {
        if self.height == 0 {
            null_epoch()
        } else {
            self.parts.last()
        }
    }

    /// The main-chain epoch at `height`, where the snapshot spans that height: its parent's at
    /// the parent's height, one of its own above that.
    pub open spec fn epoch_at(self, height: u64) -> Option<EpochId> {
        if height < self.parent_height || height > self.height {
            None
        } else if height == self.parent_height {
            Some(self.parent)
        } else if height - self.parent_height - 1 < self.parts.len() {
            Some(self.parts[height - self.parent_height - 1])
        } else {
            None
        }
    }

    /// The record with another sync status.
    pub open spec fn with_status(self, status: SnapshotKeptToProvideSyncStatus) -> Self {
        SnapshotInfoView { kept: status, ..self }
    }
}

impl View for SnapshotInfo {
    type V = SnapshotInfoView;

    open spec fn view(&self) -> SnapshotInfoView {
        SnapshotInfoView {
            kept: self.snapshot_info_kept_to_provide_sync,
            serve_one_step_sync: self.serve_one_step_sync,
            merkle_root: self.merkle_root,
            height: self.height,
            parent_height: self.parent_snapshot_height,
            parent: self.parent_snapshot_epoch_id,
            parts: self.main_chain_parts@,
        }
    }
}

/// The views of a list of records.
pub open spec fn info_views(infos: Seq<SnapshotInfo>) -> Seq<SnapshotInfoView> {
    infos.map_values(|i: SnapshotInfo| i@)
}

/// Every record of the list has an epoch of its own.
pub open spec fn infos_wf(infos: Seq<SnapshotInfoView>) -> bool {
    forall|i: int| 0 <= i < infos.len() ==> (#[trigger] infos[i]).wf()
}

/// The record of the empty snapshot before genesis.
pub open spec fn genesis_info() -> SnapshotInfoView {
    SnapshotInfoView {
        kept: SnapshotKeptToProvideSyncStatus::No,
        serve_one_step_sync: false,
        merkle_root: merkle_null_node(),
        height: 0,
        parent_height: 0,
        parent: null_epoch(),
        parts: seq![null_epoch()],
    }
}

/// The epochs that a record names. At the height of its parent it names its parent, above that its
/// parts one after the other, up to its own height, and nothing elsewhere. A snapshot is taken at
/// the last of its parts, which it names at its own height where it has one for every height; the
/// one before genesis is taken at the null epoch.
pub proof fn records_name_their_epochs(info: SnapshotInfoView, height: u64)
    ensures
        info.height == 0 ==> info.epoch() == null_epoch(),
        info.height > 0 && info.parts.len() > 0 ==> info.epoch() == info.parts[info.parts.len() - 1],
        info.epoch_at(height) is Some <==> info.parent_height <= height <= info.height && height
            <= info.parent_height + info.parts.len(),
        info.epoch_at(height) is Some && height == info.parent_height ==> info.epoch_at(height)
            == Some(info.parent),
        info.epoch_at(height) is Some && height > info.parent_height ==> info.epoch_at(height)
            == Some(info.parts[height - info.parent_height - 1]),
        info.parent_height < info.height && info.parts.len() == info.height - info.parent_height
            ==> info.epoch_at(info.height) == Some(info.epoch()),
{
}

/// The snapshot before genesis is taken at the null epoch, at height zero, and is its own parent. Its
/// root is that of the empty trie, and it is not kept for sync. A new status changes nothing else of
/// a record.
pub proof fn genesis_is_its_own_parent(
    info: SnapshotInfoView,
    status: SnapshotKeptToProvideSyncStatus,
)
    ensures
        genesis_info().epoch() == null_epoch(),
        genesis_info().parent == null_epoch(),
        genesis_info().height == 0,
        genesis_info().parent_height == 0,
        genesis_info().merkle_root == merkle_null_node(),
        genesis_info().kept == SnapshotKeptToProvideSyncStatus::No,
        !genesis_info().serve_one_step_sync,
        genesis_info().epoch_at(0) == Some(null_epoch()),
        info.with_status(status).kept == status,
        info.with_status(status).with_status(info.kept) == info,
        info.with_status(status).epoch() == info.epoch(),
{
}

/// A copy of a list of epochs.
pub fn copy_epochs(epochs: &Vec<EpochId>) -> (r: Vec<EpochId>)
    ensures
        r@ == epochs@,
{
    let mut out: Vec<EpochId> = Vec::new();
    let mut i: usize = 0;
    while i < epochs.len()
        invariant
            i <= epochs.len(),
            out@ == epochs@.subrange(0, i as int),
        decreases epochs.len() - i,
    {
        out.push(epochs[i]);
        i = i + 1;
    }
    proof {
        assert(epochs@.subrange(0, epochs@.len() as int) =~= epochs@);
    }
    out
}

/// Whether `epochs` holds `epoch`.
pub fn contains_epoch(epochs: &Vec<EpochId>, epoch: &EpochId) -> (r: bool)
    ensures
        r == epochs@.contains(*epoch),
{
    let mut i: usize = 0;
    while i < epochs.len()
        invariant
            i <= epochs.len(),
            forall|j: int| 0 <= j < i ==> epochs[j] != *epoch,
        decreases epochs.len() - i,
    {
        if epochs[i] == *epoch {
            proof {
                assert(epochs@[i as int] == *epoch);
            }
            return true;
        }
        i = i + 1;
    }
    false
}

impl Clone for SnapshotInfo {
    fn clone(&self) -> (r: Self)
        ensures
            r@ == self@,
    {
        SnapshotInfo {
            snapshot_info_kept_to_provide_sync: self.snapshot_info_kept_to_provide_sync,
            serve_one_step_sync: self.serve_one_step_sync,
            merkle_root: self.merkle_root,
            height: self.height,
            parent_snapshot_height: self.parent_snapshot_height,
            parent_snapshot_epoch_id: self.parent_snapshot_epoch_id,
            main_chain_parts: copy_epochs(&self.main_chain_parts),
        }
    }
}

impl SnapshotInfo {
    /// The record of the empty snapshot before genesis.
    pub fn genesis_snapshot_info() -> (r: SnapshotInfo)
        ensures
            r@ == genesis_info(),
    {
        let mut parts: Vec<EpochId> = Vec::new();
        parts.push(null_epoch());
        SnapshotInfo {
            snapshot_info_kept_to_provide_sync: SnapshotKeptToProvideSyncStatus::No,
            serve_one_step_sync: false,
            merkle_root: merkle_null_node(),
            height: 0,
            parent_snapshot_height: 0,
            parent_snapshot_epoch_id: null_epoch(),
            main_chain_parts: parts,
        }
    }

    /// The epoch that the snapshot is taken at.
    pub fn get_snapshot_epoch_id(&self) -> (r: EpochId)
        requires
            self@.wf(),
        ensures
            r == self@.epoch(),
    {
        if self.height == 0 {
            null_epoch()
        } else {
            self.main_chain_parts[self.main_chain_parts.len() - 1]
        }
    }

    /// The main-chain epoch at `height`, where the snapshot spans that height.
    pub fn get_epoch_id_at_height(&self, height: u64) -> (r: Option<EpochId>)
        ensures
            r == self@.epoch_at(height),
    {
        if height < self.parent_snapshot_height || height > self.height {
            None
        } else if height == self.parent_snapshot_height {
            Some(self.parent_snapshot_epoch_id)
        } else {
            let offset: u64 = height - self.parent_snapshot_height - 1;
            if offset < self.main_chain_parts.len() as u64 {
                Some(self.main_chain_parts[offset as usize])
            } else {
                None
            }
        }
    }
}

/// Why a table of records cannot be taken in.
#[derive(Clone, Copy, Debug, PartialEq, Eq, Structural)]
pub enum LoadError {
    /// A key is not as long as an epoch.
    InvalidLength,
    /// A row holds no record.
    NoRecord,
}

/// The views of the rows of a table: the key, and the record that was read.
pub open spec fn row_views(rows: Seq<(Vec<u8>, Option<SnapshotInfo>)>) -> Seq<
    (Seq<u8>, Option<SnapshotInfoView>),
> {
    rows.map_values(
        |row: (Vec<u8>, Option<SnapshotInfo>)|
            (
                row.0@,
                match row.1 {
                    Some(info) => Some(info@),
                    None => None,
                },
            ),
    )
}

/// What is wrong with a row.
pub open spec fn row_error(row: (Seq<u8>, Option<SnapshotInfoView>)) -> Option<LoadError> {
    if row.0.len() != 32 {
        Some(LoadError::InvalidLength)
    } else if row.1 is None {
        Some(LoadError::NoRecord)
    } else {
        None
    }
}

/// Nothing is wrong with the rows.
pub open spec fn rows_load(rows: Seq<(Seq<u8>, Option<SnapshotInfoView>)>) -> bool {
    forall|i: int| 0 <= i < rows.len() ==> row_error(#[trigger] rows[i]) is None
}

/// The records after rows were taken in.
pub open spec fn loaded(
    records: Map<EpochId, SnapshotInfoView>,
    rows: Seq<(Seq<u8>, Option<SnapshotInfoView>)>,
) -> Map<EpochId, SnapshotInfoView>
    decreases rows.len(),
{
    if rows.len() == 0 {
        records
    } else {
        loaded(records, rows.drop_last()).insert(
            EpochId::of_bytes(rows.last().0),
            rows.last().1->0,
        )
    }
}

/// The records of the known snapshots, each under its epoch.
#[derive(Debug)]
pub struct PersistedSnapshotInfoMap {
    map: EpochMap<SnapshotInfo>,
}

impl View for PersistedSnapshotInfoMap {
    type V = Map<EpochId, SnapshotInfoView>;

    closed spec fn view(&self) -> Map<EpochId, SnapshotInfoView> {
        self.map@.map_values(|i: SnapshotInfo| i@)
    }
}

impl PersistedSnapshotInfoMap {
    /// No epoch has two records.
    pub closed spec fn wf(&self) -> bool {
        self.map.wf()
    }

    /// The records in the order in which they stand.
    pub closed spec fn entries(&self) -> Seq<(EpochId, SnapshotInfoView)> {
        self.map.entries().map_values(|e: (EpochId, SnapshotInfo)| (e.0, e.1@))
    }

    /// The list of records and the map say the same.
    pub proof fn entries_match_view(&self)
        requires
            self.wf(),
        ensures
            forall|i: int|
                0 <= i < self.entries().len() ==> self@.contains_key(
                    (#[trigger] self.entries()[i]).0,
                ) && self@[self.entries()[i].0] == self.entries()[i].1,
            forall|e: EpochId| #[trigger]
                self@.contains_key(e) ==> exists|i: int|
                    0 <= i < self.entries().len() && (#[trigger] self.entries()[i]).0 == e,
            forall|i: int, j: int|
                0 <= i < j < self.entries().len() ==> (#[trigger] self.entries()[i]).0 != (
                #[trigger] self.entries()[j]).0,
    {
        self.map.entries_match_view();
        assert forall|i: int| 0 <= i < self.entries().len() implies self@.contains_key(
            (#[trigger] self.entries()[i]).0,
        ) && self@[self.entries()[i].0] == self.entries()[i].1 by {
            assert(self.map@.contains_key(self.map.entries()[i].0));
        }
        assert forall|e: EpochId| #[trigger] self@.contains_key(e) implies exists|i: int|
            0 <= i < self.entries().len() && (#[trigger] self.entries()[i]).0 == e by {
            assert(self.map@.contains_key(e));
            let i = choose|i: int|
                0 <= i < self.map.entries().len() && (#[trigger] self.map.entries()[i]).0 == e;
            assert(self.entries()[i].0 == e);
        }
        assert forall|i: int, j: int| 0 <= i < j < self.entries().len() implies (
        #[trigger] self.entries()[i]).0 != (#[trigger] self.entries()[j]).0 by {
            assert(self.map.entries()[i].0 != self.map.entries()[j].0);
        }
    }

    /// A map without records.
    pub fn new() -> (r: PersistedSnapshotInfoMap)
        ensures
            r.wf(),
            r@ == Map::<EpochId, SnapshotInfoView>::empty(),
    {
        let r = PersistedSnapshotInfoMap { map: EpochMap::new() };
        proof {
            assert(r@ =~= Map::<EpochId, SnapshotInfoView>::empty());
        }
        r
    }

    /// The number of records.
    pub fn len(&self) -> (r: usize)
        ensures
            r == self.entries().len(),
    {
        self.map.len()
    }

    /// The epoch and the record at a position.
    pub fn entry(&self, i: usize) -> (r: (EpochId, &SnapshotInfo))
        requires
            i < self.entries().len(),
        ensures
            r.0 == self.entries()[i as int].0,
            r.1@ == self.entries()[i as int].1,
    {
        self.map.entry(i)
    }

    /// Takes in what a table holds: under each epoch the record that was read from its row. A key of
    /// another length than an epoch's, and a row that is no record, end it; what stands before them
    /// is taken in.
    pub fn load_persist_state(&mut self, rows: &Vec<(Vec<u8>, Option<SnapshotInfo>)>) -> (r: Result<
        (),
        LoadError,
    >)
        requires
            old(self).wf(),
        ensures
            final(self).wf(),
            match r {
                Ok(_) => {
                    &&& rows_load(row_views(rows@))
                    &&& final(self)@ == loaded(old(self)@, row_views(rows@))
                },
                Err(e) => exists|n: int|
                    {
                        &&& 0 <= n < rows@.len()
                        &&& rows_load(#[trigger] row_views(rows@).take(n))
                        &&& row_error(row_views(rows@)[n]) == Some(e)
                        &&& final(self)@ == loaded(old(self)@, row_views(rows@).take(n))
                    },
            },
    {
        let ghost views = row_views(rows@);
        let ghost before = self@;
        let mut i: usize = 0;
        proof {
            assert(views.take(0) =~= Seq::empty());
        }
        while i < rows.len()
            invariant
                i <= rows.len(),
                views == row_views(rows@),
                before == old(self)@,
                self.wf(),
                rows_load(views.take(i as int)),
                self@ == loaded(before, views.take(i as int)),
            decreases rows.len() - i,
        {
            let row = &rows[i];
            if row.0.len() != 32 {
                proof {
                    assert(row_error(views[i as int]) == Some(LoadError::InvalidLength));
                    assert(rows_load(views.take(i as int)));
                }
                return Err(LoadError::InvalidLength);
            }
            match &row.1 {
                None => {
                    proof {
                        assert(row_error(views[i as int]) == Some(LoadError::NoRecord));
                        assert(rows_load(views.take(i as int)));
                    }
                    return Err(LoadError::NoRecord);
                },
                Some(info) => {
                    let epoch = EpochId::from_slice(row.0.as_slice());
                    self.insert(&epoch, info.clone());
                    proof {
                        EpochId::of_bytes_is_exact(epoch);
                        let next = views.take(i + 1);
                        assert(next.drop_last() =~= views.take(i as int));
                        assert(next.last() == views[i as int]);
                        assert forall|j: int| 0 <= j < next.len() implies row_error(
                            #[trigger] next[j],
                        ) is None by {
                            if j < i {
                                assert(next[j] == views.take(i as int)[j]);
                            }
                        }
                    }
                },
            }
            i = i + 1;
        }
        proof {
            assert(views.take(rows.len() as int) =~= views);
        }
        Ok(())
    }

    /// The record of an epoch.
    pub fn get(&self, epoch: &EpochId) -> (r: Option<&SnapshotInfo>)
        requires
            self.wf(),
        ensures
            r matches Some(info) ==> self@.contains_key(*epoch) && info@ == self@[*epoch],
            r is None ==> !self@.contains_key(*epoch),
    {
        self.map.get(epoch)
    }

    /// Records `info` under `epoch`, in place of what stood there.
    pub fn insert(&mut self, epoch: &EpochId, info: SnapshotInfo)
        requires
            old(self).wf(),
        ensures
            final(self).wf(),
            final(self)@ == old(self)@.insert(*epoch, info@),
    {
        let ghost before = self.map@;
        self.map.insert(epoch, info);
        proof {
            assert(before.insert(*epoch, info).map_values(|i: SnapshotInfo| i@)
                =~= before.map_values(|i: SnapshotInfo| i@).insert(*epoch, info@));
        }
    }

    /// Forgets the record of an epoch.
    pub fn remove(&mut self, epoch: &EpochId)
        requires
            old(self).wf(),
        ensures
            final(self).wf(),
            final(self)@ == old(self)@.remove(*epoch),
    {
        let ghost before = self.map@;
        self.map.remove(epoch);
        proof {
            assert(before.remove(*epoch).map_values(|i: SnapshotInfo| i@) =~= before.map_values(
                |i: SnapshotInfo| i@,
            ).remove(*epoch));
        }
    }
}

/// Loading takes every row in under its epoch: the last row of an epoch is its record, and an epoch
/// without a row keeps what it had.
pub proof fn loaded_records_are_those_of_the_rows(
    records: Map<EpochId, SnapshotInfoView>,
    rows: Seq<(Seq<u8>, Option<SnapshotInfoView>)>,
    epochs: Seq<EpochId>,
    e: EpochId,
)
    requires
        epochs.len() == rows.len(),
        forall|i: int|
            0 <= i < rows.len() ==> (#[trigger] rows[i]).0 == epochs[i]@ && rows[i].1 is Some,
    ensures
        (forall|i: int| 0 <= i < epochs.len() ==> #[trigger] epochs[i] != e) ==> (loaded(
            records,
            rows,
        ).contains_key(e) <==> records.contains_key(e)) && loaded(records, rows)[e] == records[e],
        forall|i: int|
            0 <= i < epochs.len() && #[trigger] epochs[i] == e && (forall|j: int|
                i < j < epochs.len() ==> #[trigger] epochs[j] != e) ==> loaded(
                records,
                rows,
            ).contains_key(e) && Some(loaded(records, rows)[e]) == rows[i].1,
    decreases rows.len(),
{
    if rows.len() > 0 {
        let n = rows.len() - 1;
        let before = rows.drop_last();
        let others = epochs.drop_last();
        assert forall|i: int| 0 <= i < before.len() implies (#[trigger] before[i]).0 == others[i]@
            && before[i].1 is Some by {
            assert(rows[i].0 == epochs[i]@);
        }
        loaded_records_are_those_of_the_rows(records, before, others, e);
        assert(rows[n].0 == epochs[n]@);
        EpochId::of_bytes_is_exact(epochs[n]);
        if forall|i: int| 0 <= i < epochs.len() ==> #[trigger] epochs[i] != e {
            assert(epochs[n] != e);
            assert forall|i: int| 0 <= i < others.len() implies #[trigger] others[i] != e by {
                assert(epochs[i] != e);
            }
        }
        assert forall|i: int|
            0 <= i < epochs.len() && #[trigger] epochs[i] == e && (forall|j: int|
                i < j < epochs.len() ==> #[trigger] epochs[j] != e) implies loaded(
            records,
            rows,
        ).contains_key(e) && Some(loaded(records, rows)[e]) == rows[i].1 by {
            if i < n {
                assert(epochs[n] != e);
                assert(others[i] == e);
                assert forall|j: int| i < j < others.len() implies #[trigger] others[j] != e by {
                    assert(epochs[j] != e);
                }
            }
        }
    }
}

/// Rows are taken in exactly if each has an epoch for its key and a record.
pub proof fn rows_load_with_keys_and_records(rows: Seq<(Seq<u8>, Option<SnapshotInfoView>)>)
    ensures
        rows_load(rows) <==> forall|i: int|
            0 <= i < rows.len() ==> (#[trigger] rows[i]).0.len() == 32 && rows[i].1 is Some,
        forall|i: int|
            0 <= i < rows.len() ==> (row_error(#[trigger] rows[i]) == Some(LoadError::InvalidLength)
                <==> rows[i].0.len() != 32),
{
    assert(forall|i: int|
        0 <= i < rows.len() ==> (row_error(#[trigger] rows[i]) is None <==> rows[i].0.len() == 32
            && rows[i].1 is Some));
    if rows_load(rows) {
        assert forall|i: int| 0 <= i < rows.len() implies (#[trigger] rows[i]).0.len() == 32
            && rows[i].1 is Some by {
            assert(row_error(rows[i]) is None);
        }
    }
}

} // verus!
