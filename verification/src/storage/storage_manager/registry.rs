//! The registered snapshots and the delta tries that belong to them.

use crate::hash::{merkle_null_node, null_epoch, EpochId, MerkleHash, H256};
use crate::storage::epoch_map::EpochMap;
use crate::storage::snapshot_info;
use crate::storage::snapshot_info::{PersistedSnapshotInfoMap, SnapshotInfo, SnapshotInfoView};
use vstd::prelude::*;

verus! {

/// The number under which a delta trie is open.
pub type DeltaMptId = u16;

/// The delta tries that belong to a snapshot.
#[derive(Clone, Copy, Debug, PartialEq, Eq, Structural)]
pub struct SnapshotMpts {
    /// The trie between the parent snapshot and the snapshot.
    pub intermediate: Option<DeltaMptId>,
    /// The trie on top of the snapshot.
    pub delta: Option<DeltaMptId>,
}

/// Why no trie could be given.
#[derive(Clone, Copy, Debug, PartialEq, Eq, Structural)]
pub enum DeltaMptError {
    /// The snapshot has no entry among the delta tries.
    DeltaMPTEntryNotFound,
    /// There is no such snapshot to put a delta trie on.
    SnapshotNotFound,
}

/// Why a snapshot is not registered.
#[derive(Clone, Copy, Debug)]
pub enum RegisterError {
    /// Its Merkle root is zero: it was never computed.
    ZeroMerkleRoot { snapshot: EpochId },
    /// Its parent is not registered, so that the chain of deltas below it is broken.
    ParentNotRegistered { snapshot: EpochId, parent: EpochId },
}

/// The intermediate trie of a snapshot. It is an error if the snapshot has no entry.
pub fn get_intermediate_mpt(
    mpts: &EpochMap<SnapshotMpts>,
    snapshot_epoch_id: &EpochId,
) -> (r: Result<Option<DeltaMptId>, DeltaMptError>)
    requires
        mpts.wf(),
    ensures
        r == (if mpts@.contains_key(*snapshot_epoch_id) {
            Ok(mpts@[*snapshot_epoch_id].intermediate)
        } else {
            Err(DeltaMptError::DeltaMPTEntryNotFound)
        }),
{
    match mpts.get(snapshot_epoch_id) {
        None => Err(DeltaMptError::DeltaMPTEntryNotFound),
        Some(entry) => Ok(entry.intermediate),
    }
}

/// The delta trie of a snapshot, where it is there already; without one it has to be made. It is
/// an error if the snapshot has no entry.
pub fn get_delta_mpt(
    mpts: &EpochMap<SnapshotMpts>,
    snapshot_epoch_id: &EpochId,
) -> (r: Result<Option<DeltaMptId>, DeltaMptError>)
    requires
        mpts.wf(),
    ensures
        r == (if mpts@.contains_key(*snapshot_epoch_id) {
            Ok(mpts@[*snapshot_epoch_id].delta)
        } else {
            Err(DeltaMptError::DeltaMPTEntryNotFound)
        }),
{
    match mpts.get(snapshot_epoch_id) {
        None => Err(DeltaMptError::DeltaMPTEntryNotFound),
        Some(entry) => Ok(entry.delta),
    }
}

/// The entry once its snapshot has the delta trie `id`. On the null epoch the intermediate trie is
/// the delta trie.
pub open spec fn with_delta(entry: SnapshotMpts, epoch: EpochId, id: DeltaMptId) -> SnapshotMpts {
    SnapshotMpts {
        intermediate: if epoch == null_epoch() {
            Some(id)
        } else {
            entry.intermediate
        },
        delta: Some(id),
    }
}

/// The delta trie of a snapshot: the one that is there, or `fresh`, which is put in its place.
pub fn new_or_get_delta_mpt(
    mpts: &mut EpochMap<SnapshotMpts>,
    snapshot_epoch_id: &EpochId,
    fresh: DeltaMptId,
) -> (r: Result<DeltaMptId, DeltaMptError>)
    requires
        old(mpts).wf(),
    ensures
        final(mpts).wf(),
        !old(mpts)@.contains_key(*snapshot_epoch_id) ==> r == Err::<DeltaMptId, DeltaMptError>(
            DeltaMptError::SnapshotNotFound,
        ) && final(mpts)@ == old(mpts)@,
        old(mpts)@.contains_key(*snapshot_epoch_id) ==> match old(mpts)@[*snapshot_epoch_id].delta {
            Some(id) => r == Ok::<DeltaMptId, DeltaMptError>(id) && final(mpts)@ == old(mpts)@,
            None => r == Ok::<DeltaMptId, DeltaMptError>(fresh) && final(mpts)@ == old(
                mpts,
            )@.insert(
                *snapshot_epoch_id,
                with_delta(old(mpts)@[*snapshot_epoch_id], *snapshot_epoch_id, fresh),
            ),
        },
        r matches Ok(id) ==> final(mpts)@[*snapshot_epoch_id].delta == Some(id),
{
    let entry: SnapshotMpts = match mpts.get(snapshot_epoch_id) {
        None => {
            return Err(DeltaMptError::SnapshotNotFound);
        },
        Some(entry) => *entry,
    };
    match entry.delta {
        Some(id) => Ok(id),
        None => {
            let intermediate: Option<DeltaMptId> = if *snapshot_epoch_id == null_epoch() {
                Some(fresh)
            } else {
                entry.intermediate
            };
            mpts.insert(snapshot_epoch_id, SnapshotMpts { intermediate, delta: Some(fresh) });
            Ok(fresh)
        },
    }
}

/// The root was never computed: it is zero, which is not the root of the empty trie either.
pub open spec fn is_unset_root(root: MerkleHash) -> bool {
    root == H256::zero() && root != merkle_null_node()
}

/// Why a snapshot is refused, if it is.
pub open spec fn rejection(
    info: SnapshotInfoView,
    records: Map<EpochId, SnapshotInfoView>,
) -> Option<RegisterError> {
    if is_unset_root(info.merkle_root) {
        Some(RegisterError::ZeroMerkleRoot { snapshot: info.epoch() })
    } else if info.parent != null_epoch() && !records.contains_key(info.parent) {
        Some(
            RegisterError::ParentNotRegistered { snapshot: info.epoch(), parent: info.parent },
        )
    } else {
        None
    }
}

/// The delta trie of the parent, which becomes the intermediate trie of the new snapshot.
pub open spec fn parent_delta(mpts: Map<EpochId, SnapshotMpts>, parent: EpochId) -> Option<DeltaMptId> {
    if mpts.contains_key(parent) {
        mpts[parent].delta
    } else {
        None
    }
}

/// The tries after a snapshot was registered. A parent without a delta trie gets `fresh`, if it
/// has an entry; the new snapshot gets the parent's trie as its intermediate one and keeps the
/// delta trie that it had.
pub open spec fn registered_mpts(
    mpts: Map<EpochId, SnapshotMpts>,
    own: EpochId,
    parent: EpochId,
    fresh: DeltaMptId,
) -> Map<EpochId, SnapshotMpts> {
    let with_parent = if mpts.contains_key(parent) && mpts[parent].delta is None {
        mpts.insert(parent, with_delta(mpts[parent], parent, fresh))
    } else {
        mpts
    };
    with_parent.insert(
        own,
        SnapshotMpts {
            intermediate: match parent_delta(mpts, parent) {
                Some(id) => Some(id),
                None => Some(fresh),
            },
            delta: if mpts.contains_key(own) {
                with_parent[own].delta
            } else {
                None
            },
        },
    )
}

/// Whether a new delta trie has to be made for the parent before a snapshot can be registered.
pub fn needs_new_delta_mpt(mpts: &EpochMap<SnapshotMpts>, parent: &EpochId) -> (r: bool)
    requires
        mpts.wf(),
    ensures
        r == (parent_delta(mpts@, *parent) is None),
{
    match mpts.get(parent) {
        None => true,
        Some(entry) => entry.delta.is_none(),
    }
}

/// Leaves an empty entry for a parent that has none. This is what remains where making its delta
/// trie fails.
pub fn note_parent(mpts: &mut EpochMap<SnapshotMpts>, parent: &EpochId)
    requires
        old(mpts).wf(),
    ensures
        final(mpts).wf(),
        final(mpts)@ == (if old(mpts)@.contains_key(*parent) {
            old(mpts)@
        } else {
            old(mpts)@.insert(*parent, (SnapshotMpts { intermediate: None, delta: None }))
        }),
{
    if mpts.get(parent).is_none() {
        mpts.insert(parent, SnapshotMpts { intermediate: None, delta: None });
    }
}

/// Why a snapshot is refused, if it is.
pub fn registration_error(
    info: &SnapshotInfo,
    info_map: &PersistedSnapshotInfoMap,
) -> (r: Option<RegisterError>)
    requires
        info_map.wf(),
        info@.wf(),
    ensures
        r == rejection(info@, info_map@),
{
    let own: EpochId = info.get_snapshot_epoch_id();
    let parent: EpochId = info.parent_snapshot_epoch_id;
    if info.merkle_root == H256::zero() && info.merkle_root != merkle_null_node() {
        return Some(RegisterError::ZeroMerkleRoot { snapshot: own });
    }
    if parent != null_epoch() && info_map.get(&parent).is_none() {
        return Some(RegisterError::ParentNotRegistered { snapshot: own, parent });
    }
    None
}

/// Registers a snapshot: its record, its place in the list and its tries. `fresh` is the delta
/// trie for the parent, used only where the parent has none. A snapshot that has tries already is
/// being recovered: it keeps its place in the list.
pub fn register_new_snapshot(
    mpts: &mut EpochMap<SnapshotMpts>,
    info_map: &mut PersistedSnapshotInfoMap,
    current_snapshots: &mut Vec<SnapshotInfo>,
    new_snapshot_info: SnapshotInfo,
    fresh: DeltaMptId,
) -> (r: Result<(), RegisterError>)
    requires
        old(mpts).wf(),
        old(info_map).wf(),
        new_snapshot_info@.wf(),
    ensures
        final(mpts).wf(),
        final(info_map).wf(),
        match rejection(new_snapshot_info@, old(info_map)@) {
            Some(e) => {
                &&& r == Err::<(), RegisterError>(e)
                &&& final(mpts)@ == old(mpts)@
                &&& final(info_map)@ == old(info_map)@
                &&& final(current_snapshots)@ == old(current_snapshots)@
            },
            None => {
                let info = new_snapshot_info@;
                let infos = snapshot_info::info_views(old(current_snapshots)@);
                &&& r is Ok
                &&& final(mpts)@ == registered_mpts(
                    old(mpts)@,
                    info.epoch(),
                    info.parent,
                    fresh,
                )
                &&& final(info_map)@ == old(info_map)@.insert(info.epoch(), info)
                &&& snapshot_info::info_views(final(current_snapshots)@) == (if old(
                    mpts,
                )@.contains_key(info.epoch()) {
                    infos
                } else {
                    infos.push(info)
                })
            },
        },
{
    let own: EpochId = new_snapshot_info.get_snapshot_epoch_id();
    let parent: EpochId = new_snapshot_info.parent_snapshot_epoch_id;
    if let Some(e) = registration_error(&new_snapshot_info, info_map) {
        return Err(e);
    }
    let ghost before = mpts@;
    let in_recover_mode: bool = mpts.get(&own).is_some();
    let parent_known: bool = mpts.get(&parent).is_some();
    if !parent_known {
        mpts.insert(&parent, SnapshotMpts { intermediate: None, delta: None });
    }
    let intermediate: DeltaMptId = match new_or_get_delta_mpt(mpts, &parent, fresh) {
        Ok(id) => id,
        Err(_) => fresh,
    };
    if !parent_known {
        mpts.remove(&parent);
        proof {
            assert(mpts@ =~= before);
        }
    }
    let delta: Option<DeltaMptId> = if in_recover_mode {
        match mpts.get(&own) {
            Some(entry) => entry.delta,
            None => None,
        }
    } else {
        None
    };
    mpts.insert(&own, SnapshotMpts { intermediate: Some(intermediate), delta });
    let ghost list = current_snapshots@;
    if !in_recover_mode {
        let info = new_snapshot_info.clone();
        current_snapshots.push(info);
        proof {
            assert(snapshot_info::info_views(current_snapshots@) =~= snapshot_info::info_views(
                list,
            ).push(info@));
        }
    }
    info_map.insert(&own, new_snapshot_info);
    Ok(())
}

/// The records are closed under parents: the parent of each is the null epoch or recorded too.
pub open spec fn parents_recorded(records: Map<EpochId, SnapshotInfoView>) -> bool {
    forall|e: EpochId| #[trigger]
        records.contains_key(e) ==> records[e].parent == null_epoch() || records.contains_key(
            records[e].parent,
        )
}

/// Registering keeps the chain of deltas whole: if every parent was recorded before, every parent
/// is recorded after.
pub proof fn registering_keeps_parents_recorded(
    records: Map<EpochId, SnapshotInfoView>,
    info: SnapshotInfoView,
)
    requires
        parents_recorded(records),
        rejection(info, records) is None,
    ensures
        parents_recorded(records.insert(info.epoch(), info)),
{
}

/// Once a delta trie was made for the null epoch, it is the intermediate trie there too. Making one
/// for any other epoch leaves its intermediate trie as it was, and the tries of every other epoch in
/// either case.
pub proof fn made_delta_tries_are_handed_out(
    mpts: Map<EpochId, SnapshotMpts>,
    epoch: EpochId,
    id: DeltaMptId,
)
    ensures
        ({
            let after = mpts.insert(epoch, with_delta(mpts[epoch], epoch, id));
            &&& after[epoch].delta == Some(id)
            &&& epoch == null_epoch() ==> after[epoch].intermediate == Some(id)
            &&& epoch != null_epoch() ==> after[epoch].intermediate == mpts[epoch].intermediate
            &&& forall|e: EpochId|
                e != epoch ==> (#[trigger] after.contains_key(e) <==> mpts.contains_key(e))
                    && after[e] == mpts[e]
        }),
{
}

/// On the null epoch the intermediate trie is the delta trie, where it has one.
pub open spec fn genesis_tries_agree(mpts: Map<EpochId, SnapshotMpts>) -> bool {
    mpts.contains_key(null_epoch()) && mpts[null_epoch()].delta is Some
        ==> mpts[null_epoch()].intermediate == mpts[null_epoch()].delta
}

/// That the tries of the null epoch are one stays so, whatever delta trie is made and whatever
/// snapshot above it is registered.
pub proof fn genesis_tries_stay_one(
    mpts: Map<EpochId, SnapshotMpts>,
    epoch: EpochId,
    own: EpochId,
    parent: EpochId,
    id: DeltaMptId,
)
    requires
        genesis_tries_agree(mpts),
        own != null_epoch(),
    ensures
        genesis_tries_agree(mpts.insert(epoch, with_delta(mpts[epoch], epoch, id))),
        genesis_tries_agree(registered_mpts(mpts, own, parent, id)),
{
}

/// The delta trie of a parent is the intermediate trie of the snapshot that is registered on it: the
/// one that the parent has, or `fresh`, which it gets where it has an entry without one. The new
/// snapshot keeps the delta trie that it had, and begins without one.
pub proof fn registered_snapshots_stand_on_their_parent(
    mpts: Map<EpochId, SnapshotMpts>,
    own: EpochId,
    parent: EpochId,
    fresh: DeltaMptId,
)
    requires
        own != parent,
    ensures
        ({
            let after = registered_mpts(mpts, own, parent, fresh);
            &&& after.contains_key(own)
            &&& after[own].intermediate is Some
            &&& after.contains_key(parent) <==> mpts.contains_key(parent)
            &&& mpts.contains_key(parent) ==> after[own].intermediate == after[parent].delta
            &&& mpts.contains_key(parent) && mpts[parent].delta is Some ==> after[parent]
                == mpts[parent]
            &&& mpts.contains_key(parent) && mpts[parent].delta is None ==> {
                &&& after[parent].delta == Some(fresh)
                &&& after[parent].intermediate == (if parent == null_epoch() {
                    Some(fresh)
                } else {
                    mpts[parent].intermediate
                })
            }
            &&& !mpts.contains_key(parent) ==> after[own].intermediate == Some(fresh)
            &&& mpts.contains_key(own) ==> after[own].delta == mpts[own].delta
            &&& !mpts.contains_key(own) ==> after[own].delta is None
            &&& forall|e: EpochId|
                e != own && e != parent ==> (#[trigger] after.contains_key(e)
                    <==> mpts.contains_key(e)) && after[e] == mpts[e]
        }),
{
}

/// A snapshot is refused exactly if its root is zero, where that is not the root of the empty trie,
/// or its parent is neither the null epoch nor recorded. The root comes first.
pub proof fn snapshots_are_refused_for_a_reason(
    info: SnapshotInfoView,
    records: Map<EpochId, SnapshotInfoView>,
)
    ensures
        ({
            let unset = info.merkle_root@ =~= Seq::new(32, |i: int| 0u8) && merkle_null_node()
                != info.merkle_root;
            let orphan = info.parent != null_epoch() && !records.contains_key(info.parent);
            &&& rejection(info, records) is None <==> !unset && !orphan
            &&& rejection(info, records) is Some ==> (rejection(info, records)->0
                is ZeroMerkleRoot <==> unset)
        }),
{
    if info.merkle_root@ =~= Seq::new(32, |i: int| 0u8) {
        assert(H256::zero()@ =~= Seq::new(32, |i: int| 0u8));
        crate::hash::h256_determined_by_bytes(info.merkle_root, H256::zero());
    }
    if info.merkle_root == H256::zero() {
        assert(H256::zero()@ =~= Seq::new(32, |i: int| 0u8));
    }
}

/// The root that is found for an epoch is that of the first snapshot of the list that is taken
/// there; none is found exactly if there is no such snapshot.
pub proof fn found_roots_are_listed(infos: Seq<SnapshotInfoView>, epoch: EpochId)
    ensures
        match merkle_root_of(infos, epoch) {
            Some(root) => exists|i: int|
                {
                    &&& 0 <= i < infos.len()
                    &&& (#[trigger] infos[i]).epoch() == epoch
                    &&& infos[i].merkle_root == root
                    &&& forall|j: int| 0 <= j < i ==> (#[trigger] infos[j]).epoch() != epoch
                },
            None => forall|i: int| 0 <= i < infos.len() ==> (#[trigger] infos[i]).epoch() != epoch,
        },
    decreases infos.len(),
{
    if infos.len() > 0 && infos[0].epoch() != epoch {
        let rest = infos.drop_first();
        found_roots_are_listed(rest, epoch);
        match merkle_root_of(infos, epoch) {
            Some(root) => {
                let i = choose|i: int|
                    {
                        &&& 0 <= i < rest.len()
                        &&& (#[trigger] rest[i]).epoch() == epoch
                        &&& rest[i].merkle_root == root
                        &&& forall|j: int| 0 <= j < i ==> (#[trigger] rest[j]).epoch() != epoch
                    };
                assert(infos[i + 1] == rest[i]);
                assert forall|j: int| 0 <= j < i + 1 implies (#[trigger] infos[j]).epoch()
                    != epoch by {
                    if j > 0 {
                        assert(infos[j] == rest[j - 1]);
                    }
                }
            },
            None => {
                assert forall|j: int| 0 <= j < infos.len() implies (#[trigger] infos[j]).epoch()
                    != epoch by {
                    if j > 0 {
                        assert(infos[j] == rest[j - 1]);
                    }
                }
            },
        }
    }
}

/// The Merkle root of the snapshot at `epoch`: that of the first in the list.
pub open spec fn merkle_root_of(infos: Seq<SnapshotInfoView>, epoch: EpochId) -> Option<MerkleHash>
    decreases infos.len(),
{
    if infos.len() == 0 {
        None
    } else if infos[0].epoch() == epoch {
        Some(infos[0].merkle_root)
    } else {
        merkle_root_of(infos.drop_first(), epoch)
    }
}

/// The Merkle root of the snapshot at `epoch_id`.
pub fn find_merkle_root(current_snapshots: &Vec<SnapshotInfo>, epoch_id: &EpochId) -> (r: Option<
    MerkleHash,
>)
    requires
        snapshot_info::infos_wf(snapshot_info::info_views(current_snapshots@)),
    ensures
        r == merkle_root_of(snapshot_info::info_views(current_snapshots@), *epoch_id),
{
    let ghost views = snapshot_info::info_views(current_snapshots@);
    let mut i: usize = 0;
    proof {
        assert(views.subrange(0, views.len() as int) =~= views);
    }
    while i < current_snapshots.len()
        invariant
            i <= current_snapshots.len(),
            views == snapshot_info::info_views(current_snapshots@),
            snapshot_info::infos_wf(views),
            merkle_root_of(views, *epoch_id) == merkle_root_of(
                views.subrange(i as int, views.len() as int),
                *epoch_id,
            ),
        decreases current_snapshots.len() - i,
    {
        proof {
            assert(views[i as int] == current_snapshots[i as int]@);
            assert(views[i as int].wf());
            let rest = views.subrange(i as int, views.len() as int);
            assert(rest[0] == views[i as int]);
            assert(rest.drop_first() =~= views.subrange(i + 1, views.len() as int));
        }
        if current_snapshots[i].get_snapshot_epoch_id() == *epoch_id {
            return Some(current_snapshots[i].merkle_root);
        }
        i = i + 1;
    }
    None
}

/// `height` is the greatest of the records' heights.
pub open spec fn is_latest_height(records: Map<EpochId, SnapshotInfoView>, height: u64) -> bool {
    &&& exists|e: EpochId| #[trigger] records.contains_key(e) && records[e].height == height
    &&& forall|e: EpochId| #[trigger] records.contains_key(e) ==> records[e].height <= height
}

/// `height` is the least height of the records, that of the null epoch left out.
pub open spec fn is_earliest_height(records: Map<EpochId, SnapshotInfoView>, height: u64) -> bool {
    &&& exists|e: EpochId| #[trigger]
        records.contains_key(e) && e != null_epoch() && records[e].height == height
    &&& forall|e: EpochId| #[trigger]
        records.contains_key(e) && e != null_epoch() ==> height <= records[e].height
}

/// The height of the highest snapshot.
pub fn latest_snapshot_epoch_height(info_map: &PersistedSnapshotInfoMap) -> (r: Option<u64>)
    requires
        info_map.wf(),
    ensures
        r matches Some(h) ==> is_latest_height(info_map@, h),
        r is None <==> info_map@ == Map::<EpochId, SnapshotInfoView>::empty(),
{
    let mut best: Option<u64> = None;
    let mut i: usize = 0;
    let n: usize = info_map.len();
    proof {
        info_map.entries_match_view();
    }
    while i < n
        invariant
            i <= n == info_map.entries().len(),
            best is None <==> i == 0,
            best matches Some(h) ==> {
                &&& exists|j: int|
                    0 <= j < i && (#[trigger] info_map.entries()[j]).1.height == h
                &&& forall|j: int|
                    0 <= j < i ==> (#[trigger] info_map.entries()[j]).1.height <= h
            },
        decreases n - i,
    {
        let (_, info) = info_map.entry(i);
        let ghost seen = best;
        match best {
            Some(h) => {
                if info.height > h {
                    best = Some(info.height);
                }
            },
            None => {
                best = Some(info.height);
            },
        }
        proof {
            let h = best->0;
            if h == info.height {
                assert(info_map.entries()[i as int].1.height == h);
            } else {
                let j = choose|j: int|
                    0 <= j < i && (#[trigger] info_map.entries()[j]).1.height == seen->0;
                assert(info_map.entries()[j].1.height == h);
            }
        }
        i = i + 1;
    }
    proof {
        match best {
            Some(h) => {
                let j = choose|j: int|
                    0 <= j < n && (#[trigger] info_map.entries()[j]).1.height == h;
                assert(info_map@.contains_key(info_map.entries()[j].0));
            },
            None => {
                assert(info_map@ =~= Map::<EpochId, SnapshotInfoView>::empty());
            },
        }
        if best is Some {
            assert(info_map@.contains_key(info_map.entries()[0].0));
        }
    }
    best
}

/// The height of the lowest snapshot, the empty one before genesis left out.
pub fn earliest_snapshot_epoch_height(info_map: &PersistedSnapshotInfoMap) -> (r: Option<u64>)
    requires
        info_map.wf(),
    ensures
        r matches Some(h) ==> is_earliest_height(info_map@, h),
        r is None <==> forall|e: EpochId| #[trigger]
            info_map@.contains_key(e) ==> e == null_epoch(),
{
    let mut best: Option<u64> = None;
    let mut i: usize = 0;
    let n: usize = info_map.len();
    proof {
        info_map.entries_match_view();
    }
    while i < n
        invariant
            i <= n == info_map.entries().len(),
            best is None <==> forall|j: int|
                0 <= j < i ==> (#[trigger] info_map.entries()[j]).0 == null_epoch(),
            best matches Some(h) ==> {
                &&& exists|j: int|
                    0 <= j < i && (#[trigger] info_map.entries()[j]).1.height == h
                        && info_map.entries()[j].0 != null_epoch()
                &&& forall|j: int|
                    0 <= j < i && (#[trigger] info_map.entries()[j]).0 != null_epoch() ==> h
                        <= info_map.entries()[j].1.height
            },
        decreases n - i,
    {
        let (epoch, info) = info_map.entry(i);
        let ghost seen = best;
        if epoch != null_epoch() {
            match best {
                Some(h) => {
                    if info.height < h {
                        best = Some(info.height);
                    }
                },
                None => {
                    best = Some(info.height);
                },
            }
            proof {
                let h = best->0;
                if h == info.height {
                    assert(info_map.entries()[i as int].1.height == h);
                    assert(info_map.entries()[i as int].0 != null_epoch());
                } else {
                    let j = choose|j: int|
                        0 <= j < i && (#[trigger] info_map.entries()[j]).1.height == seen->0
                            && info_map.entries()[j].0 != null_epoch();
                    assert(info_map.entries()[j].1.height == h);
                }
            }
        }
        i = i + 1;
    }
    proof {
        match best {
            Some(h) => {
                let j = choose|j: int|
                    0 <= j < n && (#[trigger] info_map.entries()[j]).1.height == h
                        && info_map.entries()[j].0 != null_epoch();
                assert(info_map@.contains_key(info_map.entries()[j].0));
            },
            None => {},
        }
    }
    best
}

/// The number of snapshots that are recorded.
pub fn available_snapshot_count(info_map: &PersistedSnapshotInfoMap) -> (r: usize)
    requires
        info_map.wf(),
    ensures
        r == info_map@.dom().len(),
        info_map@.dom().finite(),
{
    proof {
        info_map.entries_match_view();
        let keys = info_map.entries().map_values(|e: (EpochId, SnapshotInfoView)| e.0);
        assert(keys.no_duplicates());
        keys.unique_seq_to_set();
        assert(info_map@.dom() =~= keys.to_set()) by {
            assert forall|e: EpochId| info_map@.dom().contains(e) == keys.to_set().contains(e) by {
                if info_map@.contains_key(e) {
                    let i = choose|i: int|
                        0 <= i < info_map.entries().len() && (#[trigger] info_map.entries()[i]).0
                            == e;
                    assert(keys[i] == e);
                }
                if keys.contains(e) {
                    let i = choose|i: int| 0 <= i < keys.len() && keys[i] == e;
                    assert(info_map@.contains_key(info_map.entries()[i].0));
                }
            }
        }
        vstd::seq_lib::seq_to_set_is_finite(keys);
    }
    info_map.len()
}

/// What went wrong when delta tries were destroyed: the two last outcomes, the later one first.
#[derive(Debug)]
pub struct MaybeDeltaTrieDestroyErrors<E> {
    delta_trie_destroy_error_1: Option<E>,
    delta_trie_destroy_error_2: Option<E>,
}

impl<E> View for MaybeDeltaTrieDestroyErrors<E> {
    type V = (Option<E>, Option<E>);

    closed spec fn view(&self) -> (Option<E>, Option<E>) {
        (self.delta_trie_destroy_error_1, self.delta_trie_destroy_error_2)
    }
}

impl<E> MaybeDeltaTrieDestroyErrors<E> {
    /// Nothing went wrong yet.
    pub fn new() -> (r: Self)
        ensures
            r@ == (None::<E>, None::<E>),
    {
        MaybeDeltaTrieDestroyErrors {
            delta_trie_destroy_error_1: None,
            delta_trie_destroy_error_2: None,
        }
    }

    /// Notes the outcome of one destruction. Of older ones only the last is kept.
    pub fn set_maybe_error(&mut self, e: Option<E>)
        ensures
            final(self)@ == (e, old(self)@.0),
    {
        let previous = self.delta_trie_destroy_error_1.take();
        self.delta_trie_destroy_error_1 = e;
        self.delta_trie_destroy_error_2 = previous;
    }

    /// The noted errors, if there are any; they are forgotten.
    pub fn take_result(&mut self) -> (r: Result<(), (Option<E>, Option<E>)>)
        ensures
            final(self)@ == (None::<E>, None::<E>),
            r == (if old(self)@.0 is Some || old(self)@.1 is Some {
                Err(old(self)@)
            } else {
                Ok(())
            }),
    {
        let e1 = self.delta_trie_destroy_error_1.take();
        let e2 = self.delta_trie_destroy_error_2.take();
        if e1.is_some() || e2.is_some() {
            Err((e1, e2))
        } else {
            Ok(())
        }
    }
}

} // verus!
