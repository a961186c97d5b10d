//! Restoring the snapshots when the node starts.

use super::registry;
use super::registry::{DeltaMptId, SnapshotMpts};
use super::removal;
use crate::hash::{null_epoch, EpochId};
use crate::storage::epoch_map::EpochMap;
use crate::storage::snapshot_info;
use crate::storage::snapshot_info::{PersistedSnapshotInfoMap, SnapshotInfo, SnapshotInfoView};
use vstd::prelude::*;

verus! {

/// Puts the record of the empty snapshot before genesis where the records, the list and the tries
/// are. It is always there.
pub fn load_genesis(
    mpts: &mut EpochMap<SnapshotMpts>,
    info_map: &mut PersistedSnapshotInfoMap,
    current_snapshots: &mut Vec<SnapshotInfo>,
)
    requires
        old(mpts).wf(),
        old(info_map).wf(),
    ensures
        final(mpts).wf(),
        final(info_map).wf(),
        final(mpts)@ == old(mpts)@.insert(
            null_epoch(),
            (SnapshotMpts { intermediate: None, delta: None }),
        ),
        final(info_map)@ == old(info_map)@.insert(null_epoch(), snapshot_info::genesis_info()),
        snapshot_info::info_views(final(current_snapshots)@) == snapshot_info::info_views(
            old(current_snapshots)@,
        ).push(snapshot_info::genesis_info()),
{
    mpts.insert(&null_epoch(), SnapshotMpts { intermediate: None, delta: None });
    info_map.insert(&null_epoch(), SnapshotInfo::genesis_snapshot_info());
    let ghost before = current_snapshots@;
    let genesis = SnapshotInfo::genesis_snapshot_info();
    current_snapshots.push(genesis);
    proof {
        assert(snapshot_info::info_views(current_snapshots@) =~= snapshot_info::info_views(
            before,
        ).push(genesis@));
    }
}

/// The records without those of the first `n` epochs of a list; that of the null epoch stays.
pub open spec fn forget_all(
    records: Map<EpochId, SnapshotInfoView>,
    epochs: Seq<EpochId>,
    n: nat,
) -> Map<EpochId, SnapshotInfoView>
    decreases n,
{
    if n == 0 {
        records
    } else {
        let m = forget_all(records, epochs, (n - 1) as nat);
        if epochs[n - 1] == null_epoch() {
            m
        } else {
            m.remove(epochs[n - 1])
        }
    }
}

/// Forgets the records of the snapshots whose data is missing, and gives the epochs whose delta
/// databases have to be destroyed too. The empty snapshot before genesis is never missing.
pub fn drop_missing_snapshots(
    info_map: &mut PersistedSnapshotInfoMap,
    missing_snapshots: &Vec<EpochId>,
) -> (dropped: Vec<EpochId>)
    requires
        old(info_map).wf(),
    ensures
        final(info_map).wf(),
        dropped@ == missing_snapshots@.filter(|e: EpochId| e != null_epoch()),
        final(info_map)@ == forget_all(
            old(info_map)@,
            missing_snapshots@,
            missing_snapshots@.len(),
        ),
{
    let ghost above_null = |e: EpochId| e != null_epoch();
    let mut dropped: Vec<EpochId> = Vec::new();
    let mut i: usize = 0;
    proof {
        reveal(Seq::filter);
        assert(missing_snapshots@.subrange(0, 0).filter(above_null) =~= dropped@);
    }
    while i < missing_snapshots.len()
        invariant
            i <= missing_snapshots.len(),
            info_map.wf(),
            above_null == |e: EpochId| e != null_epoch(),
            dropped@ == missing_snapshots@.subrange(0, i as int).filter(above_null),
            info_map@ == forget_all(old(info_map)@, missing_snapshots@, i as nat),
        decreases missing_snapshots.len() - i,
    {
        let epoch: EpochId = missing_snapshots[i];
        proof {
            let now = missing_snapshots@.subrange(0, i + 1);
            assert(now.drop_last() =~= missing_snapshots@.subrange(0, i as int));
            assert(now.last() == epoch);
            reveal(Seq::filter);
        }
        if epoch != null_epoch() {
            info_map.remove(&epoch);
            dropped.push(epoch);
        }
        i = i + 1;
    }
    proof {
        assert(missing_snapshots@.subrange(0, missing_snapshots@.len() as int)
            =~= missing_snapshots@);
    }
    dropped
}

/// A snapshot without a delta trie is usable only if its parent has one, as right after it was
/// made.
pub open spec fn lacks_tries(
    records: Map<EpochId, SnapshotInfoView>,
    delta_mpts: Map<EpochId, DeltaMptId>,
    e: EpochId,
) -> bool {
    e != null_epoch() && !(records.contains_key(e) && delta_mpts.contains_key(records[e].parent))
}

/// The records after the first `n` snapshots without a delta trie were looked at.
pub open spec fn forget_without_tries(
    records: Map<EpochId, SnapshotInfoView>,
    delta_mpts: Map<EpochId, DeltaMptId>,
    epochs: Seq<EpochId>,
    n: nat,
) -> Map<EpochId, SnapshotInfoView>
    decreases n,
{
    if n == 0 {
        records
    } else {
        let m = forget_without_tries(records, delta_mpts, epochs, (n - 1) as nat);
        if lacks_tries(m, delta_mpts, epochs[n - 1]) {
            m.remove(epochs[n - 1])
        } else {
            m
        }
    }
}

/// The snapshots to destroy after the first `n` without a delta trie were looked at.
pub open spec fn destroyed_without_tries(
    records: Map<EpochId, SnapshotInfoView>,
    delta_mpts: Map<EpochId, DeltaMptId>,
    epochs: Seq<EpochId>,
    n: nat,
) -> Seq<EpochId>
    decreases n,
{
    if n == 0 {
        seq![]
    } else {
        let m = forget_without_tries(records, delta_mpts, epochs, (n - 1) as nat);
        let rest = destroyed_without_tries(records, delta_mpts, epochs, (n - 1) as nat);
        if lacks_tries(m, delta_mpts, epochs[n - 1]) {
            rest.push(epochs[n - 1])
        } else {
            rest
        }
    }
}

/// Forgets the snapshots that have neither an intermediate nor a delta trie, and gives their
/// epochs, so that their data can be destroyed.
pub fn drop_snapshots_without_tries(
    info_map: &mut PersistedSnapshotInfoMap,
    missing_delta_db_snapshots: &Vec<EpochId>,
    delta_mpts: &EpochMap<DeltaMptId>,
) -> (destroyed: Vec<EpochId>)
    requires
        old(info_map).wf(),
        delta_mpts.wf(),
    ensures
        final(info_map).wf(),
        final(info_map)@ == forget_without_tries(
            old(info_map)@,
            delta_mpts@,
            missing_delta_db_snapshots@,
            missing_delta_db_snapshots@.len(),
        ),
        destroyed@ == destroyed_without_tries(
            old(info_map)@,
            delta_mpts@,
            missing_delta_db_snapshots@,
            missing_delta_db_snapshots@.len(),
        ),
{
    let mut destroyed: Vec<EpochId> = Vec::new();
    let mut i: usize = 0;
    while i < missing_delta_db_snapshots.len()
        invariant
            i <= missing_delta_db_snapshots.len(),
            info_map.wf(),
            delta_mpts.wf(),
            info_map@ == forget_without_tries(
                old(info_map)@,
                delta_mpts@,
                missing_delta_db_snapshots@,
                i as nat,
            ),
            destroyed@ == destroyed_without_tries(
                old(info_map)@,
                delta_mpts@,
                missing_delta_db_snapshots@,
                i as nat,
            ),
        decreases missing_delta_db_snapshots.len() - i,
    {
        let epoch: EpochId = missing_delta_db_snapshots[i];
        let lacks: bool = if epoch == null_epoch() {
            false
        } else {
            match info_map.get(&epoch) {
                Some(info) => delta_mpts.get(&info.parent_snapshot_epoch_id).is_none(),
                None => true,
            }
        };
        if lacks {
            info_map.remove(&epoch);
            destroyed.push(epoch);
        }
        i = i + 1;
    }
    destroyed
}

/// The snapshots stand in the order of their heights.
pub open spec fn sorted_by_height(infos: Seq<SnapshotInfoView>) -> bool {
    forall|i: int, j: int|
        0 <= i < j < infos.len() ==> (#[trigger] infos[i]).height <= (#[trigger] infos[j]).height
}

/// The records of the map, without their epochs.
pub open spec fn records_of(info_map: &PersistedSnapshotInfoMap) -> Seq<SnapshotInfoView> {
    info_map.entries().map_values(|e: (EpochId, SnapshotInfoView)| e.1)
}

proof fn insertion_adds_one<A>(s: Seq<A>, i: int, a: A)
    requires
        0 <= i <= s.len(),
    ensures
        s.insert(i, a).to_multiset() =~= s.to_multiset().insert(a),
{
    let t = s.insert(i, a);
    assert(t.remove(i) =~= s);
    assert(t[i] == a);
    vstd::seq_lib::to_multiset_remove(t, i);
    t.to_multiset_ensures();
    assert(t.contains(a));
}

/// The recorded snapshots, in the order of their heights.
pub fn restore_current_snapshots(info_map: &PersistedSnapshotInfoMap) -> (r: Vec<SnapshotInfo>)
    requires
        info_map.wf(),
    ensures
        sorted_by_height(snapshot_info::info_views(r@)),
        snapshot_info::info_views(r@).to_multiset() == records_of(info_map).to_multiset(),
{
    let mut r: Vec<SnapshotInfo> = Vec::new();
    let mut i: usize = 0;
    let n: usize = info_map.len();
    let ghost records = records_of(info_map);
    proof {
        assert(snapshot_info::info_views(r@) =~= records.subrange(0, 0));
    }
    while i < n
        invariant
            i <= n == info_map.entries().len(),
            records == records_of(info_map),
            sorted_by_height(snapshot_info::info_views(r@)),
            snapshot_info::info_views(r@).to_multiset() == records.subrange(
                0,
                i as int,
            ).to_multiset(),
        decreases n - i,
    {
        let (_, info) = info_map.entry(i);
        let info = info.clone();
        let ghost before = snapshot_info::info_views(r@);
        let mut at: usize = r.len();
        while at > 0 && r[at - 1].height > info.height
            invariant
                at <= r.len(),
                before == snapshot_info::info_views(r@),
                forall|j: int| at <= j < before.len() ==> (#[trigger] before[j]).height
                    > info.height,
            decreases at,
        {
            at = at - 1;
            proof {
                assert(before[at as int] == r[at as int]@);
            }
        }
        proof {
            if at > 0 {
                assert(before[at - 1] == r[at - 1]@);
            }
        }
        r.insert(at, info);
        proof {
            let after = snapshot_info::info_views(r@);
            assert(after =~= before.insert(at as int, info@));
            insertion_adds_one(before, at as int, info@);
            let next = records.subrange(0, i + 1);
            assert(next =~= records.subrange(0, i as int).push(info@));
            vstd::seq_lib::to_multiset_build(records.subrange(0, i as int), info@);
            assert forall|a: int, b: int| 0 <= a < b < after.len() implies (
            #[trigger] after[a]).height <= (#[trigger] after[b]).height by {
                let old_a = if a < at {
                    a
                } else {
                    a - 1
                };
                let old_b = if b < at {
                    b
                } else {
                    b - 1
                };
                if a != at && b != at {
                    assert(before[old_a].height <= before[old_b].height);
                } else if b == at {
                    if a < at - 1 {
                        assert(before[a].height <= before[at - 1].height);
                    }
                } else {
                    assert(before[old_b].height > info.height);
                }
            }
        }
        i = i + 1;
    }
    proof {
        assert(records.subrange(0, n as int) =~= records);
    }
    r
}

/// The parent of the snapshot is neither the null epoch nor recorded.
pub open spec fn is_orphan(records: Map<EpochId, SnapshotInfoView>, info: SnapshotInfoView) -> bool {
    info.parent != null_epoch() && !records.contains_key(info.parent)
}

/// The records after the first `n` snapshots of the list were looked at for orphans.
pub open spec fn heal(
    records: Map<EpochId, SnapshotInfoView>,
    infos: Seq<SnapshotInfoView>,
    n: nat,
) -> Map<EpochId, SnapshotInfoView>
    decreases n,
{
    if n == 0 {
        records
    } else {
        let m = heal(records, infos, (n - 1) as nat);
        if is_orphan(m, infos[n - 1]) {
            m.remove(infos[n - 1].epoch())
        } else {
            m
        }
    }
}

/// The orphans among the first `n` snapshots of the list.
pub open spec fn orphans(
    records: Map<EpochId, SnapshotInfoView>,
    infos: Seq<SnapshotInfoView>,
    n: nat,
) -> Seq<EpochId>
    decreases n,
{
    if n == 0 {
        seq![]
    } else {
        let rest = orphans(records, infos, (n - 1) as nat);
        if is_orphan(heal(records, infos, (n - 1) as nat), infos[n - 1]) {
            rest.push(infos[n - 1].epoch())
        } else {
            rest
        }
    }
}

/// Takes the snapshots whose parent is missing, and what descends from them, out of the list and
/// the records. Gives their epochs, so that their data can be destroyed.
pub fn heal_orphans(
    info_map: &mut PersistedSnapshotInfoMap,
    snapshots: &mut Vec<SnapshotInfo>,
) -> (healed: Vec<EpochId>)
    requires
        old(info_map).wf(),
        snapshot_info::infos_wf(snapshot_info::info_views(old(snapshots)@)),
    ensures
        final(info_map).wf(),
        final(info_map)@ == heal(
            old(info_map)@,
            snapshot_info::info_views(old(snapshots)@),
            old(snapshots)@.len(),
        ),
        healed@ == orphans(
            old(info_map)@,
            snapshot_info::info_views(old(snapshots)@),
            old(snapshots)@.len(),
        ),
        snapshot_info::info_views(final(snapshots)@) == removal::remaining(
            snapshot_info::info_views(old(snapshots)@),
            healed@,
        ),
{
    let ghost views = snapshot_info::info_views(snapshots@);
    let mut healed: Vec<EpochId> = Vec::new();
    let mut i: usize = 0;
    while i < snapshots.len()
        invariant
            i <= snapshots.len(),
            info_map.wf(),
            views == snapshot_info::info_views(snapshots@),
            snapshots@ == old(snapshots)@,
            snapshot_info::infos_wf(views),
            info_map@ == heal(old(info_map)@, views, i as nat),
            healed@ == orphans(old(info_map)@, views, i as nat),
        decreases snapshots.len() - i,
    {
        proof {
            assert(views[i as int] == snapshots[i as int]@);
            assert(views[i as int].wf());
        }
        let parent: EpochId = snapshots[i].parent_snapshot_epoch_id;
        if parent != null_epoch() && info_map.get(&parent).is_none() {
            let epoch: EpochId = snapshots[i].get_snapshot_epoch_id();
            info_map.remove(&epoch);
            healed.push(epoch);
        }
        i = i + 1;
    }
    let none: Vec<EpochId> = Vec::new();
    removal::remove_snapshots(snapshots, &none, &none, &healed);
    healed
}

/// The tries of the snapshots of the list, from the delta tries that were found: a snapshot's
/// intermediate trie is the delta trie of its parent.
pub open spec fn associate(
    mpts: Map<EpochId, SnapshotMpts>,
    infos: Seq<SnapshotInfoView>,
    delta_mpts: Map<EpochId, DeltaMptId>,
    n: nat,
) -> Map<EpochId, SnapshotMpts>
    decreases n,
{
    if n == 0 {
        mpts
    } else {
        associate(mpts, infos, delta_mpts, (n - 1) as nat).insert(
            infos[n - 1].epoch(),
            SnapshotMpts {
                intermediate: if delta_mpts.contains_key(infos[n - 1].parent) {
                    Some(delta_mpts[infos[n - 1].parent])
                } else {
                    None
                },
                delta: if delta_mpts.contains_key(infos[n - 1].epoch()) {
                    Some(delta_mpts[infos[n - 1].epoch()])
                } else {
                    None
                },
            },
        )
    }
}

/// Gives the snapshots of the list their tries.
pub fn associate_mpts(
    mpts: &mut EpochMap<SnapshotMpts>,
    current_snapshots: &Vec<SnapshotInfo>,
    delta_mpts: &EpochMap<DeltaMptId>,
)
    requires
        old(mpts).wf(),
        delta_mpts.wf(),
        snapshot_info::infos_wf(snapshot_info::info_views(current_snapshots@)),
    ensures
        final(mpts).wf(),
        final(mpts)@ == associate(
            old(mpts)@,
            snapshot_info::info_views(current_snapshots@),
            delta_mpts@,
            current_snapshots@.len(),
        ),
{
    let ghost views = snapshot_info::info_views(current_snapshots@);
    let mut i: usize = 0;
    while i < current_snapshots.len()
        invariant
            i <= current_snapshots.len(),
            mpts.wf(),
            delta_mpts.wf(),
            views == snapshot_info::info_views(current_snapshots@),
            snapshot_info::infos_wf(views),
            mpts@ == associate(old(mpts)@, views, delta_mpts@, i as nat),
        decreases current_snapshots.len() - i,
    {
        proof {
            assert(views[i as int] == current_snapshots[i as int]@);
            assert(views[i as int].wf());
        }
        let epoch: EpochId = current_snapshots[i].get_snapshot_epoch_id();
        let intermediate: Option<DeltaMptId> = match delta_mpts.get(
            &current_snapshots[i].parent_snapshot_epoch_id,
        ) {
            Some(id) => Some(*id),
            None => None,
        };
        let delta: Option<DeltaMptId> = match delta_mpts.get(&epoch) {
            Some(id) => Some(*id),
            None => None,
        };
        mpts.insert(&epoch, SnapshotMpts { intermediate, delta });
        i = i + 1;
    }
}

/// What is destroyed when the snapshots are restored.
#[derive(Debug)]
pub struct RestoredSnapshots {
    /// Snapshots without tries.
    pub without_tries: Vec<EpochId>,
    /// Snapshots with a missing ancestor.
    pub orphans: Vec<EpochId>,
}

/// What a start leaves of the records: those without delta tries are forgotten, the rest is listed
/// by height and healed, and the orphans leave the list.
pub open spec fn is_restored(
    recorded: Map<EpochId, SnapshotInfoView>,
    delta_mpts: Map<EpochId, DeltaMptId>,
    missing: Seq<EpochId>,
    left: Map<EpochId, SnapshotInfoView>,
    infos: Seq<SnapshotInfoView>,
    orphaned: Seq<EpochId>,
) -> bool {
    let records = forget_without_tries(recorded, delta_mpts, missing, missing.len());
    exists|listed: Seq<SnapshotInfoView>| #[trigger]
        lists_all(listed, records) && {
            &&& sorted_by_height(listed)
            &&& left == heal(records, listed, listed.len())
            &&& orphaned == orphans(records, listed, listed.len())
            &&& infos == removal::remaining(listed, orphaned)
        }
}

/// Restores the list of snapshots and their tries from the records and the delta tries that were
/// found, and drops the snapshots that cannot be used any more.
pub fn load_persist_state(
    mpts: &mut EpochMap<SnapshotMpts>,
    info_map: &mut PersistedSnapshotInfoMap,
    current_snapshots: &mut Vec<SnapshotInfo>,
    missing_delta_db_snapshots: &Vec<EpochId>,
    delta_mpts: &EpochMap<DeltaMptId>,
) -> (r: RestoredSnapshots)
    requires
        old(mpts).wf(),
        old(info_map).wf(),
        delta_mpts.wf(),
        forall|e: EpochId| #[trigger] old(info_map)@.contains_key(e) ==> old(info_map)@[e].wf(),
    ensures
        final(mpts).wf(),
        final(info_map).wf(),
        snapshot_info::infos_wf(snapshot_info::info_views(final(current_snapshots)@)),
        forall|e: EpochId| #[trigger] final(info_map)@.contains_key(e) ==> final(info_map)@[e].wf(),
        r.without_tries@ == destroyed_without_tries(
            old(info_map)@,
            delta_mpts@,
            missing_delta_db_snapshots@,
            missing_delta_db_snapshots@.len(),
        ),
        is_restored(
            old(info_map)@,
            delta_mpts@,
            missing_delta_db_snapshots@,
            final(info_map)@,
            snapshot_info::info_views(final(current_snapshots)@),
            r.orphans@,
        ),
        final(mpts)@ == associate(
            old(mpts)@,
            snapshot_info::info_views(final(current_snapshots)@),
            delta_mpts@,
            final(current_snapshots)@.len(),
        ),
{
    let without_tries = drop_snapshots_without_tries(
        info_map,
        missing_delta_db_snapshots,
        delta_mpts,
    );
    let ghost records = info_map@;
    proof {
        forgetting_keeps_wf(
            old(info_map)@,
            delta_mpts@,
            missing_delta_db_snapshots@,
            missing_delta_db_snapshots@.len(),
        );
    }
    let mut snapshots = restore_current_snapshots(info_map);
    let ghost listed = snapshot_info::info_views(snapshots@);
    proof {
        restored_list_is_complete(info_map, listed);
    }
    let orphans = heal_orphans(info_map, &mut snapshots);
    proof {
        assert(lists_all(listed, records));
        let left = snapshot_info::info_views(snapshots@);
        assert forall|i: int| 0 <= i < left.len() implies (#[trigger] left[i]).wf() by {
            let pred = |i: SnapshotInfoView| !orphans@.contains(i.epoch());
            assert(left == listed.filter(pred));
            assert(listed.filter(pred).contains(left[i]));
            listed.lemma_filter_contains_rev(pred, left[i]);
        }
    }
    proof {
        healing_keeps_wf(records, listed, listed.len());
    }
    *current_snapshots = snapshots;
    associate_mpts(mpts, current_snapshots, delta_mpts);
    RestoredSnapshots { without_tries, orphans }
}

/// The record is that of some epoch of the map.
pub open spec fn is_recorded(
    records: Map<EpochId, SnapshotInfoView>,
    info: SnapshotInfoView,
) -> bool {
    exists|e: EpochId| #[trigger] records.contains_key(e) && records[e] == info
}

/// The list holds the record of every epoch of the map, and nothing else.
pub open spec fn lists_all(
    listed: Seq<SnapshotInfoView>,
    records: Map<EpochId, SnapshotInfoView>,
) -> bool {
    &&& forall|e: EpochId| #[trigger] records.contains_key(e) ==> listed.contains(records[e])
    &&& forall|i: int|
        0 <= i < listed.len() ==> is_recorded(records, #[trigger] listed[i])
    &&& records.dom().finite() && listed.len() == records.dom().len()
}

proof fn healing_keeps_wf(
    records: Map<EpochId, SnapshotInfoView>,
    infos: Seq<SnapshotInfoView>,
    n: nat,
)
    requires
        forall|e: EpochId| #[trigger] records.contains_key(e) ==> records[e].wf(),
    ensures
        forall|e: EpochId| #[trigger]
            heal(records, infos, n).contains_key(e) ==> heal(records, infos, n)[e].wf(),
    decreases n,
{
    if n > 0 {
        healing_keeps_wf(records, infos, (n - 1) as nat);
        let before = heal(records, infos, (n - 1) as nat);
        let after = heal(records, infos, n);
        assert forall|e: EpochId| #[trigger] after.contains_key(e) implies after[e].wf() by {
            assert(before.contains_key(e));
        }
    }
}

proof fn forgetting_keeps_wf(
    records: Map<EpochId, SnapshotInfoView>,
    delta_mpts: Map<EpochId, DeltaMptId>,
    epochs: Seq<EpochId>,
    n: nat,
)
    requires
        forall|e: EpochId| #[trigger] records.contains_key(e) ==> records[e].wf(),
    ensures
        forall|e: EpochId| #[trigger]
            forget_without_tries(records, delta_mpts, epochs, n).contains_key(e)
                ==> forget_without_tries(records, delta_mpts, epochs, n)[e].wf(),
    decreases n,
{
    if n > 0 {
        forgetting_keeps_wf(records, delta_mpts, epochs, (n - 1) as nat);
        let before = forget_without_tries(records, delta_mpts, epochs, (n - 1) as nat);
        let after = forget_without_tries(records, delta_mpts, epochs, n);
        assert forall|e: EpochId| #[trigger] after.contains_key(e) implies after[e].wf() by {
            assert(before.contains_key(e));
        }
    }
}

proof fn restored_list_is_complete(
    info_map: &PersistedSnapshotInfoMap,
    listed: Seq<SnapshotInfoView>,
)
    requires
        info_map.wf(),
        listed.to_multiset() == records_of(info_map).to_multiset(),
        forall|e: EpochId| #[trigger] info_map@.contains_key(e) ==> info_map@[e].wf(),
    ensures
        lists_all(listed, info_map@),
        snapshot_info::infos_wf(listed),
{
    info_map.entries_match_view();
    let records = records_of(info_map);
    let keys = info_map.entries().map_values(|e: (EpochId, SnapshotInfoView)| e.0);
    assert(keys.no_duplicates());
    keys.unique_seq_to_set();
    vstd::seq_lib::seq_to_set_is_finite(keys);
    assert forall|e: EpochId| info_map@.dom().contains(e) == keys.to_set().contains(e) by {
        if info_map@.contains_key(e) {
            let i = choose|i: int|
                0 <= i < info_map.entries().len() && (#[trigger] info_map.entries()[i]).0 == e;
            assert(keys[i] == e);
        }
        if keys.contains(e) {
            let i = choose|i: int| 0 <= i < keys.len() && keys[i] == e;
            assert(info_map@.contains_key(info_map.entries()[i].0));
        }
    }
    assert(info_map@.dom() =~= keys.to_set());
    listed.to_multiset_ensures();
    records.to_multiset_ensures();
    assert forall|e: EpochId| #[trigger] info_map@.contains_key(e) implies listed.contains(
        info_map@[e],
    ) by {
        let i = choose|i: int|
            0 <= i < info_map.entries().len() && (#[trigger] info_map.entries()[i]).0 == e;
        assert(records[i] == info_map@[e]);
        assert(records.contains(info_map@[e]));
        assert(records.to_multiset().count(info_map@[e]) > 0);
    }
    assert forall|i: int| 0 <= i < listed.len() implies is_recorded(
        info_map@,
        #[trigger] listed[i],
    ) by {
        assert(listed.contains(listed[i]));
        assert(listed.to_multiset().count(listed[i]) > 0);
        assert(records.contains(listed[i]));
        let j = choose|j: int| 0 <= j < records.len() && records[j] == listed[i];
        let e = info_map.entries()[j].0;
        assert(info_map@.contains_key(e));
        assert(info_map@[e] == listed[i]);
    }
    assert forall|i: int| 0 <= i < listed.len() implies (#[trigger] listed[i]).wf() by {
        assert(is_recorded(info_map@, listed[i]));
    }
}

/// Every epoch of the map is that of its own record, and a record is higher than that of its
/// parent.
pub open spec fn records_consistent(records: Map<EpochId, SnapshotInfoView>) -> bool {
    &&& forall|e: EpochId| #[trigger] records.contains_key(e) ==> records[e].epoch() == e
    &&& forall|e: EpochId| #[trigger]
        records.contains_key(e) && records[e].parent != null_epoch() && records.contains_key(
            records[e].parent,
        ) ==> records[records[e].parent].height < records[e].height
}

/// `k` generations above the snapshot at `e`, a parent is missing.
pub open spec fn is_broken(records: Map<EpochId, SnapshotInfoView>, e: EpochId, k: nat) -> bool
    decreases k,
{
    &&& records.contains_key(e)
    &&& records[e].parent != null_epoch()
    &&& if k == 0 {
        !records.contains_key(records[e].parent)
    } else {
        is_broken(records, records[e].parent, (k - 1) as nat)
    }
}

proof fn healing_only_forgets(
    records: Map<EpochId, SnapshotInfoView>,
    infos: Seq<SnapshotInfoView>,
    n: nat,
)
    requires
        n <= infos.len(),
        lists_all(infos, records),
        records_consistent(records),
    ensures
        forall|e: EpochId| #[trigger]
            heal(records, infos, n).contains_key(e) ==> records.contains_key(e) && heal(
                records,
                infos,
                n,
            )[e] == records[e],
        forall|e: EpochId|
            records.contains_key(e) && !#[trigger] heal(records, infos, n).contains_key(e)
                ==> exists|k: nat| is_broken(records, e, k),
    decreases n,
{
    if n > 0 {
        healing_only_forgets(records, infos, (n - 1) as nat);
        let before = heal(records, infos, (n - 1) as nat);
        let after = heal(records, infos, n);
        let info = infos[n - 1];
        assert forall|e: EpochId| #[trigger] after.contains_key(e) implies records.contains_key(e)
            && after[e] == records[e] by {
            assert(before.contains_key(e));
        }
        assert forall|e: EpochId|
            records.contains_key(e) && !#[trigger] after.contains_key(e) implies exists|k: nat|
            is_broken(records, e, k) by {
            if before.contains_key(e) {
                assert(is_recorded(records, info));
                let key = choose|key: EpochId| #[trigger]
                    records.contains_key(key) && records[key] == info;
                assert(key == e);
                assert(records[e] == info);
                if records.contains_key(info.parent) {
                    assert(!before.contains_key(info.parent));
                    let k = choose|k: nat| is_broken(records, info.parent, k);
                    assert(is_broken(records, e, k + 1));
                } else {
                    assert(is_broken(records, e, 0));
                }
            }
        }
    }
}

proof fn healed_prefix_is_whole(
    records: Map<EpochId, SnapshotInfoView>,
    infos: Seq<SnapshotInfoView>,
    n: nat,
    i: int,
)
    requires
        n <= infos.len(),
        0 <= i < n,
        lists_all(infos, records),
        records_consistent(records),
        sorted_by_height(infos),
        heal(records, infos, n).contains_key(infos[i].epoch()),
    ensures
        infos[i].parent == null_epoch() || heal(records, infos, n).contains_key(infos[i].parent),
    decreases n,
{
    let before = heal(records, infos, (n - 1) as nat);
    let after = heal(records, infos, n);
    let last = infos[n - 1];
    healing_only_forgets(records, infos, (n - 1) as nat);
    assert(is_recorded(records, infos[i]));
    let key = choose|key: EpochId| #[trigger]
        records.contains_key(key) && records[key] == infos[i];
    assert(records.contains_key(key));
    assert(key == infos[i].epoch());
    assert(is_recorded(records, last));
    let key_last = choose|key_last: EpochId| #[trigger]
        records.contains_key(key_last) && records[key_last] == last;
    assert(records.contains_key(key_last));
    assert(key_last == last.epoch());
    if i < n - 1 {
        assert(before.contains_key(infos[i].epoch()));
        healed_prefix_is_whole(records, infos, (n - 1) as nat, i);
        if infos[i].parent != null_epoch() && infos[i].parent == last.epoch() {
            assert(records[infos[i].parent].height < infos[i].height);
            assert(infos[i].height <= infos[n - 1].height);
        }
    } else {
        if is_orphan(before, last) {
            assert(!after.contains_key(last.epoch()));
        }
    }
}

/// After the healing every snapshot that is left has its parent, and exactly those are gone whose
/// chain of parents had a gap.
pub proof fn healing_leaves_whole_chains(
    records: Map<EpochId, SnapshotInfoView>,
    infos: Seq<SnapshotInfoView>,
)
    requires
        lists_all(infos, records),
        records_consistent(records),
        sorted_by_height(infos),
    ensures
        registry::parents_recorded(heal(records, infos, infos.len())),
        forall|e: EpochId| #[trigger]
            heal(records, infos, infos.len()).contains_key(e) <==> records.contains_key(e)
                && forall|k: nat| !is_broken(records, e, k),
{
    let healed = heal(records, infos, infos.len());
    healing_only_forgets(records, infos, infos.len());
    assert forall|e: EpochId| #[trigger] healed.contains_key(e) implies healed[e].parent
        == null_epoch() || healed.contains_key(healed[e].parent) by {
        assert(infos.contains(records[e]));
        let i = choose|i: int| 0 <= i < infos.len() && infos[i] == records[e];
        healed_prefix_is_whole(records, infos, infos.len(), i);
    }
    assert forall|e: EpochId, k: nat| healed.contains_key(e) implies !#[trigger] is_broken(
        records,
        e,
        k,
    ) by {
        whole_is_not_broken(records, healed, e, k);
    }
    assert forall|e: EpochId| #[trigger] healed.contains_key(e) <==> records.contains_key(e)
        && forall|k: nat| !is_broken(records, e, k) by {
        if records.contains_key(e) && !healed.contains_key(e) {
            let k = choose|k: nat| is_broken(records, e, k);
            assert(is_broken(records, e, k));
        }
    }
}

proof fn whole_is_not_broken(
    records: Map<EpochId, SnapshotInfoView>,
    healed: Map<EpochId, SnapshotInfoView>,
    e: EpochId,
    k: nat,
)
    requires
        registry::parents_recorded(healed),
        forall|x: EpochId| #[trigger]
            healed.contains_key(x) ==> records.contains_key(x) && healed[x] == records[x],
        healed.contains_key(e),
    ensures
        !is_broken(records, e, k),
    decreases k,
{
    if is_broken(records, e, k) {
        assert(healed[e] == records[e]);
        assert(healed.contains_key(records[e].parent));
        if k > 0 {
            whole_is_not_broken(records, healed, records[e].parent, (k - 1) as nat);
        }
    }
}

} // verus!
