//! The snapshots of the node: which there are, and making, finding and destroying them.

use super::merge_marker::{
    decoded_marker, marking, marking_of, markings_of, MarkerError, MarkerView, Marking,
};
use super::snapshot_merge::{
    can_follow, full_sync_marker, is_announcement, is_merge_run, left_by_merge, merge_run,
    merges_become_known_at_their_commit, next_merge_stage, stage_after, MergeEvent, MergeStage,
    MergeTask, MergeTrace,
};
use crate::hash::{null_epoch, EpochId, MerkleHash};
use crate::storage::epoch_map::EpochMap;
use crate::storage::snapshot_info::{
    contains_epoch, PersistedSnapshotInfoMap, SnapshotInfoView, SnapshotKeptToProvideSyncStatus,
};
use vstd::prelude::*;

verus! {

/// The first `n` of the stored snapshots that a predicate on the epoch and on the marking holds of.
pub open spec fn select(
    present: Seq<EpochId>,
    marked: Seq<Marking>,
    pred: spec_fn(EpochId, Marking) -> bool,
    n: nat,
) -> Seq<EpochId>
    decreases n,
{
    if n == 0 {
        seq![]
    } else {
        let before = select(present, marked, pred, (n - 1) as nat);
        if pred(present[n - 1], marked[n - 1]) {
            before.push(present[n - 1])
        } else {
            before
        }
    }
}

/// The stored snapshots with a marker: they were not finished.
pub open spec fn interrupted_of(present: Seq<EpochId>, marked: Seq<Marking>) -> Seq<EpochId> {
    select(present, marked, |e: EpochId, m: Marking| m == Marking::Marked, present.len())
}

/// The stored snapshots that stay: nothing stands under their marker key, and they are recorded.
pub open spec fn survivors_of(
    records: Map<EpochId, SnapshotInfoView>,
    present: Seq<EpochId>,
    marked: Seq<Marking>,
) -> Seq<EpochId> {
    select(
        present,
        marked,
        |e: EpochId, m: Marking| m == Marking::Unmarked && records.contains_key(e),
        present.len(),
    )
}

/// The stored snapshots that nobody knows: nothing records them, or what stands under their marker
/// key is no marker.
pub open spec fn orphans_of(
    records: Map<EpochId, SnapshotInfoView>,
    present: Seq<EpochId>,
    marked: Seq<Marking>,
) -> Seq<EpochId> {
    select(
        present,
        marked,
        |e: EpochId, m: Marking|
            m == Marking::Corrupt || (m == Marking::Unmarked && !records.contains_key(e)),
        present.len(),
    )
}

/// The record asks for the data of the snapshot.
pub open spec fn needs_data(records: Map<EpochId, SnapshotInfoView>, epoch: EpochId) -> bool {
    records.contains_key(epoch) && records[epoch].kept != SnapshotKeptToProvideSyncStatus::InfoOnly
}

/// The stored snapshot at a position stays with its data.
pub open spec fn stays_with_data(
    records: Map<EpochId, SnapshotInfoView>,
    present: Seq<EpochId>,
    marked: Seq<Marking>,
    i: int,
) -> bool {
    0 <= i < present.len() && marked[i] == Marking::Unmarked && needs_data(records, present[i])
}

/// `id` is the first of the highest of the first `n` stored snapshots that stay with their data,
/// and `height` its height; the null epoch and zero where there is none above zero.
pub open spec fn is_highest(
    records: Map<EpochId, SnapshotInfoView>,
    present: Seq<EpochId>,
    marked: Seq<Marking>,
    n: int,
    id: EpochId,
    height: u64,
) -> bool {
    &&& forall|i: int|
        i < n && #[trigger] stays_with_data(records, present, marked, i)
            ==> records[present[i]].height <= height
    &&& if height == 0 {
        id == null_epoch()
    } else {
        exists|i: int|
            {
                &&& i < n
                &&& #[trigger] stays_with_data(records, present, marked, i)
                &&& present[i] == id
                &&& records[id].height == height
                &&& forall|j: int|
                    j < i && #[trigger] stays_with_data(records, present, marked, j)
                        ==> records[present[j]].height < height
            }
    }
}

/// What is found of the snapshots when the node starts.
#[derive(Debug)]
pub struct SnapshotPersistState {
    /// Snapshots whose record asks for data that is not stored.
    pub missing_snapshots: Vec<EpochId>,
    /// The highest snapshot with data.
    pub max_epoch_id: EpochId,
    pub max_epoch_height: u64,
    /// The first snapshot that was not finished.
    pub temp_snapshot_db_existing: Option<EpochId>,
    /// Snapshots that nothing records, and those with a marker that cannot be read.
    pub removed_snapshots: Vec<EpochId>,
    /// The height of the highest snapshot that has its trie.
    pub max_snapshot_epoch_height_has_mpt: Option<u64>,
}

/// What is found of the snapshots when the node starts, and what is to be done about it.
#[derive(Debug)]
pub struct SnapshotScan {
    pub state: SnapshotPersistState,
    /// Snapshots that were not finished: to be destroyed, as the removed ones are.
    pub interrupted: Vec<EpochId>,
    /// Snapshots that stay.
    pub survivors: Vec<EpochId>,
}

impl SnapshotScan {
    /// The scan is that of the stored snapshots and the records.
    pub open spec fn reports_on(
        &self,
        records: Map<EpochId, SnapshotInfoView>,
        present: Seq<EpochId>,
        marked: Seq<Marking>,
    ) -> bool {
        &&& self.interrupted@ == interrupted_of(present, marked)
        &&& self.survivors@ == survivors_of(records, present, marked)
        &&& self.state.removed_snapshots@ == orphans_of(records, present, marked)
        &&& self.state.temp_snapshot_db_existing == if self.interrupted@.len() > 0 {
            Some(self.interrupted@[0])
        } else {
            None
        }
        &&& is_highest(
            records,
            present,
            marked,
            present.len() as int,
            self.state.max_epoch_id,
            self.state.max_epoch_height,
        )
        &&& self.state.max_snapshot_epoch_height_has_mpt == if self.state.max_epoch_height > 0 {
            Some(self.state.max_epoch_height)
        } else {
            None
        }
        &&& self.state.missing_snapshots@.no_duplicates()
        &&& forall|e: EpochId| #[trigger]
            self.state.missing_snapshots@.contains(e) <==> needs_data(records, e)
                && !self.survivors@.contains(e)
    }

    /// Every stored snapshot under whose marker key anything stands is to be destroyed, recorded or
    /// not, and none of them stays.
    pub open spec fn removes_marked(
        &self,
        present: Seq<EpochId>,
        stored: Seq<Option<Vec<u8>>>,
    ) -> bool {
        &&& forall|i: int|
            0 <= i < present.len() && (#[trigger] stored[i]) is Some ==> {
                ||| self.interrupted@.contains(present[i])
                ||| self.state.removed_snapshots@.contains(present[i])
            }
        &&& present.no_duplicates() ==> forall|i: int|
            0 <= i < present.len() && (#[trigger] stored[i]) is Some ==> !self.survivors@.contains(
                present[i],
            )
    }
}

fn missing_snapshots(info_map: &PersistedSnapshotInfoMap, survivors: &Vec<EpochId>) -> (r: Vec<
    EpochId,
>)
    requires
        info_map.wf(),
    ensures
        r@.no_duplicates(),
        forall|e: EpochId| #[trigger]
            r@.contains(e) <==> needs_data(info_map@, e) && !survivors@.contains(e),
{
    proof {
        info_map.entries_match_view();
    }
    let mut missing: Vec<EpochId> = Vec::new();
    let mut n: usize = 0;
    while n < info_map.len()
        invariant
            info_map.wf(),
            n <= info_map.entries().len(),
            forall|j: int|
                0 <= j < info_map.entries().len() ==> info_map@.contains_key(
                    (#[trigger] info_map.entries()[j]).0,
                ) && info_map@[info_map.entries()[j].0] == info_map.entries()[j].1,
            forall|j: int, k: int|
                0 <= j < k < info_map.entries().len() ==> (#[trigger] info_map.entries()[j]).0 != (
                #[trigger] info_map.entries()[k]).0,
            missing@.no_duplicates(),
            forall|e: EpochId| #[trigger]
                missing@.contains(e) <==> needs_data(info_map@, e) && !survivors@.contains(e)
                    && exists|j: int| 0 <= j < n && (#[trigger] info_map.entries()[j]).0 == e,
        decreases info_map.entries().len() - n,
    {
        let (id, info) = info_map.entry(n);
        let ghost before = missing@;
        let ghost entry = info_map.entries()[n as int];
        let lacks = info.snapshot_info_kept_to_provide_sync
            != SnapshotKeptToProvideSyncStatus::InfoOnly && !contains_epoch(survivors, &id);
        proof {
            assert(info_map@.contains_key(entry.0));
            assert(lacks == (needs_data(info_map@, id) && !survivors@.contains(id)));
            if before.contains(id) {
                let j = choose|j: int| 0 <= j < n && (#[trigger] info_map.entries()[j]).0 == id;
                assert(info_map.entries()[j].0 != entry.0);
            }
        }
        if lacks {
            missing.push(id);
        }
        n = n + 1;
        proof {
            let now = missing@;
            assert forall|e: EpochId| #[trigger]
                now.contains(e) <==> needs_data(info_map@, e) && !survivors@.contains(e)
                    && exists|j: int| 0 <= j < n && (#[trigger] info_map.entries()[j]).0 == e by {
                if lacks {
                    assert(now =~= before.push(id));
                    if before.contains(e) {
                        let k = choose|k: int| 0 <= k < before.len() && before[k] == e;
                        assert(now[k] == e);
                    }
                    assert(now[now.len() - 1] == id);
                    if now.contains(e) && e != id {
                        let k = choose|k: int| 0 <= k < now.len() && now[k] == e;
                        assert(before[k] == e);
                    }
                }
                assert(entry.0 == id);
                if exists|j: int| 0 <= j < n && (#[trigger] info_map.entries()[j]).0 == e {
                    let j = choose|j: int| 0 <= j < n && (#[trigger] info_map.entries()[j]).0 == e;
                    if j < n - 1 {
                        assert(exists|j: int|
                            0 <= j < n - 1 && (#[trigger] info_map.entries()[j]).0 == e);
                    }
                }
            }
        }
    }
    missing
}

/// Compares the stored snapshots, with what stands under the marker key of each, with the records.
/// Where anything stands there, whatever it is, the snapshot goes.
pub fn scan_snapshots(
    info_map: &PersistedSnapshotInfoMap,
    present: &Vec<EpochId>,
    stored: &Vec<Option<Vec<u8>>>,
) -> (r: SnapshotScan)
    requires
        info_map.wf(),
        present@.len() == stored@.len(),
    ensures
        r.reports_on(info_map@, present@, markings_of(stored@)),
        r.removes_marked(present@, stored@),
{
    let ghost records = info_map@;
    let ghost marked = markings_of(stored@);
    let ghost with_marker = |e: EpochId, m: Marking| m == Marking::Marked;
    let ghost recorded = |e: EpochId, m: Marking| m == Marking::Unmarked && records.contains_key(e);
    let ghost unrecorded = |e: EpochId, m: Marking|
            m == Marking::Corrupt || (m == Marking::Unmarked && !records.contains_key(e));
    let mut interrupted: Vec<EpochId> = Vec::new();
    let mut survivors: Vec<EpochId> = Vec::new();
    let mut removed_snapshots: Vec<EpochId> = Vec::new();
    let mut temp_snapshot_db_existing: Option<EpochId> = None;
    let mut max_epoch_id: EpochId = null_epoch();
    let mut max_epoch_height: u64 = 0;
    let mut i: usize = 0;
    while i < present.len()
        invariant
            info_map.wf(),
            present@.len() == stored@.len(),
            marked == markings_of(stored@),
            i <= present@.len(),
            records == info_map@,
            with_marker == (|e: EpochId, m: Marking| m == Marking::Marked),
            recorded == (|e: EpochId, m: Marking| m == Marking::Unmarked && records.contains_key(e)),
            unrecorded == (|e: EpochId, m: Marking|
            m == Marking::Corrupt || (m == Marking::Unmarked && !records.contains_key(e))),
            interrupted@ == select(present@, marked, with_marker, i as nat),
            survivors@ == select(present@, marked, recorded, i as nat),
            removed_snapshots@ == select(present@, marked, unrecorded, i as nat),
            temp_snapshot_db_existing == (if interrupted@.len() > 0 {
                Some(interrupted@[0])
            } else {
                None
            }),
            is_highest(
                records,
                present@,
                marked,
                i as int,
                max_epoch_id,
                max_epoch_height,
            ),
        decreases present@.len() - i,
    {
        let id: EpochId = present[i];
        let ghost highest = (max_epoch_id, max_epoch_height);
        match marking(&stored[i]) {
            Marking::Marked => {
                interrupted.push(id);
                if temp_snapshot_db_existing.is_none() {
                    temp_snapshot_db_existing = Some(id);
                }
            },
            Marking::Corrupt => {
                removed_snapshots.push(id);
            },
            Marking::Unmarked => match info_map.get(&id) {
                Some(info) => {
                    survivors.push(id);
                    if info.snapshot_info_kept_to_provide_sync
                        != SnapshotKeptToProvideSyncStatus::InfoOnly && info.height
                        > max_epoch_height {
                        max_epoch_height = info.height;
                        max_epoch_id = id;
                        proof {
                            assert(stays_with_data(records, present@, marked, i as int));
                        }
                    }
                },
                None => {
                    removed_snapshots.push(id);
                },
            },
        }
        i = i + 1;
        proof {
            if highest == (max_epoch_id, max_epoch_height) && max_epoch_height > 0 {
                let k = choose|k: int|
                    {
                        &&& k < i - 1
                        &&& #[trigger] stays_with_data(records, present@, marked, k)
                        &&& present@[k] == max_epoch_id
                        &&& records[max_epoch_id].height == max_epoch_height
                        &&& forall|j: int|
                            j < k && #[trigger] stays_with_data(records, present@, marked, j)
                                ==> records[present@[j]].height < max_epoch_height
                    };
                assert(stays_with_data(records, present@, marked, k));
            }
        }
    }
    let missing_snapshots = missing_snapshots(info_map, &survivors);
    let max_snapshot_epoch_height_has_mpt = if max_epoch_height > 0 {
        Some(max_epoch_height)
    } else {
        None
    };
    let scan = SnapshotScan {
        state: SnapshotPersistState {
            missing_snapshots,
            max_epoch_id,
            max_epoch_height,
            temp_snapshot_db_existing,
            removed_snapshots,
            max_snapshot_epoch_height_has_mpt,
        },
        interrupted,
        survivors,
    };
    proof {
        assert forall|i: int| 0 <= i < present@.len() && (#[trigger] stored@[i]) is Some implies {
            ||| scan.interrupted@.contains(present@[i])
            ||| scan.state.removed_snapshots@.contains(present@[i])
        } by {
            snapshots_go_where_they_belong(records, present@, marked, i);
        }
        if present@.no_duplicates() {
            assert forall|i: int|
                0 <= i < present@.len() && (
                #[trigger] stored@[i]) is Some implies !scan.survivors@.contains(present@[i]) by {
                only_finished_snapshots_survive(records, present@, marked, i);
            }
        }
    }
    scan
}

proof fn lemma_select_contains(
    present: Seq<EpochId>,
    marked: Seq<Marking>,
    pred: spec_fn(EpochId, Marking) -> bool,
    n: nat,
    e: EpochId,
)
    requires
        n <= present.len(),
        present.len() == marked.len(),
    ensures
        select(present, marked, pred, n).contains(e) <==> exists|i: int|
            0 <= i < n && #[trigger] present[i] == e && pred(e, marked[i]),
    decreases n,
{
    let now = select(present, marked, pred, n);
    if n == 0 {
        assert(now =~= seq![]);
    } else {
        let before = select(present, marked, pred, (n - 1) as nat);
        lemma_select_contains(present, marked, pred, (n - 1) as nat, e);
        if pred(present[n - 1], marked[n - 1]) {
            assert(now =~= before.push(present[n - 1]));
            if before.contains(e) {
                let k = choose|k: int| 0 <= k < before.len() && before[k] == e;
                assert(now[k] == e);
            }
            if now.contains(e) {
                let k = choose|k: int| 0 <= k < now.len() && now[k] == e;
                if k < before.len() {
                    assert(before[k] == e);
                } else {
                    assert(present[n - 1] == e);
                }
            }
            assert(now[now.len() - 1] == present[n - 1]);
        }
    }
}

proof fn snapshots_go_where_they_belong(
    records: Map<EpochId, SnapshotInfoView>,
    present: Seq<EpochId>,
    marked: Seq<Marking>,
    i: int,
)
    requires
        present.len() == marked.len(),
        0 <= i < present.len(),
    ensures
        marked[i] == Marking::Marked ==> interrupted_of(present, marked).contains(present[i]),
        marked[i] == Marking::Corrupt ==> orphans_of(records, present, marked).contains(present[i]),
{
    let e = present[i];
    let n = present.len();
    lemma_select_contains(present, marked, |e: EpochId, m: Marking| m == Marking::Marked, n, e);
    lemma_select_contains(
        present,
        marked,
        |e: EpochId, m: Marking|
            m == Marking::Corrupt || (m == Marking::Unmarked && !records.contains_key(e)),
        n,
        e,
    );
}

/// A snapshot survives a start of the node exactly if it is stored and recorded and nothing stands
/// under its marker key. One with a marker is among the interrupted ones, and one that nothing
/// records, or whose marker cannot be read, among the removed ones.
pub proof fn only_finished_snapshots_survive(
    records: Map<EpochId, SnapshotInfoView>,
    present: Seq<EpochId>,
    marked: Seq<Marking>,
    i: int,
)
    requires
        present.len() == marked.len(),
        present.no_duplicates(),
        0 <= i < present.len(),
    ensures
        survivors_of(records, present, marked).contains(present[i]) <==> marked[i]
            == Marking::Unmarked && records.contains_key(present[i]),
        interrupted_of(present, marked).contains(present[i]) <==> marked[i] == Marking::Marked,
        orphans_of(records, present, marked).contains(present[i]) <==> marked[i] == Marking::Corrupt
            || (marked[i] == Marking::Unmarked && !records.contains_key(present[i])),
{
    let e = present[i];
    let n = present.len();
    lemma_select_contains(
        present,
        marked,
        |e: EpochId, m: Marking| m == Marking::Unmarked && records.contains_key(e),
        n,
        e,
    );
    lemma_select_contains(present, marked, |e: EpochId, m: Marking| m == Marking::Marked, n, e);
    lemma_select_contains(
        present,
        marked,
        |e: EpochId, m: Marking|
            m == Marking::Corrupt || (m == Marking::Unmarked && !records.contains_key(e)),
        n,
        e,
    );
}

/// A merge that was announced and not done, because it failed or because the node stopped, leaves
/// the known snapshots as they were. The next start of the node finds it among the interrupted ones
/// and removes it, recorded or not; and where it is the only one, reports it as such.
pub proof fn announced_merges_are_removed(
    task: MergeTask,
    announcement: Seq<u8>,
    before: MergeTrace,
    events: Seq<MergeEvent>,
    records: Map<EpochId, SnapshotInfoView>,
    present: Seq<EpochId>,
    stored: Seq<Option<Vec<u8>>>,
    scan: SnapshotScan,
    i: int,
)
    requires
        is_merge_run(task, events),
        merge_run(task, events).1,
        is_announcement(task, announcement),
        present.len() == stored.len(),
        present.no_duplicates(),
        0 <= i < present.len(),
        present[i] == task.snapshot_epoch_id,
        match stored[i] {
            Some(bytes) => left_by_merge(task, announcement, before, events).marker == Some(bytes@),
            None => left_by_merge(task, announcement, before, events).marker is None,
        },
        scan.reports_on(records, present, markings_of(stored)),
    ensures
        left_by_merge(task, announcement, before, events).known == before.known,
        left_by_merge(task, announcement, before, events).latest == before.latest,
        scan.interrupted@.contains(task.snapshot_epoch_id),
        !scan.survivors@.contains(task.snapshot_epoch_id),
        (forall|j: int|
            0 <= j < present.len() && j != i ==> marking_of(#[trigger] stored[j])
                != Marking::Marked) ==> scan.state.temp_snapshot_db_existing == Some(
            task.snapshot_epoch_id,
        ),
{
    merges_become_known_at_their_commit(task, announcement, before, events);
    let marked = markings_of(stored);
    assert(marked[i] == Marking::Marked);
    only_finished_snapshots_survive(records, present, marked, i);
    if forall|j: int|
        0 <= j < present.len() && j != i ==> marking_of(#[trigger] stored[j]) != Marking::Marked {
        let first = scan.interrupted@[0];
        assert(scan.interrupted@.contains(first));
        lemma_select_contains(
            present,
            marked,
            |e: EpochId, m: Marking| m == Marking::Marked,
            present.len(),
            first,
        );
        let k = choose|k: int|
            0 <= k < present.len() && #[trigger] present[k] == first && marked[k]
                == Marking::Marked;
        assert(marking_of(stored[k]) == Marking::Marked);
    }
}

/// A snapshot that is received whole and was announced, and whose announcement was not deleted, is
/// found among the interrupted ones by the next start of the node, and removed, recorded or not.
pub proof fn unfinished_full_syncs_are_removed(
    merkle_root: MerkleHash,
    started_at: u64,
    records: Map<EpochId, SnapshotInfoView>,
    present: Seq<EpochId>,
    stored: Seq<Option<Vec<u8>>>,
    scan: SnapshotScan,
    i: int,
)
    requires
        present.len() == stored.len(),
        present.no_duplicates(),
        0 <= i < present.len(),
        stored[i] matches Some(bytes) && decoded_marker(bytes@) == Ok::<MarkerView, MarkerError>(
            full_sync_marker(merkle_root, started_at),
        ),
        scan.reports_on(records, present, markings_of(stored)),
    ensures
        scan.interrupted@.contains(present[i]),
        !scan.survivors@.contains(present[i]),
{
    let marked = markings_of(stored);
    assert(marked[i] == Marking::Marked);
    only_finished_snapshots_survive(records, present, marked, i);
}

/// What looking for a snapshot comes to.
#[derive(Clone, Copy, Debug, PartialEq, Eq, Structural)]
pub enum SnapshotLookup {
    /// The empty snapshot before genesis, which is always there and needs no permit.
    Null,
    /// It has no data.
    Absent,
    /// It has data: with a permit it can be opened.
    Open,
}

/// The snapshots that the node knows, and what it keeps in mind about them.
#[derive(Debug)]
pub struct SnapshotDbManagerMdbx {
    known_snapshots: EpochMap<()>,
    latest_snapshot_id: (EpochId, u64),
    snapshot_epoch_id_before_recovered: Option<EpochId>,
    reconstruct_snapshot_id_for_reboot: Option<EpochId>,
}

impl SnapshotDbManagerMdbx {
    /// The snapshots are listed once each.
    pub closed spec fn wf(&self) -> bool {
        self.known_snapshots.wf()
    }

    /// The known snapshots.
    pub closed spec fn known(&self) -> Set<EpochId> {
        self.known_snapshots@.dom()
    }

    /// The latest snapshot and its height.
    pub closed spec fn latest(&self) -> (EpochId, u64) {
        self.latest_snapshot_id
    }

    /// The snapshot that the node was started with.
    pub closed spec fn before_recovered(&self) -> Option<EpochId> {
        self.snapshot_epoch_id_before_recovered
    }

    /// The snapshot that is to be made again.
    pub closed spec fn reconstruct(&self) -> Option<EpochId> {
        self.reconstruct_snapshot_id_for_reboot
    }

    /// A manager that knows no snapshot.
    pub fn new() -> (r: Self)
        ensures
            r.wf(),
            r.known() == Set::<EpochId>::empty(),
            r.latest() == (null_epoch(), 0u64),
            r.before_recovered() is None,
            r.reconstruct() is None,
    {
        let r = SnapshotDbManagerMdbx {
            known_snapshots: EpochMap::new(),
            latest_snapshot_id: (null_epoch(), 0),
            snapshot_epoch_id_before_recovered: None,
            reconstruct_snapshot_id_for_reboot: None,
        };
        proof {
            assert(r.known() =~= Set::<EpochId>::empty());
        }
        r
    }

    /// Notes the latest snapshot.
    pub fn update_latest_snapshot_id(&mut self, snapshot_id: EpochId, height: u64)
        requires
            old(self).wf(),
        ensures
            final(self).wf(),
            final(self).latest() == (snapshot_id, height),
            final(self).known() == old(self).known(),
            final(self).before_recovered() == old(self).before_recovered(),
            final(self).reconstruct() == old(self).reconstruct(),
    {
        self.latest_snapshot_id = (snapshot_id, height);
    }

    /// Forgets the snapshot that the node was started with.
    pub fn clean_snapshot_epoch_id_before_recovered(&mut self)
        requires
            old(self).wf(),
        ensures
            final(self).wf(),
            final(self).before_recovered() is None,
            final(self).latest() == old(self).latest(),
            final(self).known() == old(self).known(),
            final(self).reconstruct() == old(self).reconstruct(),
    {
        self.snapshot_epoch_id_before_recovered = None;
    }

    /// Notes which snapshot is to be made again.
    pub fn set_reconstruct_snapshot_id(&mut self, reconstruct_main: Option<EpochId>)
        requires
            old(self).wf(),
        ensures
            final(self).wf(),
            final(self).reconstruct() == reconstruct_main,
            final(self).latest() == old(self).latest(),
            final(self).known() == old(self).known(),
            final(self).before_recovered() == old(self).before_recovered(),
    {
        self.reconstruct_snapshot_id_for_reboot = reconstruct_main;
    }

    /// Whether a snapshot that is about to be made is the one that is to be made again. The note is
    /// used up, whatever it says.
    pub fn take_reconstruct_state(&mut self, snapshot_epoch_id: &EpochId) -> (r: bool)
        requires
            old(self).wf(),
        ensures
            final(self).wf(),
            r == (old(self).reconstruct() == Some(*snapshot_epoch_id)),
            final(self).reconstruct() is None,
            final(self).latest() == old(self).latest(),
            final(self).known() == old(self).known(),
            final(self).before_recovered() == old(self).before_recovered(),
    {
        let noted = self.reconstruct_snapshot_id_for_reboot;
        self.reconstruct_snapshot_id_for_reboot = None;
        match noted {
            Some(id) => id == *snapshot_epoch_id,
            None => false,
        }
    }

    /// Notes that a snapshot is there.
    pub fn mark_snapshot_known(&mut self, snapshot_epoch_id: EpochId)
        requires
            old(self).wf(),
        ensures
            final(self).wf(),
            final(self).known() == old(self).known().insert(snapshot_epoch_id),
            final(self).latest() == old(self).latest(),
            final(self).before_recovered() == old(self).before_recovered(),
            final(self).reconstruct() == old(self).reconstruct(),
    {
        self.known_snapshots.insert(&snapshot_epoch_id, ());
        proof {
            assert(self.known() =~= old(self).known().insert(snapshot_epoch_id));
        }
    }

    /// What is to be done in a merge after a step. Once the commit is done, the snapshot is known, and
    /// it is the latest; nothing is noted before.
    pub fn advance_merge(&mut self, task: &MergeTask, stage: MergeStage, event: MergeEvent) -> (r:
        MergeStage)
        requires
            old(self).wf(),
            can_follow(stage, event),
        ensures
            final(self).wf(),
            r == stage_after(*task, stage, event),
            final(self).known() == (if r is Done {
                old(self).known().insert(task.snapshot_epoch_id)
            } else {
                old(self).known()
            }),
            final(self).latest() == (if r is Done {
                (task.snapshot_epoch_id, task.new_epoch_height)
            } else {
                old(self).latest()
            }),
            final(self).before_recovered() == old(self).before_recovered(),
            final(self).reconstruct() == old(self).reconstruct(),
    {
        let next = next_merge_stage(task, stage, event);
        if let MergeStage::Done { .. } = next {
            self.mark_snapshot_known(task.snapshot_epoch_id);
            self.update_latest_snapshot_id(task.snapshot_epoch_id, task.new_epoch_height);
        }
        next
    }

    /// Ends the receiving of a snapshot: it is known from then on, if and only if its announcement
    /// was deleted.
    pub fn finalize_full_sync_snapshot(
        &mut self,
        snapshot_epoch_id: &EpochId,
        announcement_deleted: bool,
    )
        requires
            old(self).wf(),
        ensures
            final(self).wf(),
            final(self).known() == (if announcement_deleted {
                old(self).known().insert(*snapshot_epoch_id)
            } else {
                old(self).known()
            }),
            final(self).latest() == old(self).latest(),
            final(self).before_recovered() == old(self).before_recovered(),
            final(self).reconstruct() == old(self).reconstruct(),
    {
        if announcement_deleted {
            self.mark_snapshot_known(*snapshot_epoch_id);
        }
    }

    /// Notes that a snapshot is gone.
    pub fn forget_snapshot(&mut self, snapshot_epoch_id: &EpochId)
        requires
            old(self).wf(),
        ensures
            final(self).wf(),
            final(self).known() == old(self).known().remove(*snapshot_epoch_id),
            final(self).latest() == old(self).latest(),
            final(self).before_recovered() == old(self).before_recovered(),
            final(self).reconstruct() == old(self).reconstruct(),
    {
        self.known_snapshots.remove(snapshot_epoch_id);
        proof {
            assert(self.known() =~= old(self).known().remove(*snapshot_epoch_id));
        }
    }

    /// The known snapshots, each once.
    pub fn known_snapshots_snapshot(&self) -> (r: Vec<EpochId>)
        requires
            self.wf(),
        ensures
            r@.no_duplicates(),
            r@.to_set() == self.known(),
    {
        proof {
            self.known_snapshots.entries_match_view();
        }
        let mut out: Vec<EpochId> = Vec::new();
        let mut i: usize = 0;
        while i < self.known_snapshots.len()
            invariant
                i <= self.known_snapshots.entries().len(),
                out@.len() == i,
                forall|j: int|
                    0 <= j < i ==> #[trigger] out@[j] == self.known_snapshots.entries()[j].0,
            decreases self.known_snapshots.entries().len() - i,
        {
            let (id, _) = self.known_snapshots.entry(i);
            out.push(id);
            i = i + 1;
        }
        proof {
            assert forall|e: EpochId| out@.to_set().contains(e) <==> self.known().contains(e) by {
                if self.known().contains(e) {
                    let j = choose|j: int|
                        0 <= j < self.known_snapshots.entries().len() && (
                        #[trigger] self.known_snapshots.entries()[j]).0 == e;
                    assert(out@[j] == e);
                }
                if out@.contains(e) {
                    let j = choose|j: int| 0 <= j < out@.len() && out@[j] == e;
                    assert(self.known_snapshots@.contains_key(
                        self.known_snapshots.entries()[j].0,
                    ));
                }
            }
            assert(out@.to_set() =~= self.known());
            assert forall|j: int, k: int| 0 <= j < k < out@.len() implies out@[j] != out@[k] by {
                assert(self.known_snapshots.entries()[j].0 != self.known_snapshots.entries()[k].0);
            }
        }
        out
    }

    /// Whether a snapshot is there. The empty one before genesis always is.
    pub fn snapshot_dir_exists(&self, snapshot_epoch_id: &EpochId) -> (r: bool)
        requires
            self.wf(),
        ensures
            r == (*snapshot_epoch_id == null_epoch() || self.known().contains(*snapshot_epoch_id)),
    {
        if *snapshot_epoch_id == null_epoch() {
            return true;
        }
        self.known_snapshots.get(snapshot_epoch_id).is_some()
    }

    /// The epoch that a directory was made for while its snapshot was being merged. There are no
    /// such directories: a marker stands under the snapshot instead.
    pub fn try_get_new_snapshot_epoch_from_temp_path(&self, _dir_name: &str) -> (r: Option<EpochId>)
        ensures
            r is None,
    {
        None
    }

    /// The epoch that a directory was made for while its trie was being merged. There are no such
    /// directories either.
    pub fn try_get_new_snapshot_epoch_from_mpt_temp_path(&self, _dir_name: &str) -> (r: Option<
        EpochId,
    >)
        ensures
            r is None,
    {
        None
    }

    /// What looking for a snapshot comes to, given whether it has any data.
    pub fn get_snapshot_by_epoch_id(snapshot_epoch_id: &EpochId, has_any_data: bool) -> (r:
        SnapshotLookup)
        ensures
            r == (if *snapshot_epoch_id == null_epoch() {
                SnapshotLookup::Null
            } else if has_any_data {
                SnapshotLookup::Open
            } else {
                SnapshotLookup::Absent
            }),
    {
        if *snapshot_epoch_id == null_epoch() {
            SnapshotLookup::Null
        } else if has_any_data {
            SnapshotLookup::Open
        } else {
            SnapshotLookup::Absent
        }
    }

    /// Compares the stored snapshots, with what stands under the marker key of each, with the
    /// records. From then on the survivors are known, and the highest of them is the latest.
    pub fn scan_persist_state(
        &mut self,
        info_map: &PersistedSnapshotInfoMap,
        present: &Vec<EpochId>,
        stored: &Vec<Option<Vec<u8>>>,
    ) -> (r: SnapshotScan)
        requires
            old(self).wf(),
            info_map.wf(),
            present@.len() == stored@.len(),
        ensures
            final(self).wf(),
            r.reports_on(info_map@, present@, markings_of(stored@)),
            r.removes_marked(present@, stored@),
            final(self).known() == r.survivors@.to_set(),
            final(self).latest() == (r.state.max_epoch_id, r.state.max_epoch_height),
            final(self).before_recovered() == old(self).before_recovered(),
            final(self).reconstruct() == old(self).reconstruct(),
    {
        let scan = scan_snapshots(info_map, present, stored);
        self.adopt_scan(&scan);
        scan
    }

    /// Takes over what a scan found: the survivors are known, and the highest of them is the latest.
    pub fn adopt_scan(&mut self, scan: &SnapshotScan)
        requires
            old(self).wf(),
        ensures
            final(self).wf(),
            final(self).known() == scan.survivors@.to_set(),
            final(self).latest() == (scan.state.max_epoch_id, scan.state.max_epoch_height),
            final(self).before_recovered() == old(self).before_recovered(),
            final(self).reconstruct() == old(self).reconstruct(),
    {
        let mut known: EpochMap<()> = EpochMap::new();
        let mut i: usize = 0;
        proof {
            assert(known@.dom() =~= scan.survivors@.subrange(0, 0).to_set());
        }
        while i < scan.survivors.len()
            invariant
                i <= scan.survivors@.len(),
                known.wf(),
                known@.dom() == scan.survivors@.subrange(0, i as int).to_set(),
            decreases scan.survivors.len() - i,
        {
            let id: EpochId = scan.survivors[i];
            known.insert(&id, ());
            proof {
                let before = scan.survivors@.subrange(0, i as int);
                let now = scan.survivors@.subrange(0, i + 1);
                assert(now =~= before.push(id));
                assert forall|e: EpochId| now.to_set().contains(e) <==> known@.dom().contains(
                    e,
                ) by {
                    if before.contains(e) {
                        let k = choose|k: int| 0 <= k < before.len() && before[k] == e;
                        assert(now[k] == e);
                    }
                    assert(now[i as int] == id);
                    if now.contains(e) && e != id {
                        let k = choose|k: int| 0 <= k < now.len() && now[k] == e;
                        assert(before[k] == e);
                    }
                }
                assert(known@.dom() =~= now.to_set());
            }
            i = i + 1;
        }
        self.known_snapshots = known;
        self.latest_snapshot_id = (scan.state.max_epoch_id, scan.state.max_epoch_height);
        proof {
            assert(scan.survivors@.subrange(0, scan.survivors@.len() as int) =~= scan.survivors@);
        }
    }
}

/// What a scan reports, said of each stored snapshot and of each record. A snapshot stays exactly if
/// nothing stands under its marker key and it is recorded; with a marker it is interrupted, and
/// otherwise removed. A record that asks for data is missing exactly if its snapshot does not stay.
/// The highest is the highest of those that stay with their data.
pub proof fn scans_report_truly(
    records: Map<EpochId, SnapshotInfoView>,
    present: Seq<EpochId>,
    marked: Seq<Marking>,
    scan: SnapshotScan,
    i: int,
    e: EpochId,
)
    requires
        present.len() == marked.len(),
        present.no_duplicates(),
        0 <= i < present.len(),
        scan.reports_on(records, present, marked),
    ensures
        scan.survivors@.contains(present[i]) <==> marked[i] == Marking::Unmarked
            && records.contains_key(present[i]),
        scan.interrupted@.contains(present[i]) <==> marked[i] == Marking::Marked,
        scan.state.removed_snapshots@.contains(present[i]) <==> marked[i] == Marking::Corrupt || (
        marked[i] == Marking::Unmarked && !records.contains_key(present[i])),
        scan.state.missing_snapshots@.contains(e) <==> records.contains_key(e) && records[e].kept
            != SnapshotKeptToProvideSyncStatus::InfoOnly && !scan.survivors@.contains(e),
        scan.survivors@.contains(e) && records[e].kept != SnapshotKeptToProvideSyncStatus::InfoOnly
            ==> records[e].height <= scan.state.max_epoch_height,
        scan.state.max_epoch_height > 0 ==> {
            &&& scan.survivors@.contains(scan.state.max_epoch_id)
            &&& records[scan.state.max_epoch_id].height == scan.state.max_epoch_height
            &&& records[scan.state.max_epoch_id].kept != SnapshotKeptToProvideSyncStatus::InfoOnly
        },
        scan.state.max_epoch_height == 0 ==> scan.state.max_epoch_id == null_epoch(),
        scan.state.temp_snapshot_db_existing is Some <==> exists|j: int|
            0 <= j < present.len() && #[trigger] marked[j] == Marking::Marked,
        scan.state.temp_snapshot_db_existing matches Some(first) ==> scan.interrupted@.contains(
            first,
        ),
{
    let recorded = |e: EpochId, m: Marking| m == Marking::Unmarked && records.contains_key(e);
    let with_marker = |e: EpochId, m: Marking| m == Marking::Marked;
    let n = present.len();
    only_finished_snapshots_survive(records, present, marked, i);
    lemma_select_contains(present, marked, recorded, n, e);
    if scan.survivors@.contains(e) && records[e].kept != SnapshotKeptToProvideSyncStatus::InfoOnly {
        let j = choose|j: int| 0 <= j < n && #[trigger] present[j] == e && recorded(e, marked[j]);
        assert(stays_with_data(records, present, marked, j));
    }
    if scan.state.max_epoch_height > 0 {
        let j = choose|j: int|
            {
                &&& j < n
                &&& #[trigger] stays_with_data(records, present, marked, j)
                &&& present[j] == scan.state.max_epoch_id
                &&& records[scan.state.max_epoch_id].height == scan.state.max_epoch_height
                &&& forall|k: int|
                    k < j && #[trigger] stays_with_data(records, present, marked, k)
                        ==> records[present[k]].height < scan.state.max_epoch_height
            };
        lemma_select_contains(present, marked, recorded, n, scan.state.max_epoch_id);
    }
    if exists|j: int| 0 <= j < n && #[trigger] marked[j] == Marking::Marked {
        let j = choose|j: int| 0 <= j < n && #[trigger] marked[j] == Marking::Marked;
        lemma_select_contains(present, marked, with_marker, n, present[j]);
    }
    if scan.interrupted@.len() > 0 {
        let first = scan.interrupted@[0];
        assert(scan.interrupted@.contains(first));
        lemma_select_contains(present, marked, with_marker, n, first);
        let j = choose|j: int|
            0 <= j < n && #[trigger] present[j] == first && with_marker(first, marked[j]);
        assert(marked[j] == Marking::Marked);
    }
}

} // verus!
