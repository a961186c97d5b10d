//! Making a snapshot by merging a delta trie into its parent.

use super::merge_marker::{
    decoded_marker, encoded_marker, MarkerError, MarkerView, MergeMarker,
};
use super::snapshot_prefix::MergeMarkerKind;
use crate::hash::{null_epoch, EpochId, MerkleHash};
use crate::storage::snapshot_info::SnapshotInfo;
use vstd::prelude::*;

verus! {

/// A merge that is to be made.
#[derive(Clone, Copy, Debug)]
pub struct MergeTask {
    /// The parent; the null epoch where there is none.
    pub old_snapshot_epoch_id: EpochId,
    /// The snapshot that is made.
    pub snapshot_epoch_id: EpochId,
    /// Its height.
    pub new_epoch_height: u64,
    /// The entries are there already, and only the trie is made again.
    pub skip_dump: bool,
}

/// How far a merge has come: what is to be done next.
#[derive(Clone, Copy, Debug)]
pub enum MergeStage {
    /// Announce the merge, where a start of the node will find it.
    Announce,
    /// Write the entries of the delta trie.
    DumpDelta,
    /// Merge them into an empty trie.
    DirectMerge,
    /// Open the parent.
    OpenParent,
    /// Merge them into a copy of the parent.
    CopyAndMerge,
    /// With the records locked, take the announcement back.
    Commit { root: MerkleHash },
    /// Nothing: the snapshot is there.
    Done { root: MerkleHash },
    /// Nothing: the merge failed.
    Failed(MergeFailure),
}

/// Why a merge failed.
#[derive(Clone, Copy, Debug, PartialEq, Eq, Structural)]
pub enum MergeFailure {
    /// The announcement could not be made.
    Announce,
    /// The parent is not there.
    SnapshotNotFound,
    /// Something else was done in vain.
    Store,
}

/// What came of the last step.
#[derive(Clone, Copy, Debug)]
pub enum MergeEvent {
    /// It was done.
    Done,
    /// It was done and gave the root of the new trie.
    Merged(MerkleHash),
    /// There is no such snapshot.
    NotFound,
    /// It failed.
    Failed,
}

/// The event can come of the step.
pub open spec fn can_follow(stage: MergeStage, event: MergeEvent) -> bool {
    match (stage, event) {
        (MergeStage::Done { .. }, _) => false,
        (MergeStage::Failed(_), _) => false,
        (_, MergeEvent::Failed) => true,
        (MergeStage::OpenParent, MergeEvent::NotFound) => true,
        (MergeStage::DirectMerge, MergeEvent::Merged(_)) => true,
        (MergeStage::CopyAndMerge, MergeEvent::Merged(_)) => true,
        (MergeStage::DirectMerge, _) => false,
        (MergeStage::CopyAndMerge, _) => false,
        (_, MergeEvent::Done) => true,
        _ => false,
    }
}

/// The merge proper: without a parent into an empty trie, otherwise the parent is opened first.
pub open spec fn merge_stage(task: MergeTask) -> MergeStage {
    if task.old_snapshot_epoch_id == null_epoch() {
        MergeStage::DirectMerge
    } else {
        MergeStage::OpenParent
    }
}

/// What is to be done after a step.
pub open spec fn stage_after(task: MergeTask, stage: MergeStage, event: MergeEvent) -> MergeStage {
    match (stage, event) {
        (MergeStage::Announce, MergeEvent::Done) => if task.skip_dump {
            merge_stage(task)
        } else {
            MergeStage::DumpDelta
        },
        (MergeStage::Announce, _) => MergeStage::Failed(MergeFailure::Announce),
        (MergeStage::DumpDelta, MergeEvent::Done) => merge_stage(task),
        (MergeStage::OpenParent, MergeEvent::Done) => MergeStage::CopyAndMerge,
        (MergeStage::OpenParent, MergeEvent::NotFound) => MergeStage::Failed(
            MergeFailure::SnapshotNotFound,
        ),
        (MergeStage::DirectMerge, MergeEvent::Merged(root)) => MergeStage::Commit { root },
        (MergeStage::CopyAndMerge, MergeEvent::Merged(root)) => MergeStage::Commit { root },
        (MergeStage::Commit { root }, MergeEvent::Done) => MergeStage::Done { root },
        _ => MergeStage::Failed(MergeFailure::Store),
    }
}

fn first_merge_stage(task: &MergeTask) -> (r: MergeStage)
    ensures
        r == merge_stage(*task),
{
    if task.old_snapshot_epoch_id == null_epoch() {
        MergeStage::DirectMerge
    } else {
        MergeStage::OpenParent
    }
}

/// What is to be done after a step.
pub fn next_merge_stage(task: &MergeTask, stage: MergeStage, event: MergeEvent) -> (r: MergeStage)
    requires
        can_follow(stage, event),
    ensures
        r == stage_after(*task, stage, event),
{
    match (stage, event) {
        (MergeStage::Announce, MergeEvent::Done) => if task.skip_dump {
            first_merge_stage(task)
        } else {
            MergeStage::DumpDelta
        },
        (MergeStage::Announce, _) => MergeStage::Failed(MergeFailure::Announce),
        (MergeStage::DumpDelta, MergeEvent::Done) => first_merge_stage(task),
        (MergeStage::OpenParent, MergeEvent::Done) => MergeStage::CopyAndMerge,
        (MergeStage::OpenParent, MergeEvent::NotFound) => MergeStage::Failed(
            MergeFailure::SnapshotNotFound,
        ),
        (MergeStage::DirectMerge, MergeEvent::Merged(root)) => MergeStage::Commit { root },
        (MergeStage::CopyAndMerge, MergeEvent::Merged(root)) => MergeStage::Commit { root },
        (MergeStage::Commit { root }, MergeEvent::Done) => MergeStage::Done { root },
        _ => MergeStage::Failed(MergeFailure::Store),
    }
}

/// The marker that announces a merge.
pub open spec fn announcing_marker(task: MergeTask, started_at: u64) -> MarkerView {
    MarkerView {
        kind: MergeMarkerKind::Merge,
        started_at,
        context: task.old_snapshot_epoch_id@,
    }
}

/// The bytes read as the marker of the merge, begun at some time.
pub open spec fn is_announcement(task: MergeTask, bytes: Seq<u8>) -> bool {
    exists|started_at: u64|
        decoded_marker(bytes) == Ok::<_, MarkerError>(
            #[trigger] announcing_marker(task, started_at),
        )
}

/// What is put under the marker key of the snapshot to announce a merge.
pub fn announcement(task: &MergeTask, started_at: u64) -> (r: Vec<u8>)
    ensures
        r@ == encoded_marker(announcing_marker(*task, started_at)),
        is_announcement(*task, r@),
{
    let marker = MergeMarker::merge(&task.old_snapshot_epoch_id, started_at);
    let r = marker.encode();
    proof {
        assert(marker@ == announcing_marker(*task, started_at));
    }
    r
}

/// The marker that announces a snapshot which is received whole.
pub open spec fn full_sync_marker(merkle_root: MerkleHash, started_at: u64) -> MarkerView {
    MarkerView { kind: MergeMarkerKind::FullSync, started_at, context: merkle_root@ }
}

/// What is put under the marker key of a snapshot to announce that it is received whole, with an
/// expected root.
pub fn full_sync_announcement(merkle_root: &MerkleHash, started_at: u64) -> (r: Vec<u8>)
    ensures
        r@ == encoded_marker(full_sync_marker(*merkle_root, started_at)),
        decoded_marker(r@) == Ok::<MarkerView, MarkerError>(
            full_sync_marker(*merkle_root, started_at),
        ),
{
    let marker = MergeMarker::full_sync(merkle_root, started_at);
    let r = marker.encode();
    proof {
        assert(marker@ == full_sync_marker(*merkle_root, started_at));
    }
    r
}

/// The record of a snapshot in the making, with the root that its trie got.
pub fn stamp_root(info: SnapshotInfo, root: &MerkleHash) -> (r: SnapshotInfo)
    ensures
        r@.merkle_root == *root,
        r@.kept == info@.kept,
        r@.serve_one_step_sync == info@.serve_one_step_sync,
        r@.height == info@.height,
        r@.parent_height == info@.parent_height,
        r@.parent == info@.parent,
        r@.parts == info@.parts,
{
    let mut info = info;
    info.merkle_root = *root;
    info
}

/// Where a merge stands after some steps, and whether it is announced in the store.
pub open spec fn merge_run(task: MergeTask, events: Seq<MergeEvent>) -> (MergeStage, bool)
    decreases events.len(),
{
    if events.len() == 0 {
        (MergeStage::Announce, false)
    } else {
        let (stage, announced) = merge_run(task, events.drop_last());
        let event = events.last();
        let now = match (stage, event) {
            (MergeStage::Announce, MergeEvent::Done) => true,
            (MergeStage::Commit { .. }, MergeEvent::Done) => false,
            _ => announced,
        };
        (stage_after(task, stage, event), now)
    }
}

/// Each event can come of the step that it follows.
pub open spec fn is_merge_run(task: MergeTask, events: Seq<MergeEvent>) -> bool
    decreases events.len(),
{
    events.len() == 0 || (is_merge_run(task, events.drop_last()) && can_follow(
        merge_run(task, events.drop_last()).0,
        events.last(),
    ))
}

/// Whatever happens in a merge, data is written only while it is announced, so that a start of the
/// node finds what it left behind; once it is done it is announced no more; and where it failed
/// after the announcement, it stays announced.
pub proof fn merges_are_announced(task: MergeTask, events: Seq<MergeEvent>)
    requires
        is_merge_run(task, events),
    ensures
        match merge_run(task, events) {
            (MergeStage::Announce, announced) => !announced,
            (MergeStage::DumpDelta, announced) => announced && !task.skip_dump,
            (MergeStage::DirectMerge, announced) => announced && task.old_snapshot_epoch_id
                == null_epoch(),
            (MergeStage::OpenParent, announced) => announced && task.old_snapshot_epoch_id
                != null_epoch(),
            (MergeStage::CopyAndMerge, announced) => announced && task.old_snapshot_epoch_id
                != null_epoch(),
            (MergeStage::Commit { .. }, announced) => announced,
            (MergeStage::Done { .. }, announced) => !announced,
            (MergeStage::Failed(why), announced) => announced == (why != MergeFailure::Announce),
        },
    decreases events.len(),
{
    if events.len() > 0 {
        merges_are_announced(task, events.drop_last());
    }
}

/// A merge that is done went through its steps in their order, with one event each: the
/// announcement, the dump unless it was to be skipped, the opening of the parent where there is one,
/// the merge, and the commit. The root that it is done with is the one that the merge gave, be it
/// into an empty trie or into a copy of the parent; and wherever these events come, the merge is
/// done with that root.
pub proof fn merges_end_with_the_merged_root(
    task: MergeTask,
    events: Seq<MergeEvent>,
    root: MerkleHash,
)
    requires
        is_merge_run(task, events),
    ensures
        merge_run(task, events).0 == (MergeStage::Done { root }) <==> {
            let dump: int = if task.skip_dump {
                0
            } else {
                1
            };
            let open: int = if task.old_snapshot_epoch_id == null_epoch() {
                0
            } else {
                1
            };
            let merged = 1 + dump + open;
            &&& events.len() == merged + 2
            &&& events[merged] == MergeEvent::Merged(root)
            &&& forall|i: int|
                0 <= i < events.len() && i != merged ==> #[trigger] events[i] == MergeEvent::Done
        },
        merge_run(task, events).0 matches MergeStage::Done { root: found } ==> {
            &&& exists|i: int|
                0 <= i < events.len() && #[trigger] events[i] == MergeEvent::Merged(found)
            &&& forall|i: int|
                0 <= i < events.len() ==> ((#[trigger] events[i]) matches MergeEvent::Merged(given)
                    ==> given == found)
        },
{
    merge_reaches(task, events);
    let dump: int = if task.skip_dump {
        0
    } else {
        1
    };
    let open: int = if task.old_snapshot_epoch_id == null_epoch() {
        0
    } else {
        1
    };
    let merged = 1 + dump + open;
    if merge_run(task, events).0 is Done {
        let found = merge_run(task, events).0->Done_root;
        assert(events[merged] == MergeEvent::Merged(found));
    }
}

/// What a merge does at each step, as long as nothing fails: first it is announced; then the entries
/// of the delta trie are written, unless they are there; then they are merged, without a parent into
/// an empty trie, otherwise into a copy of the parent, which is opened before; and at last it is
/// committed.
pub proof fn merges_take_their_steps(task: MergeTask, events: Seq<MergeEvent>)
    requires
        is_merge_run(task, events),
        !(merge_run(task, events).0 is Failed),
    ensures
        ({
            let stage = merge_run(task, events).0;
            let n = events.len();
            let dumped = if task.skip_dump {
                1nat
            } else {
                2
            };
            if n == 0 {
                stage is Announce
            } else if n < dumped {
                stage is DumpDelta
            } else if task.old_snapshot_epoch_id == null_epoch() {
                if n == dumped {
                    stage is DirectMerge
                } else if n == dumped + 1 {
                    stage matches MergeStage::Commit { root } && events[n - 1]
                        == MergeEvent::Merged(root)
                } else {
                    n == dumped + 2 && (stage matches MergeStage::Done { root } && events[n - 2]
                        == MergeEvent::Merged(root))
                }
            } else {
                if n == dumped {
                    stage is OpenParent
                } else if n == dumped + 1 {
                    stage is CopyAndMerge
                } else if n == dumped + 2 {
                    stage matches MergeStage::Commit { root } && events[n - 1]
                        == MergeEvent::Merged(root)
                } else {
                    n == dumped + 3 && (stage matches MergeStage::Done { root } && events[n - 2]
                        == MergeEvent::Merged(root))
                }
            }
        }),
    decreases events.len(),
{
    if events.len() > 0 {
        let before = events.drop_last();
        merges_take_their_steps(task, before);
        assert forall|i: int| 0 <= i < before.len() implies before[i] == events[i] by {}
    }
}

/// A merge fails exactly if a step failed, or its parent was not there; and it tells which: the
/// announcement, the missing parent, or anything else.
pub proof fn merges_fail_where_a_step_fails(task: MergeTask, events: Seq<MergeEvent>)
    requires
        is_merge_run(task, events),
    ensures
        merge_run(task, events).0 is Failed <==> events.len() > 0 && (events.last()
            == MergeEvent::Failed || events.last() == MergeEvent::NotFound),
        merge_run(task, events).0 matches MergeStage::Failed(why) ==> why == (if events.last()
            == MergeEvent::NotFound {
            MergeFailure::SnapshotNotFound
        } else if events.len() == 1 {
            MergeFailure::Announce
        } else {
            MergeFailure::Store
        }),
        forall|i: int|
            0 <= i < events.len() - 1 ==> (#[trigger] events[i]) != MergeEvent::Failed && events[i]
                != MergeEvent::NotFound,
    decreases events.len(),
{
    if events.len() > 0 {
        let before = events.drop_last();
        merges_fail_where_a_step_fails(task, before);
        if before.len() > 0 {
            assert(before.last() == events[events.len() - 2]);
            if !(merge_run(task, before).0 is Failed) {
                merges_take_their_steps(task, before);
            }
        }
        assert forall|i: int| 0 <= i < events.len() - 1 implies (#[trigger] events[i])
            != MergeEvent::Failed && events[i] != MergeEvent::NotFound by {
            assert(before[i] == events[i]);
        }
    }
}

/// As long as a merge has neither failed nor come to its end, it can fail; what is not a merge into
/// a trie can be done, a merge into a trie can give any root, and the parent can be missing where it
/// is opened.
pub proof fn merges_can_go_on(task: MergeTask, events: Seq<MergeEvent>, root: MerkleHash)
    requires
        is_merge_run(task, events),
        !(merge_run(task, events).0 is Failed),
        !(merge_run(task, events).0 is Done),
    ensures
        ({
            let stage = merge_run(task, events).0;
            let merges = stage is DirectMerge || stage is CopyAndMerge;
            &&& is_merge_run(task, events.push(MergeEvent::Failed))
            &&& is_merge_run(task, events.push(MergeEvent::Merged(root))) <==> merges
            &&& is_merge_run(task, events.push(MergeEvent::Done)) <==> !merges
            &&& is_merge_run(task, events.push(MergeEvent::NotFound)) <==> stage is OpenParent
        }),
{
    assert(events.push(MergeEvent::Failed).drop_last() =~= events);
    assert(events.push(MergeEvent::Merged(root)).drop_last() =~= events);
    assert(events.push(MergeEvent::Done).drop_last() =~= events);
    assert(events.push(MergeEvent::NotFound).drop_last() =~= events);
}

proof fn merge_reaches(task: MergeTask, events: Seq<MergeEvent>)
    requires
        is_merge_run(task, events),
    ensures
        ({
            let dump: int = if task.skip_dump {
                0
            } else {
                1
            };
            let open: int = if task.old_snapshot_epoch_id == null_epoch() {
                0
            } else {
                1
            };
            let merged = 1 + dump + open;
            let stage = merge_run(task, events).0;
            &&& stage is Failed || (events.len() <= merged + 2 && forall|i: int|
                0 <= i < events.len() ==> if i == merged {
                    #[trigger] events[i] is Merged
                } else {
                    events[i] == MergeEvent::Done
                })
            &&& stage is Failed ==> exists|i: int|
                0 <= i < events.len() && ((#[trigger] events[i]) == MergeEvent::Failed || events[i]
                    == MergeEvent::NotFound)
            &&& !(stage is Failed) ==> if events.len() <= merged {
                !(stage is Done) && !(stage is Commit)
            } else if events.len() == merged + 1 {
                stage == (MergeStage::Commit { root: events[merged]->Merged_0 })
            } else {
                stage == (MergeStage::Done { root: events[merged]->Merged_0 })
            }
        }),
    decreases events.len(),
{
    merges_fail_where_a_step_fails(task, events);
    if merge_run(task, events).0 is Failed {
        assert(events[events.len() - 1] == events.last());
    } else {
        merges_take_their_steps(task, events);
        if events.len() > 0 {
            let before = events.drop_last();
            merge_reaches(task, before);
            merges_fail_where_a_step_fails(task, before);
            if !(merge_run(task, before).0 is Failed) {
                merges_take_their_steps(task, before);
            }
            assert forall|i: int| 0 <= i < before.len() implies before[i] == events[i] by {}
        }
    }
}

/// What a merge leaves behind.
pub struct MergeTrace {
    /// What stands under the marker key of the snapshot.
    pub marker: Option<Seq<u8>>,
    /// The known snapshots.
    pub known: Set<EpochId>,
    /// The latest snapshot and its height.
    pub latest: (EpochId, u64),
}

/// What a merge has left behind after some steps. It is announced by what is put under the marker
/// key; the commit deletes that, and from then on the snapshot is known, and the latest.
pub open spec fn left_by_merge(
    task: MergeTask,
    announcement: Seq<u8>,
    before: MergeTrace,
    events: Seq<MergeEvent>,
) -> MergeTrace
    decreases events.len(),
{
    if events.len() == 0 {
        before
    } else {
        let now = left_by_merge(task, announcement, before, events.drop_last());
        match (merge_run(task, events.drop_last()).0, events.last()) {
            (MergeStage::Announce, MergeEvent::Done) => MergeTrace {
                marker: Some(announcement),
                known: now.known,
                latest: now.latest,
            },
            (MergeStage::Commit { .. }, MergeEvent::Done) => MergeTrace {
                marker: None,
                known: now.known.insert(task.snapshot_epoch_id),
                latest: (task.snapshot_epoch_id, task.new_epoch_height),
            },
            _ => now,
        }
    }
}

/// While a merge is announced, and where it failed after that, its announcement stands under the
/// marker key, and it has changed nothing of which snapshots are known and which is the latest. Once
/// it is done, nothing stands there, and the snapshot is known and the latest.
pub proof fn merges_become_known_at_their_commit(
    task: MergeTask,
    announcement: Seq<u8>,
    before: MergeTrace,
    events: Seq<MergeEvent>,
)
    requires
        is_merge_run(task, events),
    ensures
        ({
            let left = left_by_merge(task, announcement, before, events);
            let (stage, announced) = merge_run(task, events);
            if announced {
                left.marker == Some(announcement) && left.known == before.known && left.latest
                    == before.latest
            } else if stage is Done {
                left == (MergeTrace {
                    marker: None,
                    known: before.known.insert(task.snapshot_epoch_id),
                    latest: (task.snapshot_epoch_id, task.new_epoch_height),
                })
            } else {
                left == before
            }
        }),
    decreases events.len(),
{
    merges_are_announced(task, events);
    if events.len() > 0 {
        merges_become_known_at_their_commit(task, announcement, before, events.drop_last());
        merges_are_announced(task, events.drop_last());
    }
}

} // verus!
