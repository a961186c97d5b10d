//! Making a snapshot in the background: whether to make it, what it records, and what its task
//! does when it is cancelled.

use crate::hash::{null_epoch, EpochId, MerkleHash, H256};
use crate::storage::snapshot_info::{
    SnapshotInfo, SnapshotInfoView, SnapshotKeptToProvideSyncStatus,
};
use vstd::prelude::*;

verus! {

/// Whether to make the snapshot of an epoch. It is made once, unless only its info is left. Where
/// the snapshot is there but its trie has to be recovered, it is made again on top of its data:
/// then the answer is `Some(true)`.
pub open spec fn making(
    in_progress: bool,
    record: Option<SnapshotInfoView>,
    recover_mpt: bool,
) -> Option<bool> {
    if in_progress {
        None
    } else {
        match record {
            None => Some(false),
            Some(info) => if info.kept == SnapshotKeptToProvideSyncStatus::InfoOnly {
                Some(false)
            } else if recover_mpt {
                Some(true)
            } else {
                None
            },
        }
    }
}

/// Whether to make the snapshot of an epoch, and whether that recovers the trie of one whose data
/// is there.
pub fn should_make_snapshot(
    in_progress: bool,
    record: Option<&SnapshotInfo>,
    recover_mpt_during_construct_main_state: bool,
) -> (r: Option<bool>)
    ensures
        r == making(
            in_progress,
            match record {
                Some(info) => Some(info@),
                None => None,
            },
            recover_mpt_during_construct_main_state,
        ),
{
    if in_progress {
        return None;
    }
    match record {
        None => Some(false),
        Some(info) => if info.snapshot_info_kept_to_provide_sync
            == SnapshotKeptToProvideSyncStatus::InfoOnly {
            Some(false)
        } else if recover_mpt_during_construct_main_state {
            Some(true)
        } else {
            None
        },
    }
}

/// The epochs of a snapshot from the lowest to its own, from the parents that were found on the
/// way down.
pub open spec fn chain_parts(epoch: EpochId, count: u32, parents: Seq<EpochId>) -> Seq<EpochId> {
    Seq::new(
        count as nat,
        |j: int|
            if j == count - 1 {
                epoch
            } else {
                parents[count - 2 - j]
            },
    )
}

/// The number of parents to look up. The first snapshot above genesis has the null epoch for its
/// parent, which takes no lookup.
pub open spec fn parents_needed(height: u64, count: u32) -> int {
    if height == count {
        count - 1
    } else {
        count as int
    }
}

/// What a snapshot in the making records.
pub open spec fn info_in_progress(
    height: u64,
    count: u32,
    parent: EpochId,
    parts: Seq<EpochId>,
) -> SnapshotInfoView {
    SnapshotInfoView {
        kept: SnapshotKeptToProvideSyncStatus::No,
        serve_one_step_sync: true,
        merkle_root: H256::zero(),
        height,
        parent_height: (height - count) as u64,
        parent,
        parts,
    }
}

/// Why the epochs of a snapshot could not be found.
#[derive(Clone, Copy, Debug, PartialEq, Eq, Structural)]
pub enum MainChainWalkError {
    /// The delta trie does not know the parent of one of its epochs.
    DbValueError,
}

/// The walk down the main chain from the epoch of a new snapshot to the parent snapshot. The walk
/// asks for the parent of one epoch after another.
#[derive(Debug)]
pub struct MainChainWalk {
    snapshot_epoch_id: EpochId,
    height: u64,
    snapshot_epoch_count: u32,
    parents: Vec<EpochId>,
}

impl MainChainWalk {
    /// The epoch that the walk starts at.
    pub closed spec fn start(&self) -> EpochId {
        self.snapshot_epoch_id
    }

    /// The height of the new snapshot.
    pub closed spec fn height(&self) -> u64 {
        self.height
    }

    /// The number of epochs between two snapshots.
    pub closed spec fn count(&self) -> u32 {
        self.snapshot_epoch_count
    }

    /// The parents found so far.
    pub closed spec fn parents(&self) -> Seq<EpochId> {
        self.parents@
    }

    /// The walk lies above its parent snapshot and has not asked too much.
    pub open spec fn wf(&self) -> bool {
        &&& self.count() > 0
        &&& self.height() >= self.count()
        &&& self.parents().len() <= parents_needed(self.height(), self.count())
    }

    /// The epoch whose parent is asked for, if any is left to ask.
    pub open spec fn asks(&self) -> Option<EpochId> {
        if self.parents().len() >= parents_needed(self.height(), self.count()) {
            None
        } else if self.parents().len() == 0 {
            Some(self.start())
        } else {
            Some(self.parents().last())
        }
    }

    /// Starts at the epoch of the new snapshot.
    pub fn new(snapshot_epoch_id: EpochId, height: u64, snapshot_epoch_count: u32) -> (r: Self)
        requires
            snapshot_epoch_count > 0,
            height >= snapshot_epoch_count,
        ensures
            r.wf(),
            r.start() == snapshot_epoch_id,
            r.height() == height,
            r.count() == snapshot_epoch_count,
            r.parents() == Seq::<EpochId>::empty(),
    {
        MainChainWalk { snapshot_epoch_id, height, snapshot_epoch_count, parents: Vec::new() }
    }

    /// The epoch whose parent is asked for, if any is left to ask.
    pub fn question(&self) -> (r: Option<EpochId>)
        requires
            self.wf(),
        ensures
            r == self.asks(),
    {
        let needed: u64 = if self.height == self.snapshot_epoch_count as u64 {
            self.snapshot_epoch_count as u64 - 1
        } else {
            self.snapshot_epoch_count as u64
        };
        let n: usize = self.parents.len();
        if n as u64 >= needed {
            None
        } else if n == 0 {
            Some(self.snapshot_epoch_id)
        } else {
            Some(self.parents[n - 1])
        }
    }

    /// Takes the parent of the epoch asked for. A missing parent inside the span of the snapshot
    /// is an error, and the walk stays where it is. The parent snapshot itself is always known.
    pub fn answer(&mut self, parent: Option<EpochId>) -> (r: Result<(), MainChainWalkError>)
        requires
            old(self).wf(),
            old(self).asks() is Some,
            parent is None ==> old(self).parents().len() < old(self).count() - 1,
        ensures
            final(self).wf(),
            final(self).start() == old(self).start(),
            final(self).height() == old(self).height(),
            final(self).count() == old(self).count(),
            match parent {
                Some(epoch) => r is Ok && final(self).parents() == old(self).parents().push(epoch),
                None => r == Err::<(), MainChainWalkError>(MainChainWalkError::DbValueError)
                    && final(self).parents() == old(self).parents(),
            },
    {
        match parent {
            Some(epoch) => {
                self.parents.push(epoch);
                Ok(())
            },
            None => Err(MainChainWalkError::DbValueError),
        }
    }

    /// The record of the snapshot, once nothing is left to ask.
    pub fn snapshot_info(&self) -> (r: SnapshotInfo)
        requires
            self.wf(),
            self.asks() is None,
        ensures
            r@ == info_in_progress(
                self.height(),
                self.count(),
                if self.height() == self.count() {
                    null_epoch()
                } else {
                    self.parents()[self.count() - 1]
                },
                chain_parts(self.start(), self.count(), self.parents()),
            ),
    {
        let count: usize = self.snapshot_epoch_count as usize;
        let parent: EpochId = if self.height == self.snapshot_epoch_count as u64 {
            null_epoch()
        } else {
            self.parents[count - 1]
        };
        let mut parts: Vec<EpochId> = Vec::new();
        let mut j: usize = 0;
        while j + 1 < count
            invariant
                count == self.snapshot_epoch_count,
                count > 0,
                j + 1 <= count,
                self.parents@.len() >= count - 1,
                parts.len() == j,
                forall|i: int| 0 <= i < j ==> parts[i] == self.parents[count - 2 - i],
            decreases count - j,
        {
            parts.push(self.parents[count - 2 - j]);
            j = j + 1;
        }
        parts.push(self.snapshot_epoch_id);
        proof {
            assert(parts@ =~= chain_parts(self.start(), self.count(), self.parents()));
        }
        SnapshotInfo {
            snapshot_info_kept_to_provide_sync: SnapshotKeptToProvideSyncStatus::No,
            serve_one_step_sync: true,
            merkle_root: H256::zero(),
            height: self.height,
            parent_snapshot_height: self.height - self.snapshot_epoch_count as u64,
            parent_snapshot_epoch_id: parent,
            main_chain_parts: parts,
        }
    }
}

/// The epochs of a snapshot without a delta trie below it: only its own is known.
pub open spec fn lone_parts(epoch: EpochId, count: u32) -> Seq<EpochId> {
    Seq::new(
        count as nat,
        |j: int|
            if j == count - 1 {
                epoch
            } else {
                H256::zero()
            },
    )
}

/// The record of a snapshot that has no delta trie below it. Its parent is the null epoch.
pub fn snapshot_info_without_delta(
    snapshot_epoch_id: EpochId,
    height: u64,
    snapshot_epoch_count: u32,
) -> (r: SnapshotInfo)
    requires
        snapshot_epoch_count > 0,
        height >= snapshot_epoch_count,
    ensures
        r@ == info_in_progress(
            height,
            snapshot_epoch_count,
            null_epoch(),
            lone_parts(snapshot_epoch_id, snapshot_epoch_count),
        ),
{
    let count: usize = snapshot_epoch_count as usize;
    let mut parts: Vec<EpochId> = Vec::new();
    let mut j: usize = 0;
    while j + 1 < count
        invariant
            count > 0,
            j + 1 <= count,
            parts.len() == j,
            forall|i: int| 0 <= i < j ==> parts[i] == H256::zero(),
        decreases count - j,
    {
        parts.push(H256::zero());
        j = j + 1;
    }
    parts.push(snapshot_epoch_id);
    proof {
        assert(parts@ =~= lone_parts(snapshot_epoch_id, snapshot_epoch_count));
    }
    SnapshotInfo {
        snapshot_info_kept_to_provide_sync: SnapshotKeptToProvideSyncStatus::No,
        serve_one_step_sync: true,
        merkle_root: H256::zero(),
        height,
        parent_snapshot_height: height - snapshot_epoch_count as u64,
        parent_snapshot_epoch_id: null_epoch(),
        main_chain_parts: parts,
    }
}

/// A snapshot in the making is taken at the epoch that it was asked for, spans the heights from its
/// parent to itself, and names the epoch at each of them.
pub proof fn snapshot_in_progress_spans_its_epochs(
    epoch: EpochId,
    height: u64,
    count: u32,
    parent: EpochId,
    parents: Seq<EpochId>,
)
    requires
        count > 0,
        height >= count,
        parents.len() >= count - 1,
    ensures
        ({
            let info = info_in_progress(height, count, parent, chain_parts(epoch, count, parents));
            &&& info.wf()
            &&& info.epoch() == epoch
            &&& info.epoch_at(height) == Some(epoch)
            &&& info.epoch_at((height - count) as u64) == Some(parent)
            &&& forall|d: int|
                1 <= d < count ==> #[trigger] info.epoch_at((height - d) as u64) == Some(
                    parents[d - 1],
                )
        }),
{
    let info = info_in_progress(height, count, parent, chain_parts(epoch, count, parents));
    assert forall|d: int| 1 <= d < count implies #[trigger] info.epoch_at((height - d) as u64)
        == Some(parents[d - 1]) by {
        assert(info.parts[count - d - 1] == parents[d - 1]);
    }
}

/// What happens to a snapshot task.
#[derive(Clone, Copy, Debug, PartialEq, Eq, Structural)]
pub enum SnapshotTaskEvent {
    /// The task runs; it was or was not cancelled meanwhile.
    Started { cancelled: bool },
    /// The snapshot is merged; the task was or was not cancelled meanwhile.
    Merged { cancelled: bool },
    /// The snapshot was or was not registered.
    Registered { accepted: bool },
}

/// What a snapshot task does next.
#[derive(Clone, Copy, Debug, PartialEq, Eq, Structural)]
pub enum SnapshotTaskAction {
    /// End as cancelled, with nothing done.
    Stop,
    /// Merge the delta trie into a new snapshot.
    Merge,
    /// Destroy the new snapshot and end as cancelled.
    Discard,
    /// Register the new snapshot.
    Register,
    /// Tell the joiner that the snapshot is there, and check it where that is configured.
    Announce,
    /// End with the error of the registration.
    Fail,
}

/// What a snapshot task does upon an event.
pub open spec fn task_action(event: SnapshotTaskEvent) -> SnapshotTaskAction {
    match event {
        SnapshotTaskEvent::Started { cancelled } => if cancelled {
            SnapshotTaskAction::Stop
        } else {
            SnapshotTaskAction::Merge
        },
        SnapshotTaskEvent::Merged { cancelled } => if cancelled {
            SnapshotTaskAction::Discard
        } else {
            SnapshotTaskAction::Register
        },
        SnapshotTaskEvent::Registered { accepted } => if accepted {
            SnapshotTaskAction::Announce
        } else {
            SnapshotTaskAction::Fail
        },
    }
}

/// What a snapshot task does upon an event.
pub fn snapshot_task_step(event: SnapshotTaskEvent) -> (r: SnapshotTaskAction)
    ensures
        r == task_action(event),
{
    match event {
        SnapshotTaskEvent::Started { cancelled } => if cancelled {
            SnapshotTaskAction::Stop
        } else {
            SnapshotTaskAction::Merge
        },
        SnapshotTaskEvent::Merged { cancelled } => if cancelled {
            SnapshotTaskAction::Discard
        } else {
            SnapshotTaskAction::Register
        },
        SnapshotTaskEvent::Registered { accepted } => if accepted {
            SnapshotTaskAction::Announce
        } else {
            SnapshotTaskAction::Fail
        },
    }
}

/// How a snapshot task ends.
#[derive(Clone, Copy, Debug, PartialEq, Eq, Structural)]
pub enum SnapshotTaskEnd {
    /// The snapshot is there.
    Done,
    /// The task was cancelled, which is no failure.
    Cancelled,
    /// The snapshot was not registered.
    Failed,
}

/// How a snapshot task ends with an action; none where it goes on after it.
pub open spec fn task_end(action: SnapshotTaskAction) -> Option<SnapshotTaskEnd> {
    match action {
        SnapshotTaskAction::Stop => Some(SnapshotTaskEnd::Cancelled),
        SnapshotTaskAction::Merge => None,
        SnapshotTaskAction::Discard => Some(SnapshotTaskEnd::Cancelled),
        SnapshotTaskAction::Register => None,
        SnapshotTaskAction::Announce => Some(SnapshotTaskEnd::Done),
        SnapshotTaskAction::Fail => Some(SnapshotTaskEnd::Failed),
    }
}

/// How a snapshot task ends with an action, if it does.
pub fn snapshot_task_end(action: SnapshotTaskAction) -> (r: Option<SnapshotTaskEnd>)
    ensures
        r == task_end(action),
{
    match action {
        SnapshotTaskAction::Stop => Some(SnapshotTaskEnd::Cancelled),
        SnapshotTaskAction::Merge => None,
        SnapshotTaskAction::Discard => Some(SnapshotTaskEnd::Cancelled),
        SnapshotTaskAction::Register => None,
        SnapshotTaskAction::Announce => Some(SnapshotTaskEnd::Done),
        SnapshotTaskAction::Fail => Some(SnapshotTaskEnd::Failed),
    }
}

/// A cancelled task neither merges nor registers, and ends as cancelled: the snapshot of a fork is
/// never registered once its task is cancelled. No other task ends so.
pub proof fn cancelled_tasks_never_register(event: SnapshotTaskEvent)
    ensures
        event == (SnapshotTaskEvent::Started { cancelled: true }) || event == (
        SnapshotTaskEvent::Merged { cancelled: true }) <==> task_end(task_action(event)) == Some(
            SnapshotTaskEnd::Cancelled,
        ),
{
}

/// The first byte of the keys that one of several checkers begins with.
pub open spec fn checker_begin(checkers: u16, checker: int) -> int {
    256int / (checkers as int) * checker
}

/// The range of first bytes of the keys that one of several checkers looks at; without an upper
/// end where the range goes up to the last byte.
pub fn checker_range(checkers: u16, checker: u16) -> (r: (u8, Option<u8>))
    requires
        checker < checkers,
    ensures
        r.0 == checker_begin(checkers, checker as int),
        r.1 == (if checker_begin(checkers, checker + 1) == 256 {
            None
        } else {
            Some(checker_begin(checkers, checker + 1) as u8)
        }),
{
    let width: u16 = 256 / checkers;
    proof {
        checker_ranges_stay_in_bytes(checkers, checker as int);
    }
    let begin_range: u16 = width * checker;
    let end_range: u16 = width * (checker + 1);
    let end_range_excl: Option<u8> = if end_range != 256 {
        Some(end_range as u8)
    } else {
        None
    };
    (begin_range as u8, end_range_excl)
}

/// The ranges of the checkers lie within the bytes, and each begins where the one before it ends.
pub proof fn checker_ranges_stay_in_bytes(checkers: u16, checker: int)
    requires
        0 <= checker < checkers,
    ensures
        0 <= checker_begin(checkers, checker) <= 255,
        checker_begin(checkers, checker) <= checker_begin(checkers, checker + 1) <= 256,
{
    let n = checkers as int;
    let w = 256int / n;
    assert(w * n <= 256) by {
        vstd::arithmetic::div_mod::lemma_fundamental_div_mod(256, n);
        assert(n * w == w * n) by (nonlinear_arith);
    }
    assert(0 <= w) by {
        vstd::arithmetic::div_mod::lemma_div_pos_is_pos(256, n);
    }
    assert(w * checker + w == w * (checker + 1)) by (nonlinear_arith);
    assert(w * (checker + 1) <= w * n) by (nonlinear_arith)
        requires
            0 <= w,
            checker + 1 <= n,
    ;
    assert(0 <= w * checker) by (nonlinear_arith)
        requires
            0 <= w,
            0 <= checker,
    ;
    if w == 0 {
        assert(w * checker == 0) by (nonlinear_arith)
            requires
                w == 0,
        ;
    }
}

/// How far the wait for a snapshot has come: what is to be done next.
#[derive(Clone, Copy, Debug, PartialEq, Eq, Structural)]
pub enum WaitForSnapshot {
    /// Open the snapshot.
    Open,
    /// Look for a task that makes it.
    FindTask,
    /// Wait for the task to end.
    JoinTask,
    /// Open the snapshot that the task has made.
    OpenAgain,
    /// Nothing: it is open.
    Found,
    /// Nothing: there is none.
    NotFound,
    /// Nothing: the last step failed, and its error is handed on.
    Failed,
}

/// What came of the last step.
#[derive(Clone, Copy, Debug, PartialEq, Eq, Structural)]
pub enum WaitEvent {
    /// The snapshot or the task is there; a task that is waited for has ended well, or was waited
    /// for before.
    Done,
    /// There is no such snapshot or task.
    Absent,
    /// It failed.
    Failed,
}

/// What is to be done after a step.
pub open spec fn wait_after(stage: WaitForSnapshot, event: WaitEvent) -> WaitForSnapshot {
    match (stage, event) {
        (WaitForSnapshot::Found, _) => WaitForSnapshot::Found,
        (WaitForSnapshot::NotFound, _) => WaitForSnapshot::NotFound,
        (WaitForSnapshot::Failed, _) => WaitForSnapshot::Failed,
        (_, WaitEvent::Failed) => WaitForSnapshot::Failed,
        (WaitForSnapshot::Open, WaitEvent::Done) => WaitForSnapshot::Found,
        (WaitForSnapshot::Open, WaitEvent::Absent) => WaitForSnapshot::FindTask,
        (WaitForSnapshot::FindTask, WaitEvent::Done) => WaitForSnapshot::JoinTask,
        (WaitForSnapshot::FindTask, WaitEvent::Absent) => WaitForSnapshot::NotFound,
        (WaitForSnapshot::JoinTask, _) => WaitForSnapshot::OpenAgain,
        (WaitForSnapshot::OpenAgain, WaitEvent::Done) => WaitForSnapshot::Found,
        (WaitForSnapshot::OpenAgain, WaitEvent::Absent) => WaitForSnapshot::NotFound,
    }
}

/// How the wait for a snapshot goes on: the snapshot is opened; where there is none, a task that
/// makes it is waited for, and it is opened once more.
pub fn wait_for_snapshot(stage: WaitForSnapshot, event: WaitEvent) -> (r: WaitForSnapshot)
    ensures
        r == wait_after(stage, event),
{
    match (stage, event) {
        (WaitForSnapshot::Found, _) => WaitForSnapshot::Found,
        (WaitForSnapshot::NotFound, _) => WaitForSnapshot::NotFound,
        (WaitForSnapshot::Failed, _) => WaitForSnapshot::Failed,
        (_, WaitEvent::Failed) => WaitForSnapshot::Failed,
        (WaitForSnapshot::Open, WaitEvent::Done) => WaitForSnapshot::Found,
        (WaitForSnapshot::Open, WaitEvent::Absent) => WaitForSnapshot::FindTask,
        (WaitForSnapshot::FindTask, WaitEvent::Done) => WaitForSnapshot::JoinTask,
        (WaitForSnapshot::FindTask, WaitEvent::Absent) => WaitForSnapshot::NotFound,
        (WaitForSnapshot::JoinTask, _) => WaitForSnapshot::OpenAgain,
        (WaitForSnapshot::OpenAgain, WaitEvent::Done) => WaitForSnapshot::Found,
        (WaitForSnapshot::OpenAgain, WaitEvent::Absent) => WaitForSnapshot::NotFound,
    }
}

/// The stage of a wait after a sequence of events.
pub open spec fn wait_run(events: Seq<WaitEvent>) -> WaitForSnapshot
    decreases events.len(),
{
    if events.len() == 0 {
        WaitForSnapshot::Open
    } else {
        wait_after(wait_run(events.drop_last()), events.last())
    }
}

/// A wait is over after four steps. A snapshot is given up only after a second look, unless no task
/// makes it.
pub proof fn waits_end(events: Seq<WaitEvent>)
    ensures
        events.len() >= 4 ==> wait_run(events) == WaitForSnapshot::Found || wait_run(events)
            == WaitForSnapshot::NotFound || wait_run(events) == WaitForSnapshot::Failed,
        wait_run(events) == WaitForSnapshot::NotFound ==> events.len() >= 2 && events[0]
            == WaitEvent::Absent && (events[1] == WaitEvent::Absent || (events.len() >= 4
            && events[1] == WaitEvent::Done && events[3] == WaitEvent::Absent)),
    decreases events.len(),
{
    reveal_with_fuel(wait_run, 5);
    if events.len() > 4 {
        waits_end(events.drop_last());
    } else if events.len() == 4 {
        assert(events.drop_last().drop_last().drop_last().drop_last() =~= Seq::empty());
    }
}

/// The root that a snapshot gets where there is no delta trie to merge.
pub fn merged_root(merged: Option<MerkleHash>) -> (r: MerkleHash)
    ensures
        r == (match merged {
            Some(root) => root,
            None => crate::hash::merkle_null_node(),
        }),
{
    match merged {
        Some(root) => root,
        None => crate::hash::merkle_null_node(),
    }
}

/// A snapshot is made exactly if no task makes it yet, and it has no data or its trie has to be made
/// again. Only where it has data is it made on top of that.
pub proof fn snapshots_are_made_once(
    in_progress: bool,
    record: Option<SnapshotInfoView>,
    recover_mpt: bool,
)
    ensures
        ({
            let has_data = record is Some && record->0.kept
                != SnapshotKeptToProvideSyncStatus::InfoOnly;
            &&& making(in_progress, record, recover_mpt) is Some <==> !in_progress && (!has_data
                || recover_mpt)
            &&& making(in_progress, record, recover_mpt) matches Some(on_top) ==> on_top == has_data
        }),
{
}

/// A snapshot in the making records its height, its parent's, and its epochs from the one above its
/// parent up to its own, each the parent of the next. It is not kept for sync yet, its root is not
/// known, and it serves one step of sync.
pub proof fn snapshots_in_the_making_are_linked(
    epoch: EpochId,
    height: u64,
    count: u32,
    parent: EpochId,
    parents: Seq<EpochId>,
    parent_of: spec_fn(EpochId) -> EpochId,
)
    requires
        0 < count <= height,
        parents.len() >= count - 1,
        parents.len() > 0 ==> parents[0] == parent_of(epoch),
        forall|i: int, j: int|
            0 <= i && j == i + 1 && j < parents.len() ==> #[trigger] parents[j] == parent_of(
                #[trigger] parents[i],
            ),
    ensures
        ({
            let info = info_in_progress(height, count, parent, chain_parts(epoch, count, parents));
            &&& info.height == height
            &&& info.parent_height + count == height
            &&& info.parent == parent
            &&& info.kept == SnapshotKeptToProvideSyncStatus::No
            &&& info.serve_one_step_sync
            &&& info.merkle_root == H256::zero()
            &&& info.parts.len() == count
            &&& info.parts[count - 1] == epoch
            &&& forall|i: int, j: int|
                0 <= i && j == i + 1 && j < count ==> #[trigger] info.parts[i] == parent_of(
                    #[trigger] info.parts[j],
                )
            &&& parents.len() >= count ==> parents[count - 1] == parent_of(info.parts[0])
        }),
{
    let parts = chain_parts(epoch, count, parents);
    assert forall|i: int, j: int| 0 <= i && j == i + 1 && j < count implies #[trigger] parts[i]
        == parent_of(#[trigger] parts[j]) by {
        if j == count - 1 {
            assert(parts[i] == parents[0]);
        } else {
            let a = count - 2 - j;
            let b = count - 2 - i;
            assert(parts[j] == parents[a]);
            assert(parts[i] == parents[b]);
            assert(b == a + 1);
        }
    }
    if parents.len() >= count {
        if count == 1 {
            assert(parts[0] == epoch);
        } else {
            let a = count - 2;
            let b = count - 1;
            assert(parts[0] == parents[a]);
            assert(b == a + 1);
        }
    }
}

/// A walk asks for one parent after another, each time for that of the last one found, until it has
/// those of all its epochs; below the lowest of them it asks once more, except in the first span
/// above genesis.
pub proof fn walks_ask_for_every_parent(walk: MainChainWalk)
    requires
        walk.wf(),
    ensures
        walk.asks() is None <==> walk.parents().len() + (if walk.height() == walk.count() {
            1int
        } else {
            0
        }) == walk.count(),
        walk.asks() is Some && walk.parents().len() == 0 ==> walk.asks() == Some(walk.start()),
        walk.asks() is Some && walk.parents().len() > 0 ==> walk.asks() == Some(
            walk.parents()[walk.parents().len() - 1],
        ),
{
}

/// Of a snapshot without a delta trie only its own epoch is known: the others are zero.
pub proof fn lone_snapshots_know_their_own_epoch(epoch: EpochId, count: u32)
    requires
        count > 0,
    ensures
        lone_parts(epoch, count).len() == count,
        lone_parts(epoch, count)[count - 1] == epoch,
        forall|i: int| 0 <= i < count - 1 ==> #[trigger] lone_parts(epoch, count)[i] == H256::zero(),
{
}

/// A task merges unless it was cancelled before, registers what it has merged unless it was
/// cancelled meanwhile, and ends well exactly if the snapshot was accepted. What was merged by a
/// task that was cancelled meanwhile is destroyed.
pub proof fn tasks_end_as_they_went(first: bool, second: bool, accepted: bool)
    ensures
        ({
            let started = task_action(SnapshotTaskEvent::Started { cancelled: first });
            let merged = task_action(SnapshotTaskEvent::Merged { cancelled: second });
            let registered = task_action(SnapshotTaskEvent::Registered { accepted });
            &&& started == SnapshotTaskAction::Merge <==> !first
            &&& started == SnapshotTaskAction::Stop <==> first
            &&& merged == SnapshotTaskAction::Register <==> !second
            &&& merged == SnapshotTaskAction::Discard <==> second
            &&& registered == SnapshotTaskAction::Announce <==> accepted
            &&& registered == SnapshotTaskAction::Fail <==> !accepted
            &&& task_end(started) is None <==> !first
            &&& task_end(merged) is None <==> !second
            &&& task_end(registered) == Some(SnapshotTaskEnd::Done) <==> accepted
            &&& task_end(registered) == Some(SnapshotTaskEnd::Failed) <==> !accepted
        }),
{
}

/// The ranges of the checkers begin at zero, are equally wide, and each begins where the one before
/// it ends. Where the checkers divide the bytes evenly, they take up all of them.
pub proof fn checker_ranges_adjoin(checkers: u16, checker: int)
    requires
        0 <= checker < checkers,
    ensures
        checker_begin(checkers, 0) == 0,
        checker_begin(checkers, checker + 1) - checker_begin(checkers, checker) == 256int / (
        checkers as int),
        256int % (checkers as int) == 0 ==> checker_begin(checkers, checkers as int) == 256,
{
    let n = checkers as int;
    let w = 256int / n;
    assert(w * (checker + 1) - w * checker == w) by (nonlinear_arith);
    assert(w * 0 == 0) by (nonlinear_arith);
    vstd::arithmetic::div_mod::lemma_fundamental_div_mod(256, n);
    assert(n * w == w * n) by (nonlinear_arith);
}

/// How the wait for a snapshot ends. It is found exactly if it is there at once, or a task makes it,
/// the wait for which does not fail, and it is there then. The wait fails with the first step that
/// does.
pub proof fn waits_find_what_is_made(a: WaitEvent, b: WaitEvent, c: WaitEvent, d: WaitEvent)
    ensures
        ({
            let failed = WaitEvent::Failed;
            let there = a == WaitEvent::Done;
            let made = a == WaitEvent::Absent && b == WaitEvent::Done && c != failed && d
                == WaitEvent::Done;
            let lost = a == failed || (a == WaitEvent::Absent && (b == failed || (b
                == WaitEvent::Done && (c == failed || d == failed))));
            let end = wait_run(seq![a, b, c, d]);
            &&& end == WaitForSnapshot::Found <==> there || made
            &&& end == WaitForSnapshot::Failed <==> lost
            &&& end == WaitForSnapshot::NotFound <==> !there && !made && !lost
            &&& wait_run(seq![a]) == WaitForSnapshot::Found <==> there
            &&& wait_run(seq![a]) == WaitForSnapshot::FindTask <==> a == WaitEvent::Absent
            &&& wait_run(seq![a, b]) == WaitForSnapshot::JoinTask <==> a == WaitEvent::Absent && b
                == WaitEvent::Done
            &&& wait_run(seq![a, b, c]) == WaitForSnapshot::OpenAgain <==> a == WaitEvent::Absent
                && b == WaitEvent::Done && c != failed
        }),
{
    reveal_with_fuel(wait_run, 5);
    assert(seq![a, b, c, d].drop_last() =~= seq![a, b, c]);
    assert(seq![a, b, c].drop_last() =~= seq![a, b]);
    assert(seq![a, b].drop_last() =~= seq![a]);
    assert(seq![a].drop_last() =~= Seq::<WaitEvent>::empty());
}

} // verus!
