//! Finding the tries that make up the state of an epoch.
//!
//! A state is a snapshot, an intermediate trie on top of it and a delta trie on top of that. The
//! search asks the storage one question after another; what it asks and what it concludes depends
//! on the answers. The functions here decide, and the caller looks things up.

use crate::hash::{merkle_null_node, null_epoch, EpochId, MerkleHash, H256};
use crate::storage::storage_manager::registry::DeltaMptId;
use vstd::prelude::*;

verus! {

/// The bytes that keys of a delta trie are padded with.
pub type DeltaMptKeyPadding = H256;

/// The number under which a node of a delta trie is kept.
pub type NodeRefDeltaMpt = u64;

/// Where the key padding of the delta trie comes from.
#[derive(Clone, Copy, Debug)]
pub enum DeltaKeyPadding {
    /// It is known.
    Given(DeltaMptKeyPadding),
    /// It is computed from the roots below the delta trie.
    OfRoots { snapshot_merkle_root: MerkleHash, intermediate_trie_root_merkle: MerkleHash },
}

/// What is known of the state of an epoch.
#[derive(Clone, Copy, Debug)]
pub struct StateIndex {
    pub snapshot_epoch_id: EpochId,
    pub snapshot_merkle_root: MerkleHash,
    pub intermediate_epoch_id: EpochId,
    pub intermediate_trie_root_merkle: MerkleHash,
    pub maybe_intermediate_mpt_key_padding: Option<DeltaMptKeyPadding>,
    pub epoch_id: EpochId,
    pub delta_mpt_key_padding: DeltaMptKeyPadding,
    pub maybe_delta_trie_height: Option<u32>,
    pub maybe_height: Option<u64>,
}

/// The tries that make up a state.
#[derive(Clone, Copy, Debug)]
pub struct StateTrees {
    /// The epoch of the snapshot that is read. It is that of the intermediate epoch where the
    /// snapshot below is not available.
    pub snapshot_db: EpochId,
    pub snapshot_epoch_id: EpochId,
    pub snapshot_merkle_root: MerkleHash,
    /// `None` where the intermediate trie is empty, or its snapshot is read directly.
    pub maybe_intermediate_trie: Option<DeltaMptId>,
    pub intermediate_trie_root: Option<NodeRefDeltaMpt>,
    pub intermediate_trie_root_merkle: MerkleHash,
    /// `None` where the snapshot of the intermediate epoch is read.
    pub maybe_intermediate_trie_key_padding: Option<DeltaMptKeyPadding>,
    pub delta_trie: DeltaMptId,
    pub delta_trie_root: Option<NodeRefDeltaMpt>,
    pub delta_trie_key_padding: DeltaKeyPadding,
    pub maybe_delta_trie_height: Option<u32>,
    pub maybe_height: Option<u64>,
    pub intermediate_epoch_id: EpochId,
    pub parent_epoch_id: EpochId,
}

/// A question to the storage.
#[derive(Clone, Copy, Debug)]
pub enum StateTreesQuery {
    /// Wait for the snapshot of an epoch and open it: was it there?
    WaitForSnapshot(EpochId),
    /// The Merkle root of the snapshot of an epoch.
    SnapshotMerkleRoot(EpochId),
    /// The intermediate trie of a snapshot.
    IntermediateMpt(EpochId),
    /// The delta trie of a snapshot, made where it is not there.
    DeltaMpt(EpochId),
    /// Take the root of the intermediate trie that was noted at startup.
    TakeIntermediateTrieRootMerkle,
    /// The Merkle root of a trie at an epoch.
    MerkleRootByEpoch(DeltaMptId, EpochId),
    /// The root node of a trie at an epoch; an empty trie has none.
    RootNodeByEpoch(DeltaMptId, EpochId),
}

/// An answer of the storage.
#[derive(Clone, Copy, Debug)]
pub enum StateTreesReply {
    Snapshot(bool),
    MerkleRoot(Option<MerkleHash>),
    Mpt(Option<DeltaMptId>),
    RootNode(Option<Option<NodeRefDeltaMpt>>),
}

/// Where the search stands.
#[derive(Clone, Copy, Debug)]
pub enum SearchStage {
    /// The delta trie of the parent is full: its intermediate epoch becomes the snapshot.
    Shift,
    /// That snapshot is not there; the one of the parent itself may be, after a sync.
    ShiftSynced,
    ShiftSyncedRoot,
    /// The root of the intermediate trie has to be the one noted at startup.
    SyncedTrieRoot { snapshot_root: MerkleHash },
    SyncedMpt { snapshot_root: MerkleHash, trie_root: MerkleHash },
    /// The snapshot is there.
    ShiftRoot,
    ShiftIntermediate { snapshot_root: MerkleHash },
    ShiftTrieRoot { snapshot_root: MerkleHash, mpt: DeltaMptId },
    ShiftDelta {
        snapshot_root: MerkleHash,
        intermediate: Option<DeltaMptId>,
        trie_root: MerkleHash,
    },
    /// The intermediate trie does not know the parent; the synced snapshot may help.
    FallbackSynced { snapshot_root: MerkleHash },
    /// The delta trie is not full: the snapshot stays.
    Stay,
    /// The snapshot is not there; that of the intermediate epoch may be.
    StaySynced,
    StaySyncedMpt,
    StayIntermediate,
    StayDelta { intermediate: Option<DeltaMptId> },
    /// Everything but the root nodes is known.
    DeltaRoot { trees: StateTrees },
    IntermediateRoot { trees: StateTrees, mpt: DeltaMptId },
    /// The search is over; `None` where the state is not available.
    Done(Option<StateTrees>),
    /// An answer did not fit its question.
    Mismatch,
}

/// `height + 1`, where it is known.
pub open spec fn next_height(height: Option<u64>) -> Option<u64> {
    match height {
        Some(h) => Some((h + 1) as u64),
        None => None,
    }
}

/// `height + 1`, where it is known.
pub open spec fn next_delta_height(height: Option<u32>) -> Option<u32> {
    match height {
        Some(h) => Some((h + 1) as u32),
        None => None,
    }
}

/// The delta trie of the state is full, so that the state after it starts a new one. A state
/// without a delta height counts as height zero.
pub open spec fn is_full(index: StateIndex, snapshot_epoch_count: u32) -> bool {
    (match index.maybe_delta_trie_height {
        Some(h) => h,
        None => 0,
    }) == snapshot_epoch_count
}

/// The trees of a state whose parent's delta trie was full, but for the root node of the
/// intermediate trie.
pub open spec fn shifted_trees(
    index: StateIndex,
    snapshot_db: EpochId,
    snapshot_root: MerkleHash,
    intermediate: Option<DeltaMptId>,
    padding: Option<DeltaMptKeyPadding>,
    trie_root: MerkleHash,
    delta: DeltaMptId,
) -> StateTrees {
    StateTrees {
        snapshot_db,
        snapshot_epoch_id: index.intermediate_epoch_id,
        snapshot_merkle_root: snapshot_root,
        maybe_intermediate_trie: intermediate,
        intermediate_trie_root: None,
        intermediate_trie_root_merkle: trie_root,
        maybe_intermediate_trie_key_padding: padding,
        delta_trie: delta,
        delta_trie_root: None,
        delta_trie_key_padding: DeltaKeyPadding::OfRoots {
            snapshot_merkle_root: snapshot_root,
            intermediate_trie_root_merkle: trie_root,
        },
        maybe_delta_trie_height: Some(1),
        maybe_height: next_height(index.maybe_height),
        intermediate_epoch_id: index.epoch_id,
        parent_epoch_id: index.epoch_id,
    }
}

/// The trees of a state on the same snapshot as the index, but for the root nodes.
pub open spec fn staying_trees(
    index: StateIndex,
    advance: bool,
    snapshot_db: EpochId,
    intermediate: Option<DeltaMptId>,
    padding: Option<DeltaMptKeyPadding>,
    delta: DeltaMptId,
) -> StateTrees {
    StateTrees {
        snapshot_db,
        snapshot_epoch_id: index.snapshot_epoch_id,
        snapshot_merkle_root: index.snapshot_merkle_root,
        maybe_intermediate_trie: intermediate,
        intermediate_trie_root: None,
        intermediate_trie_root_merkle: index.intermediate_trie_root_merkle,
        maybe_intermediate_trie_key_padding: padding,
        delta_trie: delta,
        delta_trie_root: None,
        delta_trie_key_padding: DeltaKeyPadding::Given(index.delta_mpt_key_padding),
        maybe_delta_trie_height: if advance {
            next_delta_height(index.maybe_delta_trie_height)
        } else {
            index.maybe_delta_trie_height
        },
        maybe_height: if advance {
            next_height(index.maybe_height)
        } else {
            index.maybe_height
        },
        intermediate_epoch_id: index.intermediate_epoch_id,
        parent_epoch_id: index.epoch_id,
    }
}

/// What is left once the root of the delta trie is known: the root of the intermediate trie.
pub open spec fn then_intermediate_root(trees: StateTrees) -> SearchStage {
    match trees.maybe_intermediate_trie {
        Some(mpt) => SearchStage::IntermediateRoot { trees, mpt },
        None => SearchStage::Done(Some(trees)),
    }
}

/// The question that a stage asks; a search that is over asks nothing.
pub open spec fn query_of(index: StateIndex, stage: SearchStage) -> Option<StateTreesQuery> {
    match stage {
        SearchStage::Shift => Some(StateTreesQuery::WaitForSnapshot(index.intermediate_epoch_id)),
        SearchStage::ShiftSynced => Some(StateTreesQuery::WaitForSnapshot(index.epoch_id)),
        SearchStage::ShiftSyncedRoot => Some(
            StateTreesQuery::SnapshotMerkleRoot(index.intermediate_epoch_id),
        ),
        SearchStage::SyncedTrieRoot { .. } => Some(StateTreesQuery::TakeIntermediateTrieRootMerkle),
        SearchStage::SyncedMpt { .. } => Some(StateTreesQuery::IntermediateMpt(index.epoch_id)),
        SearchStage::ShiftRoot => Some(
            StateTreesQuery::SnapshotMerkleRoot(index.intermediate_epoch_id),
        ),
        SearchStage::ShiftIntermediate { .. } => Some(
            StateTreesQuery::IntermediateMpt(index.intermediate_epoch_id),
        ),
        SearchStage::ShiftTrieRoot { mpt, .. } => Some(
            StateTreesQuery::MerkleRootByEpoch(mpt, index.epoch_id),
        ),
        SearchStage::ShiftDelta { .. } => Some(
            StateTreesQuery::DeltaMpt(index.intermediate_epoch_id),
        ),
        SearchStage::FallbackSynced { .. } => Some(
            StateTreesQuery::WaitForSnapshot(index.epoch_id),
        ),
        SearchStage::Stay => Some(StateTreesQuery::WaitForSnapshot(index.snapshot_epoch_id)),
        SearchStage::StaySynced => Some(
            StateTreesQuery::WaitForSnapshot(index.intermediate_epoch_id),
        ),
        SearchStage::StaySyncedMpt => Some(
            StateTreesQuery::IntermediateMpt(index.intermediate_epoch_id),
        ),
        SearchStage::StayIntermediate => Some(
            StateTreesQuery::IntermediateMpt(index.snapshot_epoch_id),
        ),
        SearchStage::StayDelta { .. } => Some(StateTreesQuery::DeltaMpt(index.snapshot_epoch_id)),
        SearchStage::DeltaRoot { trees } => Some(
            StateTreesQuery::RootNodeByEpoch(trees.delta_trie, index.epoch_id),
        ),
        SearchStage::IntermediateRoot { trees, mpt } => Some(
            StateTreesQuery::RootNodeByEpoch(mpt, trees.intermediate_epoch_id),
        ),
        SearchStage::Done(_) => None,
        SearchStage::Mismatch => None,
    }
}

/// The stage that follows upon an answer.
pub open spec fn next_stage(
    index: StateIndex,
    advance: bool,
    stage: SearchStage,
    reply: StateTreesReply,
) -> SearchStage {
    match (stage, reply) {
        (SearchStage::Shift, StateTreesReply::Snapshot(found)) => if found {
            SearchStage::ShiftRoot
        } else {
            SearchStage::ShiftSynced
        },
        (SearchStage::ShiftSynced, StateTreesReply::Snapshot(found)) => if found {
            SearchStage::ShiftSyncedRoot
        } else {
            SearchStage::Done(None)
        },
        (SearchStage::ShiftSyncedRoot, StateTreesReply::MerkleRoot(root)) => match root {
            Some(snapshot_root) => SearchStage::SyncedTrieRoot { snapshot_root },
            None => SearchStage::Done(None),
        },
        (
            SearchStage::SyncedTrieRoot { snapshot_root },
            StateTreesReply::MerkleRoot(root),
        ) => match root {
            Some(trie_root) => SearchStage::SyncedMpt { snapshot_root, trie_root },
            None => SearchStage::Done(None),
        },
        (
            SearchStage::SyncedMpt { snapshot_root, trie_root },
            StateTreesReply::Mpt(found),
        ) => match found {
            Some(delta) => SearchStage::Done(
                Some(
                    shifted_trees(
                        index,
                        index.epoch_id,
                        snapshot_root,
                        None,
                        None,
                        trie_root,
                        delta,
                    ),
                ),
            ),
            None => SearchStage::Done(None),
        },
        (SearchStage::ShiftRoot, StateTreesReply::MerkleRoot(root)) => match root {
            Some(snapshot_root) => SearchStage::ShiftIntermediate { snapshot_root },
            None => SearchStage::Done(None),
        },
        (
            SearchStage::ShiftIntermediate { snapshot_root },
            StateTreesReply::Mpt(found),
        ) => match found {
            Some(mpt) => SearchStage::ShiftTrieRoot { snapshot_root, mpt },
            None => SearchStage::ShiftDelta {
                snapshot_root,
                intermediate: None,
                trie_root: merkle_null_node(),
            },
        },
        (
            SearchStage::ShiftTrieRoot { snapshot_root, mpt },
            StateTreesReply::MerkleRoot(root),
        ) => match root {
            Some(trie_root) => SearchStage::ShiftDelta {
                snapshot_root,
                intermediate: Some(mpt),
                trie_root,
            },
            None => SearchStage::FallbackSynced { snapshot_root },
        },
        (
            SearchStage::ShiftDelta { snapshot_root, intermediate, trie_root },
            StateTreesReply::Mpt(Some(delta)),
        ) => then_intermediate_root(
            shifted_trees(
                index,
                index.intermediate_epoch_id,
                snapshot_root,
                intermediate,
                Some(index.delta_mpt_key_padding),
                trie_root,
                delta,
            ),
        ),
        (SearchStage::FallbackSynced { snapshot_root }, StateTreesReply::Snapshot(found)) => if found {
            SearchStage::SyncedTrieRoot { snapshot_root }
        } else {
            SearchStage::Done(None)
        },
        (SearchStage::Stay, StateTreesReply::Snapshot(found)) => if !found {
            SearchStage::StaySynced
        } else if index.maybe_intermediate_mpt_key_padding is Some {
            SearchStage::StayIntermediate
        } else {
            SearchStage::StayDelta { intermediate: None }
        },
        (SearchStage::StaySynced, StateTreesReply::Snapshot(found)) => if found {
            SearchStage::StaySyncedMpt
        } else {
            SearchStage::Done(None)
        },
        (SearchStage::StaySyncedMpt, StateTreesReply::Mpt(found)) => match found {
            Some(delta) => SearchStage::DeltaRoot {
                trees: staying_trees(
                    index,
                    advance,
                    index.intermediate_epoch_id,
                    None,
                    None,
                    delta,
                ),
            },
            None => SearchStage::Done(None),
        },
        (SearchStage::StayIntermediate, StateTreesReply::Mpt(found)) => SearchStage::StayDelta {
            intermediate: found,
        },
        (
            SearchStage::StayDelta { intermediate },
            StateTreesReply::Mpt(Some(delta)),
        ) => SearchStage::DeltaRoot {
            trees: staying_trees(
                index,
                advance,
                index.snapshot_epoch_id,
                intermediate,
                index.maybe_intermediate_mpt_key_padding,
                delta,
            ),
        },
        (SearchStage::DeltaRoot { trees }, StateTreesReply::RootNode(root)) => match root {
            Some(node) => then_intermediate_root(StateTrees { delta_trie_root: node, ..trees }),
            None => SearchStage::Done(None),
        },
        (SearchStage::IntermediateRoot { trees, .. }, StateTreesReply::RootNode(root)) => match root {
            Some(node) => SearchStage::Done(
                Some(StateTrees { intermediate_trie_root: node, ..trees }),
            ),
            None => SearchStage::Done(None),
        },
        _ => SearchStage::Mismatch,
    }
}

/// The height of the state after the index can be counted.
pub open spec fn height_advances(index: StateIndex) -> bool {
    index.maybe_height matches Some(h) ==> h < u64::MAX
}

/// The height of the delta trie of the state after the index can be counted.
pub open spec fn delta_height_advances(index: StateIndex) -> bool {
    index.maybe_delta_trie_height matches Some(h) ==> h < u32::MAX
}

/// The search shifts to a new snapshot.
pub open spec fn is_shifting(stage: SearchStage) -> bool {
    match stage {
        SearchStage::Shift => true,
        SearchStage::ShiftSynced => true,
        SearchStage::ShiftSyncedRoot => true,
        SearchStage::SyncedTrieRoot { .. } => true,
        SearchStage::SyncedMpt { .. } => true,
        SearchStage::ShiftRoot => true,
        SearchStage::ShiftIntermediate { .. } => true,
        SearchStage::ShiftTrieRoot { .. } => true,
        SearchStage::ShiftDelta { .. } => true,
        SearchStage::FallbackSynced { .. } => true,
        _ => false,
    }
}

/// The search stays on the snapshot and has not found its trees yet.
pub open spec fn is_staying(stage: SearchStage) -> bool {
    match stage {
        SearchStage::Stay => true,
        SearchStage::StaySynced => true,
        SearchStage::StaySyncedMpt => true,
        SearchStage::StayIntermediate => true,
        SearchStage::StayDelta { .. } => true,
        _ => false,
    }
}

/// A running search for the trees of a state.
#[derive(Clone, Copy, Debug)]
pub struct StateTreesSearch {
    index: StateIndex,
    /// The trees are those of the epoch after the index.
    advance: bool,
    stage: SearchStage,
}

impl StateTreesSearch {
    /// The index that the search starts from.
    pub closed spec fn index(&self) -> StateIndex {
        self.index
    }

    /// The search is for the epoch after the index.
    pub closed spec fn advance(&self) -> bool {
        self.advance
    }

    /// Where the search stands.
    pub closed spec fn stage(&self) -> SearchStage {
        self.stage
    }

    /// The heights that the search counts are in range, and it shifts only to the epoch after the
    /// index.
    pub open spec fn wf(&self) -> bool {
        &&& self.advance() ==> height_advances(self.index())
        &&& self.advance() && is_staying(self.stage()) ==> delta_height_advances(self.index())
        &&& is_shifting(self.stage()) ==> self.advance()
    }

    /// Starts the search for the trees of the state that the index describes.
    pub fn get_state_trees(state_index: &StateIndex) -> (r: Self)
        ensures
            r.wf(),
            r.index() == *state_index,
            !r.advance(),
            r.stage() == SearchStage::Stay,
    {
        StateTreesSearch { index: *state_index, advance: false, stage: SearchStage::Stay }
    }

    /// Starts the search for the trees of the state after the one that the index describes. It
    /// shifts to a new snapshot exactly if the delta trie is full.
    pub fn get_state_trees_for_next_epoch(
        parent_state_index: &StateIndex,
        snapshot_epoch_count: u32,
    ) -> (r: Self)
        requires
            height_advances(*parent_state_index),
            !is_full(*parent_state_index, snapshot_epoch_count) ==> delta_height_advances(
                *parent_state_index,
            ),
        ensures
            r.wf(),
            r.index() == *parent_state_index,
            r.advance(),
            r.stage() == (if is_full(*parent_state_index, snapshot_epoch_count) {
                SearchStage::Shift
            } else {
                SearchStage::Stay
            }),
    {
        let delta_height: u32 = match parent_state_index.maybe_delta_trie_height {
            Some(h) => h,
            None => 0,
        };
        let stage = if delta_height == snapshot_epoch_count {
            SearchStage::Shift
        } else {
            SearchStage::Stay
        };
        StateTreesSearch { index: *parent_state_index, advance: true, stage }
    }

    /// The question to the storage, as long as the search goes on.
    pub fn query(&self) -> (r: Option<StateTreesQuery>)
        ensures
            r == query_of(self.index(), self.stage()),
    {
        let index = &self.index;
        match self.stage {
            SearchStage::Shift => Some(
                StateTreesQuery::WaitForSnapshot(index.intermediate_epoch_id),
            ),
            SearchStage::ShiftSynced => Some(StateTreesQuery::WaitForSnapshot(index.epoch_id)),
            SearchStage::ShiftSyncedRoot => Some(
                StateTreesQuery::SnapshotMerkleRoot(index.intermediate_epoch_id),
            ),
            SearchStage::SyncedTrieRoot { .. } => Some(
                StateTreesQuery::TakeIntermediateTrieRootMerkle,
            ),
            SearchStage::SyncedMpt { .. } => Some(StateTreesQuery::IntermediateMpt(index.epoch_id)),
            SearchStage::ShiftRoot => Some(
                StateTreesQuery::SnapshotMerkleRoot(index.intermediate_epoch_id),
            ),
            SearchStage::ShiftIntermediate { .. } => Some(
                StateTreesQuery::IntermediateMpt(index.intermediate_epoch_id),
            ),
            SearchStage::ShiftTrieRoot { mpt, .. } => Some(
                StateTreesQuery::MerkleRootByEpoch(mpt, index.epoch_id),
            ),
            SearchStage::ShiftDelta { .. } => Some(
                StateTreesQuery::DeltaMpt(index.intermediate_epoch_id),
            ),
            SearchStage::FallbackSynced { .. } => Some(
                StateTreesQuery::WaitForSnapshot(index.epoch_id),
            ),
            SearchStage::Stay => Some(StateTreesQuery::WaitForSnapshot(index.snapshot_epoch_id)),
            SearchStage::StaySynced => Some(
                StateTreesQuery::WaitForSnapshot(index.intermediate_epoch_id),
            ),
            SearchStage::StaySyncedMpt => Some(
                StateTreesQuery::IntermediateMpt(index.intermediate_epoch_id),
            ),
            SearchStage::StayIntermediate => Some(
                StateTreesQuery::IntermediateMpt(index.snapshot_epoch_id),
            ),
            SearchStage::StayDelta { .. } => Some(
                StateTreesQuery::DeltaMpt(index.snapshot_epoch_id),
            ),
            SearchStage::DeltaRoot { trees } => Some(
                StateTreesQuery::RootNodeByEpoch(trees.delta_trie, index.epoch_id),
            ),
            SearchStage::IntermediateRoot { trees, mpt } => Some(
                StateTreesQuery::RootNodeByEpoch(mpt, trees.intermediate_epoch_id),
            ),
            SearchStage::Done(_) => None,
            SearchStage::Mismatch => None,
        }
    }

    /// Takes the answer to the question and goes on.
    pub fn reply(&mut self, reply: StateTreesReply)
        requires
            old(self).wf(),
        ensures
            final(self).wf(),
            final(self).index() == old(self).index(),
            final(self).advance() == old(self).advance(),
            final(self).stage() == next_stage(
                old(self).index(),
                old(self).advance(),
                old(self).stage(),
                reply,
            ),
    {
        self.stage =
        match (self.stage, reply) {
            (SearchStage::Shift, StateTreesReply::Snapshot(found)) => if found {
                SearchStage::ShiftRoot
            } else {
                SearchStage::ShiftSynced
            },
            (SearchStage::ShiftSynced, StateTreesReply::Snapshot(found)) => if found {
                SearchStage::ShiftSyncedRoot
            } else {
                SearchStage::Done(None)
            },
            (SearchStage::ShiftSyncedRoot, StateTreesReply::MerkleRoot(root)) => match root {
                Some(snapshot_root) => SearchStage::SyncedTrieRoot { snapshot_root },
                None => SearchStage::Done(None),
            },
            (
                SearchStage::SyncedTrieRoot { snapshot_root },
                StateTreesReply::MerkleRoot(root),
            ) => match root {
                Some(trie_root) => SearchStage::SyncedMpt { snapshot_root, trie_root },
                None => SearchStage::Done(None),
            },
            (
                SearchStage::SyncedMpt { snapshot_root, trie_root },
                StateTreesReply::Mpt(found),
            ) => match found {
                Some(delta) => SearchStage::Done(
                    Some(
                        self.shifted(
                            self.index.epoch_id,
                            snapshot_root,
                            None,
                            None,
                            trie_root,
                            delta,
                        ),
                    ),
                ),
                None => SearchStage::Done(None),
            },
            (SearchStage::ShiftRoot, StateTreesReply::MerkleRoot(root)) => match root {
                Some(snapshot_root) => SearchStage::ShiftIntermediate { snapshot_root },
                None => SearchStage::Done(None),
            },
            (
                SearchStage::ShiftIntermediate { snapshot_root },
                StateTreesReply::Mpt(found),
            ) => match found {
                Some(mpt) => SearchStage::ShiftTrieRoot { snapshot_root, mpt },
                None => SearchStage::ShiftDelta {
                    snapshot_root,
                    intermediate: None,
                    trie_root: merkle_null_node(),
                },
            },
            (
                SearchStage::ShiftTrieRoot { snapshot_root, mpt },
                StateTreesReply::MerkleRoot(root),
            ) => match root {
                Some(trie_root) => SearchStage::ShiftDelta {
                    snapshot_root,
                    intermediate: Some(mpt),
                    trie_root,
                },
                None => SearchStage::FallbackSynced { snapshot_root },
            },
            (
                SearchStage::ShiftDelta { snapshot_root, intermediate, trie_root },
                StateTreesReply::Mpt(Some(delta)),
            ) => Self::find_intermediate_root(
                self.shifted(
                    self.index.intermediate_epoch_id,
                    snapshot_root,
                    intermediate,
                    Some(self.index.delta_mpt_key_padding),
                    trie_root,
                    delta,
                ),
            ),
            (
                SearchStage::FallbackSynced { snapshot_root },
                StateTreesReply::Snapshot(found),
            ) => if found {
                SearchStage::SyncedTrieRoot { snapshot_root }
            } else {
                SearchStage::Done(None)
            },
            (SearchStage::Stay, StateTreesReply::Snapshot(found)) => if !found {
                SearchStage::StaySynced
            } else if self.index.maybe_intermediate_mpt_key_padding.is_some() {
                SearchStage::StayIntermediate
            } else {
                SearchStage::StayDelta { intermediate: None }
            },
            (SearchStage::StaySynced, StateTreesReply::Snapshot(found)) => if found {
                SearchStage::StaySyncedMpt
            } else {
                SearchStage::Done(None)
            },
            (SearchStage::StaySyncedMpt, StateTreesReply::Mpt(found)) => match found {
                Some(delta) => SearchStage::DeltaRoot {
                    trees: self.staying(self.index.intermediate_epoch_id, None, None, delta),
                },
                None => SearchStage::Done(None),
            },
            (SearchStage::StayIntermediate, StateTreesReply::Mpt(found)) => SearchStage::StayDelta {
                intermediate: found,
            },
            (
                SearchStage::StayDelta { intermediate },
                StateTreesReply::Mpt(Some(delta)),
            ) => SearchStage::DeltaRoot {
                trees: self.staying(
                    self.index.snapshot_epoch_id,
                    intermediate,
                    self.index.maybe_intermediate_mpt_key_padding,
                    delta,
                ),
            },
            (SearchStage::DeltaRoot { trees }, StateTreesReply::RootNode(root)) => match root {
                Some(node) => Self::find_intermediate_root(
                    StateTrees { delta_trie_root: node, ..trees },
                ),
                None => SearchStage::Done(None),
            },
            (
                SearchStage::IntermediateRoot { trees, .. },
                StateTreesReply::RootNode(root),
            ) => match root {
                Some(node) => SearchStage::Done(
                    Some(StateTrees { intermediate_trie_root: node, ..trees }),
                ),
                None => SearchStage::Done(None),
            },
            _ => SearchStage::Mismatch,
        };
    }

    /// The outcome, once the search is over: the trees, or that the state is not available.
    pub fn result(&self) -> (r: Option<Option<StateTrees>>)
        ensures
            r == (match self.stage() {
                SearchStage::Done(trees) => Some(trees),
                _ => None,
            }),
    {
        match self.stage {
            SearchStage::Done(trees) => Some(trees),
            _ => None,
        }
    }

    fn find_intermediate_root(trees: StateTrees) -> (r: SearchStage)
        ensures
            r == then_intermediate_root(trees),
    {
        match trees.maybe_intermediate_trie {
            Some(mpt) => SearchStage::IntermediateRoot { trees, mpt },
            None => SearchStage::Done(Some(trees)),
        }
    }

    fn height_after(&self) -> (r: Option<u64>)
        requires
            height_advances(self.index()),
        ensures
            r == next_height(self.index().maybe_height),
    {
        match self.index.maybe_height {
            Some(h) => Some(h + 1),
            None => None,
        }
    }

    fn shifted(
        &self,
        snapshot_db: EpochId,
        snapshot_root: MerkleHash,
        intermediate: Option<DeltaMptId>,
        padding: Option<DeltaMptKeyPadding>,
        trie_root: MerkleHash,
        delta: DeltaMptId,
    ) -> (r: StateTrees)
        requires
            height_advances(self.index()),
        ensures
            r == shifted_trees(
                self.index(),
                snapshot_db,
                snapshot_root,
                intermediate,
                padding,
                trie_root,
                delta,
            ),
    {
        StateTrees {
            snapshot_db,
            snapshot_epoch_id: self.index.intermediate_epoch_id,
            snapshot_merkle_root: snapshot_root,
            maybe_intermediate_trie: intermediate,
            intermediate_trie_root: None,
            intermediate_trie_root_merkle: trie_root,
            maybe_intermediate_trie_key_padding: padding,
            delta_trie: delta,
            delta_trie_root: None,
            delta_trie_key_padding: DeltaKeyPadding::OfRoots {
                snapshot_merkle_root: snapshot_root,
                intermediate_trie_root_merkle: trie_root,
            },
            maybe_delta_trie_height: Some(1),
            maybe_height: self.height_after(),
            intermediate_epoch_id: self.index.epoch_id,
            parent_epoch_id: self.index.epoch_id,
        }
    }

    fn staying(
        &self,
        snapshot_db: EpochId,
        intermediate: Option<DeltaMptId>,
        padding: Option<DeltaMptKeyPadding>,
        delta: DeltaMptId,
    ) -> (r: StateTrees)
        requires
            self.wf(),
            is_staying(self.stage()),
        ensures
            r == staying_trees(
                self.index(),
                self.advance(),
                snapshot_db,
                intermediate,
                padding,
                delta,
            ),
    {
        let maybe_delta_trie_height: Option<u32> = if self.advance {
            match self.index.maybe_delta_trie_height {
                Some(h) => Some(h + 1),
                None => None,
            }
        } else {
            self.index.maybe_delta_trie_height
        };
        let maybe_height: Option<u64> = if self.advance {
            self.height_after()
        } else {
            self.index.maybe_height
        };
        StateTrees {
            snapshot_db,
            snapshot_epoch_id: self.index.snapshot_epoch_id,
            snapshot_merkle_root: self.index.snapshot_merkle_root,
            maybe_intermediate_trie: intermediate,
            intermediate_trie_root: None,
            intermediate_trie_root_merkle: self.index.intermediate_trie_root_merkle,
            maybe_intermediate_trie_key_padding: padding,
            delta_trie: delta,
            delta_trie_root: None,
            delta_trie_key_padding: DeltaKeyPadding::Given(self.index.delta_mpt_key_padding),
            maybe_delta_trie_height,
            maybe_height,
            intermediate_epoch_id: self.index.intermediate_epoch_id,
            parent_epoch_id: self.index.epoch_id,
        }
    }
}

/// What the storage holds, as far as the search asks for it.
pub struct StorageContents {
    /// The epochs whose snapshots are there.
    pub snapshots: spec_fn(EpochId) -> bool,
    /// The Merkle roots of the snapshots.
    pub snapshot_roots: spec_fn(EpochId) -> Option<MerkleHash>,
    /// The intermediate tries of the snapshots.
    pub intermediate_mpts: spec_fn(EpochId) -> Option<DeltaMptId>,
    /// The delta tries of the snapshots.
    pub delta_mpts: spec_fn(EpochId) -> DeltaMptId,
    /// The root of the intermediate trie that was noted at startup.
    pub noted_trie_root: Option<MerkleHash>,
    /// The Merkle roots of the tries at epochs.
    pub trie_roots: spec_fn(DeltaMptId, EpochId) -> Option<MerkleHash>,
    /// The root nodes of the tries at epochs.
    pub root_nodes: spec_fn(DeltaMptId, EpochId) -> Option<Option<NodeRefDeltaMpt>>,
}

/// The true answer to a question.
pub open spec fn answer(db: StorageContents, query: StateTreesQuery) -> StateTreesReply {
    match query {
        StateTreesQuery::WaitForSnapshot(e) => StateTreesReply::Snapshot((db.snapshots)(e)),
        StateTreesQuery::SnapshotMerkleRoot(e) => StateTreesReply::MerkleRoot(
            (db.snapshot_roots)(e),
        ),
        StateTreesQuery::IntermediateMpt(e) => StateTreesReply::Mpt((db.intermediate_mpts)(e)),
        StateTreesQuery::DeltaMpt(e) => StateTreesReply::Mpt(Some((db.delta_mpts)(e))),
        StateTreesQuery::TakeIntermediateTrieRootMerkle => StateTreesReply::MerkleRoot(
            db.noted_trie_root,
        ),
        StateTreesQuery::MerkleRootByEpoch(mpt, e) => StateTreesReply::MerkleRoot(
            (db.trie_roots)(mpt, e),
        ),
        StateTreesQuery::RootNodeByEpoch(mpt, e) => StateTreesReply::RootNode(
            (db.root_nodes)(mpt, e),
        ),
    }
}

/// The trees with the root node of their intermediate trie; none where the trie does not know the
/// intermediate epoch.
pub open spec fn with_intermediate_root(db: StorageContents, trees: StateTrees) -> Option<StateTrees> {
    match trees.maybe_intermediate_trie {
        None => Some(trees),
        Some(mpt) => match (db.root_nodes)(mpt, trees.intermediate_epoch_id) {
            Some(node) => Some(StateTrees { intermediate_trie_root: node, ..trees }),
            None => None,
        },
    }
}

/// The trees with the root nodes of their tries; none where a trie does not know its epoch.
pub open spec fn with_roots(
    db: StorageContents,
    index: StateIndex,
    trees: StateTrees,
) -> Option<StateTrees> {
    match (db.root_nodes)(trees.delta_trie, index.epoch_id) {
        Some(node) => with_intermediate_root(db, StateTrees { delta_trie_root: node, ..trees }),
        None => None,
    }
}

/// The trees on top of a synced snapshot of the parent epoch: there is no intermediate trie, and
/// the delta trie is the intermediate trie of that snapshot.
pub open spec fn trees_on_synced(
    db: StorageContents,
    index: StateIndex,
    snapshot_root: MerkleHash,
) -> Option<StateTrees> {
    match (db.noted_trie_root, (db.intermediate_mpts)(index.epoch_id)) {
        (Some(trie_root), Some(delta)) => Some(
            shifted_trees(index, index.epoch_id, snapshot_root, None, None, trie_root, delta),
        ),
        _ => None,
    }
}

/// The trees after a shift to a snapshot that is there, whose root is known: those on the snapshot
/// with the intermediate trie, unless that trie does not know the parent epoch.
pub open spec fn trees_on_shifted(
    db: StorageContents,
    index: StateIndex,
    snapshot_root: MerkleHash,
) -> Option<StateTrees> {
    let snapshot = index.intermediate_epoch_id;
    let padding = Some(index.delta_mpt_key_padding);
    let delta = (db.delta_mpts)(snapshot);
    match (db.intermediate_mpts)(snapshot) {
        None => Some(
            shifted_trees(
                index,
                snapshot,
                snapshot_root,
                None,
                padding,
                merkle_null_node(),
                delta,
            ),
        ),
        Some(mpt) => match (db.trie_roots)(mpt, index.epoch_id) {
            Some(trie_root) => with_intermediate_root(
                db,
                shifted_trees(
                    index,
                    snapshot,
                    snapshot_root,
                    Some(mpt),
                    padding,
                    trie_root,
                    delta,
                ),
            ),
            None => if (db.snapshots)(index.epoch_id) {
                trees_on_synced(db, index, snapshot_root)
            } else {
                None
            },
        },
    }
}

/// The trees of the state after a full delta trie.
pub open spec fn trees_after_shift(db: StorageContents, index: StateIndex) -> Option<StateTrees> {
    match (db.snapshot_roots)(index.intermediate_epoch_id) {
        None => None,
        Some(snapshot_root) => if (db.snapshots)(index.intermediate_epoch_id) {
            trees_on_shifted(db, index, snapshot_root)
        } else if (db.snapshots)(index.epoch_id) {
            trees_on_synced(db, index, snapshot_root)
        } else {
            None
        },
    }
}

/// The trees of a state on the snapshot of its index, or, where that is not there, on the snapshot
/// of its intermediate epoch.
pub open spec fn trees_in_place(
    db: StorageContents,
    index: StateIndex,
    advance: bool,
) -> Option<StateTrees> {
    if (db.snapshots)(index.snapshot_epoch_id) {
        with_roots(
            db,
            index,
            staying_trees(
                index,
                advance,
                index.snapshot_epoch_id,
                if index.maybe_intermediate_mpt_key_padding is Some {
                    (db.intermediate_mpts)(index.snapshot_epoch_id)
                } else {
                    None
                },
                index.maybe_intermediate_mpt_key_padding,
                (db.delta_mpts)(index.snapshot_epoch_id),
            ),
        )
    } else if (db.snapshots)(index.intermediate_epoch_id) {
        match (db.intermediate_mpts)(index.intermediate_epoch_id) {
            Some(delta) => with_roots(
                db,
                index,
                staying_trees(
                    index,
                    advance,
                    index.intermediate_epoch_id,
                    None,
                    None,
                    delta,
                ),
            ),
            None => None,
        }
    } else {
        None
    }
}

/// What a search at a stage comes to, when every answer is true.
pub open spec fn outcome(
    db: StorageContents,
    index: StateIndex,
    advance: bool,
    stage: SearchStage,
) -> Option<StateTrees> {
    let shifted_root = (db.snapshot_roots)(index.intermediate_epoch_id);
    match stage {
        SearchStage::Shift => trees_after_shift(db, index),
        SearchStage::ShiftSynced => match shifted_root {
            Some(root) => if (db.snapshots)(index.epoch_id) {
                trees_on_synced(db, index, root)
            } else {
                None
            },
            None => None,
        },
        SearchStage::ShiftSyncedRoot => match shifted_root {
            Some(root) => trees_on_synced(db, index, root),
            None => None,
        },
        SearchStage::SyncedTrieRoot { snapshot_root } => trees_on_synced(
            db,
            index,
            snapshot_root,
        ),
        SearchStage::SyncedMpt { snapshot_root, trie_root } => match (db.intermediate_mpts)(
            index.epoch_id,
        ) {
            Some(delta) => Some(
                shifted_trees(index, index.epoch_id, snapshot_root, None, None, trie_root, delta),
            ),
            None => None,
        },
        SearchStage::ShiftRoot => match shifted_root {
            Some(root) => trees_on_shifted(db, index, root),
            None => None,
        },
        SearchStage::ShiftIntermediate { snapshot_root } => trees_on_shifted(
            db,
            index,
            snapshot_root,
        ),
        SearchStage::ShiftTrieRoot { snapshot_root, mpt } => match (db.trie_roots)(
            mpt,
            index.epoch_id,
        ) {
            Some(trie_root) => with_intermediate_root(
                db,
                shifted_trees(
                    index,
                    index.intermediate_epoch_id,
                    snapshot_root,
                    Some(mpt),
                    Some(index.delta_mpt_key_padding),
                    trie_root,
                    (db.delta_mpts)(index.intermediate_epoch_id),
                ),
            ),
            None => if (db.snapshots)(index.epoch_id) {
                trees_on_synced(db, index, snapshot_root)
            } else {
                None
            },
        },
        SearchStage::ShiftDelta {
            snapshot_root,
            intermediate,
            trie_root,
        } => with_intermediate_root(
            db,
            shifted_trees(
                index,
                index.intermediate_epoch_id,
                snapshot_root,
                intermediate,
                Some(index.delta_mpt_key_padding),
                trie_root,
                (db.delta_mpts)(index.intermediate_epoch_id),
            ),
        ),
        SearchStage::FallbackSynced { snapshot_root } => if (db.snapshots)(index.epoch_id) {
            trees_on_synced(db, index, snapshot_root)
        } else {
            None
        },
        SearchStage::Stay => trees_in_place(db, index, advance),
        SearchStage::StaySynced => if (db.snapshots)(index.intermediate_epoch_id) {
            match (db.intermediate_mpts)(index.intermediate_epoch_id) {
                Some(delta) => with_roots(
                    db,
                    index,
                    staying_trees(
                        index,
                        advance,
                        index.intermediate_epoch_id,
                        None,
                        None,
                        delta,
                    ),
                ),
                None => None,
            }
        } else {
            None
        },
        SearchStage::StaySyncedMpt => match (db.intermediate_mpts)(index.intermediate_epoch_id) {
            Some(delta) => with_roots(
                db,
                index,
                staying_trees(index, advance, index.intermediate_epoch_id, None, None, delta),
            ),
            None => None,
        },
        SearchStage::StayIntermediate => with_roots(
            db,
            index,
            staying_trees(
                index,
                advance,
                index.snapshot_epoch_id,
                (db.intermediate_mpts)(index.snapshot_epoch_id),
                index.maybe_intermediate_mpt_key_padding,
                (db.delta_mpts)(index.snapshot_epoch_id),
            ),
        ),
        SearchStage::StayDelta { intermediate } => with_roots(
            db,
            index,
            staying_trees(
                index,
                advance,
                index.snapshot_epoch_id,
                intermediate,
                index.maybe_intermediate_mpt_key_padding,
                (db.delta_mpts)(index.snapshot_epoch_id),
            ),
        ),
        SearchStage::DeltaRoot { trees } => with_roots(db, index, trees),
        SearchStage::IntermediateRoot { trees, mpt } => match (db.root_nodes)(
            mpt,
            trees.intermediate_epoch_id,
        ) {
            Some(node) => Some(StateTrees { intermediate_trie_root: node, ..trees }),
            None => None,
        },
        SearchStage::Done(trees) => trees,
        SearchStage::Mismatch => None,
    }
}

/// The most answers that a search at a stage can still take.
pub open spec fn answers_left(stage: SearchStage) -> nat {
    match stage {
        SearchStage::Shift => 8,
        SearchStage::ShiftRoot => 7,
        SearchStage::ShiftIntermediate { .. } => 6,
        SearchStage::ShiftTrieRoot { .. } => 5,
        SearchStage::ShiftSynced => 4,
        SearchStage::FallbackSynced { .. } => 4,
        SearchStage::ShiftSyncedRoot => 3,
        SearchStage::ShiftDelta { .. } => 2,
        SearchStage::SyncedTrieRoot { .. } => 2,
        SearchStage::SyncedMpt { .. } => 1,
        SearchStage::Stay => 6,
        SearchStage::StaySynced => 5,
        SearchStage::StayIntermediate => 4,
        SearchStage::StaySyncedMpt => 3,
        SearchStage::StayDelta { .. } => 3,
        SearchStage::DeltaRoot { .. } => 2,
        SearchStage::IntermediateRoot { .. } => 1,
        SearchStage::Done(_) => 0,
        SearchStage::Mismatch => 0,
    }
}

/// With true answers a search never goes astray: each answer leaves its outcome as it was, brings
/// the end nearer, and fits the question.
pub proof fn true_answers_keep_the_outcome(
    db: StorageContents,
    index: StateIndex,
    advance: bool,
    stage: SearchStage,
)
    requires
        query_of(index, stage) is Some,
    ensures
        ({
            let next = next_stage(index, advance, stage, answer(db, query_of(index, stage)->0));
            &&& outcome(db, index, advance, next) == outcome(db, index, advance, stage)
            &&& answers_left(next) < answers_left(stage)
            &&& next != SearchStage::Mismatch
        }),
{
}

/// The stage after `n` true answers.
pub open spec fn run(
    db: StorageContents,
    index: StateIndex,
    advance: bool,
    stage: SearchStage,
    n: nat,
) -> SearchStage
    decreases n,
{
    if n == 0 {
        stage
    } else {
        match query_of(index, stage) {
            Some(query) => run(
                db,
                index,
                advance,
                next_stage(index, advance, stage, answer(db, query)),
                (n - 1) as nat,
            ),
            None => stage,
        }
    }
}

/// A search that gets true answers comes to its end, and its result is what the storage holds.
pub proof fn search_finds_the_trees(
    db: StorageContents,
    index: StateIndex,
    advance: bool,
    stage: SearchStage,
    n: nat,
)
    requires
        stage != SearchStage::Mismatch,
        n >= answers_left(stage),
    ensures
        run(db, index, advance, stage, n) == SearchStage::Done(
            outcome(db, index, advance, stage),
        ),
    decreases n,
{
    if query_of(index, stage) is Some {
        true_answers_keep_the_outcome(db, index, advance, stage);
        let next = next_stage(index, advance, stage, answer(db, query_of(index, stage)->0));
        search_finds_the_trees(db, index, advance, next, (n - 1) as nat);
    }
}

/// Where the delta trie was full, the trees that are found start a new one on top of the parent's
/// intermediate epoch: the parent epoch becomes the intermediate one, and the delta is empty.
pub proof fn shifted_trees_start_a_new_delta(db: StorageContents, index: StateIndex)
    ensures
        trees_after_shift(db, index) matches Some(trees) ==> {
            &&& trees.snapshot_epoch_id == index.intermediate_epoch_id
            &&& trees.intermediate_epoch_id == index.epoch_id
            &&& trees.parent_epoch_id == index.epoch_id
            &&& trees.delta_trie_root is None
            &&& trees.maybe_delta_trie_height == Some(1u32)
            &&& trees.snapshot_db == index.intermediate_epoch_id || (trees.snapshot_db
                == index.epoch_id && trees.maybe_intermediate_trie is None
                && trees.maybe_intermediate_trie_key_padding is None)
        },
{
}

/// Where the delta trie was not full, the trees that are found stand on the same snapshot and the
/// same intermediate epoch as those of the index.
pub proof fn trees_in_place_keep_their_snapshot(
    db: StorageContents,
    index: StateIndex,
    advance: bool,
)
    ensures
        trees_in_place(db, index, advance) matches Some(trees) ==> {
            &&& trees.snapshot_epoch_id == index.snapshot_epoch_id
            &&& trees.snapshot_merkle_root == index.snapshot_merkle_root
            &&& trees.intermediate_epoch_id == index.intermediate_epoch_id
            &&& trees.parent_epoch_id == index.epoch_id
            &&& trees.delta_trie_key_padding == DeltaKeyPadding::Given(index.delta_mpt_key_padding)
            &&& (db.root_nodes)(trees.delta_trie, index.epoch_id) == Some(trees.delta_trie_root)
        },
{
}

/// The trees that the genesis state is written to: empty ones on top of the null epoch.
pub fn genesis_state_trees(delta_trie: DeltaMptId, padding: DeltaMptKeyPadding) -> (r: StateTrees)
    ensures
        r == (StateTrees {
            snapshot_db: null_epoch(),
            snapshot_epoch_id: null_epoch(),
            snapshot_merkle_root: merkle_null_node(),
            maybe_intermediate_trie: None,
            intermediate_trie_root: None,
            intermediate_trie_root_merkle: merkle_null_node(),
            maybe_intermediate_trie_key_padding: None,
            delta_trie,
            delta_trie_root: None,
            delta_trie_key_padding: DeltaKeyPadding::Given(padding),
            maybe_delta_trie_height: Some(1),
            maybe_height: Some(1),
            intermediate_epoch_id: null_epoch(),
            parent_epoch_id: null_epoch(),
        }),
{
    StateTrees {
        snapshot_db: null_epoch(),
        snapshot_epoch_id: null_epoch(),
        snapshot_merkle_root: merkle_null_node(),
        maybe_intermediate_trie: None,
        intermediate_trie_root: None,
        intermediate_trie_root_merkle: merkle_null_node(),
        maybe_intermediate_trie_key_padding: None,
        delta_trie,
        delta_trie_root: None,
        delta_trie_key_padding: DeltaKeyPadding::Given(padding),
        maybe_delta_trie_height: Some(1),
        maybe_height: Some(1),
        intermediate_epoch_id: null_epoch(),
        parent_epoch_id: null_epoch(),
    }
}

/// Where a state is read from.
#[derive(Clone, Copy, Debug, PartialEq, Eq, Structural)]
pub enum ReadStateFrom {
    /// The trees.
    Trees,
    /// The single trie that holds every state of a space.
    SingleMpt,
    /// Nowhere: the outcome of the search for the trees stands, be it an error.
    Nowhere,
}

/// Whether the single trie has to be asked for a state: where the trees are not there, and the
/// single trie is kept and holds the space.
pub fn asks_single_mpt(trees_found: bool, single_mpt_holds_space: Option<bool>) -> (r: bool)
    ensures
        r == (!trees_found && single_mpt_holds_space == Some(true)),
{
    !trees_found && match single_mpt_holds_space {
        Some(holds) => holds,
        None => false,
    }
}

/// Where a state is read from, once the single trie was asked where it had to be.
pub fn get_state_no_commit(
    trees_found: bool,
    single_mpt_holds_space: Option<bool>,
    single_mpt_found: bool,
) -> (r: ReadStateFrom)
    ensures
        r == (if trees_found {
            ReadStateFrom::Trees
        } else if single_mpt_holds_space == Some(true) && single_mpt_found {
            ReadStateFrom::SingleMpt
        } else {
            ReadStateFrom::Nowhere
        }),
{
    if trees_found {
        ReadStateFrom::Trees
    } else if asks_single_mpt(trees_found, single_mpt_holds_space) && single_mpt_found {
        ReadStateFrom::SingleMpt
    } else {
        ReadStateFrom::Nowhere
    }
}

/// What the state of the next epoch is written to.
#[derive(Clone, Copy, Debug, PartialEq, Eq, Structural)]
pub enum WriteStateTo {
    /// The trees alone.
    Trees,
    /// The trees and the single trie.
    TreesAndSingleMpt,
    /// Nothing: the state is not available.
    Nothing,
}

/// What the state of the next epoch is written to. Where a single trie is kept, it has to know the
/// parent epoch.
pub fn get_state_for_next_epoch(
    trees_found: bool,
    single_mpt_found: Option<bool>,
) -> (r: WriteStateTo)
    ensures
        r == (match (trees_found, single_mpt_found) {
            (false, _) => WriteStateTo::Nothing,
            (true, None) => WriteStateTo::Trees,
            (true, Some(found)) => if found {
                WriteStateTo::TreesAndSingleMpt
            } else {
                WriteStateTo::Nothing
            },
        }),
{
    if !trees_found {
        return WriteStateTo::Nothing;
    }
    match single_mpt_found {
        None => WriteStateTo::Trees,
        Some(found) => if found {
            WriteStateTo::TreesAndSingleMpt
        } else {
            WriteStateTo::Nothing
        },
    }
}

} // verus!
