//! What every search for the trees of a state finds.

use super::state_manager::{
    is_full, run, search_finds_the_trees, DeltaKeyPadding, SearchStage, StateIndex, StateTrees,
    StorageContents,
};
use crate::hash::merkle_null_node;
use vstd::prelude::*;

verus! {

/// The state after an index stands on a new snapshot exactly if the delta trie of the index holds as
/// many epochs as there are between two snapshots. An index that does not say counts as holding none.
pub proof fn full_delta_tries_shift(index: StateIndex, snapshot_epoch_count: u32)
    ensures
        is_full(index, snapshot_epoch_count) <==> index.maybe_delta_trie_height == Some(
            snapshot_epoch_count,
        ) || (index.maybe_delta_trie_height is None && snapshot_epoch_count == 0),
{
}

/// The trees after a full delta trie, when every question is answered truly. They stand on the
/// snapshot of the parent's intermediate epoch. The parent's delta trie is their intermediate trie,
/// with the padding of its keys; without one the intermediate trie is empty. Where that snapshot is
/// not there, or its intermediate trie does not know the parent, they stand on a synced snapshot of
/// the parent instead, with the intermediate trie of that as their delta trie. The delta trie begins
/// anew in either case. Nothing is found exactly if something of this is missing.
pub proof fn shifted_states_stand_on_the_next_snapshot(
    db: StorageContents,
    index: StateIndex,
    n: nat,
)
    requires
        n >= 8,
    ensures
        ({
            let snapshot = index.intermediate_epoch_id;
            let parent = index.epoch_id;
            let root = (db.snapshot_roots)(snapshot);
            let trie = (db.intermediate_mpts)(snapshot);
            let knows_parent = trie is None || (db.trie_roots)(trie->0, parent) is Some;
            let on_snapshot = {
                &&& (db.snapshots)(snapshot)
                &&& root is Some
                &&& knows_parent
                &&& trie is None || (db.root_nodes)(trie->0, parent) is Some
            };
            let on_synced = {
                &&& !(db.snapshots)(snapshot) || !knows_parent
                &&& root is Some
                &&& (db.snapshots)(parent)
                &&& db.noted_trie_root is Some
                &&& (db.intermediate_mpts)(parent) is Some
            };
            match run(db, index, true, SearchStage::Shift, n) {
                SearchStage::Done(None) => !on_snapshot && !on_synced,
                SearchStage::Done(Some(trees)) => {
                    &&& on_snapshot || on_synced
                    &&& trees.snapshot_epoch_id == snapshot
                    &&& trees.snapshot_merkle_root == root->0
                    &&& trees.intermediate_epoch_id == parent
                    &&& trees.parent_epoch_id == parent
                    &&& trees.delta_trie_root is None
                    &&& trees.maybe_delta_trie_height == Some(1u32)
                    &&& trees.maybe_height is Some <==> index.maybe_height is Some
                    &&& index.maybe_height is Some && index.maybe_height->0 < u64::MAX
                        ==> trees.maybe_height->0 == index.maybe_height->0 + 1
                    &&& trees.delta_trie_key_padding == (DeltaKeyPadding::OfRoots {
                        snapshot_merkle_root: root->0,
                        intermediate_trie_root_merkle: trees.intermediate_trie_root_merkle,
                    })
                    &&& on_snapshot ==> {
                        &&& trees.snapshot_db == snapshot
                        &&& trees.maybe_intermediate_trie == trie
                        &&& trees.maybe_intermediate_trie_key_padding == Some(
                            index.delta_mpt_key_padding,
                        )
                        &&& trees.delta_trie == (db.delta_mpts)(snapshot)
                        &&& trie is None ==> trees.intermediate_trie_root is None
                            && trees.intermediate_trie_root_merkle == merkle_null_node()
                        &&& trie is Some ==> trees.intermediate_trie_root == (db.root_nodes)(
                            trie->0,
                            parent,
                        )->0 && trees.intermediate_trie_root_merkle == (db.trie_roots)(
                            trie->0,
                            parent,
                        )->0
                    }
                    &&& on_synced ==> {
                        &&& trees.snapshot_db == parent
                        &&& trees.maybe_intermediate_trie is None
                        &&& trees.maybe_intermediate_trie_key_padding is None
                        &&& trees.intermediate_trie_root is None
                        &&& trees.intermediate_trie_root_merkle == db.noted_trie_root->0
                        &&& trees.delta_trie == (db.intermediate_mpts)(parent)->0
                    }
                },
                _ => false,
            }
        }),
{
    search_finds_the_trees(db, index, true, SearchStage::Shift, n);
}

/// The trees on the snapshot of the index, when every question is answered truly. All that is read
/// is what the index says: the snapshot, the intermediate trie with its padding where the index has
/// one, and the delta trie of the snapshot with the padding of the index, at the epoch of the index.
/// Where that snapshot is not there, the one of the intermediate epoch is read, with the intermediate
/// trie of that as the delta trie. For the next epoch both heights grow by one. Nothing is found
/// exactly if something of this is missing.
pub proof fn states_in_place_stand_on_their_snapshot(
    db: StorageContents,
    index: StateIndex,
    advance: bool,
    n: nat,
)
    requires
        n >= 6,
    ensures
        ({
            let own = index.snapshot_epoch_id;
            let above = index.intermediate_epoch_id;
            let trie = if index.maybe_intermediate_mpt_key_padding is Some {
                (db.intermediate_mpts)(own)
            } else {
                None
            };
            let on_snapshot = {
                &&& (db.snapshots)(own)
                &&& (db.root_nodes)((db.delta_mpts)(own), index.epoch_id) is Some
                &&& trie is None || (db.root_nodes)(trie->0, above) is Some
            };
            let on_synced = {
                &&& !(db.snapshots)(own)
                &&& (db.snapshots)(above)
                &&& (db.intermediate_mpts)(above) is Some
                &&& (db.root_nodes)((db.intermediate_mpts)(above)->0, index.epoch_id) is Some
            };
            match run(db, index, advance, SearchStage::Stay, n) {
                SearchStage::Done(None) => !on_snapshot && !on_synced,
                SearchStage::Done(Some(trees)) => {
                    &&& on_snapshot || on_synced
                    &&& trees.snapshot_epoch_id == own
                    &&& trees.snapshot_merkle_root == index.snapshot_merkle_root
                    &&& trees.intermediate_epoch_id == above
                    &&& trees.intermediate_trie_root_merkle == index.intermediate_trie_root_merkle
                    &&& trees.parent_epoch_id == index.epoch_id
                    &&& trees.delta_trie_key_padding == DeltaKeyPadding::Given(
                        index.delta_mpt_key_padding,
                    )
                    &&& (db.root_nodes)(trees.delta_trie, index.epoch_id) == Some(
                        trees.delta_trie_root,
                    )
                    &&& !advance ==> trees.maybe_height == index.maybe_height
                        && trees.maybe_delta_trie_height == index.maybe_delta_trie_height
                    &&& advance ==> {
                        &&& trees.maybe_height is Some <==> index.maybe_height is Some
                        &&& index.maybe_height is Some && index.maybe_height->0 < u64::MAX
                            ==> trees.maybe_height->0 == index.maybe_height->0 + 1
                        &&& trees.maybe_delta_trie_height is Some
                            <==> index.maybe_delta_trie_height is Some
                        &&& index.maybe_delta_trie_height is Some
                            && index.maybe_delta_trie_height->0 < u32::MAX
                            ==> trees.maybe_delta_trie_height->0 == index.maybe_delta_trie_height->0
                            + 1
                    }
                    &&& on_snapshot ==> {
                        &&& trees.snapshot_db == own
                        &&& trees.delta_trie == (db.delta_mpts)(own)
                        &&& trees.maybe_intermediate_trie == trie
                        &&& trees.maybe_intermediate_trie_key_padding
                            == index.maybe_intermediate_mpt_key_padding
                        &&& trie is None ==> trees.intermediate_trie_root is None
                        &&& trie is Some ==> (db.root_nodes)(trie->0, above) == Some(
                            trees.intermediate_trie_root,
                        )
                    }
                    &&& on_synced ==> {
                        &&& trees.snapshot_db == above
                        &&& trees.delta_trie == (db.intermediate_mpts)(above)->0
                        &&& trees.maybe_intermediate_trie is None
                        &&& trees.maybe_intermediate_trie_key_padding is None
                        &&& trees.intermediate_trie_root is None
                    }
                },
                _ => false,
            }
        }),
{
    search_finds_the_trees(db, index, advance, SearchStage::Stay, n);
}

/// What was written to the delta trie of a state is read from the intermediate trie of the state
/// after a shift: it is the same trie at the same epoch with the same root, and its keys are padded
/// as they were. This is so where the snapshot of the intermediate epoch stands on that delta trie.
pub proof fn shifts_turn_the_delta_into_the_intermediate_trie(
    db: StorageContents,
    index: StateIndex,
    before: StateTrees,
    after: StateTrees,
    n: nat,
)
    requires
        n >= 8,
        (db.snapshots)(index.snapshot_epoch_id),
        (db.snapshots)(index.intermediate_epoch_id),
        (db.intermediate_mpts)(index.intermediate_epoch_id) == Some(
            (db.delta_mpts)(index.snapshot_epoch_id),
        ),
        (db.trie_roots)((db.delta_mpts)(index.snapshot_epoch_id), index.epoch_id) is Some,
        run(db, index, false, SearchStage::Stay, n) == SearchStage::Done(Some(before)),
        run(db, index, true, SearchStage::Shift, n) == SearchStage::Done(Some(after)),
    ensures
        after.maybe_intermediate_trie == Some(before.delta_trie),
        after.intermediate_trie_root == before.delta_trie_root,
        after.maybe_intermediate_trie_key_padding matches Some(padding)
            && before.delta_trie_key_padding == DeltaKeyPadding::Given(padding),
        after.intermediate_epoch_id == before.parent_epoch_id,
        after.snapshot_epoch_id == before.intermediate_epoch_id,
{
    states_in_place_stand_on_their_snapshot(db, index, false, n);
    shifted_states_stand_on_the_next_snapshot(db, index, n);
}

} // verus!
