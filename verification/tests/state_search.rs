use mazze_storage::hash::{merkle_null_node, null_epoch, EpochId};
use mazze_storage::storage::state_manager::{
    asks_single_mpt, genesis_state_trees, get_state_for_next_epoch, get_state_no_commit,
    DeltaKeyPadding, ReadStateFrom, StateIndex, StateTrees, StateTreesQuery, StateTreesReply,
    StateTreesSearch, WriteStateTo,
};
use std::collections::HashMap;

fn id(byte: u8) -> EpochId {
    EpochId::from_slice(&[byte; 32])
}

/// What a storage holds: snapshots with their roots, tries, and the roots in the tries.
#[derive(Default)]
struct Contents {
    snapshots: HashMap<EpochId, EpochId>,
    intermediate: HashMap<EpochId, u16>,
    delta: HashMap<EpochId, u16>,
    noted: Option<EpochId>,
    trie_roots: HashMap<(u16, EpochId), EpochId>,
    nodes: HashMap<(u16, EpochId), Option<u64>>,
}

impl Contents {
    fn reply(&self, query: StateTreesQuery) -> StateTreesReply {
        match query {
            StateTreesQuery::WaitForSnapshot(e) => {
                StateTreesReply::Snapshot(self.snapshots.contains_key(&e))
            }
            StateTreesQuery::SnapshotMerkleRoot(e) => {
                StateTreesReply::MerkleRoot(self.snapshots.get(&e).copied())
            }
            StateTreesQuery::IntermediateMpt(e) => {
                StateTreesReply::Mpt(self.intermediate.get(&e).copied())
            }
            StateTreesQuery::DeltaMpt(e) => StateTreesReply::Mpt(self.delta.get(&e).copied()),
            StateTreesQuery::TakeIntermediateTrieRootMerkle => {
                StateTreesReply::MerkleRoot(self.noted)
            }
            StateTreesQuery::MerkleRootByEpoch(m, e) => {
                StateTreesReply::MerkleRoot(self.trie_roots.get(&(m, e)).copied())
            }
            StateTreesQuery::RootNodeByEpoch(m, e) => {
                StateTreesReply::RootNode(self.nodes.get(&(m, e)).copied())
            }
        }
    }

    fn run(&self, mut search: StateTreesSearch) -> Option<StateTrees> {
        while let Some(query) = search.query() {
            search.reply(self.reply(query));
        }
        search.result().unwrap()
    }
}

fn index() -> StateIndex {
    StateIndex {
        snapshot_epoch_id: id(1),
        snapshot_merkle_root: id(0x81),
        intermediate_epoch_id: id(2),
        intermediate_trie_root_merkle: id(0x92),
        maybe_intermediate_mpt_key_padding: Some(id(0xa1)),
        epoch_id: id(5),
        delta_mpt_key_padding: id(0xa2),
        maybe_delta_trie_height: Some(3),
        maybe_height: Some(23),
    }
}

fn contents() -> Contents {
    let mut c = Contents::default();
    c.snapshots.insert(id(1), id(0x81));
    c.snapshots.insert(id(2), id(0x82));
    c.intermediate.insert(id(1), 10);
    c.delta.insert(id(1), 11);
    c.intermediate.insert(id(2), 11);
    c.delta.insert(id(2), 12);
    c.trie_roots.insert((11, id(5)), id(0x95));
    c.nodes.insert((10, id(2)), Some(100));
    c.nodes.insert((11, id(5)), Some(101));
    c
}

#[test]
fn trees_are_found_in_place() {
    let trees = contents().run(StateTreesSearch::get_state_trees(&index())).unwrap();
    assert_eq!(trees.snapshot_db, id(1));
    assert_eq!(trees.maybe_intermediate_trie, Some(10));
    assert_eq!(trees.intermediate_trie_root, Some(100));
    assert_eq!(trees.delta_trie, 11);
    assert_eq!(trees.delta_trie_root, Some(101));
    assert_eq!(trees.maybe_height, Some(23));
    assert_eq!(trees.maybe_delta_trie_height, Some(3));
    assert_eq!(trees.parent_epoch_id, id(5));
    assert!(matches!(trees.delta_trie_key_padding, DeltaKeyPadding::Given(p) if p == id(0xa2)));
}

#[test]
fn a_missing_root_ends_the_search() {
    let mut c = contents();
    c.nodes.remove(&(11, id(5)));
    assert!(c.run(StateTreesSearch::get_state_trees(&index())).is_none());
    let mut c = contents();
    c.nodes.remove(&(10, id(2)));
    assert!(c.run(StateTreesSearch::get_state_trees(&index())).is_none());
}

#[test]
fn a_synced_snapshot_takes_the_place_of_its_parent() {
    let mut c = contents();
    c.snapshots.remove(&id(1));
    let trees = c.run(StateTreesSearch::get_state_trees(&index())).unwrap();
    assert_eq!(trees.snapshot_db, id(2));
    assert_eq!(trees.snapshot_epoch_id, id(1));
    assert_eq!(trees.maybe_intermediate_trie, None);
    assert_eq!(trees.delta_trie, 11);
    c.snapshots.remove(&id(2));
    assert!(c.run(StateTreesSearch::get_state_trees(&index())).is_none());
}

#[test]
fn the_next_epoch_stays_on_its_snapshot() {
    let search = StateTreesSearch::get_state_trees_for_next_epoch(&index(), 10);
    let trees = contents().run(search).unwrap();
    assert_eq!(trees.snapshot_epoch_id, id(1));
    assert_eq!(trees.maybe_height, Some(24));
    assert_eq!(trees.maybe_delta_trie_height, Some(4));
}

#[test]
fn a_full_delta_trie_starts_a_new_one() {
    let mut full = index();
    full.maybe_delta_trie_height = Some(10);
    let search = StateTreesSearch::get_state_trees_for_next_epoch(&full, 10);
    let trees = contents().run(search).unwrap();
    assert_eq!(trees.snapshot_epoch_id, id(2));
    assert_eq!(trees.snapshot_merkle_root, id(0x82));
    assert_eq!(trees.intermediate_epoch_id, id(5));
    assert_eq!(trees.maybe_intermediate_trie, Some(11));
    assert_eq!(trees.intermediate_trie_root_merkle, id(0x95));
    assert_eq!(trees.delta_trie, 12);
    assert_eq!(trees.delta_trie_root, None);
    assert_eq!(trees.maybe_delta_trie_height, Some(1));
    assert_eq!(trees.maybe_height, Some(24));
    assert!(matches!(
        trees.delta_trie_key_padding,
        DeltaKeyPadding::OfRoots { snapshot_merkle_root, intermediate_trie_root_merkle }
            if snapshot_merkle_root == id(0x82) && intermediate_trie_root_merkle == id(0x95)
    ));
}

#[test]
fn genesis_is_written_on_empty_trees() {
    let trees = genesis_state_trees(3, id(0x77));
    assert_eq!(trees.snapshot_epoch_id, null_epoch());
    assert_eq!(trees.snapshot_merkle_root, merkle_null_node());
    assert_eq!(trees.delta_trie, 3);
    assert_eq!(trees.delta_trie_root, None);
    assert_eq!(trees.maybe_height, Some(1));
}

#[test]
fn states_are_read_from_the_trees_first() {
    assert_eq!(get_state_no_commit(true, Some(true), true), ReadStateFrom::Trees);
    assert_eq!(get_state_no_commit(false, Some(true), true), ReadStateFrom::SingleMpt);
    assert_eq!(get_state_no_commit(false, Some(false), true), ReadStateFrom::Nowhere);
    assert_eq!(get_state_no_commit(false, None, true), ReadStateFrom::Nowhere);
    assert_eq!(get_state_no_commit(false, Some(true), false), ReadStateFrom::Nowhere);
    assert!(asks_single_mpt(false, Some(true)));
    assert!(!asks_single_mpt(true, Some(true)));
    assert!(!asks_single_mpt(false, None));
}

#[test]
fn states_are_written_to_both_tries() {
    assert_eq!(get_state_for_next_epoch(false, None), WriteStateTo::Nothing);
    assert_eq!(get_state_for_next_epoch(true, None), WriteStateTo::Trees);
    assert_eq!(get_state_for_next_epoch(true, Some(true)), WriteStateTo::TreesAndSingleMpt);
    assert_eq!(get_state_for_next_epoch(true, Some(false)), WriteStateTo::Nothing);
}
