//! The snapshot and delta storage of the node.

pub mod defaults;
pub mod epoch_map;
pub mod merkle_patricia_trie;
pub mod snapshot_info;
pub mod snapshot_manager;
pub mod state_laws;
pub mod state_manager;
pub mod storage_db;
pub mod storage_manager;
