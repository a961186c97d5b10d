//! The tables that the snapshots and delta tries are kept in.

pub mod delta_db_manager;
pub mod kvdb_mdbx;
pub mod mdbx_columns;
pub mod mdbx_dual_write;
pub mod merge_marker;
pub mod names;
pub mod ordered_walk;
pub mod prefix_scan;
pub mod prefixed_kvdb_mdbx;
pub mod range_iter;
pub mod snapshot_db_manager_mdbx;
pub mod snapshot_debug;
pub mod snapshot_kv_db;
pub mod snapshot_merge;
pub mod snapshot_open;
pub mod snapshot_prefix;
