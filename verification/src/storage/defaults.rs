//! What a node runs with unless it is told otherwise.

use vstd::prelude::*;

verus! {

/// The number of threads that check a snapshot against its trie: none in production.
pub const DEFAULT_DEBUG_SNAPSHOT_CHECKER_THREADS: u16 = 0;

/// The number of threads that warm the state cache for an epoch.
pub const DEFAULT_EXECUTION_PREFETCH_THREADS: usize = 8;

/// The number of snapshots that can be open at a time.
pub const DEFAULT_MAX_OPEN_SNAPSHOTS: u16 = 10;

/// The number of tries that can be open at a time: two states, of two tries each.
pub const DEFAULT_MAX_OPEN_MPT: u32 = 4;

/// The size of the environment of the hot tables, in megabytes.
pub const DEFAULT_MDBX_MAP_SIZE_MB: u64 = 65_536;

/// The size at which the environment of the snapshots starts, in megabytes.
pub const DEFAULT_SNAPSHOT_MDBX_INITIAL_MB: u64 = 1_024;

/// The size up to which the environment of the snapshots grows, in megabytes.
pub const DEFAULT_SNAPSHOT_MDBX_MAX_MB: u64 = 32_768;

/// The step in which the environment of the snapshots grows, in megabytes.
pub const DEFAULT_SNAPSHOT_MDBX_GROWTH_STEP_MB: u64 = 2_048;

} // verus!
