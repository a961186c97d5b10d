//! Sizes of the database environments, and how full they are.

use crate::storage::defaults::DEFAULT_MDBX_MAP_SIZE_MB;
use vstd::prelude::*;

verus! {

/// The occupancy, in percent, from which a warning is given.
pub const SNAPSHOT_MDBX_CAPACITY_WARN_PCT: u64 = 80;

/// The number of bytes of a megabyte.
pub const BYTES_PER_MB: u64 = 0x10_0000;

/// The occupancy in hundredths of a percent, rounded down.
pub open spec fn pct_x100(bytes_used: u64, max_bytes: u64) -> int {
    bytes_used * 10_000 / (max_bytes as int)
}

/// The occupancy in hundredths of a percent, rounded down; `None` where there is no ceiling. Only
/// where it exceeds 64 bits are its low bits given.
pub fn snapshot_mdbx_pct_x100(bytes_used: u64, max_bytes: u64) -> (r: Option<u64>)
    ensures
        r == (if max_bytes == 0 {
            None
        } else {
            Some(pct_x100(bytes_used, max_bytes) as u64)
        }),
{
    if max_bytes == 0 {
        return None;
    }
    let scaled: u128 = bytes_used as u128 * 10_000;
    let pct: u128 = scaled / max_bytes as u128;
    Some(
        #[verifier::truncate]
        (pct as u64),
    )
}

/// The occupancy of a full map is a hundred percent, and more use never lowers it.
pub proof fn pct_x100_is_a_percentage(bytes_used: u64, more: u64, max_bytes: u64)
    requires
        max_bytes > 0,
        bytes_used <= more,
    ensures
        pct_x100(0, max_bytes) == 0,
        pct_x100(max_bytes, max_bytes) == 10_000,
        pct_x100(bytes_used, max_bytes) <= pct_x100(more, max_bytes),
        bytes_used <= max_bytes ==> pct_x100(bytes_used, max_bytes) <= 10_000,
{
    let m = max_bytes as int;
    vstd::arithmetic::div_mod::lemma_div_multiples_vanish(10_000, m);
    assert(m * 10_000 == 10_000 * m);
    vstd::arithmetic::div_mod::lemma_div_is_ordered(bytes_used * 10_000, more * 10_000, m);
    vstd::arithmetic::div_mod::lemma_basic_div(0, m);
    if bytes_used <= max_bytes {
        vstd::arithmetic::div_mod::lemma_div_is_ordered(bytes_used * 10_000, m * 10_000, m);
    }
}

/// The occupancy to warn about, in whole percent and hundredths, once it has reached the mark.
pub fn capacity_warning(pct_x100: u64) -> (r: Option<(u64, u64)>)
    ensures
        r == (if pct_x100 / 100 >= SNAPSHOT_MDBX_CAPACITY_WARN_PCT {
            Some((pct_x100 / 100, pct_x100 % 100))
        } else {
            None
        }),
{
    let pct: u64 = pct_x100 / 100;
    if pct >= SNAPSHOT_MDBX_CAPACITY_WARN_PCT {
        Some((pct, pct_x100 % 100))
    } else {
        None
    }
}

/// A number of megabytes in bytes, cut at the greatest 64-bit number.
pub open spec fn mb_in_bytes(mb: u64) -> int {
    if mb * BYTES_PER_MB <= u64::MAX {
        mb * BYTES_PER_MB
    } else {
        u64::MAX as int
    }
}

/// A number of megabytes in bytes, cut at the greatest 64-bit number.
fn megabytes(mb: u64) -> (r: u64)
    ensures
        r == mb_in_bytes(mb),
{
    match mb.checked_mul(BYTES_PER_MB) {
        Some(bytes) => bytes,
        None => u64::MAX,
    }
}

/// The size of the hot environment's map: as configured, or the default.
pub fn hot_map_size_bytes(map_size_mb: Option<u64>) -> (r: usize)
    ensures
        r == (mb_in_bytes(
            match map_size_mb {
                Some(mb) => mb,
                None => DEFAULT_MDBX_MAP_SIZE_MB,
            },
        ) as usize),
{
    let mb: u64 = match map_size_mb {
        Some(mb) => mb,
        None => DEFAULT_MDBX_MAP_SIZE_MB,
    };
    #[verifier::truncate]
    (megabytes(mb) as usize)
}

/// How the map of the snapshot environment grows, in bytes.
#[derive(Clone, Copy, Debug, PartialEq, Eq, Structural)]
pub struct SnapshotEnvGeometry {
    pub initial_bytes: usize,
    pub max_bytes: usize,
    pub growth_bytes: usize,
}

/// A number of megabytes in bytes, cut at the greatest size of this machine.
pub open spec fn mb_as_size(mb: usize) -> int {
    if mb * BYTES_PER_MB <= usize::MAX {
        mb * BYTES_PER_MB
    } else {
        usize::MAX as int
    }
}

fn megabytes_as_size(mb: usize) -> (r: usize)
    ensures
        r == mb_as_size(mb),
{
    match mb.checked_mul(0x10_0000) {
        Some(bytes) => bytes,
        None => usize::MAX,
    }
}

/// How the map of the snapshot environment grows, as configured in megabytes.
pub fn snapshot_env_geometry(initial_mb: u64, max_mb: u64, growth_step_mb: u64) -> (r:
    SnapshotEnvGeometry)
    ensures
        r.initial_bytes == mb_as_size(initial_mb as usize),
        r.max_bytes == mb_as_size(max_mb as usize),
        r.growth_bytes == mb_as_size(growth_step_mb as usize),
{
    SnapshotEnvGeometry {
        initial_bytes: megabytes_as_size(
            #[verifier::truncate]
            (initial_mb as usize),
        ),
        max_bytes: megabytes_as_size(
            #[verifier::truncate]
            (max_mb as usize),
        ),
        growth_bytes: megabytes_as_size(
            #[verifier::truncate]
            (growth_step_mb as usize),
        ),
    }
}

/// The number of running snapshot tasks after `delta` more of them, and what the gauge shows. The
/// count wraps round; the gauge stays at its end instead.
pub fn snapshot_in_flight_adjust(count: usize, delta: i64) -> (r: (usize, usize))
    requires
        delta > i64::MIN,
        -(usize::MAX as int) <= delta <= usize::MAX,
    ensures
        0 <= count + delta <= usize::MAX ==> r == ((count + delta) as usize, (count
            + delta) as usize),
        count + delta < 0 ==> r == ((count + delta + usize::MAX + 1) as usize, 0usize),
        count + delta > usize::MAX ==> r == ((count + delta - usize::MAX - 1) as usize, usize::MAX),
{
    if delta >= 0 {
        let inc: usize = delta as usize;
        (count.wrapping_add(inc), count.saturating_add(inc))
    } else {
        let dec: usize = (-delta) as usize;
        (count.wrapping_sub(dec), count.saturating_sub(dec))
    }
}

} // verus!
