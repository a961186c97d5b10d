use mazze_storage::storage::defaults::DEFAULT_MDBX_MAP_SIZE_MB;
use mazze_storage::storage::storage_manager::capacity::{
    capacity_warning, hot_map_size_bytes, snapshot_env_geometry, snapshot_in_flight_adjust,
    snapshot_mdbx_pct_x100,
};

#[test]
fn zero_bytes_used() {
    assert_eq!(snapshot_mdbx_pct_x100(0, 1024 * 1024).unwrap(), 0);
}

#[test]
fn half_full() {
    let mb: u64 = 1024 * 1024;
    assert_eq!(snapshot_mdbx_pct_x100(512 * mb, 1024 * mb).unwrap(), 5000);
}

#[test]
fn full_and_over_full() {
    let m: u64 = 1024;
    assert_eq!(snapshot_mdbx_pct_x100(m, m).unwrap(), 10_000);
    assert_eq!(snapshot_mdbx_pct_x100(m * 2, m).unwrap(), 20_000);
}

#[test]
fn zero_max_returns_none() {
    assert!(snapshot_mdbx_pct_x100(1_000_000, 0).is_none());
}

#[test]
fn huge_bytes_used_does_not_overflow() {
    let one_eb = 1u64 << 60;
    let max = 32u64 * 1024 * 1024 * 1024;
    let pct = snapshot_mdbx_pct_x100(one_eb, max).unwrap();
    assert!(pct > 100_000_000);
}

#[test]
fn warnings_begin_at_eighty_percent() {
    assert_eq!(capacity_warning(7_999), None);
    assert_eq!(capacity_warning(8_000), Some((80, 0)));
    assert_eq!(capacity_warning(9_507), Some((95, 7)));
}

#[test]
fn sizes_are_megabytes() {
    assert_eq!(hot_map_size_bytes(Some(3)), 3 * 1024 * 1024);
    assert_eq!(hot_map_size_bytes(None), (DEFAULT_MDBX_MAP_SIZE_MB * 1024 * 1024) as usize);
    let g = snapshot_env_geometry(1, 2, 4);
    assert_eq!(g.initial_bytes, 1024 * 1024);
    assert_eq!(g.max_bytes, 2 * 1024 * 1024);
    assert_eq!(g.growth_bytes, 4 * 1024 * 1024);
    assert_eq!(snapshot_env_geometry(u64::MAX, 0, 0).initial_bytes, usize::MAX);
}

#[test]
fn snapshots_in_flight_are_counted() {
    assert_eq!(snapshot_in_flight_adjust(0, 1), (1, 1));
    assert_eq!(snapshot_in_flight_adjust(1, -1), (0, 0));
}
