use mazze_storage::bytes::starts_with;
use mazze_storage::hash::EpochId;
use mazze_storage::hex::HexError;
use mazze_storage::storage::snapshot_info::{
    PersistedSnapshotInfoMap, SnapshotInfo, SnapshotKeptToProvideSyncStatus,
};
use mazze_storage::storage::storage_db::delta_db_manager::{delta_db_range, scan_persist_state};
use mazze_storage::storage::storage_db::kvdb_mdbx::BatchOp;
use mazze_storage::storage::storage_db::mdbx_dual_write::{
    DualWritePrimary, ShadowStore, StoreError,
};
use mazze_storage::storage::storage_db::names::{
    db_name, metrics_group, parse_epoch_id, DbNameError,
};
use mazze_storage::storage::storage_db::ordered_walk::RangeScan;
use mazze_storage::storage::storage_db::prefix_scan::PrefixScan;
use mazze_storage::storage::storage_db::prefixed_kvdb_mdbx::{
    PrefixedKvdbMdbx, DELTA_MPT_PREFIX_LEN,
};
use std::collections::BTreeMap;
use std::sync::{Arc, Mutex};

/// A table in memory. Its clones share their entries.
#[derive(Clone)]
struct MemStore(Arc<Mutex<BTreeMap<Vec<u8>, Vec<u8>>>>);

impl MemStore {
    fn new() -> Self {
        MemStore(Arc::new(Mutex::new(BTreeMap::new())))
    }
}

impl DualWritePrimary for MemStore {
    fn dw_put(&self, k: &[u8], v: &[u8]) -> Result<(), StoreError> {
        self.0.lock().unwrap().insert(k.to_vec(), v.to_vec());
        Ok(())
    }

    fn dw_delete(&self, k: &[u8]) -> Result<(), StoreError> {
        self.0.lock().unwrap().remove(k);
        Ok(())
    }

    fn dw_get(&self, k: &[u8]) -> Result<Option<Vec<u8>>, StoreError> {
        Ok(self.0.lock().unwrap().get(k).cloned())
    }

    fn dw_iter_range(
        &self,
        lower_incl: &[u8],
        upper_excl: Option<&[u8]>,
    ) -> Result<Vec<(Vec<u8>, Vec<u8>)>, StoreError> {
        let table = self.0.lock().unwrap();
        let mut scan = RangeScan::new(upper_excl.map(|u| u.to_vec()));
        for (k, v) in table.range(lower_incl.to_vec()..) {
            if !scan.take(k.clone(), v.clone()) {
                break;
            }
        }
        Ok(scan.into_found())
    }
}

impl ShadowStore for MemStore {
    fn dw_write_batch(&self, ops: &[BatchOp]) -> Result<(), StoreError> {
        let mut table = self.0.lock().unwrap();
        for op in ops {
            match op {
                BatchOp::Put(k, v) => {
                    table.insert(k.to_vec(), v.to_vec());
                }
                BatchOp::Delete(k) => {
                    table.remove(*k);
                }
            }
        }
        Ok(())
    }
}

fn epoch_id(byte: u8) -> EpochId {
    EpochId::from_slice(&[byte; DELTA_MPT_PREFIX_LEN])
}

fn delta_db(table: &MemStore, id: &EpochId) -> PrefixedKvdbMdbx<MemStore> {
    PrefixedKvdbMdbx::new(table.clone(), id.as_bytes().to_vec())
}

fn has_any(table: &MemStore, id: &EpochId) -> bool {
    let (lower, upper) = delta_db_range(&db_name(id)).unwrap();
    !table.dw_iter_range(&lower, upper.as_deref()).unwrap().is_empty()
}

fn destroy(table: &MemStore, name: &str) {
    let (lower, upper) = delta_db_range(name).unwrap();
    for (k, _) in table.dw_iter_range(&lower, upper.as_deref()).unwrap() {
        table.dw_delete(&k).unwrap();
    }
}

fn present_prefixes(table: &MemStore) -> Vec<EpochId> {
    let mut scan = PrefixScan::new();
    loop {
        let cursor = match scan.cursor() {
            Some(c) => c.to_vec(),
            None => break,
        };
        let first = table.0.lock().unwrap().range(cursor..).next().map(|(k, _)| k.clone());
        scan.answer(first.as_deref());
    }
    scan.into_found()
}

#[test]
fn delta_db_name_format_matches_paritydb() {
    let id = epoch_id(0xab);
    let name = db_name(&id);
    assert!(name.starts_with("paritydb_"));
    assert_eq!(name, "paritydb_".to_string() + &"ab".repeat(DELTA_MPT_PREFIX_LEN));
}

#[test]
fn epoch_id_round_trips_through_name() {
    let id = epoch_id(0x5a);
    let name = db_name(&id);
    assert_eq!(parse_epoch_id(&name).unwrap(), id);
}

#[test]
fn parse_epoch_id_rejects_malformed_names() {
    assert!(parse_epoch_id("wrong").is_err());
    assert!(parse_epoch_id("paritydb_zz").is_err());
    assert!(parse_epoch_id("paritydb_abcd").is_err());
}

#[test]
fn malformed_names_are_told_apart() {
    assert_eq!(parse_epoch_id("wrong").unwrap_err(), DbNameError::MissingPrefix);
    assert_eq!(
        parse_epoch_id("paritydb_zz").unwrap_err(),
        DbNameError::InvalidHex(HexError::InvalidHexCharacter('z', 0))
    );
    assert_eq!(
        parse_epoch_id("paritydb_abc").unwrap_err(),
        DbNameError::InvalidHex(HexError::InvalidHexLength)
    );
    assert_eq!(parse_epoch_id("paritydb_abcd").unwrap_err(), DbNameError::WrongLength(2));
    assert_eq!(delta_db_range("wrong").unwrap_err(), DbNameError::MissingPrefix);
    let capitals = "paritydb_".to_string() + &"AB".repeat(32);
    assert_eq!(parse_epoch_id(&capitals).unwrap_err(), DbNameError::NotCanonical);
    let blank = "paritydb_ ".to_string() + &"ab".repeat(32);
    assert_eq!(parse_epoch_id(&blank).unwrap_err(), DbNameError::NotCanonical);
}

#[test]
fn metrics_are_grouped_by_snapshot() {
    assert_eq!(
        metrics_group(&epoch_id(0x01)),
        "mdbx_delta_mpt.".to_string() + &"01".repeat(32)
    );
}

#[test]
fn new_empty_get_and_isolate() {
    let table = MemStore::new();
    let a = delta_db(&table, &epoch_id(0x01));
    a.put(b"key", b"a-val").unwrap();

    assert!(has_any(&table, &epoch_id(0x01)));
    let a_reopen = delta_db(&table, &epoch_id(0x01));
    assert_eq!(a_reopen.get(b"key").unwrap().as_deref(), Some(&b"a-val"[..]));

    assert!(!has_any(&table, &epoch_id(0x02)));
}

#[test]
fn destroy_purges_only_target_prefix() {
    let table = MemStore::new();
    let a = delta_db(&table, &epoch_id(0xa0));
    let b = delta_db(&table, &epoch_id(0xb0));
    for i in 0u8..16 {
        a.put(&[i], &[i, i]).unwrap();
        b.put(&[i], &[i, i]).unwrap();
    }

    destroy(&table, &db_name(&epoch_id(0xa0)));

    assert!(!has_any(&table, &epoch_id(0xa0)));
    assert!(has_any(&table, &epoch_id(0xb0)));
    for i in 0u8..16 {
        assert_eq!(b.get(&[i]).unwrap().as_deref(), Some(&[i, i][..]));
    }
}

#[test]
fn the_range_of_the_highest_epoch_has_no_upper_end() {
    let (lower, upper) = delta_db_range(&db_name(&epoch_id(0xff))).unwrap();
    assert_eq!(lower, vec![0xff; 32]);
    assert_eq!(upper, None);
}

#[test]
fn enumerate_present_prefixes_sees_all() {
    let table = MemStore::new();
    let ids: Vec<EpochId> = (0..4).map(|i| epoch_id(0x10 + i)).collect();
    for id in &ids {
        delta_db(&table, id).put(b"k", b"v").unwrap();
    }
    assert_eq!(present_prefixes(&table), ids);
}

#[test]
fn short_keys_are_passed_over() {
    let table = MemStore::new();
    table.dw_put(&[0x10], b"stray").unwrap();
    delta_db(&table, &epoch_id(0x20)).put(b"k", b"v").unwrap();
    delta_db(&table, &epoch_id(0xff)).put(b"k", b"v").unwrap();
    assert_eq!(present_prefixes(&table), vec![epoch_id(0x20), epoch_id(0xff)]);
}

#[test]
fn scan_persist_state_destroys_orphans() {
    let table = MemStore::new();
    let live_id = epoch_id(0x77);
    delta_db(&table, &live_id).put(b"k", b"live").unwrap();
    let orphan_id = epoch_id(0x88);
    delta_db(&table, &orphan_id).put(b"k", b"orphan").unwrap();

    let mut snapshot_info_map = PersistedSnapshotInfoMap::new();
    let mut info = SnapshotInfo::genesis_snapshot_info();
    info.parent_snapshot_epoch_id = live_id;
    info.snapshot_info_kept_to_provide_sync = SnapshotKeptToProvideSyncStatus::No;
    snapshot_info_map.insert(&live_id, info);

    let scan = scan_persist_state(&snapshot_info_map, &present_prefixes(&table));
    for orphan in &scan.orphans {
        destroy(&table, &db_name(orphan));
    }
    assert!(scan.missing_delta_dbs.is_empty());
    assert!(scan.delta_dbs.contains(&live_id));
    assert!(has_any(&table, &live_id));
    assert!(!has_any(&table, &orphan_id));
}

#[test]
fn missing_delta_tries_are_reported() {
    let id = epoch_id(0x31);
    let mut map = PersistedSnapshotInfoMap::new();
    map.insert(&id, SnapshotInfo::genesis_snapshot_info());
    let scan = scan_persist_state(&map, &Vec::new());
    assert_eq!(scan.missing_delta_dbs, vec![id]);
    assert!(scan.delta_dbs.is_empty() && scan.orphans.is_empty());
}

#[test]
fn keys_of_a_prefix_are_recognised() {
    assert!(starts_with(b"abc", b"ab"));
    assert!(!starts_with(b"a", b"ab"));
}
