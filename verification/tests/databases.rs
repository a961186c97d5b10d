use kvdb::{DBOp, DBTransaction};
use mazze_storage::bytes;
use mazze_storage::bytes::{bytes_eq, bytes_lt, copy_range, prefix_upper_bound};
use mazze_storage::db::settings::{
    col_id, paritydb_settings, ColumnError, DatabaseCompactionProfile, ParityCompression,
    ParityDbOpenConfig, SystemDB,
};
use mazze_storage::db::transaction::{buffer_writes, write_buffered, KvdbParityDbTransaction};
use mazze_storage::hash::{EpochId, H256};
use mazze_storage::hex::HexError;
use mazze_storage::storage::epoch_map::EpochMap;
use mazze_storage::storage::snapshot_manager::{
    get_snapshot_by_epoch_id, GetSnapshotDbManager, SnapshotDbManagerTrait, SnapshotManagerTrait,
};
use mazze_storage::storage::storage_db::mdbx_dual_write::StoreError;
use mazze_storage::text::append_decimal;
use std::sync::Arc;

fn ops_of(t: &DBTransaction) -> Vec<(u32, Vec<u8>, Option<Vec<u8>>)> {
    t.ops
        .iter()
        .map(|op| match op {
            DBOp::Insert { col, key, value } => (*col, key.to_vec(), Some(value.clone())),
            DBOp::Delete { col, key } => (*col, key.to_vec(), None),
        })
        .collect()
}

#[test]
fn compaction_profiles_have_names() {
    assert_eq!(
        DatabaseCompactionProfile::from_str("auto"),
        Ok(DatabaseCompactionProfile::Auto)
    );
    assert_eq!(
        DatabaseCompactionProfile::from_str("ssd"),
        Ok(DatabaseCompactionProfile::SSD)
    );
    assert_eq!(
        DatabaseCompactionProfile::from_str("hdd"),
        Ok(DatabaseCompactionProfile::HDD)
    );
    assert!(DatabaseCompactionProfile::from_str("SSD").is_err());
    assert_eq!(DatabaseCompactionProfile::default(), DatabaseCompactionProfile::Auto);
}

#[test]
fn compressions_have_names_in_any_case() {
    assert_eq!(ParityCompression::from_str("SnAppy"), Ok(ParityCompression::Snappy));
    assert_eq!(ParityCompression::from_str("lz4"), Ok(ParityCompression::Lz4));
    assert_eq!(
        ParityCompression::from_str("ZSTD").unwrap_err(),
        "Invalid paritydb compression 'zstd'. Expected snappy/lz4"
    );
}

#[test]
fn settings_follow_the_configuration() {
    let mut config = ParityDbOpenConfig::default();
    assert_eq!(config.columns, 0);
    config.columns = 255;
    config.compression = Some(ParityCompression::Lz4);
    config.disable_wal = true;
    let settings = paritydb_settings(&config).unwrap();
    assert_eq!(settings.columns, 255);
    assert!(!settings.sync_wal && !settings.sync_data && !settings.stats);
    assert!(settings.btree_index);
    assert_eq!(settings.compression, Some(ParityCompression::Lz4));
    config.columns = 256;
    let e = paritydb_settings(&config).unwrap_err();
    assert_eq!(e, ColumnError::TooMany);
    assert_eq!(e.message(), "paritydb columns must fit into u8");
}

#[test]
fn columns_have_to_be_there() {
    assert_eq!(col_id(3, 2), Ok(2));
    assert_eq!(col_id(3, 3), Err(ColumnError::OutOfRange));
    assert_eq!(col_id(255, 256), Err(ColumnError::OutOfRange));
    assert_eq!(ColumnError::OutOfRange.message(), "column out of range");
}

#[test]
fn a_system_database_hands_out_its_store() {
    let store = Arc::new(7u32);
    let db = SystemDB::new(store.clone());
    assert!(Arc::ptr_eq(&db.key_value(), &store));
}

#[test]
fn transactions_are_written_as_one() {
    let mut t = DBTransaction::new();
    t.put(1, b"k", b"v");
    t.delete(0, b"gone");
    assert_eq!(
        write_buffered(2, t).unwrap(),
        vec![(1, b"k".to_vec(), Some(b"v".to_vec())), (0, b"gone".to_vec(), None)]
    );
    let mut t = DBTransaction::new();
    t.put(0, b"k", b"v");
    t.put(2, b"k", b"v");
    assert_eq!(write_buffered(2, t).unwrap_err(), ColumnError::OutOfRange);
    assert_eq!(write_buffered(0, DBTransaction::new()).unwrap(), Vec::new());
    assert_eq!(
        buffer_writes(1, &vec![(0, vec![1], None)]).unwrap(),
        vec![(0, vec![1], None)]
    );
}

#[test]
fn a_transaction_keeps_what_was_not_written() {
    let mut t = KvdbParityDbTransaction::new(4);
    t.put(b"a", b"1");
    t.delete(b"b");
    let expected = vec![(4, b"a".to_vec(), Some(b"1".to_vec())), (4, b"b".to_vec(), None)];
    assert_eq!(ops_of(&t.to_commit()), expected);
    t.committed(false);
    assert_eq!(ops_of(&t.to_commit()), expected);
    t.restart(true);
    assert_eq!(ops_of(&t.to_commit()), expected);
    t.committed(true);
    assert!(ops_of(&t.to_commit()).is_empty());
    t.put(b"c", b"3");
    t.revert();
    assert!(ops_of(&t.to_commit()).is_empty());
    t.put(b"d", b"4");
    t.restart(false);
    assert!(ops_of(&t.to_commit()).is_empty());
}

#[test]
fn bytes_are_ordered_and_cut() {
    assert!(bytes_lt(b"a", b"ab"));
    assert!(bytes_lt(b"ab", b"b"));
    assert!(!bytes_lt(b"b", b"ab"));
    assert!(!bytes_lt(b"a", b"a"));
    assert!(bytes_eq(b"ab", b"ab"));
    assert!(!bytes_eq(b"ab", b"ac"));
    assert_eq!(bytes::concat(b"ab", b"c"), b"abc");
    assert_eq!(copy_range(b"abcd", 1, 3), b"bc");
    assert_eq!(prefix_upper_bound(&[1, 0xff]), Some(vec![2, 0]));
    assert_eq!(prefix_upper_bound(&[0xff]), None);
    assert_eq!(prefix_upper_bound(&[]), None);
}

#[test]
fn hashes_are_written_and_read_as_text() {
    let h = H256::from_slice(&[0xab; 32]);
    assert_eq!(h.to_hex(), "ab".repeat(32));
    assert_eq!(H256::from_hex_str(&"AB".repeat(32)), Ok(h));
    assert_eq!(H256::from_hex_str("abab"), Err(HexError::InvalidHexLength));
    assert_eq!(
        H256::from_hex_str("0x"),
        Err(HexError::InvalidHexCharacter('x', 1))
    );
    assert_eq!(H256::from_hex_str("a"), Err(HexError::InvalidHexLength));
    assert_eq!(H256::zero().as_bytes(), &[0; 32]);
}

#[test]
fn numbers_are_written_in_decimal() {
    assert_eq!(append_decimal(String::from("n="), 0), "n=0");
    assert_eq!(append_decimal(String::new(), u64::MAX), "18446744073709551615");
}

#[test]
fn maps_hold_one_value_for_an_epoch() {
    let mut map = EpochMap::new();
    let (a, b) = (EpochId::from_slice(&[1; 32]), EpochId::from_slice(&[2; 32]));
    map.insert(&a, 1);
    map.insert(&b, 2);
    map.insert(&a, 3);
    assert_eq!(map.len(), 2);
    assert_eq!(map.get(&a), Some(&3));
    map.remove(&a);
    assert_eq!(map.get(&a), None);
    assert_eq!(map.len(), 1);
    assert_eq!(map.entry(0), (b, &2));
}

struct Snapshots;

impl SnapshotDbManagerTrait for Snapshots {
    type SnapshotDb = (EpochId, bool, bool);

    fn get_snapshot_by_epoch_id(
        &self,
        epoch_id: &EpochId,
        try_open: bool,
        open_mpt_snapshot: bool,
    ) -> Result<Option<(EpochId, bool, bool)>, StoreError> {
        Ok(Some((*epoch_id, try_open, open_mpt_snapshot)))
    }
}

impl GetSnapshotDbManager for Snapshots {
    type SnapshotDb = (EpochId, bool, bool);
    type SnapshotDbManager = Snapshots;

    fn get_snapshot_db_manager(&self) -> &Snapshots {
        self
    }
}

impl SnapshotManagerTrait for Snapshots {
    fn remove_old_main_snapshot(&self, _snapshot_epoch_id: &EpochId) -> Result<(), StoreError> {
        Ok(())
    }

    fn remove_non_main_snapshot(&self, _snapshot_epoch_id: &EpochId) -> Result<(), StoreError> {
        Ok(())
    }
}

#[test]
fn snapshots_are_asked_of_their_database() {
    let epoch = EpochId::from_slice(&[6; 32]);
    let found = get_snapshot_by_epoch_id(&Snapshots, &epoch, true, false).unwrap();
    assert_eq!(found, Some((epoch, true, false)));
}
