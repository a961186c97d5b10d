use mazze_storage::hash::{null_epoch, EpochId, MerkleHash};
use mazze_storage::storage::snapshot_info::{
    LoadError, PersistedSnapshotInfoMap, SnapshotInfo, SnapshotKeptToProvideSyncStatus,
};
use mazze_storage::storage::storage_db::kvdb_mdbx::BatchOp;
use mazze_storage::storage::storage_db::mdbx_dual_write::{
    DualWritePrimary, ShadowStore, StoreError,
};
use mazze_storage::storage::storage_db::merge_marker::{
    marker_key, marking, read_marker, MarkerError, Marking, MergeMarker,
};
use mazze_storage::storage::storage_db::names::{
    db_name, get_epoch_id_from_snapshot_db_name, get_full_sync_temp_snapshot_db_name,
    get_latest_mpt_snapshot_db_name, get_merge_temp_snapshot_db_name,
    try_get_new_snapshot_epoch_from_temp_path,
};
use mazze_storage::storage::storage_db::ordered_walk::RangeScan;
use mazze_storage::storage::storage_db::prefix_scan::PrefixScan;
use mazze_storage::storage::storage_db::snapshot_db_manager_mdbx::{
    SnapshotDbManagerMdbx, SnapshotLookup, SnapshotScan,
};
use mazze_storage::storage::storage_db::snapshot_merge::{
    announcement, full_sync_announcement, next_merge_stage, stamp_root, MergeEvent, MergeFailure,
    MergeStage, MergeTask,
};
use mazze_storage::storage::storage_db::snapshot_prefix::{
    compose_snapshot_prefix, compose_snapshot_scope, snapshot_scope_upper_bound, MergeMarkerKind,
    SNAPSHOT_EPOCH_ID_LEN, SUB_PREFIX_KV, SUB_PREFIX_MERGE_MARKER,
};
use rlp::RlpStream;
use std::collections::BTreeMap;
use std::sync::{Arc, Mutex};

/// A table in memory. Its clones share their entries.
#[derive(Clone)]
struct MemStore(Arc<Mutex<BTreeMap<Vec<u8>, Vec<u8>>>>);

impl MemStore {
    fn new() -> Self {
        MemStore(Arc::new(Mutex::new(BTreeMap::new())))
    }
}

impl DualWritePrimary for MemStore {
    fn dw_put(&self, k: &[u8], v: &[u8]) -> Result<(), StoreError> {
        self.0.lock().unwrap().insert(k.to_vec(), v.to_vec());
        Ok(())
    }

    fn dw_delete(&self, k: &[u8]) -> Result<(), StoreError> {
        self.0.lock().unwrap().remove(k);
        Ok(())
    }

    fn dw_get(&self, k: &[u8]) -> Result<Option<Vec<u8>>, StoreError> {
        Ok(self.0.lock().unwrap().get(k).cloned())
    }

    fn dw_iter_range(
        &self,
        lower_incl: &[u8],
        upper_excl: Option<&[u8]>,
    ) -> Result<Vec<(Vec<u8>, Vec<u8>)>, StoreError> {
        let table = self.0.lock().unwrap();
        let mut scan = RangeScan::new(upper_excl.map(|u| u.to_vec()));
        for (k, v) in table.range(lower_incl.to_vec()..) {
            if !scan.take(k.clone(), v.clone()) {
                break;
            }
        }
        Ok(scan.into_found())
    }
}

impl ShadowStore for MemStore {
    fn dw_write_batch(&self, ops: &[BatchOp]) -> Result<(), StoreError> {
        let mut table = self.0.lock().unwrap();
        for op in ops {
            match op {
                BatchOp::Put(k, v) => {
                    table.insert(k.to_vec(), v.to_vec());
                }
                BatchOp::Delete(k) => {
                    table.remove(*k);
                }
            }
        }
        Ok(())
    }
}

fn snapshot_id(byte: u8) -> EpochId {
    EpochId::from_slice(&[byte; 32])
}

fn put_entry(table: &MemStore, id: &EpochId, key: &[u8], value: &[u8]) {
    let mut k = compose_snapshot_prefix(id, SUB_PREFIX_KV);
    k.extend_from_slice(key);
    table.dw_put(&k, value).unwrap();
}

fn snapshot_has_any_data(table: &MemStore, id: &EpochId) -> bool {
    let lower = compose_snapshot_scope(id);
    let upper = snapshot_scope_upper_bound(id);
    !table
        .dw_iter_range(&lower, upper.as_ref().map(|u| &u[..]))
        .unwrap()
        .is_empty()
}

fn purge(table: &MemStore, id: &EpochId) {
    let lower = compose_snapshot_scope(id);
    let upper = snapshot_scope_upper_bound(id);
    for (k, _) in table
        .dw_iter_range(&lower, upper.as_ref().map(|u| &u[..]))
        .unwrap()
    {
        table.dw_delete(&k).unwrap();
    }
}

fn stored_marker(table: &MemStore, id: &EpochId) -> Option<MergeMarker> {
    read_marker(table.dw_get(&marker_key(id)).unwrap().as_deref())
}

fn write_marker(table: &MemStore, id: &EpochId, marker: &MergeMarker) {
    table.dw_put(&marker_key(id), &marker.encode()).unwrap();
}

fn present_prefixes(table: &MemStore) -> Vec<EpochId> {
    let mut scan = PrefixScan::new();
    loop {
        let cursor = match scan.cursor() {
            Some(c) => c.to_vec(),
            None => break,
        };
        let first = table.0.lock().unwrap().range(cursor..).next().map(|(k, _)| k.clone());
        scan.answer(first.as_deref());
    }
    scan.into_found()
}

/// What a start of the node does: it looks at what is stored, and destroys what does not stay.
fn scan(
    m: &mut SnapshotDbManagerMdbx,
    table: &MemStore,
    map: &PersistedSnapshotInfoMap,
) -> SnapshotScan {
    let present = present_prefixes(table);
    let stored: Vec<Option<Vec<u8>>> =
        present.iter().map(|e| table.dw_get(&marker_key(e)).unwrap()).collect();
    let r = m.scan_persist_state(map, &present, &stored);
    for id in r.interrupted.iter().chain(r.state.removed_snapshots.iter()) {
        purge(table, id);
    }
    r
}

#[test]
fn merge_marker_rlp_round_trips_both_kinds() {
    let parent = snapshot_id(0xa0);
    let merge = MergeMarker::merge(&parent, 1_700_000_000);
    let decoded = MergeMarker::decode(&merge.encode()).unwrap();
    assert_eq!(decoded, merge);
    assert_eq!(decoded.kind, MergeMarkerKind::Merge);

    let root = MerkleHash::from_slice(&[0xb1u8; 32]);
    let fs = MergeMarker::full_sync(&root, 1_700_000_100);
    let decoded = MergeMarker::decode(&fs.encode()).unwrap();
    assert_eq!(decoded, fs);
    assert_eq!(decoded.kind, MergeMarkerKind::FullSync);
}

#[test]
fn merge_marker_rlp_rejects_unknown_kind_tag() {
    let mut s = RlpStream::new_list(3);
    s.append(&255u8);
    s.append(&0u64);
    s.append(&[0u8; 32].as_ref());
    let bytes = s.out();
    let result = MergeMarker::decode(&bytes);
    assert!(result.is_err());
    assert_eq!(result.unwrap_err(), MarkerError::UnknownKind);
}

#[test]
fn merge_marker_rlp_rejects_short_context() {
    let mut s = RlpStream::new_list(3);
    s.append(&1u8);
    s.append(&0u64);
    s.append(&[0u8; 16].as_ref());
    let bytes = s.out();
    let result = MergeMarker::decode(&bytes);
    assert!(result.is_err());
    assert_eq!(result.unwrap_err(), MarkerError::ContextLength);
}

#[test]
fn merge_marker_has_the_bytes_of_a_list_of_three() {
    let marker = MergeMarker::merge(&snapshot_id(0x07), 0x0102);
    let mut s = RlpStream::new_list(3);
    s.append(&1u8);
    s.append(&0x0102u64);
    s.append(&[0x07u8; 32].as_ref());
    assert_eq!(marker.encode(), s.out().to_vec());
    let mut expected = vec![0xe5, 0x01, 0x82, 0x01, 0x02, 0xa0];
    expected.extend_from_slice(&[0x07; 32]);
    assert_eq!(marker.encode(), expected);
}

#[test]
fn merge_marker_rejects_other_bytes() {
    let mut s = RlpStream::new_list(2);
    s.append(&1u8);
    s.append(&0u64);
    assert_eq!(
        MergeMarker::decode(&s.out()).unwrap_err(),
        MarkerError::RlpIncorrectListLen
    );
    assert_eq!(MergeMarker::decode(b"not-rlp").unwrap_err(), MarkerError::Rlp);
    assert_eq!(
        MergeMarker::from_fields(9, 0, &[0; 32]).unwrap_err(),
        MarkerError::UnknownKind
    );
}

#[test]
fn name_format_matches_and_round_trips() {
    let id = snapshot_id(0x5a);
    let name = db_name(&id);
    assert!(name.starts_with("paritydb_"));
    assert_eq!(name, "paritydb_".to_string() + &"5a".repeat(32));
    assert_eq!(get_epoch_id_from_snapshot_db_name(&name).unwrap(), id);
}

#[test]
fn other_names_are_no_snapshots() {
    assert!(get_epoch_id_from_snapshot_db_name("paritydb_latest").is_none());
    assert!(get_epoch_id_from_snapshot_db_name("short").is_none());
    assert_eq!(get_latest_mpt_snapshot_db_name(), "paritydb_latest");
}

#[test]
fn temp_names_tell_the_new_epoch() {
    let old = snapshot_id(0x01);
    let new = snapshot_id(0x02);
    let name = get_merge_temp_snapshot_db_name(&old, &new);
    assert_eq!(
        name,
        "paritydb_merge_temp_".to_string() + &"01".repeat(32) + &"02".repeat(32)
    );
    assert_eq!(try_get_new_snapshot_epoch_from_temp_path(&name), Some(new));
    assert_eq!(try_get_new_snapshot_epoch_from_temp_path(&db_name(&new)), None);
    assert_eq!(
        get_full_sync_temp_snapshot_db_name(&old, &new),
        "paritydb_full_sync_temp_".to_string() + &"01".repeat(32) + &"02".repeat(32)
    );
}

#[test]
fn snapshot_dir_exists_uses_in_memory_set() {
    let mut m = SnapshotDbManagerMdbx::new();
    assert!(m.snapshot_dir_exists(&null_epoch()));
    let id = snapshot_id(0x77);
    assert!(!m.snapshot_dir_exists(&id));
    m.mark_snapshot_known(id);
    assert!(m.snapshot_dir_exists(&id));
}

#[test]
fn get_snapshot_probe_returns_some_iff_data_present() {
    let table = MemStore::new();
    let empty_id = snapshot_id(0x11);
    let populated_id = snapshot_id(0x22);
    put_entry(&table, &populated_id, b"account_key", b"account_value");
    assert_eq!(
        SnapshotDbManagerMdbx::get_snapshot_by_epoch_id(
            &empty_id,
            snapshot_has_any_data(&table, &empty_id)
        ),
        SnapshotLookup::Absent
    );
    assert_eq!(
        SnapshotDbManagerMdbx::get_snapshot_by_epoch_id(
            &populated_id,
            snapshot_has_any_data(&table, &populated_id)
        ),
        SnapshotLookup::Open
    );
    assert_eq!(
        SnapshotDbManagerMdbx::get_snapshot_by_epoch_id(&null_epoch(), false),
        SnapshotLookup::Null
    );
}

#[test]
fn destroy_purges_slice_and_evicts_known() {
    let table = MemStore::new();
    let mut m = SnapshotDbManagerMdbx::new();
    let target = snapshot_id(0xa1);
    let bystander = snapshot_id(0xa2);
    for i in 0u8..32 {
        put_entry(&table, &target, &[i], &[i]);
        put_entry(&table, &bystander, &[i], &[i]);
    }
    m.mark_snapshot_known(target);
    m.mark_snapshot_known(bystander);

    purge(&table, &target);
    m.forget_snapshot(&target);

    assert!(!snapshot_has_any_data(&table, &target));
    assert!(snapshot_has_any_data(&table, &bystander));
    assert!(!m.snapshot_dir_exists(&target));
    assert!(m.snapshot_dir_exists(&bystander));
    assert_eq!(m.known_snapshots_snapshot(), vec![bystander]);
}

#[test]
fn temp_path_helpers_return_none_under_mdbx() {
    let m = SnapshotDbManagerMdbx::new();
    assert!(m.try_get_new_snapshot_epoch_from_temp_path("anything").is_none());
    assert!(m.try_get_new_snapshot_epoch_from_mpt_temp_path("anything").is_none());
}

#[test]
fn marker_key_layout() {
    let id = snapshot_id(0x99);
    let key = marker_key(&id);
    assert_eq!(key.len(), SNAPSHOT_EPOCH_ID_LEN + 1);
    assert_eq!(&key[..SNAPSHOT_EPOCH_ID_LEN], id.as_bytes());
    assert_eq!(key[SNAPSHOT_EPOCH_ID_LEN], SUB_PREFIX_MERGE_MARKER);
}

#[test]
fn write_read_delete_marker_round_trip() {
    let table = MemStore::new();
    let id = snapshot_id(0xdd);
    assert!(stored_marker(&table, &id).is_none());
    let marker = MergeMarker::merge(&snapshot_id(0xd0), 42);
    write_marker(&table, &id, &marker);
    let read = stored_marker(&table, &id).unwrap();
    assert_eq!(read, marker);
    table.dw_delete(&marker_key(&id)).unwrap();
    assert!(stored_marker(&table, &id).is_none());
}

#[test]
fn corrupt_marker_reads_as_none() {
    let table = MemStore::new();
    let id = snapshot_id(0xee);
    table.dw_put(&marker_key(&id), b"not-rlp").unwrap();
    assert!(stored_marker(&table, &id).is_none());
}

#[test]
fn a_recorded_snapshot_with_a_corrupt_marker_is_removed() {
    let table = MemStore::new();
    let mut m = SnapshotDbManagerMdbx::new();
    let corrupt = snapshot_id(0xe1);
    let sound = snapshot_id(0xe2);
    let mut info_map = PersistedSnapshotInfoMap::new();
    for (id, height) in [(corrupt, 90u64), (sound, 45)] {
        put_entry(&table, &id, b"account", b"balance");
        let mut info = SnapshotInfo::genesis_snapshot_info();
        info.height = height;
        info_map.insert(&id, info);
    }
    table.dw_put(&marker_key(&corrupt), b"not-rlp").unwrap();

    let r = scan(&mut m, &table, &info_map);
    assert_eq!(r.state.removed_snapshots, vec![corrupt]);
    assert_eq!(r.state.missing_snapshots, vec![corrupt]);
    assert_eq!(r.state.temp_snapshot_db_existing, None);
    assert!(r.interrupted.is_empty());
    assert_eq!(r.survivors, vec![sound]);
    assert_eq!((r.state.max_epoch_id, r.state.max_epoch_height), (sound, 45));
    assert!(!snapshot_has_any_data(&table, &corrupt));
    assert!(snapshot_has_any_data(&table, &sound));
    assert!(!m.snapshot_dir_exists(&corrupt));
    assert_eq!(marking(&None), Marking::Unmarked);
    assert_eq!(marking(&Some(b"not-rlp".to_vec())), Marking::Corrupt);
    assert_eq!(marking(&Some(MergeMarker::merge(&sound, 1).encode())), Marking::Marked);
}

#[test]
fn a_merge_that_fails_is_found_and_removed_by_the_next_scan() {
    let table = MemStore::new();
    let mut m = SnapshotDbManagerMdbx::new();
    let task = MergeTask {
        old_snapshot_epoch_id: snapshot_id(0x41),
        snapshot_epoch_id: snapshot_id(0x42),
        new_epoch_height: 4000,
        skip_dump: false,
    };
    let epoch = task.snapshot_epoch_id;
    table.dw_put(&marker_key(&epoch), &announcement(&task, 7)).unwrap();
    let mut stage = m.advance_merge(&task, MergeStage::Announce, MergeEvent::Done);
    put_entry(&table, &epoch, b"half", b"done");
    stage = m.advance_merge(&task, stage, MergeEvent::Done);
    assert!(matches!(stage, MergeStage::OpenParent));
    stage = m.advance_merge(&task, stage, MergeEvent::NotFound);
    assert!(matches!(stage, MergeStage::Failed(MergeFailure::SnapshotNotFound)));
    assert!(!m.snapshot_dir_exists(&epoch));
    assert_eq!(
        stored_marker(&table, &epoch),
        Some(MergeMarker::merge(&task.old_snapshot_epoch_id, 7))
    );

    let r = scan(&mut m, &table, &PersistedSnapshotInfoMap::new());
    assert_eq!(r.interrupted, vec![epoch]);
    assert_eq!(r.state.temp_snapshot_db_existing, Some(epoch));
    assert!(!snapshot_has_any_data(&table, &epoch));
}

#[test]
fn a_merge_makes_its_snapshot_known_when_it_is_done() {
    let mut m = SnapshotDbManagerMdbx::new();
    let task = MergeTask {
        old_snapshot_epoch_id: null_epoch(),
        snapshot_epoch_id: snapshot_id(0x43),
        new_epoch_height: 4000,
        skip_dump: true,
    };
    let mut stage = m.advance_merge(&task, MergeStage::Announce, MergeEvent::Done);
    stage = m.advance_merge(&task, stage, MergeEvent::Merged(snapshot_id(9)));
    assert!(!m.snapshot_dir_exists(&task.snapshot_epoch_id));
    stage = m.advance_merge(&task, stage, MergeEvent::Done);
    assert!(matches!(stage, MergeStage::Done { root } if root == snapshot_id(9)));
    assert!(m.snapshot_dir_exists(&task.snapshot_epoch_id));
}

#[test]
fn enumerate_present_prefixes_all_snapshots() {
    let table = MemStore::new();
    let ids: Vec<EpochId> = (0..4).map(|i| snapshot_id(0x10 + i)).collect();
    for id in &ids {
        put_entry(&table, id, b"payload", b"v");
    }
    assert_eq!(present_prefixes(&table), ids);
}

#[test]
fn scan_persist_state_recovers_interrupted_merge() {
    let table = MemStore::new();
    let mut m = SnapshotDbManagerMdbx::new();
    let child_id = snapshot_id(0x55);
    write_marker(&table, &child_id, &MergeMarker::merge(&snapshot_id(0x54), 100));
    put_entry(&table, &child_id, b"partial", b"data");
    assert!(snapshot_has_any_data(&table, &child_id));

    let state = scan(&mut m, &table, &PersistedSnapshotInfoMap::new()).state;
    assert_eq!(state.temp_snapshot_db_existing, Some(child_id));
    assert!(!snapshot_has_any_data(&table, &child_id));
    assert!(stored_marker(&table, &child_id).is_none());
}

#[test]
fn scan_persist_state_gcs_orphan_without_marker() {
    let table = MemStore::new();
    let mut m = SnapshotDbManagerMdbx::new();
    let orphan_id = snapshot_id(0x66);
    put_entry(&table, &orphan_id, b"leftover", b"v");

    let state = scan(&mut m, &table, &PersistedSnapshotInfoMap::new()).state;
    assert!(state.removed_snapshots.contains(&orphan_id));
    assert_eq!(state.temp_snapshot_db_existing, None);
    assert!(!snapshot_has_any_data(&table, &orphan_id));
}

#[test]
fn scan_persist_state_preserves_expected_snapshots() {
    let table = MemStore::new();
    let mut m = SnapshotDbManagerMdbx::new();
    let expected_id = snapshot_id(0xaa);
    put_entry(&table, &expected_id, b"account", b"balance");

    let mut info_map = PersistedSnapshotInfoMap::new();
    let mut info = SnapshotInfo::genesis_snapshot_info();
    info.height = 42;
    info.parent_snapshot_epoch_id = expected_id;
    info.snapshot_info_kept_to_provide_sync = SnapshotKeptToProvideSyncStatus::No;
    info_map.insert(&expected_id, info);

    let state = scan(&mut m, &table, &info_map).state;
    assert_eq!(state.max_epoch_id, expected_id);
    assert_eq!(state.max_epoch_height, 42);
    assert!(state.missing_snapshots.is_empty());
    assert!(state.removed_snapshots.is_empty());
    assert_eq!(state.max_snapshot_epoch_height_has_mpt, Some(42));
    assert!(m.snapshot_dir_exists(&expected_id));
}

#[test]
fn scan_persist_state_reports_missing_snapshots() {
    let table = MemStore::new();
    let mut m = SnapshotDbManagerMdbx::new();
    let missing_id = snapshot_id(0xbb);
    let mut info_map = PersistedSnapshotInfoMap::new();
    let mut info = SnapshotInfo::genesis_snapshot_info();
    info.height = 7;
    info.parent_snapshot_epoch_id = missing_id;
    info.snapshot_info_kept_to_provide_sync = SnapshotKeptToProvideSyncStatus::No;
    info_map.insert(&missing_id, info);
    let state = scan(&mut m, &table, &info_map).state;
    assert_eq!(state.missing_snapshots, vec![missing_id]);
    assert_eq!(state.max_epoch_id, null_epoch());
    assert_eq!(state.max_epoch_height, 0);
}

#[test]
fn full_sync_start_writes_marker_and_defers_known() {
    let table = MemStore::new();
    let mut m = SnapshotDbManagerMdbx::new();
    let id = snapshot_id(0xcc);
    let root = MerkleHash::from_slice(&[0xcc; 32]);
    table.dw_put(&marker_key(&id), &full_sync_announcement(&root, 100)).unwrap();
    let marker = stored_marker(&table, &id).unwrap();
    assert_eq!(marker.kind, MergeMarkerKind::FullSync);
    assert_eq!(marker.context.as_bytes(), root.as_bytes());
    assert!(!m.snapshot_dir_exists(&id));
    m.finalize_full_sync_snapshot(&id, false);
    assert!(!m.snapshot_dir_exists(&id));
}

#[test]
fn a_received_snapshot_is_known_once_its_announcement_is_gone() {
    let table = MemStore::new();
    let mut m = SnapshotDbManagerMdbx::new();
    let id = snapshot_id(0xcd);
    let root = MerkleHash::from_slice(&[0xce; 32]);
    let announced = full_sync_announcement(&root, 100);
    assert_eq!(announced, MergeMarker::full_sync(&root, 100).encode());
    table.dw_put(&marker_key(&id), &announced).unwrap();
    put_entry(&table, &id, b"account", b"balance");
    let deleted = table.dw_delete(&marker_key(&id)).is_ok();
    m.finalize_full_sync_snapshot(&id, deleted);
    assert!(m.snapshot_dir_exists(&id));
    assert!(stored_marker(&table, &id).is_none());
}

#[test]
fn an_unfinished_full_sync_is_removed_by_the_next_scan() {
    let table = MemStore::new();
    let mut m = SnapshotDbManagerMdbx::new();
    let id = snapshot_id(0xcf);
    let root = MerkleHash::from_slice(&[0xce; 32]);
    table.dw_put(&marker_key(&id), &full_sync_announcement(&root, 100)).unwrap();
    put_entry(&table, &id, b"half", b"received");
    let r = scan(&mut m, &table, &PersistedSnapshotInfoMap::new());
    assert_eq!(r.interrupted, vec![id]);
    assert!(!snapshot_has_any_data(&table, &id));
}

#[test]
fn a_reconstructed_snapshot_is_noted_once() {
    let mut m = SnapshotDbManagerMdbx::new();
    m.set_reconstruct_snapshot_id(Some(snapshot_id(1)));
    assert!(!m.take_reconstruct_state(&snapshot_id(2)));
    assert!(!m.take_reconstruct_state(&snapshot_id(1)));
    m.set_reconstruct_snapshot_id(Some(snapshot_id(1)));
    assert!(m.take_reconstruct_state(&snapshot_id(1)));
}

#[test]
fn a_merge_without_a_parent_goes_straight_to_the_trie() {
    let task = MergeTask {
        old_snapshot_epoch_id: null_epoch(),
        snapshot_epoch_id: snapshot_id(1),
        new_epoch_height: 2000,
        skip_dump: false,
    };
    let root = snapshot_id(0x77);
    let mut stage = MergeStage::Announce;
    stage = next_merge_stage(&task, stage, MergeEvent::Done);
    assert!(matches!(stage, MergeStage::DumpDelta));
    stage = next_merge_stage(&task, stage, MergeEvent::Done);
    assert!(matches!(stage, MergeStage::DirectMerge));
    stage = next_merge_stage(&task, stage, MergeEvent::Merged(root));
    assert!(matches!(stage, MergeStage::Commit { root: r } if r == root));
    stage = next_merge_stage(&task, stage, MergeEvent::Done);
    assert!(matches!(stage, MergeStage::Done { root: r } if r == root));
}

#[test]
fn a_merge_needs_its_parent() {
    let task = MergeTask {
        old_snapshot_epoch_id: snapshot_id(9),
        snapshot_epoch_id: snapshot_id(1),
        new_epoch_height: 2000,
        skip_dump: true,
    };
    let stage = next_merge_stage(&task, MergeStage::Announce, MergeEvent::Done);
    assert!(matches!(stage, MergeStage::OpenParent));
    let failed = next_merge_stage(&task, stage, MergeEvent::NotFound);
    assert!(matches!(failed, MergeStage::Failed(MergeFailure::SnapshotNotFound)));
    let opened = next_merge_stage(&task, stage, MergeEvent::Done);
    assert!(matches!(opened, MergeStage::CopyAndMerge));
    let failed = next_merge_stage(&task, opened, MergeEvent::Failed);
    assert!(matches!(failed, MergeStage::Failed(MergeFailure::Store)));
    let failed = next_merge_stage(&task, MergeStage::Announce, MergeEvent::Failed);
    assert!(matches!(failed, MergeStage::Failed(MergeFailure::Announce)));
}

#[test]
fn a_merged_snapshot_is_stamped_with_its_root() {
    let root = snapshot_id(0x31);
    let info = stamp_root(SnapshotInfo::genesis_snapshot_info(), &root);
    assert_eq!(info.merkle_root, root);
    assert_eq!(info.height, 0);
}

#[test]
fn records_are_loaded_from_their_table() {
    let mut map = PersistedSnapshotInfoMap::new();
    let row = |key: Vec<u8>, height: u64| {
        let mut info = SnapshotInfo::genesis_snapshot_info();
        info.height = height;
        (key, Some(info))
    };
    let rows = vec![row(vec![1; 32], 10), row(vec![2; 32], 20)];
    assert_eq!(map.load_persist_state(&rows), Ok(()));
    assert_eq!(map.len(), 2);
    assert_eq!(map.get(&snapshot_id(2)).unwrap().height, 20);

    let rows = vec![row(vec![3; 32], 30), row(vec![4; 31], 40), row(vec![5; 32], 50)];
    assert_eq!(map.load_persist_state(&rows), Err(LoadError::InvalidLength));
    assert!(map.get(&snapshot_id(3)).is_some());
    assert!(map.get(&snapshot_id(5)).is_none());
    assert_eq!(
        map.load_persist_state(&vec![(vec![6; 32], None)]),
        Err(LoadError::NoRecord)
    );
}
