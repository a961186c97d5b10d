use mazze_storage::storage::storage_db::kvdb_mdbx::BatchOp;
use mazze_storage::storage::storage_db::mdbx_columns::Column;
use mazze_storage::storage::storage_db::mdbx_dual_write::{
    compare_tables, first_mirror_stage, next_mirror_stage, DualWritePrimary, MdbxShadowMirror,
    MirrorStage, ShadowStore, StoreError,
};
use mazze_storage::storage::storage_db::ordered_walk::RangeScan;
use std::collections::BTreeMap;
use std::sync::{Arc, Mutex};

/// A table in memory. Its clones share their entries.
#[derive(Clone)]
struct MemStore(Arc<Mutex<BTreeMap<Vec<u8>, Vec<u8>>>>);

impl MemStore {
    fn new() -> Self {
        MemStore(Arc::new(Mutex::new(BTreeMap::new())))
    }
}

impl DualWritePrimary for MemStore {
    fn dw_put(&self, k: &[u8], v: &[u8]) -> Result<(), StoreError> {
        self.0.lock().unwrap().insert(k.to_vec(), v.to_vec());
        Ok(())
    }

    fn dw_delete(&self, k: &[u8]) -> Result<(), StoreError> {
        self.0.lock().unwrap().remove(k);
        Ok(())
    }

    fn dw_get(&self, k: &[u8]) -> Result<Option<Vec<u8>>, StoreError> {
        Ok(self.0.lock().unwrap().get(k).cloned())
    }

    fn dw_iter_range(
        &self,
        lower_incl: &[u8],
        upper_excl: Option<&[u8]>,
    ) -> Result<Vec<(Vec<u8>, Vec<u8>)>, StoreError> {
        let table = self.0.lock().unwrap();
        let mut scan = RangeScan::new(upper_excl.map(|u| u.to_vec()));
        for (k, v) in table.range(lower_incl.to_vec()..) {
            if !scan.take(k.clone(), v.clone()) {
                break;
            }
        }
        Ok(scan.into_found())
    }
}

impl ShadowStore for MemStore {
    fn dw_write_batch(&self, ops: &[BatchOp]) -> Result<(), StoreError> {
        let mut table = self.0.lock().unwrap();
        for op in ops {
            match op {
                BatchOp::Put(k, v) => {
                    table.insert(k.to_vec(), v.to_vec());
                }
                BatchOp::Delete(k) => {
                    table.remove(*k);
                }
            }
        }
        Ok(())
    }
}

/// A store that fails on every write.
struct Broken;

impl DualWritePrimary for Broken {
    fn dw_put(&self, _k: &[u8], _v: &[u8]) -> Result<(), StoreError> {
        Err(StoreError("put refused".to_string()))
    }

    fn dw_delete(&self, _k: &[u8]) -> Result<(), StoreError> {
        Err(StoreError("delete refused".to_string()))
    }

    fn dw_get(&self, _k: &[u8]) -> Result<Option<Vec<u8>>, StoreError> {
        Err(StoreError("get refused".to_string()))
    }

    fn dw_iter_range(
        &self,
        _lower_incl: &[u8],
        _upper_excl: Option<&[u8]>,
    ) -> Result<Vec<(Vec<u8>, Vec<u8>)>, StoreError> {
        Err(StoreError("scan refused".to_string()))
    }
}

impl ShadowStore for Broken {
    fn dw_write_batch(&self, _ops: &[BatchOp]) -> Result<(), StoreError> {
        Err(StoreError("batch refused".to_string()))
    }
}

fn make_mirror(column: Column) -> MdbxShadowMirror<MemStore, MemStore> {
    MdbxShadowMirror::new(MemStore::new(), MemStore::new(), column)
}

fn assert_send_sync<T: Send + Sync>() {}

fn needs_dyn(_: Box<dyn DualWritePrimary>) {}

#[test]
fn empty_mirror_matches() {
    let mirror = make_mirror(Column::HashByNumber);
    let report = mirror.verify_parity().unwrap();
    assert!(report.is_matched());
    assert_eq!(report.primary_count, 0);
    assert_eq!(report.shadow_count, 0);
    assert_eq!(report.diverged_count(), 0);
    assert_eq!(report.table, "HashByNumber");
}

#[test]
fn steady_state_mirror_matches() {
    let mirror = make_mirror(Column::HashByNumber);
    for i in 0u64..40 {
        mirror.put(&i.to_be_bytes(), format!("v{}", i).as_bytes()).unwrap();
    }
    for i in 0u64..10 {
        mirror.put(&i.to_be_bytes(), format!("v{}-overwritten", i).as_bytes()).unwrap();
    }
    for i in 30u64..35 {
        mirror.delete(&i.to_be_bytes()).unwrap();
    }

    let report = mirror.verify_parity().unwrap();
    assert!(report.is_matched(), "report: {:?}", report);
    assert_eq!(report.primary_count, 35);
    assert_eq!(report.shadow_count, 35);
}

#[test]
fn batched_writes_mirror_matches() {
    let mirror = make_mirror(Column::PlainAccount);
    let owned: Vec<(Vec<u8>, Vec<u8>)> = (0u64..25)
        .map(|i| (i.to_be_bytes().to_vec(), format!("val{}", i).into_bytes()))
        .collect();
    let ops: Vec<BatchOp> = owned
        .iter()
        .map(|(k, v)| BatchOp::Put(k.as_slice(), v.as_slice()))
        .collect();
    mirror.write_batch(&ops).unwrap();

    let report = mirror.verify_parity().unwrap();
    assert!(report.is_matched(), "report: {:?}", report);
    assert_eq!(report.primary_count, 25);
}

#[test]
fn get_answers_from_primary_only() {
    let mirror = make_mirror(Column::HashByNumber);
    mirror.put(b"k", b"from-primary").unwrap();

    mirror.shadow().dw_put(b"k", b"tampered-shadow").unwrap();

    assert_eq!(mirror.get(b"k").unwrap().as_deref(), Some(&b"from-primary"[..]));
    let report = mirror.verify_parity().unwrap();
    assert!(!report.is_matched());
    assert_eq!(report.value_mismatches.len(), 1);
}

#[test]
fn missing_in_shadow_is_reported() {
    let mirror = make_mirror(Column::PlainStorage);
    mirror.primary().dw_put(b"lonely", b"v").unwrap();

    let report = mirror.verify_parity().unwrap();
    assert_eq!(report.primary_count, 1);
    assert_eq!(report.shadow_count, 0);
    assert_eq!(report.missing_in_shadow.len(), 1);
    assert_eq!(&*report.missing_in_shadow[0], &b"lonely"[..]);
    assert!(!report.is_matched());
}

#[test]
fn extra_in_shadow_is_reported() {
    let mirror = make_mirror(Column::PlainStorage);
    mirror.shadow().dw_put(b"orphan", b"v").unwrap();

    let report = mirror.verify_parity().unwrap();
    assert_eq!(report.primary_count, 0);
    assert_eq!(report.shadow_count, 1);
    assert_eq!(report.extra_in_shadow.len(), 1);
    assert_eq!(&*report.extra_in_shadow[0], &b"orphan"[..]);
    assert!(!report.is_matched());
}

#[test]
fn mixed_divergence_classification() {
    let mirror = make_mirror(Column::EpochBlocks);
    mirror.put(b"match", b"v").unwrap();

    mirror.put(b"vmiss", b"primary").unwrap();
    mirror.shadow().dw_delete(b"vmiss").unwrap();
    mirror.shadow().dw_put(b"vmiss", b"shadow").unwrap();

    mirror.primary().dw_put(b"ponly", b"v").unwrap();

    mirror.shadow().dw_put(b"sonly", b"v").unwrap();

    let report = mirror.verify_parity().unwrap();
    assert!(!report.is_matched());
    assert_eq!(report.diverged_count(), 3);
    assert_eq!(report.value_mismatches.len(), 1);
    assert_eq!(&*report.value_mismatches[0], &b"vmiss"[..]);
    assert_eq!(report.missing_in_shadow.len(), 1);
    assert_eq!(&*report.missing_in_shadow[0], &b"ponly"[..]);
    assert_eq!(report.extra_in_shadow.len(), 1);
    assert_eq!(&*report.extra_in_shadow[0], &b"sonly"[..]);
}

#[test]
fn is_send_sync() {
    assert_send_sync::<MdbxShadowMirror<MemStore, MemStore>>();
    assert_send_sync::<Arc<MdbxShadowMirror<MemStore, MemStore>>>();
}

#[test]
fn primary_trait_is_object_safe() {
    needs_dyn(Box::new(MemStore::new()));
}

#[test]
fn a_failed_shadow_write_fails_the_write() {
    let primary = MemStore::new();
    let mirror = MdbxShadowMirror::new(primary.clone(), Broken, Column::HashByNumber);
    assert_eq!(mirror.put(b"k", b"v").unwrap_err().0, "put refused");
    assert_eq!(primary.dw_get(b"k").unwrap().as_deref(), Some(&b"v"[..]));
    assert_eq!(mirror.delete(b"k").unwrap_err().0, "delete refused");
    assert_eq!(primary.dw_get(b"k").unwrap(), None);
    assert_eq!(
        mirror.write_batch(&[BatchOp::Put(b"a", b"1")]).unwrap_err().0,
        "batch refused"
    );
    assert_eq!(primary.dw_get(b"a").unwrap().as_deref(), Some(&b"1"[..]));
    assert_eq!(mirror.verify_parity().unwrap_err().0, "scan refused");
}

#[test]
fn a_failed_primary_write_leaves_the_shadow_alone() {
    let shadow = MemStore::new();
    let mirror = MdbxShadowMirror::new(Broken, shadow.clone(), Column::HashByNumber);
    assert!(mirror.put(b"k", b"v").is_err());
    assert_eq!(mirror.get(b"k").unwrap_err().0, "get refused");
    assert_eq!(shadow.dw_get(b"k").unwrap(), None);
}

#[test]
fn equal_tables_match() {
    let table = vec![(vec![1u8], vec![2u8]), (vec![3u8], vec![4u8])];
    let report = compare_tables(Column::EpochBlocks, &table, &table);
    assert!(report.is_matched());
    assert_eq!(report.primary_count, 2);
    assert_eq!(report.table, "EpochBlocks");
}

#[test]
fn the_shadow_comes_after_the_whole_primary() {
    let first = first_mirror_stage(2);
    assert_eq!(first, MirrorStage::Primary(0));
    let second = next_mirror_stage(2, first, true);
    assert_eq!(second, MirrorStage::Primary(1));
    let shadow = next_mirror_stage(2, second, true);
    assert_eq!(shadow, MirrorStage::Shadow);
    assert_eq!(next_mirror_stage(2, shadow, true), MirrorStage::Done);
    assert_eq!(next_mirror_stage(2, shadow, false), MirrorStage::Failed);
    assert_eq!(first_mirror_stage(0), MirrorStage::Shadow);
}

#[test]
fn a_failed_primary_never_reaches_the_shadow() {
    let failed = next_mirror_stage(2, first_mirror_stage(2), false);
    assert_eq!(failed, MirrorStage::Failed);
    assert_eq!(next_mirror_stage(2, failed, true), MirrorStage::Failed);
}

#[test]
fn the_counts_of_a_report_balance() {
    let entry = |k: &[u8], v: &[u8]| (k.to_vec(), v.to_vec());
    let primary = vec![entry(b"a", b"1"), entry(b"b", b"2"), entry(b"c", b"3")];
    let shadow = vec![entry(b"b", b"2"), entry(b"d", b"4")];
    let r = compare_tables(Column::HashByNumber, &primary, &shadow);
    assert_eq!(r.missing_in_shadow.len(), 2);
    assert_eq!(r.extra_in_shadow.len(), 1);
    assert_eq!(
        r.primary_count + r.extra_in_shadow.len(),
        r.shadow_count + r.missing_in_shadow.len()
    );
}
