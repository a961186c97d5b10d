use mazze_storage::storage::storage_db::kvdb_mdbx::{BatchOp, CommitError, PendingOp};
use mazze_storage::storage::storage_db::mdbx_dual_write::{
    DualWritePrimary, ShadowStore, StoreError,
};
use mazze_storage::storage::storage_db::ordered_walk::RangeScan;
use mazze_storage::storage::storage_db::prefixed_kvdb_mdbx::{
    PrefixedKvdbMdbx, DELTA_MPT_PREFIX_LEN,
};
use std::collections::BTreeMap;
use std::sync::{Arc, Mutex};

/// A table in memory. Its clones share their entries.
#[derive(Clone)]
struct MemStore(Arc<Mutex<BTreeMap<Vec<u8>, Vec<u8>>>>);

impl MemStore {
    fn new() -> Self {
        MemStore(Arc::new(Mutex::new(BTreeMap::new())))
    }
}

impl DualWritePrimary for MemStore {
    fn dw_put(&self, k: &[u8], v: &[u8]) -> Result<(), StoreError> {
        self.0.lock().unwrap().insert(k.to_vec(), v.to_vec());
        Ok(())
    }

    fn dw_delete(&self, k: &[u8]) -> Result<(), StoreError> {
        self.0.lock().unwrap().remove(k);
        Ok(())
    }

    fn dw_get(&self, k: &[u8]) -> Result<Option<Vec<u8>>, StoreError> {
        Ok(self.0.lock().unwrap().get(k).cloned())
    }

    fn dw_iter_range(
        &self,
        lower_incl: &[u8],
        upper_excl: Option<&[u8]>,
    ) -> Result<Vec<(Vec<u8>, Vec<u8>)>, StoreError> {
        let table = self.0.lock().unwrap();
        let mut scan = RangeScan::new(upper_excl.map(|u| u.to_vec()));
        for (k, v) in table.range(lower_incl.to_vec()..) {
            if !scan.take(k.clone(), v.clone()) {
                break;
            }
        }
        Ok(scan.into_found())
    }
}

impl ShadowStore for MemStore {
    fn dw_write_batch(&self, ops: &[BatchOp]) -> Result<(), StoreError> {
        let mut table = self.0.lock().unwrap();
        for op in ops {
            match op {
                BatchOp::Put(k, v) => {
                    table.insert(k.to_vec(), v.to_vec());
                }
                BatchOp::Delete(k) => {
                    table.remove(*k);
                }
            }
        }
        Ok(())
    }
}

impl MemStore {
    fn apply(&self, ops: &[PendingOp]) {
        let mut table = self.0.lock().unwrap();
        for op in ops {
            match op {
                PendingOp::Put(k, v) => {
                    table.insert(k.clone(), v.clone());
                }
                PendingOp::Delete(k) => {
                    table.remove(k);
                }
            }
        }
    }
}

/// The column that the delta tries share.
const DELTA_MPT_COL: u32 = 49;

fn make_prefixed(prefix: u8) -> PrefixedKvdbMdbx<MemStore> {
    PrefixedKvdbMdbx::new(MemStore::new(), vec![prefix; DELTA_MPT_PREFIX_LEN])
}

#[test]
fn put_get_delete_round_trip() {
    let p = make_prefixed(0x11);
    assert!(p.get(b"missing").unwrap().is_none());
    p.put(b"k", b"v").unwrap();
    assert_eq!(p.get(b"k").unwrap().as_deref(), Some(&b"v"[..]));
    p.delete(b"k").unwrap();
    assert!(p.get(b"k").unwrap().is_none());
}

#[test]
fn distinct_prefixes_isolated() {
    let table = MemStore::new();
    let a = PrefixedKvdbMdbx::new(table.clone(), vec![0xaa; DELTA_MPT_PREFIX_LEN]);
    let b = PrefixedKvdbMdbx::new(table, vec![0xbb; DELTA_MPT_PREFIX_LEN]);
    a.put(b"key", b"from-a").unwrap();
    b.put(b"key", b"from-b").unwrap();
    assert_eq!(a.get(b"key").unwrap().as_deref(), Some(&b"from-a"[..]));
    assert_eq!(b.get(b"key").unwrap().as_deref(), Some(&b"from-b"[..]));
}

#[test]
fn transactional_commit_stays_scoped() {
    let table = MemStore::new();
    let col = DELTA_MPT_COL;
    let target = PrefixedKvdbMdbx::new(table.clone(), vec![0x01; DELTA_MPT_PREFIX_LEN]);
    let neighbour = PrefixedKvdbMdbx::new(table.clone(), vec![0x02; DELTA_MPT_PREFIX_LEN]);

    let mut txn = target.start_transaction(7, col);
    txn.put(b"a", b"1");
    txn.put(b"b", b"2");
    let ops = txn.commit(7, col, target.prefix()).unwrap();
    table.apply(&ops);
    txn.committed(true);

    assert_eq!(target.get(b"a").unwrap().as_deref(), Some(&b"1"[..]));
    assert_eq!(target.get(b"b").unwrap().as_deref(), Some(&b"2"[..]));
    assert!(neighbour.get(b"a").unwrap().is_none());
    assert!(neighbour.get(b"b").unwrap().is_none());
}

#[test]
fn commit_rejects_prefix_mismatch() {
    let table = MemStore::new();
    let col = DELTA_MPT_COL;
    let a = PrefixedKvdbMdbx::new(table.clone(), vec![0x03; DELTA_MPT_PREFIX_LEN]);
    let b = PrefixedKvdbMdbx::new(table, vec![0x04; DELTA_MPT_PREFIX_LEN]);
    let mut txn = a.start_transaction(7, col);
    txn.put(b"k", b"v");
    assert!(txn.commit(7, col, b.prefix()).is_err());
}

#[test]
fn upper_bound_shape() {
    let p = make_prefixed(0x00);
    assert_eq!(p.prefix(), &[0x00; DELTA_MPT_PREFIX_LEN][..]);
    let mut expected = vec![0x00; DELTA_MPT_PREFIX_LEN];
    expected[DELTA_MPT_PREFIX_LEN - 1] = 0x01;
    assert_eq!(p.upper_bound_exclusive(), Some(expected));

    let hi = make_prefixed(0xff);
    assert_eq!(hi.upper_bound_exclusive(), None);
}

#[test]
fn variable_length_prefix_end_to_end() {
    let table = MemStore::new();
    let mut prefix_33 = vec![0x55u8; 33];
    prefix_33[32] = 0xa1;
    let p = PrefixedKvdbMdbx::new(table.clone(), prefix_33.clone());
    p.put(b"k", b"v").unwrap();
    assert_eq!(p.get(b"k").unwrap().as_deref(), Some(&b"v"[..]));
    assert_eq!(p.prefix(), prefix_33.as_slice());
    let mut expected = prefix_33.clone();
    expected[32] = 0xa2;
    assert_eq!(p.upper_bound_exclusive(), Some(expected));

    let mut neighbour_prefix = vec![0x55u8; 33];
    neighbour_prefix[32] = 0xa2;
    let neighbour = PrefixedKvdbMdbx::new(table, neighbour_prefix);
    assert!(neighbour.get(b"k").unwrap().is_none());
}

#[test]
fn write_batch_composes_prefixes() {
    let p = make_prefixed(0x77);
    p.put(b"pre", b"already").unwrap();
    let ops = [
        BatchOp::Put(b"a", b"1"),
        BatchOp::Put(b"b", b"2"),
        BatchOp::Delete(b"pre"),
    ];
    p.write_batch(&ops).unwrap();
    assert_eq!(p.get(b"a").unwrap().as_deref(), Some(&b"1"[..]));
    assert_eq!(p.get(b"b").unwrap().as_deref(), Some(&b"2"[..]));
    assert!(p.get(b"pre").unwrap().is_none());
}

#[test]
fn commits_are_refused_for_another_table() {
    let p = make_prefixed(0x09);
    let mut txn = p.start_transaction(7, 3);
    txn.put(b"k", b"v");
    assert_eq!(txn.commit(8, 3, p.prefix()).unwrap_err(), CommitError::EnvMismatch);
    assert_eq!(
        txn.commit(7, 4, p.prefix()).unwrap_err(),
        CommitError::ColumnMismatch { db: 4, txn: 3 }
    );
    assert_eq!(txn.commit(7, 3, b"other").unwrap_err(), CommitError::PrefixMismatch);
    let ops = txn.commit(7, 3, p.prefix()).unwrap();
    assert_eq!(ops.len(), 1);
    txn.committed(false);
    assert_eq!(txn.commit(7, 3, p.prefix()).unwrap().len(), 1);
    txn.committed(true);
    assert!(txn.commit(7, 3, p.prefix()).unwrap().is_empty());
}

#[test]
fn a_reverted_transaction_commits_nothing() {
    let p = make_prefixed(0x09);
    let mut txn = p.start_transaction(1, 1);
    txn.put(b"k", b"v");
    txn.delete(b"l");
    txn.revert();
    assert!(txn.commit(1, 1, p.prefix()).unwrap().is_empty());
}

#[test]
fn composed_keys_begin_with_the_prefix() {
    let p = PrefixedKvdbMdbx::new(MemStore::new(), vec![1, 2]);
    assert_eq!(p.compose(&[3, 4]), vec![1, 2, 3, 4]);
    assert_eq!(p.compose(&[]), vec![1, 2]);
}
