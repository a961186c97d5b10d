use kvdb::{DBOp, DBTransaction};
use mazze_storage::hash::{null_epoch, EpochId};
use mazze_storage::storage::storage_db::kvdb_mdbx::{BatchOp, KvdbMdbxTransaction, PendingOp};
use mazze_storage::storage::storage_db::mdbx_dual_write::{
    DualWritePrimary, ShadowStore, StoreError,
};
use mazze_storage::storage::storage_db::ordered_walk::{PrefixWalk, RangeScan};
use mazze_storage::storage::storage_db::range_iter::{prefixed_key, ParitydbRangeIter};
use mazze_storage::storage::storage_db::snapshot_debug::{check_key_value_load, PathEnd};
use mazze_storage::storage::storage_db::snapshot_kv_db::{
    apply_update_to_kvdb, commit_transaction, copy_entries, drop_delta_mpt_dump, dump_delta_mpt,
    start_transaction, PrefixedKvdbParitydb, SnapshotKvDbMdbx,
};
use mazze_storage::storage::storage_db::snapshot_open::{
    after_opening, close, create, open, permits_after_opening, store_config, OpenError, OpenFrom,
};
use std::collections::BTreeMap;
use std::sync::{Arc, Mutex};
use tokio::sync::Semaphore;

/// A table in memory. Its clones share their entries.
#[derive(Clone)]
struct MemStore(Arc<Mutex<BTreeMap<Vec<u8>, Vec<u8>>>>);

impl MemStore {
    fn new() -> Self {
        MemStore(Arc::new(Mutex::new(BTreeMap::new())))
    }
}

impl DualWritePrimary for MemStore {
    fn dw_put(&self, k: &[u8], v: &[u8]) -> Result<(), StoreError> {
        self.0.lock().unwrap().insert(k.to_vec(), v.to_vec());
        Ok(())
    }

    fn dw_delete(&self, k: &[u8]) -> Result<(), StoreError> {
        self.0.lock().unwrap().remove(k);
        Ok(())
    }

    fn dw_get(&self, k: &[u8]) -> Result<Option<Vec<u8>>, StoreError> {
        Ok(self.0.lock().unwrap().get(k).cloned())
    }

    fn dw_iter_range(
        &self,
        lower_incl: &[u8],
        upper_excl: Option<&[u8]>,
    ) -> Result<Vec<(Vec<u8>, Vec<u8>)>, StoreError> {
        let table = self.0.lock().unwrap();
        let mut scan = RangeScan::new(upper_excl.map(|u| u.to_vec()));
        for (k, v) in table.range(lower_incl.to_vec()..) {
            if !scan.take(k.clone(), v.clone()) {
                break;
            }
        }
        Ok(scan.into_found())
    }
}

impl ShadowStore for MemStore {
    fn dw_write_batch(&self, ops: &[BatchOp]) -> Result<(), StoreError> {
        let mut table = self.0.lock().unwrap();
        for op in ops {
            match op {
                BatchOp::Put(k, v) => {
                    table.insert(k.to_vec(), v.to_vec());
                }
                BatchOp::Delete(k) => {
                    table.remove(*k);
                }
            }
        }
        Ok(())
    }
}

impl MemStore {
    fn apply(&self, ops: &[PendingOp]) {
        let mut table = self.0.lock().unwrap();
        for op in ops {
            match op {
                PendingOp::Put(k, v) => {
                    table.insert(k.clone(), v.clone());
                }
                PendingOp::Delete(k) => {
                    table.remove(k);
                }
            }
        }
    }
}

fn snapshot_id(byte: u8) -> EpochId {
    EpochId::from_slice(&[byte; 32])
}

fn ops_of(t: &DBTransaction) -> Vec<(u32, Vec<u8>, Option<Vec<u8>>)> {
    t.ops
        .iter()
        .map(|op| match op {
            DBOp::Insert { col, key, value } => (*col, key.to_vec(), Some(value.clone())),
            DBOp::Delete { col, key } => (*col, key.to_vec(), None),
        })
        .collect()
}

#[test]
fn kv_round_trip() {
    let table = MemStore::new();
    let sn = SnapshotKvDbMdbx::attach(snapshot_id(0x11));
    let kv = sn.kv_view(table);
    assert!(kv.get(b"missing").unwrap().is_none());
    kv.put(b"k", b"v").unwrap();
    assert_eq!(kv.get(b"k").unwrap().as_deref(), Some(&b"v"[..]));
    kv.delete(b"k").unwrap();
    assert!(kv.get(b"k").unwrap().is_none());
}

#[test]
fn snapshots_isolated_on_shared_env() {
    let table = MemStore::new();
    let a = SnapshotKvDbMdbx::attach(snapshot_id(0xaa)).kv_view(table.clone());
    let b = SnapshotKvDbMdbx::attach(snapshot_id(0xbb)).kv_view(table);
    a.put(b"key", b"from-a").unwrap();
    b.put(b"key", b"from-b").unwrap();
    assert_eq!(a.get(b"key").unwrap().as_deref(), Some(&b"from-a"[..]));
    assert_eq!(b.get(b"key").unwrap().as_deref(), Some(&b"from-b"[..]));
}

#[test]
fn sub_views_have_distinct_prefixes() {
    let table = MemStore::new();
    let sn = SnapshotKvDbMdbx::attach(snapshot_id(0x33));
    let prefixes: Vec<Vec<u8>> = vec![
        sn.kv_view(table.clone()).prefix().to_vec(),
        sn.delta_set_view(table.clone()).prefix().to_vec(),
        sn.delta_del_view(table.clone()).prefix().to_vec(),
        sn.mpt_view(table).prefix().to_vec(),
    ];
    for p in &prefixes {
        assert_eq!(p.len(), 33);
        assert_eq!(&p[..32], sn.snapshot_epoch_id().as_bytes());
    }
    let mut last_bytes: Vec<u8> = prefixes.iter().map(|p| p[32]).collect();
    last_bytes.sort();
    last_bytes.dedup();
    assert_eq!(last_bytes.len(), 4);
}

#[test]
fn drop_releases_semaphore_permit() {
    let sem = Arc::new(Semaphore::new(1));
    sem.try_acquire().unwrap().forget();
    let sn = SnapshotKvDbMdbx::attach(snapshot_id(0x55));
    assert!(sem.try_acquire().is_err());
    let (remove, release) = sn.close();
    assert!(!remove);
    if release {
        sem.add_permits(1);
    }
    assert!(sem.try_acquire().is_ok());
}

#[test]
fn null_snapshot_constructs_and_reports_mpt_in_current_db() {
    let sn = SnapshotKvDbMdbx::get_null_snapshot();
    assert_eq!(sn.snapshot_epoch_id(), &null_epoch());
    assert!(sn.is_mpt_table_in_current_db());
    assert_eq!(sn.close(), (false, false));
}

#[test]
fn kv_reads_dont_see_delta_dump() {
    let table = MemStore::new();
    let sn = SnapshotKvDbMdbx::attach(snapshot_id(0x77));
    sn.delta_set_view(table.clone()).put(b"shared_key", b"delta-value").unwrap();
    let kv = sn.kv_view(table);
    assert!(kv.get(b"shared_key").unwrap().is_none());
    kv.put(b"shared_key", b"kv-value").unwrap();
    assert_eq!(kv.get(b"shared_key").unwrap().as_deref(), Some(&b"kv-value"[..]));
}

#[test]
fn a_snapshot_can_be_removed_on_closing() {
    let mut sn = SnapshotKvDbMdbx::attach(snapshot_id(0x12));
    sn.set_remove_on_last_close();
    assert_eq!(sn.close(), (true, true));
}

#[test]
fn a_dump_and_its_update_merge_the_delta() {
    let table = MemStore::new();
    let sn = SnapshotKvDbMdbx::attach(snapshot_id(0x44));
    let kv = sn.kv_view(table.clone());
    let set = sn.delta_set_view(table.clone());
    let del = sn.delta_del_view(table.clone());
    kv.put(b"gone", b"1").unwrap();
    kv.put(b"changed", b"1").unwrap();
    kv.put(b"kept", b"1").unwrap();

    let delta = vec![
        (b"changed".to_vec(), b"2".to_vec()),
        (b"gone".to_vec(), Vec::new()),
        (b"new".to_vec(), b"3".to_vec()),
    ];
    table.apply(&dump_delta_mpt(set.prefix(), del.prefix(), &delta));
    assert_eq!(set.get(b"changed").unwrap().as_deref(), Some(&b"2"[..]));
    assert_eq!(set.get(b"gone").unwrap(), None);
    assert_eq!(del.get(b"gone").unwrap().as_deref(), Some(&b""[..]));

    let deletes = vec![b"gone".to_vec()];
    let sets = vec![
        (b"changed".to_vec(), b"2".to_vec()),
        (b"new".to_vec(), b"3".to_vec()),
    ];
    table.apply(&apply_update_to_kvdb(kv.prefix(), &deletes, &sets));
    assert_eq!(kv.get(b"gone").unwrap(), None);
    assert_eq!(kv.get(b"changed").unwrap().as_deref(), Some(&b"2"[..]));
    assert_eq!(kv.get(b"kept").unwrap().as_deref(), Some(&b"1"[..]));
    assert_eq!(kv.get(b"new").unwrap().as_deref(), Some(&b"3"[..]));

    let set_keys = vec![b"changed".to_vec(), b"new".to_vec()];
    table.apply(&drop_delta_mpt_dump(set.prefix(), del.prefix(), &set_keys, &deletes));
    assert_eq!(set.get(b"new").unwrap(), None);
    assert_eq!(del.get(b"gone").unwrap(), None);
    assert_eq!(kv.get(b"new").unwrap().as_deref(), Some(&b"3"[..]));
}

#[test]
fn entries_are_copied_under_a_prefix() {
    let ops = copy_entries(&[9], &vec![(vec![1], vec![2])]);
    assert_eq!(ops.len(), 1);
    assert!(matches!(&ops[0], PendingOp::Put(k, v) if k == &vec![9, 1] && v == &vec![2]));
}

#[test]
fn dump_ranges_lie_side_by_side() {
    let sn = SnapshotKvDbMdbx::attach(snapshot_id(0x21));
    let ranges = sn.delta_dump_ranges();
    let table = MemStore::new();
    assert_eq!(ranges[0].0, sn.delta_set_view(table.clone()).prefix());
    assert_eq!(ranges[1].0, sn.delta_del_view(table).prefix());
    assert_eq!(ranges[0].1.as_ref().unwrap()[32], b's' + 1);
}

#[test]
fn transaction_commits_atomically() {
    let table = MemStore::new();
    table.dw_put(b"keep", b"original").unwrap();

    let mut txn = KvdbMdbxTransaction::new(1, 0);
    txn.put(b"keep", b"changed");
    txn.put(b"new", b"value");
    txn.delete(b"missing");
    assert_eq!(table.dw_get(b"keep").unwrap().as_deref(), Some(&b"original"[..]));
    assert!(table.dw_get(b"new").unwrap().is_none());

    let ops = txn.commit(1, 0).unwrap();
    table.apply(&ops);
    txn.committed(true);

    assert_eq!(table.dw_get(b"keep").unwrap().as_deref(), Some(&b"changed"[..]));
    assert_eq!(table.dw_get(b"new").unwrap().as_deref(), Some(&b"value"[..]));
}

#[test]
fn a_restarted_transaction_keeps_or_drops_its_writes() {
    let mut txn = KvdbMdbxTransaction::new(1, 0);
    txn.put(b"a", b"1");
    txn.restart(true);
    txn.put(b"b", b"2");
    assert_eq!(txn.commit(1, 0).unwrap().len(), 2);
    txn.committed(false);
    assert_eq!(txn.commit(1, 0).unwrap().len(), 2);
    txn.put(b"c", b"3");
    txn.restart(false);
    assert_eq!(txn.commit(1, 0).unwrap().len(), 0);
}

#[test]
fn iter_range_owned_semantics() {
    let table = MemStore::new();
    assert!(table.dw_iter_range(b"", None).unwrap().is_empty());

    let seed: [(&[u8], &[u8]); 5] = [
        (b"delta", b"4"),
        (b"alpha", b"1"),
        (b"echo", b"5"),
        (b"charlie", b"3"),
        (b"bravo", b"2"),
    ];
    for (k, v) in &seed {
        table.dw_put(k, v).unwrap();
    }

    let full = table.dw_iter_range(b"", None).unwrap();
    let full_keys: Vec<&[u8]> = full.iter().map(|(k, _)| k.as_ref()).collect();
    assert_eq!(
        full_keys,
        vec![
            b"alpha".as_ref(),
            b"bravo".as_ref(),
            b"charlie".as_ref(),
            b"delta".as_ref(),
            b"echo".as_ref(),
        ]
    );
    assert_eq!(full[0].1, b"1");
    assert_eq!(full[4].1, b"5");

    let mid = table.dw_iter_range(b"bravo", Some(b"delta")).unwrap();
    let mid_keys: Vec<&[u8]> = mid.iter().map(|(k, _)| k.as_ref()).collect();
    assert_eq!(mid_keys, vec![b"bravo".as_ref(), b"charlie".as_ref()]);

    let unbounded = table.dw_iter_range(b"", Some(b"zeta")).unwrap();
    assert_eq!(unbounded.len(), 5);

    let empty = table.dw_iter_range(b"bravo", Some(b"bravo")).unwrap();
    assert!(empty.is_empty());

    let above = table.dw_iter_range(b"zeta", None).unwrap();
    assert!(above.is_empty());
}

#[test]
fn a_prefix_walk_ends_at_the_first_other_key() {
    let mut walk = PrefixWalk::new(b"ab".to_vec());
    assert!(walk.hands_out(b"ab"));
    assert!(walk.hands_out(b"abc"));
    assert!(!walk.hands_out(b"ac"));
    assert!(!walk.hands_out(b"abd"));
}

#[test]
fn a_range_is_walked_under_its_prefix() {
    let entries: Vec<(Vec<u8>, Vec<u8>)> = vec![
        (vec![b'k', 1], vec![1]),
        (vec![b'k', 2], vec![2]),
        (vec![b'k', 3], vec![3]),
        (vec![b'm', 1], vec![4]),
    ];
    let all = ParitydbRangeIter::iter_range(entries.clone(), b'k', &[], None).collect();
    assert_eq!(all, vec![(vec![1], vec![1]), (vec![2], vec![2]), (vec![3], vec![3])]);
    let mid = ParitydbRangeIter::iter_range(entries.clone(), b'k', &[2], Some(vec![3])).collect();
    assert_eq!(mid, vec![(vec![2], vec![2])]);
    let excl = ParitydbRangeIter::iter_range_excl(entries.clone(), b'k', &[1], vec![3]).collect();
    assert_eq!(excl, vec![(vec![2], vec![2])]);
    let mut iter = ParitydbRangeIter::new(entries, b'k', None, false, None);
    assert_eq!(iter.next(), Some((vec![1], vec![1])));
    assert_eq!(iter.strip_prefix(&[b'm', 7]), None);
    assert_eq!(prefixed_key(b'k', &[7]), vec![b'k', 7]);
}

#[test]
fn writes_gather_in_an_open_transaction() {
    let db = PrefixedKvdbParitydb::new(0, b'k');
    let mut pending: Option<DBTransaction> = None;
    let now = db.put(&mut pending, b"a", b"1").unwrap();
    assert_eq!(ops_of(&now), vec![(0, b"ka".to_vec(), Some(b"1".to_vec()))]);

    start_transaction(&mut pending);
    assert!(db.put(&mut pending, b"a", b"1").is_none());
    assert!(db.delete(&mut pending, b"b").is_none());
    let done = commit_transaction(&mut pending).unwrap();
    assert_eq!(
        ops_of(&done),
        vec![(0, b"ka".to_vec(), Some(b"1".to_vec())), (0, b"kb".to_vec(), None)]
    );
    assert!(pending.is_none());
    assert!(commit_transaction(&mut pending).is_none());
}

#[test]
fn stores_are_opened_once() {
    assert_eq!(open(true, false, false), Err(OpenError::SnapshotNotFound));
    assert_eq!(open(true, true, true), Ok(OpenFrom::Cache));
    assert_eq!(open(false, false, false), Ok(OpenFrom::Disk));
    assert_eq!(after_opening(true, false), Ok(OpenFrom::Disk));
    assert_eq!(after_opening(false, true), Ok(OpenFrom::Cache));
    assert_eq!(after_opening(false, false), Err(OpenError::Store));
    assert_eq!(create(true), Err(OpenError::SnapshotAlreadyExists));
    assert_eq!(create(false), Ok(()));
    assert_eq!(store_config().columns, 1);
}

#[test]
fn permits_are_given_back_once() {
    assert_eq!(permits_after_opening(false), 1);
    assert_eq!(permits_after_opening(true), 0);
    let last = close(true, 1, true);
    assert!(last.remove_directory && last.forget);
    assert_eq!(last.permits, 1);
    let shared = close(false, 2, false);
    assert!(!shared.remove_directory && !shared.forget);
    assert_eq!(shared.permits, 0);
}

#[test]
fn entries_are_checked_against_the_trie() {
    let entries = vec![
        (b"a".to_vec(), b"1".to_vec()),
        (b"b".to_vec(), b"2".to_vec()),
        (b"c".to_vec(), b"3".to_vec()),
    ];
    let ends = vec![
        PathEnd::Arrived(Some(b"1".to_vec())),
        PathEnd::ChildNotFound,
        PathEnd::Arrived(Some(b"9".to_vec())),
    ];
    let (count, wrong) = check_key_value_load(&entries, &ends, true);
    assert_eq!(count, 3);
    assert_eq!(wrong, vec![1, 2]);
    let (count, wrong) = check_key_value_load(&entries, &ends, false);
    assert_eq!(count, 3);
    assert!(wrong.is_empty());
}

#[test]
fn making_snapshots_frees_no_permits() {
    let sem = Arc::new(Semaphore::new(2));
    let mut open = Vec::new();
    for i in 0..2 {
        sem.try_acquire().unwrap().forget();
        open.push(SnapshotKvDbMdbx::attach(snapshot_id(i)));
    }
    for i in 0..5 {
        let child = SnapshotKvDbMdbx::attach_without_permit(snapshot_id(0x80 + i));
        assert_eq!(child.snapshot_epoch_id(), &snapshot_id(0x80 + i));
        let (remove, release) = child.close();
        assert!(!remove);
        if release {
            sem.add_permits(1);
        }
        assert!(sem.try_acquire().is_err());
    }
    for handle in open {
        if handle.close().1 {
            sem.add_permits(1);
        }
    }
    assert_eq!(sem.available_permits(), 2);
}
