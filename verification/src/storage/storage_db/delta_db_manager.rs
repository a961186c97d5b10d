//! The delta tries that are stored, against those that the snapshot records ask for.

use super::names;
use super::names::{parse_epoch_id, DbNameError, DB_DIR_PREFIX};
use crate::bytes;
use crate::bytes::{copy_bytes, prefix_upper_bound};
use crate::hash::EpochId;
use crate::hex;
use crate::storage::snapshot_info::{
    contains_epoch, PersistedSnapshotInfoMap, SnapshotInfoView, SnapshotKeptToProvideSyncStatus,
};
use vstd::prelude::*;

verus! {

/// Some snapshot needs the delta trie of the epoch: its own, or as the intermediate trie its
/// parent's.
pub open spec fn is_expected(records: Map<EpochId, SnapshotInfoView>, epoch: EpochId) -> bool {
    records.contains_key(epoch) || exists|s: EpochId| #[trigger]
        records.contains_key(s) && records[s].parent == epoch
}

/// An ordinary snapshot without a stored delta trie.
pub open spec fn lacks_delta(
    records: Map<EpochId, SnapshotInfoView>,
    present: Seq<EpochId>,
    epoch: EpochId,
) -> bool {
    &&& records.contains_key(epoch)
    &&& records[epoch].kept == SnapshotKeptToProvideSyncStatus::No
    &&& !present.contains(epoch)
}

fn expects(info_map: &PersistedSnapshotInfoMap, epoch: &EpochId) -> (r: bool)
    requires
        info_map.wf(),
    ensures
        r == is_expected(info_map@, *epoch),
{
    proof {
        info_map.entries_match_view();
    }
    let mut i: usize = 0;
    while i < info_map.len()
        invariant
            info_map.wf(),
            i <= info_map.entries().len(),
            forall|j: int|
                0 <= j < info_map.entries().len() ==> info_map@.contains_key(
                    (#[trigger] info_map.entries()[j]).0,
                ) && info_map@[info_map.entries()[j].0] == info_map.entries()[j].1,
            forall|j: int|
                0 <= j < i ==> (#[trigger] info_map.entries()[j]).0 != *epoch
                    && info_map.entries()[j].1.parent != *epoch,
        decreases info_map.entries().len() - i,
    {
        let (id, info) = info_map.entry(i);
        if id == *epoch || info.parent_snapshot_epoch_id == *epoch {
            proof {
                assert(info_map@.contains_key(info_map.entries()[i as int].0));
            }
            return true;
        }
        i = i + 1;
    }
    false
}

/// What is found of the delta tries when the node starts.
#[derive(Debug)]
pub struct DeltaScan {
    /// Stored, but no snapshot needs them: to be destroyed.
    pub orphans: Vec<EpochId>,
    /// Stored and needed.
    pub delta_dbs: Vec<EpochId>,
    /// Ordinary snapshots whose delta trie is not stored.
    pub missing_delta_dbs: Vec<EpochId>,
}

/// Compares the epochs that have a stored delta trie with the records.
pub fn scan_persist_state(info_map: &PersistedSnapshotInfoMap, present: &Vec<EpochId>) -> (r:
    DeltaScan)
    requires
        info_map.wf(),
    ensures
        r.orphans@ == present@.filter(|e: EpochId| !is_expected(info_map@, e)),
        r.delta_dbs@ == present@.filter(|e: EpochId| is_expected(info_map@, e)),
        r.missing_delta_dbs@.no_duplicates(),
        forall|e: EpochId| #[trigger]
            r.missing_delta_dbs@.contains(e) <==> lacks_delta(info_map@, present@, e),
{
    let ghost expected = |e: EpochId| is_expected(info_map@, e);
    let ghost unexpected = |e: EpochId| !is_expected(info_map@, e);
    let mut orphans: Vec<EpochId> = Vec::new();
    let mut delta_dbs: Vec<EpochId> = Vec::new();
    let mut i: usize = 0;
    proof {
        reveal(Seq::filter);
        assert(present@.subrange(0, 0).filter(expected) =~= delta_dbs@);
        assert(present@.subrange(0, 0).filter(unexpected) =~= orphans@);
    }
    while i < present.len()
        invariant
            info_map.wf(),
            i <= present.len(),
            expected == |e: EpochId| is_expected(info_map@, e),
            unexpected == |e: EpochId| !is_expected(info_map@, e),
            delta_dbs@ == present@.subrange(0, i as int).filter(expected),
            orphans@ == present@.subrange(0, i as int).filter(unexpected),
        decreases present.len() - i,
    {
        let epoch: EpochId = present[i];
        proof {
            let now = present@.subrange(0, i + 1);
            assert(now.drop_last() =~= present@.subrange(0, i as int));
            assert(now.last() == epoch);
            reveal(Seq::filter);
        }
        if expects(info_map, &epoch) {
            delta_dbs.push(epoch);
        } else {
            orphans.push(epoch);
        }
        i = i + 1;
    }
    proof {
        assert(present@.subrange(0, present@.len() as int) =~= present@);
        info_map.entries_match_view();
    }
    let mut missing_delta_dbs: Vec<EpochId> = Vec::new();
    let mut n: usize = 0;
    while n < info_map.len()
        invariant
            info_map.wf(),
            n <= info_map.entries().len(),
            forall|j: int|
                0 <= j < info_map.entries().len() ==> info_map@.contains_key(
                    (#[trigger] info_map.entries()[j]).0,
                ) && info_map@[info_map.entries()[j].0] == info_map.entries()[j].1,
            forall|j: int, k: int|
                0 <= j < k < info_map.entries().len() ==> (#[trigger] info_map.entries()[j]).0 != (
                #[trigger] info_map.entries()[k]).0,
            missing_delta_dbs@.no_duplicates(),
            forall|e: EpochId| #[trigger]
                missing_delta_dbs@.contains(e) <==> lacks_delta(info_map@, present@, e) && exists|
                    j: int,
                |
                    0 <= j < n && (#[trigger] info_map.entries()[j]).0 == e,
        decreases info_map.entries().len() - n,
    {
        let (id, info) = info_map.entry(n);
        let ghost before = missing_delta_dbs@;
        let ghost entry = info_map.entries()[n as int];
        let lacks = info.snapshot_info_kept_to_provide_sync == SnapshotKeptToProvideSyncStatus::No
            && !contains_epoch(present, &id);
        proof {
            assert(info_map@.contains_key(entry.0));
            assert(lacks == lacks_delta(info_map@, present@, id));
            if before.contains(id) {
                let j = choose|j: int| 0 <= j < n && (#[trigger] info_map.entries()[j]).0 == id;
                assert(info_map.entries()[j].0 != entry.0);
            }
        }
        if lacks {
            missing_delta_dbs.push(id);
        }
        n = n + 1;
        proof {
            let now = missing_delta_dbs@;
            assert forall|e: EpochId| #[trigger]
                now.contains(e) <==> lacks_delta(info_map@, present@, e) && exists|j: int|
                    0 <= j < n && (#[trigger] info_map.entries()[j]).0 == e by {
                if lacks {
                    assert(now =~= before.push(id));
                    if before.contains(e) {
                        let k = choose|k: int| 0 <= k < before.len() && before[k] == e;
                        assert(now[k] == e);
                    }
                    assert(now[now.len() - 1] == id);
                    if now.contains(e) && e != id {
                        let k = choose|k: int| 0 <= k < now.len() && now[k] == e;
                        assert(before[k] == e);
                    }
                }
                assert(entry.0 == id);
                if exists|j: int| 0 <= j < n && (#[trigger] info_map.entries()[j]).0 == e {
                    let j = choose|j: int| 0 <= j < n && (#[trigger] info_map.entries()[j]).0 == e;
                    if j < n - 1 {
                        assert(exists|j: int|
                            0 <= j < n - 1 && (#[trigger] info_map.entries()[j]).0 == e);
                    }
                }
            }
        }
    }
    DeltaScan { orphans, delta_dbs, missing_delta_dbs }
}

/// The range of keys that holds a delta trie: those that begin with the bytes of its epoch. The
/// range is what has to be deleted to destroy the trie.
pub fn delta_db_range(delta_db_name: &str) -> (r: Result<
    (Vec<u8>, Option<Vec<u8>>),
    DbNameError,
>)
    ensures
        match r {
            Ok((lower, upper)) => {
                &&& lower@.len() == 32
                &&& delta_db_name@ == DB_DIR_PREFIX@ + hex::hex_of(lower@)
                &&& bytes::upper_bound(lower@) == (match upper {
                    Some(u) => Some(u@),
                    None => None,
                })
            },
            Err(e) => names::is_refused(delta_db_name@, e),
        },
{
    match parse_epoch_id(delta_db_name) {
        Ok(epoch) => {
            let prefix = copy_bytes(epoch.as_bytes());
            let upper = prefix_upper_bound(prefix.as_slice());
            Ok((prefix, upper))
        },
        Err(e) => Err(e),
    }
}

/// Every stored delta trie is either kept or destroyed, and none that a snapshot needs is
/// destroyed.
pub proof fn needed_delta_tries_survive(
    records: Map<EpochId, SnapshotInfoView>,
    present: Seq<EpochId>,
    epoch: EpochId,
)
    requires
        present.contains(epoch),
    ensures
        present.filter(|e: EpochId| is_expected(records, e)).contains(epoch) <==> is_expected(
            records,
            epoch,
        ),
        present.filter(|e: EpochId| !is_expected(records, e)).contains(epoch) <==> !is_expected(
            records,
            epoch,
        ),
{
    let expected = |e: EpochId| is_expected(records, e);
    let unexpected = |e: EpochId| !is_expected(records, e);
    let i = choose|i: int| 0 <= i < present.len() && present[i] == epoch;
    if is_expected(records, epoch) {
        present.lemma_filter_contains(expected, i);
    } else {
        present.lemma_filter_contains(unexpected, i);
    }
    if present.filter(expected).contains(epoch) {
        let k = choose|k: int|
            0 <= k < present.filter(expected).len() && present.filter(expected)[k] == epoch;
        present.lemma_filter_pred(expected, k);
    }
    if present.filter(unexpected).contains(epoch) {
        let k = choose|k: int|
            0 <= k < present.filter(unexpected).len() && present.filter(unexpected)[k] == epoch;
        present.lemma_filter_pred(unexpected, k);
    }
}

/// A stored delta trie stays exactly if a snapshot is recorded at its epoch, or one is whose parent
/// is taken there; any other is destroyed. A recorded snapshot lacks its delta trie exactly if that
/// is not stored and nothing of the snapshot is kept for sync.
pub proof fn delta_tries_stay_for_their_snapshots(
    records: Map<EpochId, SnapshotInfoView>,
    present: Seq<EpochId>,
    epoch: EpochId,
)
    ensures
        ({
            let needed = records.contains_key(epoch) || !(forall|s: EpochId| #[trigger]
                records.contains_key(s) ==> records[s].parent != epoch);
            &&& present.filter(|e: EpochId| is_expected(records, e)).contains(epoch)
                <==> present.contains(epoch) && needed
            &&& present.filter(|e: EpochId| !is_expected(records, e)).contains(epoch)
                <==> present.contains(epoch) && !needed
        }),
        lacks_delta(records, present, epoch) <==> {
            &&& records.contains_key(epoch)
            &&& !present.contains(epoch)
            &&& records[epoch].kept != SnapshotKeptToProvideSyncStatus::InfoOnly
            &&& records[epoch].kept != SnapshotKeptToProvideSyncStatus::InfoAndSnapshot
        },
{
    let expected = |e: EpochId| is_expected(records, e);
    let unexpected = |e: EpochId| !is_expected(records, e);
    if present.contains(epoch) {
        needed_delta_tries_survive(records, present, epoch);
    }
    if present.filter(expected).contains(epoch) {
        present.lemma_filter_contains_rev(expected, epoch);
    }
    if present.filter(unexpected).contains(epoch) {
        present.lemma_filter_contains_rev(unexpected, epoch);
    }
}

} // verus!
