//! What a snapshot holds: its entries, the dump of a delta trie, and the writes that merge the two.

use super::kvdb_mdbx;
use super::kvdb_mdbx::{PendingOp, Table, WriteOp};
use super::mdbx_dual_write;
use super::mdbx_dual_write::{Entry, ShadowStore};
use super::prefixed_kvdb_mdbx;
use super::prefixed_kvdb_mdbx::PrefixedKvdbMdbx;
use super::range_iter::prefixed_key;
use super::snapshot_prefix;
use super::snapshot_prefix::{
    compose_snapshot_prefix, SUB_PREFIX_DELTA_DEL, SUB_PREFIX_DELTA_SET, SUB_PREFIX_KV,
    SUB_PREFIX_MPT,
};
use crate::bytes;
use crate::bytes::{concat, copy_bytes, prefix_upper_bound};
use crate::db::transaction;
use crate::db::transaction::{append_delete, append_put, new_transaction};
use crate::hash::{null_epoch, EpochId};
use kvdb::DBTransaction;
use vstd::prelude::*;

verus! {

/// The column of the snapshots.
pub const SNAPSHOT_COL: u32 = 0;

/// The writes that put entries.
pub open spec fn puts_of(entries: Seq<Entry>) -> Seq<WriteOp> {
    entries.map_values(|e: Entry| WriteOp::Put(e.0, e.1))
}

/// The writes that take keys out.
pub open spec fn deletes_of(keys: Seq<Seq<u8>>) -> Seq<WriteOp> {
    keys.map_values(|k: Seq<u8>| WriteOp::Delete(k))
}

/// The writes that merge a delta into the entries of a snapshot: first the removals.
pub open spec fn update_ops(deletes: Seq<Seq<u8>>, sets: Seq<Entry>) -> Seq<WriteOp> {
    deletes_of(deletes) + puts_of(sets)
}

/// The write that dumps an entry of a delta trie: with a value among the settings, without one among
/// the removals.
pub open spec fn dump_op(set_prefix: Seq<u8>, del_prefix: Seq<u8>, e: Entry) -> WriteOp {
    if e.1.len() > 0 {
        WriteOp::Put(set_prefix + e.0, e.1)
    } else {
        WriteOp::Put(del_prefix + e.0, seq![])
    }
}

/// The writes that dump a delta trie.
pub open spec fn dump_ops(
    set_prefix: Seq<u8>,
    del_prefix: Seq<u8>,
    entries: Seq<Entry>,
) -> Seq<WriteOp> {
    entries.map_values(|e: Entry| dump_op(set_prefix, del_prefix, e))
}

/// No two entries have the same key.
pub open spec fn distinct_keys(entries: Seq<Entry>) -> bool {
    forall|i: int, j: int| 0 <= i < j < entries.len() ==> (#[trigger] entries[i]).0 != (
    #[trigger] entries[j]).0
}

/// Dumps the entries of a delta trie.
pub fn dump_delta_mpt(
    set_prefix: &[u8],
    del_prefix: &[u8],
    entries: &Vec<(Vec<u8>, Vec<u8>)>,
) -> (r: Vec<PendingOp>)
    ensures
        kvdb_mdbx::pending_views(r@) == dump_ops(
            set_prefix@,
            del_prefix@,
            mdbx_dual_write::entry_views(entries@),
        ),
{
    let ghost all = mdbx_dual_write::entry_views(entries@);
    let mut out: Vec<PendingOp> = Vec::new();
    let mut i: usize = 0;
    while i < entries.len()
        invariant
            i <= entries@.len(),
            all == mdbx_dual_write::entry_views(entries@),
            out@.len() == i,
            forall|j: int|
                0 <= j < i ==> (#[trigger] out@[j])@ == dump_op(set_prefix@, del_prefix@, all[j]),
        decreases entries.len() - i,
    {
        let key = entries[i].0.as_slice();
        let value = entries[i].1.as_slice();
        let op = if value.len() > 0 {
            PendingOp::Put(concat(set_prefix, key), copy_bytes(value))
        } else {
            PendingOp::Put(concat(del_prefix, key), Vec::new())
        };
        proof {
            assert(all[i as int] == (key@, value@));
            assert(op@ == dump_op(set_prefix@, del_prefix@, all[i as int]));
        }
        out.push(op);
        i = i + 1;
    }
    proof {
        assert(kvdb_mdbx::pending_views(out@) =~= dump_ops(set_prefix@, del_prefix@, all));
    }
    out
}

/// Puts entries under a prefix.
pub fn copy_entries(prefix: &[u8], entries: &Vec<(Vec<u8>, Vec<u8>)>) -> (r: Vec<PendingOp>)
    ensures
        kvdb_mdbx::pending_views(r@) == prefixed_kvdb_mdbx::composed_ops(
            prefix@,
            puts_of(mdbx_dual_write::entry_views(entries@)),
        ),
{
    let ghost all = mdbx_dual_write::entry_views(entries@);
    let mut out: Vec<PendingOp> = Vec::new();
    let mut i: usize = 0;
    while i < entries.len()
        invariant
            i <= entries@.len(),
            all == mdbx_dual_write::entry_views(entries@),
            out@.len() == i,
            forall|j: int|
                0 <= j < i ==> (#[trigger] out@[j])@ == WriteOp::Put(prefix@ + all[j].0, all[j].1),
        decreases entries.len() - i,
    {
        let op = PendingOp::Put(
            concat(prefix, entries[i].0.as_slice()),
            copy_bytes(entries[i].1.as_slice()),
        );
        out.push(op);
        i = i + 1;
    }
    proof {
        assert(kvdb_mdbx::pending_views(out@) =~= prefixed_kvdb_mdbx::composed_ops(
            prefix@,
            puts_of(all),
        ));
    }
    out
}

/// Takes keys out under a prefix.
pub fn delete_keys(prefix: &[u8], keys: &Vec<Vec<u8>>) -> (r: Vec<PendingOp>)
    ensures
        kvdb_mdbx::pending_views(r@) == prefixed_kvdb_mdbx::composed_ops(
            prefix@,
            deletes_of(bytes::byte_views(keys@)),
        ),
{
    let ghost all = bytes::byte_views(keys@);
    let mut out: Vec<PendingOp> = Vec::new();
    let mut i: usize = 0;
    while i < keys.len()
        invariant
            i <= keys@.len(),
            all == bytes::byte_views(keys@),
            out@.len() == i,
            forall|j: int| 0 <= j < i ==> (#[trigger] out@[j])@ == WriteOp::Delete(prefix@ + all[j]),
        decreases keys.len() - i,
    {
        out.push(PendingOp::Delete(concat(prefix, keys[i].as_slice())));
        i = i + 1;
    }
    proof {
        assert(kvdb_mdbx::pending_views(out@) =~= prefixed_kvdb_mdbx::composed_ops(
            prefix@,
            deletes_of(all),
        ));
    }
    out
}

/// Merges a delta into the entries under a prefix: first the removals, then the settings.
pub fn apply_update_to_kvdb(
    prefix: &[u8],
    deletes: &Vec<Vec<u8>>,
    sets: &Vec<(Vec<u8>, Vec<u8>)>,
) -> (r: Vec<PendingOp>)
    ensures
        kvdb_mdbx::pending_views(r@) == prefixed_kvdb_mdbx::composed_ops(
            prefix@,
            update_ops(bytes::byte_views(deletes@), mdbx_dual_write::entry_views(sets@)),
        ),
{
    let mut out = delete_keys(prefix, deletes);
    let ghost first = out@;
    let mut puts = copy_entries(prefix, sets);
    let ghost second = puts@;
    out.append(&mut puts);
    proof {
        let d = bytes::byte_views(deletes@);
        let s = mdbx_dual_write::entry_views(sets@);
        assert(out@ =~= first + second);
        assert(kvdb_mdbx::pending_views(out@) =~= kvdb_mdbx::pending_views(first)
            + kvdb_mdbx::pending_views(second));
        assert(prefixed_kvdb_mdbx::composed_ops(prefix@, update_ops(d, s))
            =~= prefixed_kvdb_mdbx::composed_ops(prefix@, deletes_of(d))
            + prefixed_kvdb_mdbx::composed_ops(prefix@, puts_of(s)));
    }
    out
}

/// Takes a dump out again, given its keys.
pub fn drop_delta_mpt_dump(
    set_prefix: &[u8],
    del_prefix: &[u8],
    set_keys: &Vec<Vec<u8>>,
    del_keys: &Vec<Vec<u8>>,
) -> (r: Vec<PendingOp>)
    ensures
        kvdb_mdbx::pending_views(r@) == prefixed_kvdb_mdbx::composed_ops(
            set_prefix@,
            deletes_of(bytes::byte_views(set_keys@)),
        ) + prefixed_kvdb_mdbx::composed_ops(
            del_prefix@,
            deletes_of(bytes::byte_views(del_keys@)),
        ),
{
    let mut out = delete_keys(set_prefix, set_keys);
    let ghost first = out@;
    let mut dels = delete_keys(del_prefix, del_keys);
    let ghost second = dels@;
    out.append(&mut dels);
    proof {
        assert(out@ =~= first + second);
        assert(kvdb_mdbx::pending_views(out@) =~= kvdb_mdbx::pending_views(first)
            + kvdb_mdbx::pending_views(second));
    }
    out
}

proof fn lemma_puts(table: Table, entries: Seq<Entry>, key: Seq<u8>)
    requires
        distinct_keys(entries),
    ensures
        ({
            let after = kvdb_mdbx::apply_ops(table, puts_of(entries));
            &&& forall|i: int|
                0 <= i < entries.len() && (#[trigger] entries[i]).0 == key ==> after.contains_key(
                    key,
                ) && after[key] == entries[i].1
            &&& (forall|i: int| 0 <= i < entries.len() ==> (#[trigger] entries[i]).0 != key) ==> {
                &&& after.contains_key(key) == table.contains_key(key)
                &&& table.contains_key(key) ==> after[key] == table[key]
            }
        }),
    decreases entries.len(),
{
    let ops = puts_of(entries);
    if entries.len() > 0 {
        let before = entries.drop_last();
        assert(ops.drop_last() =~= puts_of(before));
        assert forall|i: int, j: int| 0 <= i < j < before.len() implies (#[trigger] before[i]).0
            != (#[trigger] before[j]).0 by {
            assert(entries[i].0 != entries[j].0);
        }
        lemma_puts(table, before, key);
        let last = entries.last();
        let after = kvdb_mdbx::apply_ops(table, ops);
        assert(after == kvdb_mdbx::apply_ops(table, puts_of(before)).insert(last.0, last.1));
        assert forall|i: int| 0 <= i < entries.len() && (#[trigger] entries[i]).0 == key implies
            after.contains_key(key) && after[key] == entries[i].1 by {
            if i < before.len() {
                assert(before[i] == entries[i]);
                assert(entries[i].0 != entries[entries.len() - 1].0);
            }
        }
        if forall|i: int| 0 <= i < entries.len() ==> (#[trigger] entries[i]).0 != key {
            assert(entries[entries.len() - 1].0 != key);
            assert forall|i: int| 0 <= i < before.len() implies (#[trigger] before[i]).0 != key by {
                assert(before[i] == entries[i]);
            }
        }
    }
}

proof fn lemma_deletes(table: Table, keys: Seq<Seq<u8>>, key: Seq<u8>)
    ensures
        ({
            let after = kvdb_mdbx::apply_ops(table, deletes_of(keys));
            if keys.contains(key) {
                !after.contains_key(key)
            } else {
                &&& after.contains_key(key) == table.contains_key(key)
                &&& table.contains_key(key) ==> after[key] == table[key]
            }
        }),
    decreases keys.len(),
{
    let ops = deletes_of(keys);
    if keys.len() > 0 {
        let before = keys.drop_last();
        assert(ops.drop_last() =~= deletes_of(before));
        lemma_deletes(table, before, key);
        if before.contains(key) {
            let i = choose|i: int| 0 <= i < before.len() && before[i] == key;
            assert(keys[i] == key);
        }
        if keys.contains(key) && key != keys.last() {
            let i = choose|i: int| 0 <= i < keys.len() && keys[i] == key;
            assert(before[i] == key);
        }
        assert(keys[keys.len() - 1] == keys.last());
    }
}

/// What stands under a key once a delta is merged: its new value where it is set, nothing where it
/// is only removed, and otherwise what stood there before.
pub open spec fn merged_at(
    before: Table,
    deletes: Seq<Seq<u8>>,
    sets: Seq<Entry>,
    after: Table,
    key: Seq<u8>,
) -> bool {
    &&& forall|i: int|
        0 <= i < sets.len() && (#[trigger] sets[i]).0 == key ==> after.contains_key(key)
            && after[key] == sets[i].1
    &&& (forall|i: int| 0 <= i < sets.len() ==> (#[trigger] sets[i]).0 != key) ==> (
    if deletes.contains(key) {
        !after.contains_key(key)
    } else {
        &&& after.contains_key(key) == before.contains_key(key)
        &&& before.contains_key(key) ==> after[key] == before[key]
    })
}

/// The entries are those from before with a delta merged into them.
pub open spec fn is_merged(
    before: Table,
    deletes: Seq<Seq<u8>>,
    sets: Seq<Entry>,
    after: Table,
) -> bool {
    forall|key: Seq<u8>| #[trigger] merged_at(before, deletes, sets, after, key)
}

/// Merging a delta changes the entries of a snapshot as the delta says, whatever else is stored.
pub proof fn updates_merge_the_delta(
    table: Table,
    prefix: Seq<u8>,
    deletes: Seq<Seq<u8>>,
    sets: Seq<Entry>,
)
    requires
        distinct_keys(sets),
    ensures
        is_merged(
            prefixed_kvdb_mdbx::slice_of(table, prefix),
            deletes,
            sets,
            prefixed_kvdb_mdbx::slice_of(
                kvdb_mdbx::apply_ops(
                    table,
                    prefixed_kvdb_mdbx::composed_ops(prefix, update_ops(deletes, sets)),
                ),
                prefix,
            ),
        ),
{
    let before = prefixed_kvdb_mdbx::slice_of(table, prefix);
    let ops = update_ops(deletes, sets);
    prefixed_kvdb_mdbx::slice_behaves_as_a_table(table, prefix, ops);
    kvdb_mdbx::batches_compose(before, deletes_of(deletes), puts_of(sets));
    let mid = kvdb_mdbx::apply_ops(before, deletes_of(deletes));
    let after = kvdb_mdbx::apply_ops(before, ops);
    assert forall|key: Seq<u8>| #[trigger] merged_at(before, deletes, sets, after, key) by {
        lemma_deletes(before, deletes, key);
        lemma_puts(mid, sets, key);
    }
}

/// The list holds exactly the entries of a table.
pub open spec fn lists_table(entries: Seq<Entry>, table: Table) -> bool {
    &&& distinct_keys(entries)
    &&& forall|i: int|
        0 <= i < entries.len() ==> table.contains_key((#[trigger] entries[i]).0)
            && table[entries[i].0] == entries[i].1
    &&& forall|key: Seq<u8>| #[trigger]
        table.contains_key(key) ==> exists|i: int|
            0 <= i < entries.len() && (#[trigger] entries[i]).0 == key
}

/// A new snapshot into which the entries of its parent are copied and a delta is merged holds what
/// the parent holds with the delta merged into it.
pub proof fn children_merge_the_delta_into_the_parent(
    table: Table,
    prefix: Seq<u8>,
    parent: Table,
    entries: Seq<Entry>,
    deletes: Seq<Seq<u8>>,
    sets: Seq<Entry>,
)
    requires
        prefixed_kvdb_mdbx::slice_of(table, prefix) == Map::<Seq<u8>, Seq<u8>>::empty(),
        lists_table(entries, parent),
        distinct_keys(sets),
    ensures
        is_merged(
            parent,
            deletes,
            sets,
            prefixed_kvdb_mdbx::slice_of(
                kvdb_mdbx::apply_ops(
                    kvdb_mdbx::apply_ops(
                        table,
                        prefixed_kvdb_mdbx::composed_ops(prefix, puts_of(entries)),
                    ),
                    prefixed_kvdb_mdbx::composed_ops(prefix, update_ops(deletes, sets)),
                ),
                prefix,
            ),
        ),
{
    let empty = prefixed_kvdb_mdbx::slice_of(table, prefix);
    let copied = kvdb_mdbx::apply_ops(
        table,
        prefixed_kvdb_mdbx::composed_ops(prefix, puts_of(entries)),
    );
    prefixed_kvdb_mdbx::slice_behaves_as_a_table(table, prefix, puts_of(entries));
    let slice = prefixed_kvdb_mdbx::slice_of(copied, prefix);
    assert forall|key: Seq<u8>|
        #![trigger slice.contains_key(key)]
        #![trigger parent.contains_key(key)]
        slice.contains_key(key) == parent.contains_key(key) && (parent.contains_key(key)
            ==> slice[key] == parent[key]) by {
        lemma_puts(empty, entries, key);
        if parent.contains_key(key) {
            let i = choose|i: int| 0 <= i < entries.len() && (#[trigger] entries[i]).0 == key;
            assert(entries[i].0 == key);
        }
    }
    assert(slice =~= parent);
    updates_merge_the_delta(copied, prefix, deletes, sets);
}

/// After a dump, every entry of the delta trie stands where it belongs: with its value among the
/// settings, or, where it has none, among the removals.
pub proof fn dumps_keep_every_entry(
    table: Table,
    set_prefix: Seq<u8>,
    del_prefix: Seq<u8>,
    entries: Seq<Entry>,
    i: int,
)
    requires
        prefixed_kvdb_mdbx::apart(set_prefix, del_prefix),
        distinct_keys(entries),
        0 <= i < entries.len(),
    ensures
        ({
            let after = kvdb_mdbx::apply_ops(table, dump_ops(set_prefix, del_prefix, entries));
            let (key, value) = entries[i];
            if value.len() > 0 {
                after.contains_key(set_prefix + key) && after[set_prefix + key] == value
            } else {
                after.contains_key(del_prefix + key) && after[del_prefix + key] == Seq::<
                    u8,
                >::empty()
            }
        }),
    decreases entries.len(),
{
    let ops = dump_ops(set_prefix, del_prefix, entries);
    let before = entries.drop_last();
    assert(ops.drop_last() =~= dump_ops(set_prefix, del_prefix, before));
    assert(ops.last() == dump_op(set_prefix, del_prefix, entries.last()));
    if i < before.len() {
        assert forall|x: int, y: int| 0 <= x < y < before.len() implies (#[trigger] before[x]).0
            != (#[trigger] before[y]).0 by {
            assert(entries[x].0 != entries[y].0);
        }
        dumps_keep_every_entry(table, set_prefix, del_prefix, before, i);
        let key = entries[i].0;
        let last = entries[entries.len() - 1].0;
        assert(before[i] == entries[i]);
        assert(key != last);
        prefixed_kvdb_mdbx::prefixed_keys_differ(set_prefix, del_prefix, key, last);
        prefixed_kvdb_mdbx::prefixed_keys_differ(set_prefix, del_prefix, last, key);
    }
}

/// What happens to handles.
pub enum HandleStep {
    /// One is opened; where a permit is needed, it was taken.
    Open(SnapshotKvDbMdbx),
    /// The open one at a position is closed; where closing says so, a permit is given back.
    Close(int),
}

/// The handles that are open, and how many permits are left to be taken.
pub struct OpenHandles {
    pub open: Seq<SnapshotKvDbMdbx>,
    pub free: int,
}

/// How many of the handles hold a permit.
pub open spec fn permits_held(handles: Seq<SnapshotKvDbMdbx>) -> nat
    decreases handles.len(),
{
    if handles.len() == 0 {
        0
    } else {
        permits_held(handles.drop_last()) + if handles.last().holds_permit() {
            1nat
        } else {
            0
        }
    }
}

/// The step can be taken: a permit is left where one is needed, and what is closed is open.
pub open spec fn can_step(handles: OpenHandles, step: HandleStep) -> bool {
    match step {
        HandleStep::Open(handle) => handle.holds_permit() ==> handles.free > 0,
        HandleStep::Close(i) => 0 <= i < handles.open.len(),
    }
}

/// The handles after a step.
pub open spec fn after_step(handles: OpenHandles, step: HandleStep) -> OpenHandles {
    match step {
        HandleStep::Open(handle) => OpenHandles {
            open: handles.open.push(handle),
            free: if handle.holds_permit() {
                handles.free - 1
            } else {
                handles.free
            },
        },
        HandleStep::Close(i) => OpenHandles {
            open: handles.open.remove(i),
            free: if handles.open[i].holds_permit() {
                handles.free + 1
            } else {
                handles.free
            },
        },
    }
}

/// The handles after some steps, where `limit` permits were there and no handle was open at first.
pub open spec fn after_steps(limit: nat, steps: Seq<HandleStep>) -> OpenHandles
    decreases steps.len(),
{
    if steps.len() == 0 {
        OpenHandles { open: seq![], free: limit as int }
    } else {
        after_step(after_steps(limit, steps.drop_last()), steps.last())
    }
}

/// Each step can be taken when it comes.
pub open spec fn can_take_steps(limit: nat, steps: Seq<HandleStep>) -> bool
    decreases steps.len(),
{
    steps.len() == 0 || (can_take_steps(limit, steps.drop_last()) && can_step(
        after_steps(limit, steps.drop_last()),
        steps.last(),
    ))
}

proof fn removing_lowers_permits_held(handles: Seq<SnapshotKvDbMdbx>, i: int)
    requires
        0 <= i < handles.len(),
    ensures
        permits_held(handles) == permits_held(handles.remove(i)) + if handles[i].holds_permit() {
            1nat
        } else {
            0
        },
    decreases handles.len(),
{
    if i < handles.len() - 1 {
        removing_lowers_permits_held(handles.drop_last(), i);
        assert(handles.remove(i).drop_last() =~= handles.drop_last().remove(i));
    } else {
        assert(handles.remove(i) =~= handles.drop_last());
    }
}

/// However handles are opened and closed, and however many snapshots are made meanwhile, at most
/// `limit` handles hold a permit at a time, and when that many do, no permit is left: the permits
/// that are held and those that are left are always `limit` together.
pub proof fn open_handles_stay_bounded(limit: nat, steps: Seq<HandleStep>)
    requires
        can_take_steps(limit, steps),
    ensures
        ({
            let handles = after_steps(limit, steps);
            &&& handles.free + permits_held(handles.open) == limit
            &&& permits_held(handles.open) <= limit
            &&& permits_held(handles.open) == limit <==> handles.free == 0
        }),
    decreases steps.len(),
{
    if steps.len() > 0 {
        let before = after_steps(limit, steps.drop_last());
        open_handles_stay_bounded(limit, steps.drop_last());
        match steps.last() {
            HandleStep::Open(handle) => {
                assert(before.open.push(handle).drop_last() =~= before.open);
            },
            HandleStep::Close(i) => {
                removing_lowers_permits_held(before.open, i);
            },
        }
    }
}

/// A snapshot among those of a shared column.
#[derive(Debug)]
pub struct SnapshotKvDbMdbx {
    snapshot_epoch_id: EpochId,
    /// Whether a permit was taken for it, to be given back when it is closed.
    release_semaphore_on_drop: bool,
    /// Whether it is destroyed when it is closed.
    remove_on_close: bool,
}

impl SnapshotKvDbMdbx {
    /// The epoch of the snapshot.
    pub closed spec fn epoch(&self) -> EpochId {
        self.snapshot_epoch_id
    }

    /// A permit was taken for it.
    pub closed spec fn holds_permit(&self) -> bool {
        self.release_semaphore_on_drop
    }

    /// It is destroyed when it is closed.
    pub closed spec fn removed_on_close(&self) -> bool {
        self.remove_on_close
    }

    /// A handle to a snapshot, for which a permit was taken.
    pub fn attach(snapshot_epoch_id: EpochId) -> (r: Self)
        ensures
            r.epoch() == snapshot_epoch_id,
            r.holds_permit(),
            !r.removed_on_close(),
    {
        SnapshotKvDbMdbx {
            snapshot_epoch_id,
            release_semaphore_on_drop: true,
            remove_on_close: false,
        }
    }

    /// A handle to a snapshot that is being made, for which no permit is taken: nobody else opens it
    /// meanwhile.
    pub fn attach_without_permit(snapshot_epoch_id: EpochId) -> (r: Self)
        ensures
            r.epoch() == snapshot_epoch_id,
            !r.holds_permit(),
            !r.removed_on_close(),
    {
        SnapshotKvDbMdbx {
            snapshot_epoch_id,
            release_semaphore_on_drop: false,
            remove_on_close: false,
        }
    }

    /// A handle to the empty snapshot before genesis, for which no permit is needed.
    pub fn get_null_snapshot() -> (r: Self)
        ensures
            r.epoch() == null_epoch(),
            !r.holds_permit(),
            !r.removed_on_close(),
    {
        SnapshotKvDbMdbx {
            snapshot_epoch_id: null_epoch(),
            release_semaphore_on_drop: false,
            remove_on_close: false,
        }
    }

    /// The epoch of the snapshot.
    pub fn snapshot_epoch_id(&self) -> (r: &EpochId)
        ensures
            *r == self.epoch(),
    {
        &self.snapshot_epoch_id
    }

    /// Has the snapshot destroyed when it is closed.
    pub fn set_remove_on_last_close(&mut self)
        ensures
            final(self).removed_on_close(),
            final(self).epoch() == old(self).epoch(),
            final(self).holds_permit() == old(self).holds_permit(),
    {
        self.remove_on_close = true;
    }

    /// What closing the handle comes to: whether the snapshot is to be destroyed, and whether a
    /// permit is to be given back.
    pub fn close(self) -> (r: (bool, bool))
        ensures
            r == (self.removed_on_close(), self.holds_permit()),
    {
        (self.remove_on_close, self.release_semaphore_on_drop)
    }

    /// Whether the trie is stored with the entries. It always is.
    pub fn is_mpt_table_in_current_db(&self) -> (r: bool)
        ensures
            r,
    {
        true
    }

    /// The entries, in a store.
    pub fn kv_view<S: ShadowStore>(&self, store: S) -> (r: PrefixedKvdbMdbx<S>)
        ensures
            r.spec_inner() == store,
            r.spec_prefix() == snapshot_prefix::snapshot_prefix(self.epoch(), SUB_PREFIX_KV),
    {
        PrefixedKvdbMdbx::new(store, compose_snapshot_prefix(&self.snapshot_epoch_id, SUB_PREFIX_KV))
    }

    /// The settings of the dumped delta trie, in a store.
    pub fn delta_set_view<S: ShadowStore>(&self, store: S) -> (r: PrefixedKvdbMdbx<S>)
        ensures
            r.spec_inner() == store,
            r.spec_prefix() == snapshot_prefix::snapshot_prefix(
                self.epoch(),
                SUB_PREFIX_DELTA_SET,
            ),
    {
        PrefixedKvdbMdbx::new(
            store,
            compose_snapshot_prefix(&self.snapshot_epoch_id, SUB_PREFIX_DELTA_SET),
        )
    }

    /// The removals of the dumped delta trie, in a store.
    pub fn delta_del_view<S: ShadowStore>(&self, store: S) -> (r: PrefixedKvdbMdbx<S>)
        ensures
            r.spec_inner() == store,
            r.spec_prefix() == snapshot_prefix::snapshot_prefix(
                self.epoch(),
                SUB_PREFIX_DELTA_DEL,
            ),
    {
        PrefixedKvdbMdbx::new(
            store,
            compose_snapshot_prefix(&self.snapshot_epoch_id, SUB_PREFIX_DELTA_DEL),
        )
    }

    /// The nodes of the trie, in a store.
    pub fn mpt_view<S: ShadowStore>(&self, store: S) -> (r: PrefixedKvdbMdbx<S>)
        ensures
            r.spec_inner() == store,
            r.spec_prefix() == snapshot_prefix::snapshot_prefix(self.epoch(), SUB_PREFIX_MPT),
    {
        PrefixedKvdbMdbx::new(
            store,
            compose_snapshot_prefix(&self.snapshot_epoch_id, SUB_PREFIX_MPT),
        )
    }

    /// The ranges of keys that the dumped delta trie takes up: its settings and its removals.
    pub fn delta_dump_ranges(&self) -> (r: [(Vec<u8>, Option<Vec<u8>>); 2])
        ensures
            r[0].0@ == snapshot_prefix::snapshot_prefix(self.epoch(), SUB_PREFIX_DELTA_SET),
            r[1].0@ == snapshot_prefix::snapshot_prefix(self.epoch(), SUB_PREFIX_DELTA_DEL),
            forall|i: int|
                0 <= i < 2 ==> match (#[trigger] r[i]).1 {
                    Some(u) => bytes::upper_bound(r[i].0@) == Some(u@),
                    None => bytes::upper_bound(r[i].0@) is None,
                },
    {
        let set = compose_snapshot_prefix(&self.snapshot_epoch_id, SUB_PREFIX_DELTA_SET);
        let set_end = prefix_upper_bound(set.as_slice());
        let del = compose_snapshot_prefix(&self.snapshot_epoch_id, SUB_PREFIX_DELTA_DEL);
        let del_end = prefix_upper_bound(del.as_slice());
        [(set, set_end), (del, del_end)]
    }
}

/// The four parts of a snapshot, and the parts of two snapshots, are apart.
pub proof fn snapshot_parts_are_apart(a: EpochId, sub_a: u8, b: EpochId, sub_b: u8)
    requires
        a != b || sub_a != sub_b,
    ensures
        prefixed_kvdb_mdbx::apart(
            snapshot_prefix::snapshot_prefix(a, sub_a),
            snapshot_prefix::snapshot_prefix(b, sub_b),
        ),
{
    let p = snapshot_prefix::snapshot_prefix(a, sub_a);
    let q = snapshot_prefix::snapshot_prefix(b, sub_b);
    if p == q {
        assert(p[32] == q[32]);
        assert(a@ =~= p.subrange(0, 32));
        assert(b@ =~= q.subrange(0, 32));
        crate::hash::h256_determined_by_bytes(a, b);
    }
    prefixed_kvdb_mdbx::prefixes_of_one_length_are_apart(p, q);
}

/// The writes of a snapshot with a database of its own, made at once or, once they are begun,
/// together.
pub struct PrefixedKvdbParitydb {
    col: u32,
    prefix: u8,
}

impl PrefixedKvdbParitydb {
    /// The column.
    pub closed spec fn col(&self) -> u32 {
        self.col
    }

    /// The prefix of the keys.
    pub closed spec fn prefix(&self) -> u8 {
        self.prefix
    }

    /// A part of a snapshot.
    pub fn new(col: u32, prefix: u8) -> (r: Self)
        ensures
            r.col() == col,
            r.prefix() == prefix,
    {
        PrefixedKvdbParitydb { col, prefix }
    }

    /// Takes a key out: buffered where writes were begun, otherwise in a transaction to be written at
    /// once.
    pub fn delete(&self, open: &mut Option<DBTransaction>, key: &[u8]) -> (now: Option<
        DBTransaction,
    >)
        ensures
            match *old(open) {
                Some(t) => now is None && (*final(open) matches Some(u) && transaction::writes_of(
                    u,
                ) == transaction::writes_of(t).push(
                    (self.col(), seq![self.prefix()] + key@, None),
                )),
                None => *final(open) is None && (now matches Some(u) && transaction::writes_of(u)
                    == seq![(self.col(), seq![self.prefix()] + key@, None::<Seq<u8>>)]),
            },
    {
        let prefixed = prefixed_key(self.prefix, key);
        match open.take() {
            Some(t) => {
                let mut t = t;
                append_delete(&mut t, self.col, prefixed.as_slice());
                *open = Some(t);
                None
            },
            None => {
                let mut t = new_transaction();
                append_delete(&mut t, self.col, prefixed.as_slice());
                proof {
                    assert(transaction::writes_of(t) =~= seq![
                        (self.col(), seq![self.prefix()] + key@, None::<Seq<u8>>),
                    ]);
                }
                Some(t)
            },
        }
    }

    /// Puts a value under a key: buffered where writes were begun, otherwise in a transaction to be
    /// written at once.
    pub fn put(&self, open: &mut Option<DBTransaction>, key: &[u8], value: &[u8]) -> (now: Option<
        DBTransaction,
    >)
        ensures
            match *old(open) {
                Some(t) => now is None && (*final(open) matches Some(u) && transaction::writes_of(
                    u,
                ) == transaction::writes_of(t).push(
                    (self.col(), seq![self.prefix()] + key@, Some(value@)),
                )),
                None => *final(open) is None && (now matches Some(u) && transaction::writes_of(u)
                    == seq![(self.col(), seq![self.prefix()] + key@, Some(value@))]),
            },
    {
        let prefixed = prefixed_key(self.prefix, key);
        match open.take() {
            Some(t) => {
                let mut t = t;
                append_put(&mut t, self.col, prefixed.as_slice(), value);
                *open = Some(t);
                None
            },
            None => {
                let mut t = new_transaction();
                append_put(&mut t, self.col, prefixed.as_slice(), value);
                proof {
                    assert(transaction::writes_of(t) =~= seq![
                        (self.col(), seq![self.prefix()] + key@, Some(value@)),
                    ]);
                }
                Some(t)
            },
        }
    }
}

/// Begins to buffer writes. Where that was begun already, it goes on.
pub fn start_transaction(open: &mut Option<DBTransaction>)
    ensures
        match *old(open) {
            Some(t) => *final(open) == Some(t),
            None => *final(open) matches Some(u) && transaction::writes_of(u) == Seq::<
                (u32, Seq<u8>, Option<Seq<u8>>),
            >::empty(),
        },
{
    if open.is_none() {
        *open = Some(new_transaction());
    }
}

/// Ends buffering, and gives what is to be written together.
pub fn commit_transaction(open: &mut Option<DBTransaction>) -> (r: Option<DBTransaction>)
    ensures
        r == *old(open),
        *final(open) is None,
{
    open.take()
}

} // verus!
