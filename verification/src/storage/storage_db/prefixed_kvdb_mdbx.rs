//! A slice of a shared table: every key carries the prefix of the slice.

use super::kvdb_mdbx;
use super::kvdb_mdbx::{BatchOp, CommitError, KvdbMdbxTransaction, PendingOp, Table, WriteOp};
use super::mdbx_dual_write;
use super::mdbx_dual_write::{DualWritePrimary, ShadowStore, StoreError};
use crate::bytes;
use crate::bytes::{bytes_eq, concat, copy_bytes, prefix_upper_bound};
use vstd::prelude::*;

verus! {

/// The length of the prefix of a delta trie, which is an epoch id.
pub const DELTA_MPT_PREFIX_LEN: usize = 32;

/// A write to a slice, as a write to the shared table.
pub open spec fn composed_op(prefix: Seq<u8>, op: WriteOp) -> WriteOp {
    match op {
        WriteOp::Put(k, v) => WriteOp::Put(prefix + k, v),
        WriteOp::Delete(k) => WriteOp::Delete(prefix + k),
    }
}

/// Writes to a slice, as writes to the shared table.
pub open spec fn composed_ops(prefix: Seq<u8>, ops: Seq<WriteOp>) -> Seq<WriteOp> {
    ops.map_values(|op: WriteOp| composed_op(prefix, op))
}

/// What a slice of a table holds: the entries whose keys start with its prefix, without it.
pub open spec fn slice_of(table: Table, prefix: Seq<u8>) -> Table {
    Map::new(|k: Seq<u8>| table.contains_key(prefix + k), |k: Seq<u8>| table[prefix + k])
}

/// Two prefixes such that no key starts with both.
pub open spec fn apart(a: Seq<u8>, b: Seq<u8>) -> bool {
    !bytes::has_prefix(a, b) && !bytes::has_prefix(b, a)
}

proof fn lemma_same_prefix(prefix: Seq<u8>, a: Seq<u8>, b: Seq<u8>)
    requires
        prefix + a == prefix + b,
    ensures
        a == b,
{
    let l = prefix.len() as int;
    assert((prefix + a).subrange(l, l + a.len()) =~= a);
    assert((prefix + b).subrange(l, l + b.len()) =~= b);
    assert((prefix + a).len() == (prefix + b).len());
}

proof fn lemma_apart(p: Seq<u8>, q: Seq<u8>, a: Seq<u8>, b: Seq<u8>)
    requires
        apart(p, q),
    ensures
        p + a != q + b,
{
    if p + a == q + b {
        if p.len() <= q.len() {
            assert(q.subrange(0, p.len() as int) =~= p) by {
                assert forall|i: int| 0 <= i < p.len() implies q[i] == p[i] by {
                    assert((p + a)[i] == (q + b)[i]);
                }
            }
        } else {
            assert(p.subrange(0, q.len() as int) =~= q) by {
                assert forall|i: int| 0 <= i < q.len() implies q[i] == p[i] by {
                    assert((p + a)[i] == (q + b)[i]);
                }
            }
        }
    }
}

/// Under one prefix different keys stay different, and under prefixes that are apart all keys do.
pub proof fn prefixed_keys_differ(p: Seq<u8>, q: Seq<u8>, a: Seq<u8>, b: Seq<u8>)
    requires
        apart(p, q),
    ensures
        p + a == p + b ==> a == b,
        q + a == q + b ==> a == b,
        p + a != q + b,
{
    if p + a == p + b {
        lemma_same_prefix(p, a, b);
    }
    if q + a == q + b {
        lemma_same_prefix(q, a, b);
    }
    lemma_apart(p, q, a, b);
}

/// Writes through a slice have the same effect on what it holds as on a table of its own.
pub proof fn slice_behaves_as_a_table(table: Table, prefix: Seq<u8>, ops: Seq<WriteOp>)
    ensures
        slice_of(kvdb_mdbx::apply_ops(table, composed_ops(prefix, ops)), prefix)
            == kvdb_mdbx::apply_ops(slice_of(table, prefix), ops),
    decreases ops.len(),
{
    let all = composed_ops(prefix, ops);
    if ops.len() > 0 {
        slice_behaves_as_a_table(table, prefix, ops.drop_last());
        assert(all.drop_last() =~= composed_ops(prefix, ops.drop_last()));
        let before = kvdb_mdbx::apply_ops(table, all.drop_last());
        let after = kvdb_mdbx::apply_op(before, all.last());
        let slice = kvdb_mdbx::apply_op(slice_of(before, prefix), ops.last());
        assert forall|k: Seq<u8>|
            #![trigger slice_of(after, prefix).contains_key(k)]
            #![trigger slice.contains_key(k)]
            slice_of(after, prefix).contains_key(k) == slice.contains_key(k) && (
            slice.contains_key(k) ==> slice_of(after, prefix)[k] == slice[k]) by {
            let key = kvdb_mdbx::op_key(ops.last());
            if prefix + k == prefix + key {
                lemma_same_prefix(prefix, k, key);
            }
        }
        assert(slice_of(after, prefix) =~= slice);
    } else {
        assert(all =~= Seq::<WriteOp>::empty());
    }
}

/// Writes through one slice leave every slice alone whose prefix is apart from its own.
pub proof fn slices_are_isolated(table: Table, prefix: Seq<u8>, other: Seq<u8>, ops: Seq<WriteOp>)
    requires
        apart(prefix, other),
    ensures
        slice_of(kvdb_mdbx::apply_ops(table, composed_ops(prefix, ops)), other) == slice_of(
            table,
            other,
        ),
    decreases ops.len(),
{
    let all = composed_ops(prefix, ops);
    if ops.len() > 0 {
        slices_are_isolated(table, prefix, other, ops.drop_last());
        assert(all.drop_last() =~= composed_ops(prefix, ops.drop_last()));
        let before = kvdb_mdbx::apply_ops(table, all.drop_last());
        let after = kvdb_mdbx::apply_op(before, all.last());
        assert forall|k: Seq<u8>|
            after.contains_key(other + k) == before.contains_key(other + k) && (
            after.contains_key(other + k) ==> after[other + k] == before[other + k]) by {
            lemma_apart(prefix, other, kvdb_mdbx::op_key(ops.last()), k);
        }
        assert(slice_of(after, other) =~= slice_of(before, other));
    } else {
        assert(all =~= Seq::<WriteOp>::empty());
    }
}

/// Two different prefixes of the same length are apart.
pub proof fn prefixes_of_one_length_are_apart(a: Seq<u8>, b: Seq<u8>)
    requires
        a.len() == b.len(),
        a != b,
    ensures
        apart(a, b),
{
    if bytes::has_prefix(a, b) {
        assert(a =~= b);
    }
    if bytes::has_prefix(b, a) {
        assert(a =~= b);
    }
}

/// The range from the prefix up to its upper bound holds every key of a slice, and no other key
/// that is at least as long as the prefix.
pub proof fn slice_range_is_exact(prefix: Seq<u8>, key: Seq<u8>)
    requires
        key.len() >= prefix.len(),
    ensures
        bytes::in_range(key, prefix, bytes::upper_bound(prefix)) <==> exists|k: Seq<u8>|
            key == #[trigger] (prefix + k),
{
    bytes::upper_bound_spans_prefix(prefix, key);
    if bytes::has_prefix(key, prefix) {
        let rest = key.subrange(prefix.len() as int, key.len() as int);
        assert(key =~= prefix + rest);
    }
    if exists|k: Seq<u8>| key == #[trigger] (prefix + k) {
        let k = choose|k: Seq<u8>| key == #[trigger] (prefix + k);
        assert((prefix + k).subrange(0, prefix.len() as int) =~= prefix);
    }
}

/// A slice of the table of a store.
pub struct PrefixedKvdbMdbx<S: ShadowStore> {
    inner: S,
    prefix: Vec<u8>,
}

impl<S: ShadowStore> PrefixedKvdbMdbx<S> {
    /// The store of the shared table.
    pub closed spec fn spec_inner(&self) -> S {
        self.inner
    }

    /// The prefix of the slice.
    pub closed spec fn spec_prefix(&self) -> Seq<u8> {
        self.prefix@
    }

    /// The slice of a store under a prefix. An empty prefix would be no bound to a scan.
    pub fn new(inner: S, prefix: Vec<u8>) -> (r: Self)
        requires
            prefix@.len() > 0,
        ensures
            r.spec_inner() == inner,
            r.spec_prefix() == prefix@,
    {
        PrefixedKvdbMdbx { inner, prefix }
    }

    /// The prefix of the slice.
    pub fn prefix(&self) -> (r: &[u8])
        ensures
            r@ == self.spec_prefix(),
    {
        self.prefix.as_slice()
    }

    /// The key of the shared table for a key of the slice.
    pub fn compose(&self, key: &[u8]) -> (r: Vec<u8>)
        ensures
            r@ == self.spec_prefix() + key@,
    {
        concat(self.prefix.as_slice(), key)
    }

    /// The first key of the same length behind all keys of the slice, where there is one.
    pub fn upper_bound_exclusive(&self) -> (r: Option<Vec<u8>>)
        ensures
            match r {
                Some(u) => bytes::upper_bound(self.spec_prefix()) == Some(u@),
                None => bytes::upper_bound(self.spec_prefix()) is None,
            },
    {
        prefix_upper_bound(self.prefix.as_slice())
    }

    /// The value of a key of the slice: what the store has under the composed key.
    pub fn get(&self, key: &[u8]) -> (r: Result<Option<Vec<u8>>, StoreError>)
        ensures
            exists|k: &[u8]|
                k@ == self.spec_prefix() + key@ && #[trigger] call_ensures(
                    S::dw_get,
                    (&self.spec_inner(), k),
                    r,
                ),
    {
        let composed = self.compose(key);
        let k: &[u8] = composed.as_slice();
        let r = self.inner.dw_get(k);
        assert(k@ == self.spec_prefix() + key@ && call_ensures(
            S::dw_get,
            (&self.spec_inner(), k),
            r,
        ));
        r
    }

    /// Takes a key of the slice out of the store.
    pub fn delete(&self, key: &[u8]) -> (r: Result<(), StoreError>)
        ensures
            exists|k: &[u8]|
                k@ == self.spec_prefix() + key@ && #[trigger] mdbx_dual_write::answers_delete(
                    &self.spec_inner(),
                    k,
                    mdbx_dual_write::failure_of(r),
                ),
    {
        let composed = self.compose(key);
        let k: &[u8] = composed.as_slice();
        let r = self.inner.dw_delete(k);
        assert(mdbx_dual_write::answers_delete(
            &self.spec_inner(),
            k,
            mdbx_dual_write::failure_of(r),
        ));
        r
    }

    /// Puts a value under a key of the slice.
    pub fn put(&self, key: &[u8], value: &[u8]) -> (r: Result<(), StoreError>)
        ensures
            exists|k: &[u8]|
                k@ == self.spec_prefix() + key@ && #[trigger] mdbx_dual_write::answers_put(
                    &self.spec_inner(),
                    k,
                    value,
                    mdbx_dual_write::failure_of(r),
                ),
    {
        let composed = self.compose(key);
        let k: &[u8] = composed.as_slice();
        let r = self.inner.dw_put(k, value);
        assert(mdbx_dual_write::answers_put(
            &self.spec_inner(),
            k,
            value,
            mdbx_dual_write::failure_of(r),
        ));
        r
    }

    /// Makes the writes of a batch to the slice, all at once.
    pub fn write_batch(&self, ops: &[BatchOp]) -> (r: Result<(), StoreError>)
        ensures
            exists|composed: &[BatchOp]|
                kvdb_mdbx::batch_views(composed@) == composed_ops(
                    self.spec_prefix(),
                    kvdb_mdbx::batch_views(ops@),
                ) && #[trigger] mdbx_dual_write::answers_batch(
                    &self.spec_inner(),
                    composed,
                    mdbx_dual_write::failure_of(r),
                ),
    {
        let mut keys: Vec<Vec<u8>> = Vec::new();
        let mut i: usize = 0;
        while i < ops.len()
            invariant
                i <= ops@.len(),
                keys@.len() == i,
                forall|j: int|
                    0 <= j < i ==> (#[trigger] keys@[j])@ == self.spec_prefix()
                        + kvdb_mdbx::op_key(ops@[j]@),
            decreases ops.len() - i,
        {
            let key = match ops[i] {
                BatchOp::Put(k, _) => self.compose(k),
                BatchOp::Delete(k) => self.compose(k),
            };
            keys.push(key);
            i = i + 1;
        }
        let mut composed: Vec<BatchOp> = Vec::new();
        let mut n: usize = 0;
        while n < ops.len()
            invariant
                n <= ops@.len(),
                keys@.len() == ops@.len(),
                forall|j: int|
                    0 <= j < ops@.len() ==> (#[trigger] keys@[j])@ == self.spec_prefix()
                        + kvdb_mdbx::op_key(ops@[j]@),
                composed@.len() == n,
                forall|j: int|
                    0 <= j < n ==> (#[trigger] composed@[j])@ == composed_op(
                        self.spec_prefix(),
                        ops@[j]@,
                    ),
            decreases ops.len() - n,
        {
            let op = match ops[n] {
                BatchOp::Put(_, v) => BatchOp::Put(keys[n].as_slice(), v),
                BatchOp::Delete(_) => BatchOp::Delete(keys[n].as_slice()),
            };
            composed.push(op);
            n = n + 1;
        }
        let batch: &[BatchOp] = composed.as_slice();
        let r = self.inner.dw_write_batch(batch);
        proof {
            assert(kvdb_mdbx::batch_views(batch@) =~= composed_ops(
                self.spec_prefix(),
                kvdb_mdbx::batch_views(ops@),
            ));
            assert(mdbx_dual_write::answers_batch(
                &self.spec_inner(),
                batch,
                mdbx_dual_write::failure_of(r),
            ));
        }
        r
    }

    /// A transaction on the slice, without writes, where the shared table is a column of an
    /// environment.
    pub fn start_transaction(&self, env: u64, col: u32) -> (r: PrefixedKvdbMdbxTransaction)
        ensures
            r.env() == env,
            r.col() == col,
            r.prefix() == self.spec_prefix(),
            r.pending() == Seq::<WriteOp>::empty(),
    {
        PrefixedKvdbMdbxTransaction {
            inner: KvdbMdbxTransaction::new(env, col),
            prefix: copy_bytes(self.prefix.as_slice()),
        }
    }
}

/// Writes to a slice that are buffered until they are committed together.
#[derive(Debug)]
pub struct PrefixedKvdbMdbxTransaction {
    inner: KvdbMdbxTransaction,
    prefix: Vec<u8>,
}

impl PrefixedKvdbMdbxTransaction {
    /// The number of the environment.
    pub closed spec fn env(&self) -> u64 {
        self.inner.env()
    }

    /// The column.
    pub closed spec fn col(&self) -> u32 {
        self.inner.col()
    }

    /// The prefix of the slice.
    pub closed spec fn prefix(&self) -> Seq<u8> {
        self.prefix@
    }

    /// The writes that wait, as writes to the shared table.
    pub closed spec fn pending(&self) -> Seq<WriteOp> {
        self.inner.pending()
    }

    /// The transaction is on the same slice as another.
    pub open spec fn same_place(&self, other: &Self) -> bool {
        &&& self.env() == other.env()
        &&& self.col() == other.col()
        &&& self.prefix() == other.prefix()
    }

    /// Buffers the removal of a key of the slice.
    pub fn delete(&mut self, key: &[u8])
        ensures
            final(self).same_place(old(self)),
            final(self).pending() == old(self).pending().push(
                composed_op(old(self).prefix(), WriteOp::Delete(key@)),
            ),
    {
        let composed = concat(self.prefix.as_slice(), key);
        self.inner.delete(composed.as_slice());
    }

    /// Buffers a value for a key of the slice.
    pub fn put(&mut self, key: &[u8], value: &[u8])
        ensures
            final(self).same_place(old(self)),
            final(self).pending() == old(self).pending().push(
                composed_op(old(self).prefix(), WriteOp::Put(key@, value@)),
            ),
    {
        let composed = concat(self.prefix.as_slice(), key);
        self.inner.put(composed.as_slice(), value);
    }

    /// Begins a commit: gives the buffered writes, in their order, to be written together to the
    /// shared table. They go on waiting. The slice has to be that of the transaction.
    pub fn commit(&self, env: u64, col: u32, prefix: &[u8]) -> (r: Result<
        Vec<PendingOp>,
        CommitError,
    >)
        ensures
            match r {
                Ok(ops) => prefix@ == self.prefix() && env == self.env() && col == self.col()
                    && kvdb_mdbx::pending_views(ops@) == self.pending(),
                Err(e) => e == (if prefix@ != self.prefix() {
                    CommitError::PrefixMismatch
                } else if env != self.env() {
                    CommitError::EnvMismatch
                } else {
                    CommitError::ColumnMismatch { db: col, txn: self.col() }
                }) && (prefix@ != self.prefix() || env != self.env() || col != self.col()),
            },
    {
        if !bytes_eq(prefix, self.prefix.as_slice()) {
            return Err(CommitError::PrefixMismatch);
        }
        self.inner.commit(env, col)
    }

    /// Ends a commit. Once the shared table was open for writing, nothing waits any more, whatever
    /// came of the writes; where it could not be opened, everything goes on waiting.
    pub fn committed(&mut self, table_opened: bool)
        ensures
            final(self).same_place(old(self)),
            final(self).pending() == (if table_opened {
                Seq::<WriteOp>::empty()
            } else {
                old(self).pending()
            }),
    {
        self.inner.committed(table_opened);
    }

    /// Forgets the buffered writes.
    pub fn revert(&mut self)
        ensures
            final(self).same_place(old(self)),
            final(self).pending() == Seq::<WriteOp>::empty(),
    {
        self.inner.revert();
    }

    /// Starts again, with or without the buffered writes.
    pub fn restart(&mut self, no_revert: bool)
        ensures
            final(self).same_place(old(self)),
            final(self).pending() == (if no_revert {
                old(self).pending()
            } else {
                Seq::<WriteOp>::empty()
            }),
    {
        self.inner.restart(no_revert);
    }
}

} // verus!
