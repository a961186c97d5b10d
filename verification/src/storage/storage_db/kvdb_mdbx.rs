//! Writes to a table: batches, transactions, and what they leave behind.

use crate::bytes::copy_bytes;
use crate::text;
use crate::text::append_decimal;
use vstd::prelude::*;
use vstd::string::StringExecFns;

verus! {

/// How much room a column takes.
#[derive(Clone, Copy, Debug, PartialEq, Eq, Structural)]
pub struct KvdbMdbxStats {
    pub page_size_bytes: u32,
    pub btree_depth: u32,
    pub branch_pages: usize,
    pub leaf_pages: usize,
    pub overflow_pages: usize,
    pub entries: usize,
    pub bytes_used: u64,
}

impl KvdbMdbxStats {
    /// The room of a column that was never written to.
    pub fn unwritten() -> (r: KvdbMdbxStats)
        ensures
            r == (KvdbMdbxStats {
                page_size_bytes: 0,
                btree_depth: 0,
                branch_pages: 0,
                leaf_pages: 0,
                overflow_pages: 0,
                entries: 0,
                bytes_used: 0,
            }),
    {
        KvdbMdbxStats {
            page_size_bytes: 0,
            btree_depth: 0,
            branch_pages: 0,
            leaf_pages: 0,
            overflow_pages: 0,
            entries: 0,
            bytes_used: 0,
        }
    }
}

/// The name of the table of a column.
pub fn col_table_name(col: u32) -> (r: String)
    ensures
        r@ == "col-"@ + text::decimal(col as nat),
{
    append_decimal(String::from_str("col-"), col as u64)
}

/// Two columns have two tables.
pub proof fn col_table_names_are_distinct(a: u32, b: u32)
    requires
        "col-"@ + text::decimal(a as nat) == "col-"@ + text::decimal(b as nat),
    ensures
        a == b,
{
    let x = "col-"@ + text::decimal(a as nat);
    let y = "col-"@ + text::decimal(b as nat);
    let n = "col-"@.len() as int;
    assert(text::decimal(a as nat) =~= x.subrange(n, x.len() as int));
    assert(text::decimal(b as nat) =~= y.subrange(n, y.len() as int));
    text::decimal_is_injective(a as nat, b as nat);
}

/// One write of a batch.
#[derive(Clone, Copy, Debug)]
pub enum BatchOp<'a> {
    /// Put a value under a key, in place of what stood there.
    Put(&'a [u8], &'a [u8]),
    /// Take a key out; it need not be there.
    Delete(&'a [u8]),
}

/// One write, as a mathematical value.
pub enum WriteOp {
    Put(Seq<u8>, Seq<u8>),
    Delete(Seq<u8>),
}

/// The contents of a table.
pub type Table = Map<Seq<u8>, Seq<u8>>;

impl<'a> View for BatchOp<'a> {
    type V = WriteOp;

    open spec fn view(&self) -> WriteOp {
        match self {
            BatchOp::Put(k, v) => WriteOp::Put(k@, v@),
            BatchOp::Delete(k) => WriteOp::Delete(k@),
        }
    }
}

/// The table after one write.
pub open spec fn apply_op(table: Table, op: WriteOp) -> Table {
    match op {
        WriteOp::Put(k, v) => table.insert(k, v),
        WriteOp::Delete(k) => table.remove(k),
    }
}

/// The table after a sequence of writes, in their order.
pub open spec fn apply_ops(table: Table, ops: Seq<WriteOp>) -> Table
    decreases ops.len(),
{
    if ops.len() == 0 {
        table
    } else {
        apply_op(apply_ops(table, ops.drop_last()), ops.last())
    }
}

/// The key that a write touches.
pub open spec fn op_key(op: WriteOp) -> Seq<u8> {
    match op {
        WriteOp::Put(k, _) => k,
        WriteOp::Delete(k) => k,
    }
}

/// What a sequence of writes leaves under a key: what its last write to the key says, or what was
/// there before.
pub open spec fn last_write(ops: Seq<WriteOp>, key: Seq<u8>) -> Option<WriteOp>
    decreases ops.len(),
{
    if ops.len() == 0 {
        None
    } else if op_key(ops.last()) == key {
        Some(ops.last())
    } else {
        last_write(ops.drop_last(), key)
    }
}

/// The last write to a key wins: a later put replaces an earlier one, a delete after a put erases
/// it, and a put after a delete brings the key back.
pub proof fn last_write_wins(table: Table, ops: Seq<WriteOp>, key: Seq<u8>)
    ensures
        match last_write(ops, key) {
            Some(WriteOp::Put(_, v)) => apply_ops(table, ops).contains_key(key) && apply_ops(
                table,
                ops,
            )[key] == v,
            Some(WriteOp::Delete(_)) => !apply_ops(table, ops).contains_key(key),
            None => apply_ops(table, ops).contains_key(key) == table.contains_key(key) && (
            table.contains_key(key) ==> apply_ops(table, ops)[key] == table[key]),
        },
    decreases ops.len(),
{
    if ops.len() > 0 {
        last_write_wins(table, ops.drop_last(), key);
    }
}

/// A batch does what its parts do one after the other.
pub proof fn batches_compose(table: Table, first: Seq<WriteOp>, second: Seq<WriteOp>)
    ensures
        apply_ops(table, first + second) == apply_ops(apply_ops(table, first), second),
    decreases second.len(),
{
    if second.len() == 0 {
        assert(first + second =~= first);
    } else {
        batches_compose(table, first, second.drop_last());
        assert((first + second).drop_last() =~= first + second.drop_last());
        assert((first + second).last() == second.last());
    }
}

/// An empty batch changes nothing.
pub proof fn empty_batch_is_no_op(table: Table)
    ensures
        apply_ops(table, Seq::empty()) == table,
{
}

/// A write that waits for its transaction to be committed.
#[derive(Debug)]
pub enum PendingOp {
    Put(Vec<u8>, Vec<u8>),
    Delete(Vec<u8>),
}

impl View for PendingOp {
    type V = WriteOp;

    open spec fn view(&self) -> WriteOp {
        match self {
            PendingOp::Put(k, v) => WriteOp::Put(k@, v@),
            PendingOp::Delete(k) => WriteOp::Delete(k@),
        }
    }
}

/// The views of a list of pending writes.
pub open spec fn pending_views(ops: Seq<PendingOp>) -> Seq<WriteOp> {
    ops.map_values(|o: PendingOp| o@)
}

/// The views of a batch.
pub open spec fn batch_views<'a>(ops: Seq<BatchOp<'a>>) -> Seq<WriteOp> {
    ops.map_values(|o: BatchOp<'a>| o@)
}

/// A copy of a list of pending writes.
fn copy_pending(ops: &Vec<PendingOp>) -> (r: Vec<PendingOp>)
    ensures
        pending_views(r@) == pending_views(ops@),
{
    let mut r: Vec<PendingOp> = Vec::new();
    let mut i: usize = 0;
    while i < ops.len()
        invariant
            i <= ops@.len(),
            r@.len() == i,
            forall|j: int| 0 <= j < i ==> (#[trigger] r@[j])@ == ops@[j]@,
        decreases ops.len() - i,
    {
        let op = match &ops[i] {
            PendingOp::Put(k, v) => PendingOp::Put(
                copy_bytes(k.as_slice()),
                copy_bytes(v.as_slice()),
            ),
            PendingOp::Delete(k) => PendingOp::Delete(copy_bytes(k.as_slice())),
        };
        r.push(op);
        i = i + 1;
    }
    proof {
        assert(pending_views(r@) =~= pending_views(ops@));
    }
    r
}

/// Why a transaction is not committed.
#[derive(Clone, Copy, Debug, PartialEq, Eq, Structural)]
pub enum CommitError {
    /// The table belongs to another environment than the transaction.
    EnvMismatch,
    /// The table is another column than that of the transaction.
    ColumnMismatch { db: u32, txn: u32 },
    /// The table is another slice than that of the transaction.
    PrefixMismatch,
}

/// Writes to one column that are buffered until they are committed together.
#[derive(Debug)]
pub struct KvdbMdbxTransaction {
    env: u64,
    col: u32,
    pending: Vec<PendingOp>,
}

impl KvdbMdbxTransaction {
    /// The number of the environment.
    pub closed spec fn env(&self) -> u64 {
        self.env
    }

    /// The column.
    pub closed spec fn col(&self) -> u32 {
        self.col
    }

    /// The writes that wait.
    pub closed spec fn pending(&self) -> Seq<WriteOp> {
        pending_views(self.pending@)
    }

    /// A transaction on a column of an environment, without writes.
    pub fn new(env: u64, col: u32) -> (r: Self)
        ensures
            r.env() == env,
            r.col() == col,
            r.pending() == Seq::<WriteOp>::empty(),
    {
        let r = KvdbMdbxTransaction { env, col, pending: Vec::new() };
        proof {
            assert(r.pending() =~= Seq::<WriteOp>::empty());
        }
        r
    }

    /// Buffers the removal of a key.
    pub fn delete(&mut self, key: &[u8])
        ensures
            final(self).env() == old(self).env(),
            final(self).col() == old(self).col(),
            final(self).pending() == old(self).pending().push(WriteOp::Delete(key@)),
    {
        self.pending.push(PendingOp::Delete(copy_bytes(key)));
        proof {
            assert(self.pending() =~= old(self).pending().push(WriteOp::Delete(key@)));
        }
    }

    /// Buffers a value for a key.
    pub fn put(&mut self, key: &[u8], value: &[u8])
        ensures
            final(self).env() == old(self).env(),
            final(self).col() == old(self).col(),
            final(self).pending() == old(self).pending().push(WriteOp::Put(key@, value@)),
    {
        self.pending.push(PendingOp::Put(copy_bytes(key), copy_bytes(value)));
        proof {
            assert(self.pending() =~= old(self).pending().push(WriteOp::Put(key@, value@)));
        }
    }

    /// Begins a commit: gives the buffered writes for the table, in their order, to be written
    /// together. They go on waiting. The table has to be that of the transaction.
    pub fn commit(&self, env: u64, col: u32) -> (r: Result<Vec<PendingOp>, CommitError>)
        ensures
            match r {
                Ok(ops) => env == self.env() && col == self.col() && pending_views(ops@)
                    == self.pending(),
                Err(e) => e == (if env != self.env() {
                    CommitError::EnvMismatch
                } else {
                    CommitError::ColumnMismatch { db: col, txn: self.col() }
                }) && (env != self.env() || col != self.col()),
            },
    {
        if env != self.env {
            return Err(CommitError::EnvMismatch);
        }
        if col != self.col {
            return Err(CommitError::ColumnMismatch { db: col, txn: self.col });
        }
        Ok(copy_pending(&self.pending))
    }

    /// Ends a commit. Once the table was open for writing, nothing waits any more, whatever came of
    /// the writes; where it could not be opened, everything goes on waiting.
    pub fn committed(&mut self, table_opened: bool)
        ensures
            final(self).env() == old(self).env(),
            final(self).col() == old(self).col(),
            final(self).pending() == (if table_opened {
                Seq::<WriteOp>::empty()
            } else {
                old(self).pending()
            }),
    {
        if table_opened {
            self.revert();
        }
    }

    /// Forgets the buffered writes.
    pub fn revert(&mut self)
        ensures
            final(self).env() == old(self).env(),
            final(self).col() == old(self).col(),
            final(self).pending() == Seq::<WriteOp>::empty(),
    {
        self.pending = Vec::new();
        proof {
            assert(self.pending() =~= Seq::<WriteOp>::empty());
        }
    }

    /// Starts again, with or without the buffered writes.
    pub fn restart(&mut self, no_revert: bool)
        ensures
            final(self).env() == old(self).env(),
            final(self).col() == old(self).col(),
            final(self).pending() == (if no_revert {
                old(self).pending()
            } else {
                Seq::<WriteOp>::empty()
            }),
    {
        if !no_revert {
            self.revert();
        }
    }
}

} // verus!
