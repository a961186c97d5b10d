//! Writes that are buffered and then made together.

use super::settings::{col_id, ColumnError};
use crate::bytes::copy_bytes;
use kvdb::{DBOp, DBTransaction};
use vstd::prelude::*;

verus! {

/// `kvdb::DBTransaction`, a list of writes.
#[verifier::external_type_specification]
#[verifier::external_body]
pub struct ExDBTransaction(DBTransaction);

/// The writes of a transaction in their order: the column, the key, and the value or, for a
/// removal, none.
pub uninterp spec fn writes_of(t: DBTransaction) -> Seq<(u32, Seq<u8>, Option<Seq<u8>>)>;

/// `DBTransaction::new`: a transaction without writes.
#[verifier::external_body]
pub(crate) fn new_transaction() -> (r: DBTransaction)
    ensures
        writes_of(r) == Seq::<(u32, Seq<u8>, Option<Seq<u8>>)>::empty(),
{
    DBTransaction::new()
}

/// `DBTransaction::put`: one more write.
#[verifier::external_body]
pub(crate) fn append_put(t: &mut DBTransaction, col: u32, key: &[u8], value: &[u8])
    ensures
        writes_of(*final(t)) == writes_of(*old(t)).push((col, key@, Some(value@))),
{
    t.put(col, key, value);
}

/// `DBTransaction::delete`: one more removal.
#[verifier::external_body]
pub(crate) fn append_delete(t: &mut DBTransaction, col: u32, key: &[u8])
    ensures
        writes_of(*final(t)) == writes_of(*old(t)).push((col, key@, None)),
{
    t.delete(col, key);
}

/// `DBTransaction::clone`: a transaction with the same writes.
#[verifier::external_body]
pub(crate) fn copy_transaction(t: &DBTransaction) -> (r: DBTransaction)
    ensures
        writes_of(r) == writes_of(*t),
{
    t.clone()
}

/// The view of the value of a write.
pub open spec fn value_view(value: Option<Vec<u8>>) -> Option<Seq<u8>> {
    match value {
        Some(v) => Some(v@),
        None => None,
    }
}

/// The views of a list of writes.
pub open spec fn write_views(writes: Seq<(u32, Vec<u8>, Option<Vec<u8>>)>) -> Seq<
    (u32, Seq<u8>, Option<Seq<u8>>),
> {
    writes.map_values(
        |w: (u32, Vec<u8>, Option<Vec<u8>>)|
            (w.0, w.1@, value_view(w.2)),
    )
}

/// The field `ops` of a `DBTransaction`, each operation as a tuple.
#[verifier::external_body]
pub(crate) fn writes(t: DBTransaction) -> (r: Vec<(u32, Vec<u8>, Option<Vec<u8>>)>)
    ensures
        write_views(r@) == writes_of(t),
{
    t.ops
        .into_iter()
        .map(|op| match op {
            DBOp::Insert { col, key, value } => (col, key.to_vec(), Some(value)),
            DBOp::Delete { col, key } => (col, key.to_vec(), None),
        })
        .collect()
}

/// A write with its column as a byte, for the database.
pub open spec fn with_col_id(w: (u32, Seq<u8>, Option<Seq<u8>>)) -> (u8, Seq<u8>, Option<Seq<u8>>) {
    (w.0 as u8, w.1, w.2)
}

/// The views of a list of writes.
pub open spec fn commit_views(writes: Seq<(u8, Vec<u8>, Option<Vec<u8>>)>) -> Seq<
    (u8, Seq<u8>, Option<Seq<u8>>),
> {
    writes.map_values(
        |w: (u8, Vec<u8>, Option<Vec<u8>>)|
            (w.0, w.1@, value_view(w.2)),
    )
}

/// Every write is to a column that is there.
pub open spec fn in_columns(writes: Seq<(u32, Seq<u8>, Option<Seq<u8>>)>, columns: u8) -> bool {
    forall|i: int| 0 <= i < writes.len() ==> (#[trigger] writes[i]).0 < columns
}

/// What is handed to a database of so many columns for a transaction: all its writes in their
/// order, or nothing where one of them is to a column that is not there.
pub fn write_buffered(columns: u8, transaction: DBTransaction) -> (r: Result<
    Vec<(u8, Vec<u8>, Option<Vec<u8>>)>,
    ColumnError,
>)
    ensures
        match r {
            Ok(buffer) => in_columns(writes_of(transaction), columns) && commit_views(buffer@)
                == writes_of(transaction).map_values(
                |w: (u32, Seq<u8>, Option<Seq<u8>>)| with_col_id(w),
            ),
            Err(e) => !in_columns(writes_of(transaction), columns) && e == ColumnError::OutOfRange,
        },
{
    buffer_writes(columns, &writes(transaction))
}

/// What is handed to a database of so many columns for a list of writes.
pub fn buffer_writes(columns: u8, ops: &Vec<(u32, Vec<u8>, Option<Vec<u8>>)>) -> (r: Result<
    Vec<(u8, Vec<u8>, Option<Vec<u8>>)>,
    ColumnError,
>)
    ensures
        match r {
            Ok(buffer) => in_columns(write_views(ops@), columns) && commit_views(buffer@)
                == write_views(ops@).map_values(
                |w: (u32, Seq<u8>, Option<Seq<u8>>)| with_col_id(w),
            ),
            Err(e) => !in_columns(write_views(ops@), columns) && e == ColumnError::OutOfRange,
        },
{
    let ghost all = write_views(ops@);
    let ghost goal = all.map_values(|w: (u32, Seq<u8>, Option<Seq<u8>>)| with_col_id(w));
    let mut buffer: Vec<(u8, Vec<u8>, Option<Vec<u8>>)> = Vec::new();
    let mut i: usize = 0;
    while i < ops.len()
        invariant
            i <= ops@.len(),
            all == write_views(ops@),
            goal == all.map_values(|w: (u32, Seq<u8>, Option<Seq<u8>>)| with_col_id(w)),
            commit_views(buffer@) == goal.subrange(0, i as int),
            forall|j: int| 0 <= j < i ==> (#[trigger] all[j]).0 < columns,
        decreases ops.len() - i,
    {
        let op = &ops[i];
        let ghost w = all[i as int];
        let id: u8 = match col_id(columns, op.0) {
            Err(e) => {
                assert(w.0 >= columns);
                return Err(e);
            },
            Ok(id) => id,
        };
        let value = match &op.2 {
            Some(v) => Some(copy_bytes(v.as_slice())),
            None => None,
        };
        let ghost done = commit_views(buffer@);
        buffer.push((id, copy_bytes(op.1.as_slice()), value));
        proof {
            assert(commit_views(buffer@) =~= done.push(with_col_id(w)));
            assert(goal.subrange(0, i + 1) =~= goal.subrange(0, i as int).push(goal[i as int]));
        }
        i = i + 1;
    }
    proof {
        assert(goal.subrange(0, ops@.len() as int) =~= goal);
    }
    Ok(buffer)
}

/// Writes to one column of a database that are buffered until they are committed together.
pub struct KvdbParityDbTransaction {
    pending: DBTransaction,
    col: u32,
}

impl KvdbParityDbTransaction {
    /// The writes that wait.
    pub closed spec fn pending(&self) -> Seq<(u32, Seq<u8>, Option<Seq<u8>>)> {
        writes_of(self.pending)
    }

    /// The column.
    pub closed spec fn col(&self) -> u32 {
        self.col
    }

    /// A transaction on a column, without writes.
    pub fn new(col: u32) -> (r: Self)
        ensures
            r.col() == col,
            r.pending() == Seq::<(u32, Seq<u8>, Option<Seq<u8>>)>::empty(),
    {
        KvdbParityDbTransaction { pending: new_transaction(), col }
    }

    /// Buffers the removal of a key.
    pub fn delete(&mut self, key: &[u8])
        ensures
            final(self).col() == old(self).col(),
            final(self).pending() == old(self).pending().push((old(self).col(), key@, None)),
    {
        append_delete(&mut self.pending, self.col, key);
    }

    /// Buffers a value for a key.
    pub fn put(&mut self, key: &[u8], value: &[u8])
        ensures
            final(self).col() == old(self).col(),
            final(self).pending() == old(self).pending().push(
                (old(self).col(), key@, Some(value@)),
            ),
    {
        append_put(&mut self.pending, self.col, key, value);
    }

    /// What a commit hands to the database: the writes that wait, which go on waiting.
    pub fn to_commit(&self) -> (r: DBTransaction)
        ensures
            writes_of(r) == self.pending(),
    {
        copy_transaction(&self.pending)
    }

    /// Ends a commit: what was written waits no more, and after a failure everything does.
    pub fn committed(&mut self, written: bool)
        ensures
            final(self).col() == old(self).col(),
            final(self).pending() == (if written {
                Seq::empty()
            } else {
                old(self).pending()
            }),
    {
        if written {
            self.revert();
        }
    }

    /// Forgets the buffered writes.
    pub fn revert(&mut self)
        ensures
            final(self).col() == old(self).col(),
            final(self).pending() == Seq::<(u32, Seq<u8>, Option<Seq<u8>>)>::empty(),
    {
        self.pending = new_transaction();
    }

    /// Starts again, with or without the buffered writes.
    pub fn restart(&mut self, no_revert: bool)
        ensures
            final(self).col() == old(self).col(),
            final(self).pending() == (if no_revert {
                old(self).pending()
            } else {
                Seq::empty()
            }),
    {
        if !no_revert {
            self.revert();
        }
    }
}

} // verus!
