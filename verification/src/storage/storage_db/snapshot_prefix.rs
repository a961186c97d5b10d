//! The keys of the snapshot table.
//!
//! All snapshots share one table. The keys of a snapshot begin with its epoch; the byte behind it
//! tells what kind of entry it is. The marker of an unfinished merge sorts before everything else
//! of its snapshot.

use crate::bytes;
use crate::bytes::prefix_upper_bound;
use crate::hash;
use crate::hash::{EpochId, H256};
use vstd::prelude::*;

verus! {

/// The number of bytes of an epoch.
pub const SNAPSHOT_EPOCH_ID_LEN: usize = 32;

/// The number of bytes that tell the kind of an entry.
pub const SUB_PREFIX_LEN: usize = 1;

/// The number of bytes before the key proper.
pub const SNAPSHOT_PREFIX_LEN: usize = 33;

/// The flat state: `b'k'`.
pub const SUB_PREFIX_KV: u8 = 0x6b;

/// The values that a dumped delta sets: `b's'`.
pub const SUB_PREFIX_DELTA_SET: u8 = 0x73;

/// The keys that a dumped delta deletes: `b'd'`.
pub const SUB_PREFIX_DELTA_DEL: u8 = 0x64;

/// The nodes of the trie: `b'm'`.
pub const SUB_PREFIX_MPT: u8 = 0x6d;

/// The marker of an unfinished merge or sync: `b'!'`.
pub const SUB_PREFIX_MERGE_MARKER: u8 = 0x21;

/// What an unfinished snapshot was being made by.
#[derive(Clone, Copy, Debug, PartialEq, Eq, Structural, Hash)]
pub enum MergeMarkerKind {
    /// A merge of a delta into its parent snapshot.
    Merge,
    /// A sync from peers.
    FullSync,
}

/// The byte that stands for a kind.
pub open spec fn marker_tag(kind: MergeMarkerKind) -> u8 {
    match kind {
        MergeMarkerKind::Merge => 1,
        MergeMarkerKind::FullSync => 2,
    }
}

/// The kind that a byte stands for.
pub open spec fn marker_kind(tag: u8) -> Option<MergeMarkerKind> {
    if tag == 1 {
        Some(MergeMarkerKind::Merge)
    } else if tag == 2 {
        Some(MergeMarkerKind::FullSync)
    } else {
        None
    }
}

impl MergeMarkerKind {
    /// The byte that stands for the kind.
    pub fn tag(self) -> (r: u8)
        ensures
            r == marker_tag(self),
    {
        match self {
            MergeMarkerKind::Merge => 1,
            MergeMarkerKind::FullSync => 2,
        }
    }

    /// The kind that a byte stands for, if it stands for any.
    pub fn from_tag(tag: u8) -> (r: Option<MergeMarkerKind>)
        ensures
            r == marker_kind(tag),
    {
        match tag {
            1 => Some(MergeMarkerKind::Merge),
            2 => Some(MergeMarkerKind::FullSync),
            _ => None,
        }
    }
}

/// A kind and its byte stand for each other.
pub proof fn marker_tag_round_trip(kind: MergeMarkerKind, tag: u8)
    ensures
        marker_kind(marker_tag(kind)) == Some(kind),
        marker_kind(tag) matches Some(k) ==> marker_tag(k) == tag,
{
}

/// What the keys of one kind of entry of a snapshot begin with.
pub open spec fn snapshot_prefix(epoch: EpochId, sub: u8) -> Seq<u8> {
    epoch@.push(sub)
}

/// What all keys of a snapshot begin with.
pub fn compose_snapshot_scope(epoch_id: &EpochId) -> (r: [u8; 32])
    ensures
        r@ == epoch_id@,
{
    epoch_id.0
}

/// What the keys of one kind of entry of a snapshot begin with.
pub fn compose_snapshot_prefix(epoch_id: &EpochId, sub_prefix: u8) -> (r: Vec<u8>)
    ensures
        r@ == snapshot_prefix(*epoch_id, sub_prefix),
        r@.len() == SNAPSHOT_PREFIX_LEN,
{
    let mut out = bytes::copy_bytes(epoch_id.as_bytes());
    out.push(sub_prefix);
    out
}

/// The exclusive upper end of the keys of a snapshot: the next number of 32 bytes. `None` for the
/// last epoch of all.
pub fn snapshot_scope_upper_bound(epoch_id: &EpochId) -> (r: Option<[u8; 32]>)
    ensures
        r matches Some(u) ==> bytes::upper_bound(epoch_id@) == Some(u@),
        r is None ==> bytes::upper_bound(epoch_id@) is None,
{
    proof {
        bytes::upper_bound_keeps_length(epoch_id@);
    }
    match prefix_upper_bound(epoch_id.as_bytes()) {
        Some(u) => Some(H256::from_slice(u.as_slice()).0),
        None => None,
    }
}

/// The kinds of entries of a snapshot, the marker left out.
pub open spec fn is_data_sub_prefix(sub: u8) -> bool {
    sub == SUB_PREFIX_KV || sub == SUB_PREFIX_DELTA_SET || sub == SUB_PREFIX_DELTA_DEL || sub
        == SUB_PREFIX_MPT
}

/// The key of the marker of a snapshot comes before every other key of the snapshot, so that the
/// first key of a snapshot tells whether it is unfinished.
pub proof fn marker_comes_first(epoch: EpochId, sub: u8, key: Seq<u8>)
    requires
        is_data_sub_prefix(sub),
    ensures
        bytes::lex_lt(
            snapshot_prefix(epoch, SUB_PREFIX_MERGE_MARKER),
            snapshot_prefix(epoch, sub) + key,
        ),
{
    let a = snapshot_prefix(epoch, SUB_PREFIX_MERGE_MARKER);
    let b = snapshot_prefix(epoch, sub) + key;
    assert(bytes::lex_less_at(a, b, 32));
}

/// Keys of two snapshots, or of two kinds of entry, never meet.
pub proof fn snapshot_keys_are_isolated(
    epoch_a: EpochId,
    sub_a: u8,
    key_a: Seq<u8>,
    epoch_b: EpochId,
    sub_b: u8,
    key_b: Seq<u8>,
)
    requires
        snapshot_prefix(epoch_a, sub_a) + key_a == snapshot_prefix(epoch_b, sub_b) + key_b,
    ensures
        epoch_a == epoch_b,
        sub_a == sub_b,
        key_a == key_b,
{
    let a = snapshot_prefix(epoch_a, sub_a) + key_a;
    let b = snapshot_prefix(epoch_b, sub_b) + key_b;
    assert(epoch_a@ =~= epoch_b@) by {
        assert forall|i: int| 0 <= i < 32 implies epoch_a@[i] == epoch_b@[i] by {
            assert(a[i] == b[i]);
        }
    }
    hash::h256_determined_by_bytes(epoch_a, epoch_b);
    assert(a[32] == sub_a);
    assert(b[32] == sub_b);
    assert(key_a =~= a.subrange(33, a.len() as int));
    assert(key_b =~= b.subrange(33, b.len() as int));
}

/// The scope of a snapshot holds its keys and no others of the table.
pub proof fn scope_holds_exactly_its_keys(epoch: EpochId, key: Seq<u8>)
    requires
        key.len() >= SNAPSHOT_EPOCH_ID_LEN,
    ensures
        bytes::in_range(key, epoch@, bytes::upper_bound(epoch@)) <==> bytes::has_prefix(key, epoch@),
{
    bytes::upper_bound_spans_prefix(epoch@, key);
}

} // verus!
