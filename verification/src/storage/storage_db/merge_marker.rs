//! The marker that a snapshot carries while it is being made.

use super::snapshot_prefix;
use super::snapshot_prefix::{compose_snapshot_prefix, MergeMarkerKind, SUB_PREFIX_MERGE_MARKER};
use crate::hash::{EpochId, MerkleHash, H256};
use crate::rlp_codec;
use vstd::prelude::*;

verus! {

/// What is written under the marker key of a snapshot that is being made.
#[derive(Clone, Copy, Debug, PartialEq, Eq)]
pub struct MergeMarker {
    /// How the snapshot is made.
    pub kind: MergeMarkerKind,
    /// When that began, in seconds since 1970.
    pub started_at: u64,
    /// The parent's epoch for a merge, the expected merkle root for a full sync.
    pub context: H256,
}

/// Why bytes are no marker.
#[derive(Clone, Copy, Debug, PartialEq, Eq, Structural)]
pub enum MarkerError {
    /// They are no list, or an item has another form.
    Rlp,
    /// The list is not one of three.
    RlpIncorrectListLen,
    /// No kind has this tag.
    UnknownKind,
    /// The context is not as long as a hash.
    ContextLength,
}

/// A marker, as a mathematical value.
pub struct MarkerView {
    pub kind: MergeMarkerKind,
    pub started_at: u64,
    pub context: Seq<u8>,
}

impl View for MergeMarker {
    type V = MarkerView;

    open spec fn view(&self) -> MarkerView {
        MarkerView { kind: self.kind, started_at: self.started_at, context: self.context@ }
    }
}

/// The marker that three fields make.
pub open spec fn marker_of(tag: u8, started_at: u64, context: Seq<u8>) -> Result<
    MarkerView,
    MarkerError,
> {
    match snapshot_prefix::marker_kind(tag) {
        None => Err(MarkerError::UnknownKind),
        Some(kind) => if context.len() != 32 {
            Err(MarkerError::ContextLength)
        } else {
            Ok(MarkerView { kind, started_at, context })
        },
    }
}

/// The view of a marker, or why there is none.
pub open spec fn marker_view(r: Result<MergeMarker, MarkerError>) -> Result<
    MarkerView,
    MarkerError,
> {
    match r {
        Ok(m) => Ok(m@),
        Err(e) => Err(e),
    }
}

/// The three items of the list that a marker is written as.
pub open spec fn marker_items(m: MarkerView) -> Seq<Seq<u8>> {
    seq![
        rlp_codec::encoded_string(
            rlp_codec::be_bytes(snapshot_prefix::marker_tag(m.kind) as nat),
        ),
        rlp_codec::encoded_string(rlp_codec::be_bytes(m.started_at as nat)),
        rlp_codec::encoded_string(m.context),
    ]
}

/// What a marker is written as.
pub open spec fn encoded_marker(m: MarkerView) -> Seq<u8> {
    rlp_codec::encoded_list(rlp_codec::joined(marker_items(m)))
}

/// What is read from the bytes of a marker: the list must have three items, a byte, a number and a
/// string, that make a marker.
pub open spec fn decoded_marker(bytes: Seq<u8>) -> Result<MarkerView, MarkerError> {
    match rlp_codec::item_count_of(bytes) {
        None => Err(MarkerError::Rlp),
        Some(n) => if n != 3 {
            Err(MarkerError::RlpIncorrectListLen)
        } else {
            match rlp_codec::u8_item_of(bytes, 0) {
                None => Err(MarkerError::Rlp),
                Some(tag) => if snapshot_prefix::marker_kind(tag) is None {
                    Err(MarkerError::UnknownKind)
                } else {
                    match (rlp_codec::u64_item_of(bytes, 1), rlp_codec::bytes_item_of(bytes, 2)) {
                        (Some(started_at), Some(context)) => marker_of(tag, started_at, context),
                        _ => Err(MarkerError::Rlp),
                    }
                },
            }
        },
    }
}

impl MergeMarker {
    /// The marker of a merge into a child of `parent`.
    pub fn merge(parent: &EpochId, started_at: u64) -> (r: Self)
        ensures
            r == (MergeMarker { kind: MergeMarkerKind::Merge, started_at, context: *parent }),
    {
        MergeMarker { kind: MergeMarkerKind::Merge, started_at, context: *parent }
    }

    /// The marker of a full sync to `merkle_root`.
    pub fn full_sync(merkle_root: &MerkleHash, started_at: u64) -> (r: Self)
        ensures
            r == (MergeMarker {
                kind: MergeMarkerKind::FullSync,
                started_at,
                context: *merkle_root,
            }),
    {
        MergeMarker { kind: MergeMarkerKind::FullSync, started_at, context: *merkle_root }
    }

    /// The marker that three fields make.
    pub fn from_fields(tag: u8, started_at: u64, context: &[u8]) -> (r: Result<
        MergeMarker,
        MarkerError,
    >)
        ensures
            marker_view(r) == marker_of(tag, started_at, context@),
    {
        match MergeMarkerKind::from_tag(tag) {
            None => Err(MarkerError::UnknownKind),
            Some(kind) => if context.len() != 32 {
                Err(MarkerError::ContextLength)
            } else {
                Ok(MergeMarker { kind, started_at, context: H256::from_slice(context) })
            },
        }
    }

    /// What the marker is written as. It reads back as the same marker.
    pub fn encode(&self) -> (r: Vec<u8>)
        ensures
            r@ == encoded_marker(self@),
            decoded_marker(r@) == Ok::<MarkerView, MarkerError>(self@),
    {
        let mut s = rlp_codec::new_list(3);
        let ghost tag = rlp_codec::encoded_string(
            rlp_codec::be_bytes(snapshot_prefix::marker_tag(self.kind) as nat),
        );
        let ghost started = rlp_codec::encoded_string(rlp_codec::be_bytes(self.started_at as nat));
        let ghost context = rlp_codec::encoded_string(self.context@);
        proof {
            rlp_codec::be_bytes_are_short(snapshot_prefix::marker_tag(self.kind) as nat);
            rlp_codec::be_bytes_are_short(self.started_at as nat);
            let none = Seq::<Seq<u8>>::empty();
            rlp_codec::joined_push(none, tag);
            rlp_codec::joined_push(none.push(tag), started);
            rlp_codec::joined_push(none.push(tag).push(started), context);
        }
        rlp_codec::append_u8(&mut s, self.kind.tag());
        rlp_codec::append_u64(&mut s, self.started_at);
        rlp_codec::append_bytes(&mut s, self.context.0.as_slice());
        let ghost items = rlp_codec::stream_items(s);
        let r = rlp_codec::out(s);
        proof {
            assert(items =~= marker_items(self@));
            assert forall|i: int| 0 <= i < items.len() implies rlp_codec::is_item(
                #[trigger] items[i],
            ) by {
                if i == 0 {
                    assert(items[i] == tag);
                } else if i == 1 {
                    assert(items[i] == started);
                } else {
                    assert(items[i] == context);
                }
            }
            snapshot_prefix::marker_tag_round_trip(
                self.kind,
                snapshot_prefix::marker_tag(self.kind),
            );
            assert(items[0] == tag);
            assert(items[1] == started);
            assert(items[2] == context);
            assert(rlp_codec::u8_item_of(r@, 0) == Some(snapshot_prefix::marker_tag(self.kind)));
            assert(rlp_codec::u64_item_of(r@, 1) == Some(self.started_at));
            assert(rlp_codec::bytes_item_of(r@, 2) == Some(self.context@));
        }
        r
    }

    /// The marker that bytes are read as.
    pub fn decode(bytes: &[u8]) -> (r: Result<MergeMarker, MarkerError>)
        ensures
            marker_view(r) == decoded_marker(bytes@),
    {
        match rlp_codec::item_count(bytes) {
            Err(_) => {
                return Err(MarkerError::Rlp);
            },
            Ok(n) => {
                if n != 3 {
                    return Err(MarkerError::RlpIncorrectListLen);
                }
            },
        }
        let tag: u8 = match rlp_codec::u8_item(bytes, 0) {
            Err(_) => {
                return Err(MarkerError::Rlp);
            },
            Ok(tag) => tag,
        };
        if MergeMarkerKind::from_tag(tag).is_none() {
            return Err(MarkerError::UnknownKind);
        }
        let started_at: u64 = match rlp_codec::u64_item(bytes, 1) {
            Err(_) => {
                return Err(MarkerError::Rlp);
            },
            Ok(v) => v,
        };
        match rlp_codec::bytes_item(bytes, 2) {
            Err(_) => Err(MarkerError::Rlp),
            Ok(context) => MergeMarker::from_fields(tag, started_at, context.as_slice()),
        }
    }
}

/// The key of a snapshot's marker.
pub fn marker_key(epoch_id: &EpochId) -> (r: Vec<u8>)
    ensures
        r@ == snapshot_prefix::snapshot_prefix(*epoch_id, SUB_PREFIX_MERGE_MARKER),
{
    compose_snapshot_prefix(epoch_id, SUB_PREFIX_MERGE_MARKER)
}

/// The marker of a snapshot, from what stands under its marker key. Of what is no marker, none can
/// be read.
pub fn read_marker(stored: Option<&[u8]>) -> (r: Option<MergeMarker>)
    ensures
        match stored {
            None => r is None,
            Some(bytes) => match decoded_marker(bytes@) {
                Ok(m) => r matches Some(marker) && marker@ == m,
                Err(_) => r is None,
            },
        },
{
    match stored {
        None => None,
        Some(bytes) => match MergeMarker::decode(bytes) {
            Ok(m) => Some(m),
            Err(_) => None,
        },
    }
}

/// What stands under the marker key of a snapshot.
#[derive(Clone, Copy, Debug, PartialEq, Eq, Structural)]
pub enum Marking {
    /// Nothing: the snapshot is finished.
    Unmarked,
    /// A marker: the snapshot was being made.
    Marked,
    /// Bytes that are no marker: nobody knows what the snapshot is.
    Corrupt,
}

/// What the stored bytes are as a marking.
pub open spec fn marking_of(stored: Option<Vec<u8>>) -> Marking {
    match stored {
        None => Marking::Unmarked,
        Some(bytes) => if decoded_marker(bytes@) is Ok {
            Marking::Marked
        } else {
            Marking::Corrupt
        },
    }
}

/// What the stored bytes of several snapshots are as markings.
pub open spec fn markings_of(stored: Seq<Option<Vec<u8>>>) -> Seq<Marking> {
    Seq::new(stored.len(), |i: int| marking_of(stored[i]))
}

/// What the stored bytes are as a marking.
pub fn marking(stored: &Option<Vec<u8>>) -> (r: Marking)
    ensures
        r == marking_of(*stored),
{
    match stored {
        None => Marking::Unmarked,
        Some(bytes) => match read_marker(Some(bytes.as_slice())) {
            Some(_) => Marking::Marked,
            None => Marking::Corrupt,
        },
    }
}

/// A marker that is written can be read back, whatever it holds.
pub proof fn marker_fields_round_trip(m: MergeMarker)
    ensures
        marker_of(snapshot_prefix::marker_tag(m.kind), m.started_at, m.context@) == Ok::<
            MarkerView,
            MarkerError,
        >(m@),
{
    snapshot_prefix::marker_tag_round_trip(m.kind, 0);
}

} // verus!
