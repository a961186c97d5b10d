//! The RLP format: what a list of items is written as, and reading one back.

use rlp::{DecoderError, Rlp, RlpStream};
use vstd::prelude::*;

verus! {

/// The bytes of a number, the highest first, without leading zeros.
pub open spec fn be_bytes(n: nat) -> Seq<u8>
    decreases n,
{
    if n == 0 {
        seq![]
    } else {
        be_bytes(n / 256).push((n % 256) as u8)
    }
}

/// What a byte string is written as.
pub open spec fn encoded_string(bytes: Seq<u8>) -> Seq<u8> {
    if bytes.len() == 1 && bytes[0] < 0x80 {
        bytes
    } else if bytes.len() <= 55 {
        seq![(0x80 + bytes.len()) as u8] + bytes
    } else {
        seq![(0xb7 + be_bytes(bytes.len()).len()) as u8] + be_bytes(bytes.len()) + bytes
    }
}

/// What a list is written as whose items, already written, follow each other in `payload`.
pub open spec fn encoded_list(payload: Seq<u8>) -> Seq<u8> {
    if payload.len() <= 55 {
        seq![(0xc0 + payload.len()) as u8] + payload
    } else {
        seq![(0xf7 + be_bytes(payload.len()).len()) as u8] + be_bytes(payload.len()) + payload
    }
}

/// What an optional byte string is written as: a list of none or one.
pub open spec fn encoded_option(value: Option<Seq<u8>>) -> Seq<u8> {
    match value {
        None => encoded_list(seq![]),
        Some(bytes) => encoded_list(encoded_string(bytes)),
    }
}

/// Something that can stand in a list.
pub open spec fn is_item(item: Seq<u8>) -> bool {
    ||| exists|bytes: Seq<u8>| item == #[trigger] encoded_string(bytes)
    ||| exists|payload: Seq<u8>| item == #[trigger] encoded_list(payload)
}

/// The items one behind the other.
pub open spec fn joined(items: Seq<Seq<u8>>) -> Seq<u8>
    decreases items.len(),
{
    if items.len() == 0 {
        seq![]
    } else {
        joined(items.drop_last()) + items.last()
    }
}

/// `rlp::RlpStream`, which writes a list.
#[verifier::external_type_specification]
#[verifier::external_body]
pub struct ExRlpStream(RlpStream);

/// `rlp::DecoderError`, why something could not be read.
#[verifier::external_type_specification]
#[verifier::external_body]
pub struct ExDecoderError(DecoderError);

/// The items that were written to a stream, each as it is written.
pub uninterp spec fn stream_items(s: RlpStream) -> Seq<Seq<u8>>;

/// The number of items that a stream was opened for.
pub uninterp spec fn stream_room(s: RlpStream) -> nat;

/// How many items follow the header of the list that `bytes` begins with, counted to the end of
/// `bytes`, behind the list too, or up to the first that cannot be read; `None` where `bytes` is no
/// list.
pub uninterp spec fn item_count_of(bytes: Seq<u8>) -> Option<nat>;

/// The item of a list at an index, as a byte.
pub uninterp spec fn u8_item_of(bytes: Seq<u8>, index: nat) -> Option<u8>;

/// The item of a list at an index, as a number.
pub uninterp spec fn u64_item_of(bytes: Seq<u8>, index: nat) -> Option<u64>;

/// The item of a list at an index, as a byte string.
pub uninterp spec fn bytes_item_of(bytes: Seq<u8>, index: nat) -> Option<Seq<u8>>;

/// The item of a list at an index, as an optional byte string.
pub uninterp spec fn option_item_of(bytes: Seq<u8>, index: nat) -> Option<Option<Seq<u8>>>;

/// The item of a list at an index, as it is written.
pub uninterp spec fn raw_item_of(bytes: Seq<u8>, index: nat) -> Option<Seq<u8>>;

/// `RlpStream::new_list`: a stream for a list of `len` items.
#[verifier::external_body]
pub(crate) fn new_list(len: usize) -> (r: RlpStream)
    requires
        len > 0,
    ensures
        stream_items(r) == Seq::<Seq<u8>>::empty(),
        stream_room(r) == len,
{
    RlpStream::new_list(len)
}

/// There is room for one more item in a stream: it was opened for more, and the whole list is not
/// longer than its length can be written.
pub open spec fn has_room(s: RlpStream, item: Seq<u8>) -> bool {
    &&& stream_items(s).len() < stream_room(s)
    &&& joined(stream_items(s).push(item)).len() <= u32::MAX
}

/// `RlpStream::append` of a `u8`: appends it as the string of its bytes without leading zeros.
#[verifier::external_body]
pub(crate) fn append_u8(s: &mut RlpStream, value: u8)
    requires
        has_room(*old(s), encoded_string(be_bytes(value as nat))),
    ensures
        stream_items(*final(s)) == stream_items(*old(s)).push(
            encoded_string(be_bytes(value as nat)),
        ),
        stream_room(*final(s)) == stream_room(*old(s)),
{
    s.append(&value);
}

/// `RlpStream::append` of a `u64`: appends it as the string of its bytes without leading zeros.
#[verifier::external_body]
pub(crate) fn append_u64(s: &mut RlpStream, value: u64)
    requires
        has_room(*old(s), encoded_string(be_bytes(value as nat))),
    ensures
        stream_items(*final(s)) == stream_items(*old(s)).push(
            encoded_string(be_bytes(value as nat)),
        ),
        stream_room(*final(s)) == stream_room(*old(s)),
{
    s.append(&value);
}

/// `RlpStream::append` of a byte slice.
#[verifier::external_body]
pub(crate) fn append_bytes(s: &mut RlpStream, value: &[u8])
    requires
        has_room(*old(s), encoded_string(value@)),
    ensures
        stream_items(*final(s)) == stream_items(*old(s)).push(encoded_string(value@)),
        stream_room(*final(s)) == stream_room(*old(s)),
{
    s.append(&value);
}

/// The view of an optional byte string.
pub open spec fn option_view(value: Option<&[u8]>) -> Option<Seq<u8>> {
    match value {
        Some(bytes) => Some(bytes@),
        None => None,
    }
}

/// `RlpStream::append` of an optional byte slice: a list of none or one.
#[verifier::external_body]
pub(crate) fn append_option(s: &mut RlpStream, value: Option<&[u8]>)
    requires
        has_room(*old(s), encoded_option(option_view(value))),
    ensures
        stream_items(*final(s)) == stream_items(*old(s)).push(encoded_option(option_view(value))),
        stream_room(*final(s)) == stream_room(*old(s)),
{
    s.append(&value);
}

/// `RlpStream::append_raw` of one item that is already written.
#[verifier::external_body]
pub(crate) fn append_raw(s: &mut RlpStream, item: &[u8])
    requires
        has_room(*old(s), item@),
    ensures
        stream_items(*final(s)) == stream_items(*old(s)).push(item@),
        stream_room(*final(s)) == stream_room(*old(s)),
{
    s.append_raw(item, 1);
}

/// `RlpStream::out`: the list of the items that were written. What `rlp::Rlp` reads from it are
/// those items, where each is one.
#[verifier::external_body]
pub(crate) fn out(s: RlpStream) -> (r: Vec<u8>)
    requires
        stream_items(s).len() == stream_room(s),
    ensures
        r@ == encoded_list(joined(stream_items(s))),
        (forall|i: int| 0 <= i < stream_items(s).len() ==> is_item(#[trigger] stream_items(s)[i]))
            ==> {
            &&& item_count_of(r@) == Some(stream_items(s).len())
            &&& forall|i: nat|
                i < stream_items(s).len() ==> #[trigger] raw_item_of(r@, i) == Some(
                    stream_items(s)[i as int],
                )
            &&& forall|i: nat, b: Seq<u8>|
                i < stream_items(s).len() && stream_items(s)[i as int] == #[trigger] encoded_string(
                    b,
                ) ==> #[trigger] bytes_item_of(r@, i) == Some(b)
            &&& forall|i: nat, v: u8|
                i < stream_items(s).len() && stream_items(s)[i as int] == encoded_string(
                    #[trigger] be_bytes(v as nat),
                ) ==> #[trigger] u8_item_of(r@, i) == Some(v)
            &&& forall|i: nat, v: u64|
                i < stream_items(s).len() && stream_items(s)[i as int] == encoded_string(
                    #[trigger] be_bytes(v as nat),
                ) ==> #[trigger] u64_item_of(r@, i) == Some(v)
            &&& forall|i: nat, o: Option<Seq<u8>>|
                i < stream_items(s).len() && stream_items(s)[i as int] == #[trigger] encoded_option(
                    o,
                ) ==> #[trigger] option_item_of(r@, i) == Some(o)
        },
{
    s.out()
}

/// `Rlp::item_count`.
#[verifier::external_body]
pub(crate) fn item_count(bytes: &[u8]) -> (r: Result<usize, DecoderError>)
    ensures
        match r {
            Ok(n) => item_count_of(bytes@) == Some(n as nat),
            Err(_) => item_count_of(bytes@) is None,
        },
{
    Rlp::new(bytes).item_count()
}

/// `Rlp::val_at` for a `u8`.
#[verifier::external_body]
pub(crate) fn u8_item(bytes: &[u8], index: usize) -> (r: Result<u8, DecoderError>)
    ensures
        match r {
            Ok(v) => u8_item_of(bytes@, index as nat) == Some(v),
            Err(_) => u8_item_of(bytes@, index as nat) is None,
        },
{
    Rlp::new(bytes).val_at(index)
}

/// `Rlp::val_at` for a `u64`.
#[verifier::external_body]
pub(crate) fn u64_item(bytes: &[u8], index: usize) -> (r: Result<u64, DecoderError>)
    ensures
        match r {
            Ok(v) => u64_item_of(bytes@, index as nat) == Some(v),
            Err(_) => u64_item_of(bytes@, index as nat) is None,
        },
{
    Rlp::new(bytes).val_at(index)
}

/// `Rlp::val_at` for a `Vec<u8>`.
#[verifier::external_body]
pub(crate) fn bytes_item(bytes: &[u8], index: usize) -> (r: Result<Vec<u8>, DecoderError>)
    ensures
        match r {
            Ok(v) => bytes_item_of(bytes@, index as nat) == Some(v@),
            Err(_) => bytes_item_of(bytes@, index as nat) is None,
        },
{
    Rlp::new(bytes).val_at(index)
}

/// `Rlp::val_at` for an `Option<Vec<u8>>`.
#[verifier::external_body]
pub(crate) fn option_item(bytes: &[u8], index: usize) -> (r: Result<Option<Vec<u8>>, DecoderError>)
    ensures
        match r {
            Ok(Some(v)) => option_item_of(bytes@, index as nat) == Some(Some(v@)),
            Ok(None) => option_item_of(bytes@, index as nat) == Some(None::<Seq<u8>>),
            Err(_) => option_item_of(bytes@, index as nat) is None,
        },
{
    Rlp::new(bytes).val_at(index)
}

/// `Rlp::at` and the bytes of what it gives.
#[verifier::external_body]
pub(crate) fn raw_item(bytes: &[u8], index: usize) -> (r: Result<Vec<u8>, DecoderError>)
    ensures
        match r {
            Ok(v) => raw_item_of(bytes@, index as nat) == Some(v@),
            Err(_) => raw_item_of(bytes@, index as nat) is None,
        },
{
    let list = Rlp::new(bytes);
    let item = list.at(index)?;
    Ok(item.as_raw().to_vec())
}

/// The bytes of a number below 256 are at most one, below 2 to the 64th at most eight.
pub proof fn be_bytes_are_short(n: nat)
    ensures
        n < 0x100 ==> be_bytes(n).len() <= 1,
        n < 0x1_0000_0000_0000_0000 ==> be_bytes(n).len() <= 8,
{
    reveal_with_fuel(be_bytes, 9);
}

/// Joining one more item.
pub proof fn joined_push(items: Seq<Seq<u8>>, item: Seq<u8>)
    ensures
        joined(items.push(item)) == joined(items) + item,
{
    assert(items.push(item).drop_last() =~= items);
}

} // verus!
