//! Reading a node of the state trie from named fields.

use super::trie_node;
use super::trie_node::{MptValue, MptValueView};
use crate::hash::MerkleHash;
use crate::hex;
use crate::hex::{from_hex, to_hex, HexError};
use crate::storage::storage_db::names;
use crate::storage::storage_db::names::strip_prefix;
use vstd::prelude::*;
use vstd::string::StringExecFns;

verus! {

/// A field of a node.
#[derive(Clone, Copy, Debug, PartialEq, Eq, Structural)]
pub enum Field {
    CompressedPath,
    MptValue,
    ChildrenTable,
    MerkleHash,
}

/// The name of a field.
pub open spec fn field_name(field: Field) -> Seq<char> {
    match field {
        Field::CompressedPath => "compressedPath"@,
        Field::MptValue => "mptValue"@,
        Field::ChildrenTable => "childrenTable"@,
        Field::MerkleHash => "merkleHash"@,
    }
}

impl Field {
    /// The name of the field.
    pub fn name(&self) -> (r: &'static str)
        ensures
            r@ == field_name(*self),
    {
        match self {
            Field::CompressedPath => "compressedPath",
            Field::MptValue => "mptValue",
            Field::ChildrenTable => "childrenTable",
            Field::MerkleHash => "merkleHash",
        }
    }

    /// The field of a name.
    pub fn from_name(name: &str) -> (r: Option<Field>)
        ensures
            match r {
                Some(f) => field_name(f) == name@,
                None => forall|f: Field| field_name(f) != name@,
            },
    {
        let text = String::from_str(name);
        if text == String::from_str("compressedPath") {
            Some(Field::CompressedPath)
        } else if text == String::from_str("mptValue") {
            Some(Field::MptValue)
        } else if text == String::from_str("childrenTable") {
            Some(Field::ChildrenTable)
        } else if text == String::from_str("merkleHash") {
            Some(Field::MerkleHash)
        } else {
            None
        }
    }
}

/// No two fields have the same name.
pub proof fn field_names_are_distinct(a: Field, b: Field)
    ensures
        field_name(a) == field_name(b) <==> a == b,
{
    reveal_strlit("compressedPath");
    reveal_strlit("mptValue");
    reveal_strlit("childrenTable");
    reveal_strlit("merkleHash");
    assert("compressedPath"@.len() == 14);
    assert("mptValue"@.len() == 8);
    assert("childrenTable"@.len() == 13);
    assert("merkleHash"@.len() == 10);
}

/// Why fields make no node.
#[derive(Clone, Copy, Debug, PartialEq, Eq, Structural)]
pub enum FieldError {
    /// A field stands twice.
    Duplicate(Field),
    /// A field does not stand.
    Missing(Field),
    /// The value goes on with something else than digits.
    InvalidHex(HexError),
    /// The value does not begin with `0x`, or is of odd length.
    InvalidFormat,
}

/// What the value of a node is written as.
pub open spec fn value_text(value: MptValueView) -> Option<Seq<char>> {
    match value {
        MptValueView::Nothing => None,
        MptValueView::TombStone => Some(""@),
        MptValueView::Value(v) => Some("0x"@ + hex::hex_of(v)),
    }
}

/// What the value of a node is written as: digits behind `0x`, and nothing for a removal.
pub fn mpt_value_text(value: &MptValue) -> (r: Option<String>)
    ensures
        match r {
            Some(t) => value_text(value@) == Some(t@),
            None => value_text(value@) is None,
        },
{
    match value {
        MptValue::Nothing => None,
        MptValue::TombStone => Some(String::from_str("")),
        MptValue::Value(v) => Some(String::from_str("0x").concat(to_hex(v.as_slice()).as_str())),
    }
}

/// The text begins as a value does: with `0x`, and its bytes are an even number.
pub open spec fn has_value_form(text: Seq<char>) -> bool {
    names::text_begins(text, "0x"@) && names::byte_len(text) % 2 == 0
}

/// The bytes that the text of a value stands for.
pub open spec fn value_bytes(text: Seq<char>) -> Option<Seq<u8>> {
    if text.len() == 0 {
        Some(Seq::<u8>::empty())
    } else if has_value_form(text) {
        hex::decoded(names::text_after(text, 2))
    } else {
        None
    }
}

/// The text of a value stands for no bytes, for the reason given.
pub open spec fn is_refused(text: Seq<char>, e: FieldError) -> bool {
    match e {
        FieldError::InvalidFormat => !has_value_form(text),
        FieldError::InvalidHex(h) => {
            &&& has_value_form(text)
            &&& hex::is_refused(names::text_after(text, 2), h)
        },
        _ => false,
    }
}

/// The bytes that the text of a value stands for.
pub fn parse_mpt_value(text: &str) -> (r: Result<Vec<u8>, FieldError>)
    ensures
        match r {
            Ok(v) => value_bytes(text@) == Some(v@),
            Err(e) => {
                &&& value_bytes(text@) is None
                &&& is_refused(text@, e)
            },
        },
{
    proof {
        reveal_strlit("0x");
        assert("0x"@.len() == 2);
    }
    if text.is_empty() {
        let empty: Vec<u8> = Vec::new();
        proof {
            assert(empty@ =~= Seq::<u8>::empty());
        }
        return Ok(empty);
    }
    let even = text.as_bytes().len() % 2 == 0;
    match strip_prefix(text, "0x") {
        Some(rest) => if even {
            match from_hex(rest) {
                Ok(v) => Ok(v),
                Err(e) => Err(FieldError::InvalidHex(e)),
            }
        } else {
            Err(FieldError::InvalidFormat)
        },
        None => Err(FieldError::InvalidFormat),
    }
}

/// A value is read back from what it is written as.
pub proof fn value_texts_round_trip(value: MptValueView)
    requires
        trie_node::is_valid(value),
    ensures
        match value_text(value) {
            None => value == MptValueView::Nothing,
            Some(text) => value_bytes(text) matches Some(bytes) && trie_node::value_of(Some(bytes))
                == value,
        },
{
    reveal_strlit("");
    reveal_strlit("0x");
    match value {
        MptValueView::Value(v) => {
            let text = "0x"@ + hex::hex_of(v);
            hex::hex_round_trip(v);
            assert("0x"@.len() == 2);
            assert(text.subrange(0, 2) =~= "0x"@);
            assert(names::text_after(text, 2) =~= hex::hex_of(v));
            assert(vstd::utf8::is_ascii_chars(text)) by {
                assert forall|i: int| 0 <= i < text.len() implies '\0' <= #[trigger] text[i]
                    <= '\u{7f}' by {
                    if i < 2 {
                        assert(text[i] == "0x"@[i]);
                    } else {
                        assert(text[i] == hex::hex_of(v)[i - 2]);
                    }
                }
            }
            vstd::utf8::is_ascii_chars_encode_utf8(text);
            assert(names::byte_len(text) == 2 + 2 * v.len());
        },
        _ => {},
    }
}

/// The fields of a node that have been read so far.
#[derive(Debug)]
pub struct NodeFields<P, C> {
    pub compressed_path: Option<P>,
    pub mpt_value: Option<Option<String>>,
    pub children_table: Option<C>,
    pub merkle_hash: Option<MerkleHash>,
}

/// The fields of a node, all of them.
#[derive(Debug)]
pub struct ReadNode<P, C> {
    pub compressed_path: P,
    /// The bytes of the value, where there is one.
    pub value: Option<Vec<u8>>,
    pub children_table: C,
    pub merkle_hash: MerkleHash,
}

/// What the text of the value comes to.
pub open spec fn read_value(text: Option<String>) -> Option<Option<Seq<u8>>> {
    match text {
        None => Some(None),
        Some(t) => match value_bytes(t@) {
            Some(bytes) => Some(Some(bytes)),
            None => None,
        },
    }
}

impl<P, C> NodeFields<P, C> {
    /// The field has been read.
    pub open spec fn has(&self, field: Field) -> bool {
        match field {
            Field::CompressedPath => self.compressed_path is Some,
            Field::MptValue => self.mpt_value is Some,
            Field::ChildrenTable => self.children_table is Some,
            Field::MerkleHash => self.merkle_hash is Some,
        }
    }

    /// Nothing has been read.
    pub fn new() -> (r: Self)
        ensures
            forall|f: Field| !r.has(f),
    {
        NodeFields {
            compressed_path: None,
            mpt_value: None,
            children_table: None,
            merkle_hash: None,
        }
    }

    /// Whether a field may be read: not twice.
    pub fn expect_new(&self, field: Field) -> (r: Result<(), FieldError>)
        ensures
            match r {
                Ok(_) => !self.has(field),
                Err(e) => self.has(field) && e == FieldError::Duplicate(field),
            },
    {
        let there = match field {
            Field::CompressedPath => self.compressed_path.is_some(),
            Field::MptValue => self.mpt_value.is_some(),
            Field::ChildrenTable => self.children_table.is_some(),
            Field::MerkleHash => self.merkle_hash.is_some(),
        };
        if there {
            Err(FieldError::Duplicate(field))
        } else {
            Ok(())
        }
    }

    /// The node that the fields make. The first that is missing is reported, and of a value that
    /// cannot be read why.
    pub fn finish(self) -> (r: Result<ReadNode<P, C>, FieldError>)
        ensures
            match r {
                Ok(node) => {
                    &&& self.compressed_path == Some(node.compressed_path)
                    &&& self.children_table == Some(node.children_table)
                    &&& self.merkle_hash == Some(node.merkle_hash)
                    &&& self.mpt_value matches Some(text) && read_value(text) == Some(
                        match node.value {
                            Some(v) => Some(v@),
                            None => None,
                        },
                    )
                },
                Err(e) => if self.compressed_path is None {
                    e == FieldError::Missing(Field::CompressedPath)
                } else if self.mpt_value is None {
                    e == FieldError::Missing(Field::MptValue)
                } else if read_value(self.mpt_value->0) is None {
                    self.mpt_value matches Some(Some(t)) && is_refused(t@, e)
                } else if self.children_table is None {
                    e == FieldError::Missing(Field::ChildrenTable)
                } else {
                    self.merkle_hash is None && e == FieldError::Missing(Field::MerkleHash)
                },
            },
    {
        let compressed_path = match self.compressed_path {
            Some(p) => p,
            None => {
                return Err(FieldError::Missing(Field::CompressedPath));
            },
        };
        let value = match self.mpt_value {
            None => {
                return Err(FieldError::Missing(Field::MptValue));
            },
            Some(None) => None,
            Some(Some(text)) => match parse_mpt_value(text.as_str()) {
                Ok(v) => Some(v),
                Err(e) => {
                    return Err(e);
                },
            },
        };
        let children_table = match self.children_table {
            Some(c) => c,
            None => {
                return Err(FieldError::Missing(Field::ChildrenTable));
            },
        };
        match self.merkle_hash {
            Some(merkle_hash) => Ok(
                ReadNode { compressed_path, value, children_table, merkle_hash },
            ),
            None => Err(FieldError::Missing(Field::MerkleHash)),
        }
    }
}

} // verus!
