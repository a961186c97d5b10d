use mazze_storage::hash::{merkle_null_node, MerkleHash};
use mazze_storage::hex::HexError;
use mazze_storage::storage::merkle_patricia_trie::node_fields::{
    mpt_value_text, parse_mpt_value, Field, FieldError, NodeFields,
};
use mazze_storage::storage::merkle_patricia_trie::node_rlp::{
    decode_node, encode_node, NodeRlpError,
};
use mazze_storage::storage::merkle_patricia_trie::trie_node::{
    CompressedPathRaw, MptValue, VanillaChildrenTable, VanillaTrieNode, CHILDREN_COUNT,
};
use rlp::RlpStream;

fn hash(byte: u8) -> MerkleHash {
    MerkleHash::from_slice(&[byte; 32])
}

fn path() -> CompressedPathRaw {
    CompressedPathRaw { path: vec![1, 2], path_mask: 0 }
}

fn node(value: Option<Vec<u8>>) -> VanillaTrieNode<u32> {
    VanillaTrieNode::new(hash(7), VanillaChildrenTable::new(), value, path())
}

#[test]
fn an_empty_node_has_nothing() {
    let n: VanillaTrieNode<u32> = VanillaTrieNode::empty();
    assert_eq!(*n.get_merkle(), merkle_null_node());
    assert!(!n.has_value());
    assert_eq!(n.value_as_slice(), None);
    assert_eq!(n.get_children_count(), 0);
    assert!(n.get_children_merkles().is_none());
    assert!(n.compressed_path_ref().path.is_empty());
}

#[test]
fn values_are_told_apart() {
    assert!(matches!(node(None).mpt_value(), MptValue::Nothing));
    assert!(matches!(node(Some(Vec::new())).mpt_value(), MptValue::TombStone));
    assert!(matches!(node(Some(vec![5])).mpt_value(), MptValue::Value(v) if v == &vec![5]));
    assert_eq!(node(None).value_as_slice(), None);
    assert_eq!(node(Some(Vec::new())).value_as_slice(), Some(Vec::new()));
    assert_eq!(node(Some(vec![5])).value_as_slice(), Some(vec![5]));
    assert!(node(Some(vec![5])).has_value());
}

#[test]
fn values_are_replaced_and_deleted() {
    let mut n = node(Some(vec![5]));
    let old = n.replace_value_valid(vec![6]);
    assert!(matches!(old, MptValue::Value(v) if v == vec![5]));
    let old = n.replace_value_valid(Vec::new());
    assert!(matches!(old, MptValue::Value(v) if v == vec![6]));
    assert!(matches!(n.mpt_value(), MptValue::TombStone));
    n.replace_value_valid(vec![8]);
    assert_eq!(n.delete_value_unchecked(), vec![8]);
    assert!(!n.has_value());
}

#[test]
fn children_are_added_replaced_and_deleted() {
    let mut n = node(None);
    n.add_new_child_unchecked(3, 30);
    n.add_new_child_unchecked(CHILDREN_COUNT - 1, 150);
    assert_eq!(n.get_children_count(), 2);
    assert_eq!(n.get_child(3), Some(&30));
    assert_eq!(n.get_child(4), None);
    n.replace_child_unchecked(3, 31);
    assert_eq!(n.get_child(3), Some(&31));
    assert_eq!(n.get_children_count(), 2);
    assert_eq!(n.get_children_merkles().unwrap().get_child(3), Some(&31));
    n.delete_child_unchecked(3);
    assert_eq!(n.get_child(3), None);
    assert_eq!(n.get_children_table_ref().get_children_count(), 1);
}

#[test]
fn the_hash_and_the_path_are_set() {
    let mut n = node(None);
    n.set_merkle(&hash(9));
    n.set_compressed_path(CompressedPathRaw { path: vec![4], path_mask: 1 });
    assert_eq!(*n.get_merkle(), hash(9));
    assert_eq!(n.compressed_path_ref().path, vec![4]);
    assert_eq!(n.compressed_path_ref().path_mask, 1);
}

#[test]
fn nodes_are_read_back() {
    let bytes = encode_node(&node(Some(vec![0x90])), &[0xc0], &[0x81, 0x80]);
    let mut s = RlpStream::new_list(4);
    s.append(&[7u8; 32].as_ref());
    s.append_raw(&[0xc0], 1);
    s.append(&Some(vec![0x90u8]));
    s.append_raw(&[0x81, 0x80], 1);
    assert_eq!(bytes, s.out().to_vec());
    let items = decode_node(&bytes).unwrap();
    assert_eq!(items.merkle, hash(7));
    assert_eq!(items.children, vec![0xc0]);
    assert_eq!(items.value, Some(vec![0x90]));
    assert_eq!(items.path, Some(vec![0x81, 0x80]));
}

#[test]
fn an_empty_path_is_left_out() {
    let n: VanillaTrieNode<u32> = VanillaTrieNode::empty();
    let items = decode_node(&encode_node(&n, &[0xc0], &[0x80])).unwrap();
    assert_eq!(items.path, None);
    assert_eq!(items.value, None);
    assert_eq!(items.merkle, merkle_null_node());
}

#[test]
fn other_bytes_are_no_node() {
    assert_eq!(decode_node(b"abc").unwrap_err(), NodeRlpError::Rlp);
    let mut s = RlpStream::new_list(3);
    s.append(&[7u8; 31].as_ref());
    s.append_raw(&[0xc0], 1);
    s.append_raw(&[0xc0], 1);
    assert_eq!(decode_node(&s.out()).unwrap_err(), NodeRlpError::MerkleLength);
}

#[test]
fn values_are_written_as_text() {
    assert_eq!(mpt_value_text(&MptValue::Nothing), None);
    assert_eq!(mpt_value_text(&MptValue::TombStone), Some(String::new()));
    assert_eq!(
        mpt_value_text(&MptValue::Value(vec![0x0a, 0xff])),
        Some("0x0aff".to_string())
    );
    assert_eq!(parse_mpt_value(""), Ok(Vec::new()));
    assert_eq!(parse_mpt_value("0x0aff"), Ok(vec![0x0a, 0xff]));
    assert_eq!(parse_mpt_value("0aff"), Err(FieldError::InvalidFormat));
    assert_eq!(parse_mpt_value("0x0"), Err(FieldError::InvalidFormat));
    assert_eq!(
        parse_mpt_value("0x0g"),
        Err(FieldError::InvalidHex(HexError::InvalidHexCharacter('g', 1)))
    );
}

#[test]
fn fields_stand_once_each() {
    for field in [Field::CompressedPath, Field::MptValue, Field::ChildrenTable, Field::MerkleHash] {
        assert_eq!(Field::from_name(field.name()), Some(field));
    }
    assert_eq!(Field::from_name("mpt_value"), None);
    let mut f: NodeFields<u8, u8> = NodeFields::new();
    assert_eq!(f.expect_new(Field::CompressedPath), Ok(()));
    f.compressed_path = Some(1);
    assert_eq!(
        f.expect_new(Field::CompressedPath),
        Err(FieldError::Duplicate(Field::CompressedPath))
    );
    assert_eq!(
        NodeFields::<u8, u8>::new().finish().unwrap_err(),
        FieldError::Missing(Field::CompressedPath)
    );
    let value = |v: Option<Option<String>>| NodeFields {
        compressed_path: Some(1u8),
        mpt_value: v,
        children_table: Some(2u8),
        merkle_hash: None,
    };
    assert_eq!(value(None).finish().unwrap_err(), FieldError::Missing(Field::MptValue));
    assert_eq!(
        value(Some(Some("x".to_string()))).finish().unwrap_err(),
        FieldError::InvalidFormat
    );
    assert_eq!(value(Some(None)).finish().unwrap_err(), FieldError::Missing(Field::MerkleHash));
    let mut whole = value(Some(Some("0x01".to_string())));
    whole.merkle_hash = Some(hash(3));
    let read = whole.finish().unwrap();
    assert_eq!(read.value, Some(vec![1]));
    assert_eq!(read.merkle_hash, hash(3));
    let mut no_table: NodeFields<u8, u8> = value(Some(None));
    no_table.children_table = None;
    assert_eq!(no_table.finish().unwrap_err(), FieldError::Missing(Field::ChildrenTable));
}
