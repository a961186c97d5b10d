//! What a node of the state trie is written as.

use super::trie_node;
use super::trie_node::VanillaTrieNode;
use crate::hash::{MerkleHash, H256};
use crate::rlp_codec;
use vstd::prelude::*;

verus! {

/// The items of the list that a node is written as: its hash, its children, its value, and its path
/// where it is not empty. The children and the path are given as they are written.
pub open spec fn node_items(
    merkle: Seq<u8>,
    children: Seq<u8>,
    value: Option<Seq<u8>>,
    path: Option<Seq<u8>>,
) -> Seq<Seq<u8>> {
    let items = seq![
        rlp_codec::encoded_string(merkle),
        children,
        rlp_codec::encoded_option(value),
    ];
    match path {
        Some(p) => items.push(p),
        None => items,
    }
}

/// The path of a node as it is written, where it is.
pub open spec fn written_path(path: Seq<u8>, path_rlp: Seq<u8>) -> Option<Seq<u8>> {
    if path.len() > 0 {
        Some(path_rlp)
    } else {
        None
    }
}

/// What is read from the bytes of a node.
#[derive(Debug)]
pub struct NodeItems {
    pub merkle: MerkleHash,
    /// The children as they are written.
    pub children: Vec<u8>,
    pub value: Option<Vec<u8>>,
    /// The path as it is written, where it is.
    pub path: Option<Vec<u8>>,
}

/// What is read from the bytes of a node, as a mathematical value.
pub struct NodeItemsView {
    pub merkle: Seq<u8>,
    pub children: Seq<u8>,
    pub value: Option<Seq<u8>>,
    pub path: Option<Seq<u8>>,
}

impl View for NodeItems {
    type V = NodeItemsView;

    open spec fn view(&self) -> NodeItemsView {
        NodeItemsView {
            merkle: self.merkle@,
            children: self.children@,
            value: match self.value {
                Some(v) => Some(v@),
                None => None,
            },
            path: match self.path {
                Some(p) => Some(p@),
                None => None,
            },
        }
    }
}

/// Why bytes are no node.
#[derive(Clone, Copy, Debug, PartialEq, Eq, Structural)]
pub enum NodeRlpError {
    /// They are no list, or an item has another form.
    Rlp,
    /// The hash is of another length.
    MerkleLength,
}

/// What is read from the bytes of a node. A list of four has a path; in any other there is none.
pub open spec fn decoded_node(bytes: Seq<u8>) -> Result<NodeItemsView, NodeRlpError> {
    match rlp_codec::item_count_of(bytes) {
        None => Err(NodeRlpError::Rlp),
        Some(n) => if n == 4 && rlp_codec::raw_item_of(bytes, 3) is None {
            Err(NodeRlpError::Rlp)
        } else {
            let path = if n == 4 {
                rlp_codec::raw_item_of(bytes, 3)
            } else {
                None
            };
            match rlp_codec::bytes_item_of(bytes, 0) {
                None => Err(NodeRlpError::Rlp),
                Some(merkle) => if merkle.len() != 32 {
                    Err(NodeRlpError::MerkleLength)
                } else {
                    match (rlp_codec::raw_item_of(bytes, 1), rlp_codec::option_item_of(bytes, 2)) {
                        (Some(children), Some(value)) => Ok(
                            NodeItemsView { merkle, children, value, path },
                        ),
                        _ => Err(NodeRlpError::Rlp),
                    }
                },
            }
        },
    }
}

/// What a node is written as, given what its children and its path are written as. It reads back as
/// what was written.
pub fn encode_node<T>(node: &VanillaTrieNode<T>, children_rlp: &[u8], path_rlp: &[u8]) -> (r: Vec<
    u8,
>)
    requires
        rlp_codec::is_item(children_rlp@),
        rlp_codec::is_item(path_rlp@),
        rlp_codec::joined(
            node_items(
                node@.merkle@,
                children_rlp@,
                trie_node::bytes_of(node@.value),
                Some(path_rlp@),
            ),
        ).len() <= u32::MAX,
    ensures
        r@ == rlp_codec::encoded_list(
            rlp_codec::joined(
                node_items(
                    node@.merkle@,
                    children_rlp@,
                    trie_node::bytes_of(node@.value),
                    written_path(node@.path, path_rlp@),
                ),
            ),
        ),
        decoded_node(r@) == Ok::<NodeItemsView, NodeRlpError>(
            (NodeItemsView {
                merkle: node@.merkle@,
                children: children_rlp@,
                value: trie_node::bytes_of(node@.value),
                path: written_path(node@.path, path_rlp@),
            }),
        ),
{
    let value = node.value_as_slice();
    let ghost value_view = trie_node::bytes_of(node@.value);
    let ghost a = rlp_codec::encoded_string(node@.merkle@);
    let ghost b = children_rlp@;
    let ghost c = rlp_codec::encoded_option(value_view);
    let ghost d = path_rlp@;
    let ghost none = Seq::<Seq<u8>>::empty();
    proof {
        rlp_codec::joined_push(none, a);
        rlp_codec::joined_push(none.push(a), b);
        rlp_codec::joined_push(none.push(a).push(b), c);
        rlp_codec::joined_push(none.push(a).push(b).push(c), d);
        assert(node_items(node@.merkle@, b, value_view, Some(d)) =~= none.push(a).push(b).push(
            c,
        ).push(d));
    }
    let with_path = node.compressed_path_ref().path.len() > 0;
    let mut s = rlp_codec::new_list(
        if with_path {
            4
        } else {
            3
        },
    );
    rlp_codec::append_bytes(&mut s, node.get_merkle().0.as_slice());
    rlp_codec::append_raw(&mut s, children_rlp);
    match &value {
        Some(v) => rlp_codec::append_option(&mut s, Some(v.as_slice())),
        None => rlp_codec::append_option(&mut s, None),
    }
    if with_path {
        rlp_codec::append_raw(&mut s, path_rlp);
    }
    let ghost items = rlp_codec::stream_items(s);
    let r = rlp_codec::out(s);
    proof {
        let path = written_path(node@.path, d);
        assert(items =~= node_items(node@.merkle@, b, value_view, path));
        assert(rlp_codec::is_item(c)) by {
            match value_view {
                None => {
                    assert(c == rlp_codec::encoded_list(seq![]));
                },
                Some(v) => {
                    assert(c == rlp_codec::encoded_list(rlp_codec::encoded_string(v)));
                },
            }
        }
        assert forall|i: int| 0 <= i < items.len() implies rlp_codec::is_item(
            #[trigger] items[i],
        ) by {
            if i == 0 {
                assert(items[i] == a);
            } else if i == 1 {
                assert(items[i] == b);
            } else if i == 2 {
                assert(items[i] == c);
            } else {
                assert(items[i] == d);
            }
        }
        assert(items[0] == a && items[1] == b && items[2] == c);
        assert(rlp_codec::bytes_item_of(r@, 0) == Some(node@.merkle@));
        assert(rlp_codec::raw_item_of(r@, 1) == Some(b));
        assert(rlp_codec::option_item_of(r@, 2) == Some(value_view));
        if with_path {
            assert(rlp_codec::raw_item_of(r@, 3) == Some(items[3]));
        }
    }
    r
}

/// What is read from the bytes of a node.
pub fn decode_node(bytes: &[u8]) -> (r: Result<NodeItems, NodeRlpError>)
    ensures
        match r {
            Ok(items) => decoded_node(bytes@) == Ok::<NodeItemsView, NodeRlpError>(items@),
            Err(e) => decoded_node(bytes@) == Err::<NodeItemsView, NodeRlpError>(e),
        },
{
    let count: usize = match rlp_codec::item_count(bytes) {
        Err(_) => {
            return Err(NodeRlpError::Rlp);
        },
        Ok(n) => n,
    };
    let path: Option<Vec<u8>> = if count == 4 {
        match rlp_codec::raw_item(bytes, 3) {
            Err(_) => {
                return Err(NodeRlpError::Rlp);
            },
            Ok(p) => Some(p),
        }
    } else {
        None
    };
    let merkle = match rlp_codec::bytes_item(bytes, 0) {
        Err(_) => {
            return Err(NodeRlpError::Rlp);
        },
        Ok(m) => m,
    };
    if merkle.len() != 32 {
        return Err(NodeRlpError::MerkleLength);
    }
    let children = match rlp_codec::raw_item(bytes, 1) {
        Err(_) => {
            return Err(NodeRlpError::Rlp);
        },
        Ok(c) => c,
    };
    match rlp_codec::option_item(bytes, 2) {
        Err(_) => Err(NodeRlpError::Rlp),
        Ok(value) => Ok(
            NodeItems { merkle: H256::from_slice(merkle.as_slice()), children, value, path },
        ),
    }
}

} // verus!
