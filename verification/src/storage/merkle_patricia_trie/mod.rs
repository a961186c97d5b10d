//! The nodes of the state trie.

pub mod node_fields;
pub mod node_rlp;
pub mod trie_node;
