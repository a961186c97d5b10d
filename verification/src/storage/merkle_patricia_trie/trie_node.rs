//! A node of the state trie.

use crate::bytes;
use crate::bytes::copy_bytes;
use crate::hash::{merkle_null_node, MerkleHash};
use vstd::prelude::*;

verus! {

/// The number of children that a node can have.
pub const CHILDREN_COUNT: u8 = 16;

/// The value of a node.
#[derive(Debug)]
pub enum MptValue {
    /// There is none.
    Nothing,
    /// There was one, and it is removed.
    TombStone,
    /// There is this one.
    Value(Vec<u8>),
}

/// The value of a node, as a mathematical value.
pub enum MptValueView {
    Nothing,
    TombStone,
    Value(Seq<u8>),
}

impl View for MptValue {
    type V = MptValueView;

    open spec fn view(&self) -> MptValueView {
        match self {
            MptValue::Nothing => MptValueView::Nothing,
            MptValue::TombStone => MptValueView::TombStone,
            MptValue::Value(v) => MptValueView::Value(v@),
        }
    }
}

/// The value that bytes stand for: an empty one is a removal.
pub open spec fn value_of(bytes: Option<Seq<u8>>) -> MptValueView {
    match bytes {
        None => MptValueView::Nothing,
        Some(v) => if v.len() == 0 {
            MptValueView::TombStone
        } else {
            MptValueView::Value(v)
        },
    }
}

/// The bytes that stand for a value.
pub open spec fn bytes_of(value: MptValueView) -> Option<Seq<u8>> {
    match value {
        MptValueView::Nothing => None,
        MptValueView::TombStone => Some(Seq::<u8>::empty()),
        MptValueView::Value(v) => Some(v),
    }
}

/// A value that is there is not empty.
pub open spec fn is_valid(value: MptValueView) -> bool {
    value matches MptValueView::Value(v) ==> v.len() > 0
}

/// Valid values and the bytes that stand for them determine each other.
pub proof fn values_round_trip(value: MptValueView, bytes: Option<Seq<u8>>)
    ensures
        is_valid(value) ==> value_of(bytes_of(value)) == value,
        bytes_of(value_of(bytes)) == bytes,
        is_valid(value_of(bytes)),
{
    if let Some(v) = bytes {
        if v.len() == 0 {
            assert(v =~= Seq::<u8>::empty());
        }
    }
}

fn value_from(bytes: Option<Vec<u8>>) -> (r: MptValue)
    ensures
        r@ == value_of(
            match bytes {
                Some(v) => Some(v@),
                None => None,
            },
        ),
{
    match bytes {
        None => MptValue::Nothing,
        Some(v) => if v.len() == 0 {
            MptValue::TombStone
        } else {
            MptValue::Value(v)
        },
    }
}

/// The part of a key between a node and its parent.
#[derive(Debug)]
pub struct CompressedPathRaw {
    pub path: Vec<u8>,
    /// Which halves of the first and the last byte belong to it.
    pub path_mask: u8,
}

impl CompressedPathRaw {
    /// An empty path.
    pub fn empty() -> (r: Self)
        ensures
            r.path@ == Seq::<u8>::empty(),
            r.path_mask == 0,
    {
        CompressedPathRaw { path: Vec::new(), path_mask: 0 }
    }
}

/// The number of children that are there.
pub open spec fn count_children<T>(children: Seq<Option<T>>) -> nat
    decreases children.len(),
{
    if children.len() == 0 {
        0
    } else {
        count_children(children.drop_last()) + if children.last() is Some {
            1nat
        } else {
            0nat
        }
    }
}

/// The children of a node.
#[derive(Debug)]
pub struct VanillaChildrenTable<T> {
    table: Vec<Option<T>>,
    children_count: u8,
}

impl<T> View for VanillaChildrenTable<T> {
    type V = Seq<Option<T>>;

    closed spec fn view(&self) -> Seq<Option<T>> {
        self.table@
    }
}

proof fn lemma_count_update<T>(children: Seq<Option<T>>, i: int, child: Option<T>)
    requires
        0 <= i < children.len(),
    ensures
        count_children(children.update(i, child)) == count_children(children) + (if child is Some {
            1int
        } else {
            0
        }) - (if children[i] is Some {
            1int
        } else {
            0
        }),
    decreases children.len(),
{
    let after = children.update(i, child);
    if i == children.len() - 1 {
        assert(after.drop_last() =~= children.drop_last());
    } else {
        assert(after.drop_last() =~= children.drop_last().update(i, child));
        lemma_count_update(children.drop_last(), i, child);
    }
}

proof fn lemma_count_bound<T>(children: Seq<Option<T>>)
    ensures
        count_children(children) <= children.len(),
    decreases children.len(),
{
    if children.len() > 0 {
        lemma_count_bound(children.drop_last());
    }
}

proof fn lemma_some_child<T>(children: Seq<Option<T>>, i: int)
    requires
        0 <= i < children.len(),
        children[i] is Some,
    ensures
        count_children(children) > 0,
    decreases children.len(),
{
    if i < children.len() - 1 {
        lemma_some_child(children.drop_last(), i);
    }
}

impl<T> VanillaChildrenTable<T> {
    /// There is a place for each child, and the count is right.
    pub closed spec fn wf(&self) -> bool {
        &&& self.table@.len() == CHILDREN_COUNT
        &&& self.children_count == count_children(self.table@)
    }

    /// A table without children.
    pub fn new() -> (r: Self)
        ensures
            r.wf(),
            r@.len() == CHILDREN_COUNT,
            forall|i: int| 0 <= i < CHILDREN_COUNT ==> (#[trigger] r@[i]) is None,
            count_children(r@) == 0,
    {
        let mut table: Vec<Option<T>> = Vec::new();
        let mut i: u8 = 0;
        while i < CHILDREN_COUNT
            invariant
                i <= CHILDREN_COUNT,
                table@.len() == i,
                forall|j: int| 0 <= j < i ==> (#[trigger] table@[j]) is None,
                count_children(table@) == 0,
            decreases CHILDREN_COUNT - i,
        {
            let ghost before = table@;
            table.push(None);
            proof {
                assert(table@.drop_last() =~= before);
            }
            i = i + 1;
        }
        VanillaChildrenTable { table, children_count: 0 }
    }

    /// The child at an index.
    pub fn get_child(&self, child_index: u8) -> (r: Option<&T>)
        requires
            self.wf(),
            child_index < CHILDREN_COUNT,
        ensures
            match r {
                Some(child) => self@[child_index as int] == Some(*child),
                None => self@[child_index as int] is None,
            },
    {
        self.table[child_index as usize].as_ref()
    }

    /// The number of children.
    pub fn get_children_count(&self) -> (r: u8)
        requires
            self.wf(),
        ensures
            r == count_children(self@),
    {
        self.children_count
    }

    fn put(&mut self, child_index: u8, child: Option<T>)
        requires
            old(self).wf(),
            child_index < CHILDREN_COUNT,
        ensures
            final(self).wf(),
            final(self)@ == old(self)@.update(child_index as int, child),
            count_children(final(self)@) == count_children(old(self)@) + (if child is Some {
                1int
            } else {
                0
            }) - (if old(self)@[child_index as int] is Some {
                1int
            } else {
                0
            }),
    {
        let was = self.table[child_index as usize].is_some();
        proof {
            lemma_count_update(self.table@, child_index as int, child);
            lemma_count_bound(self.table@);
            lemma_count_bound(self.table@.update(child_index as int, child));
            if was {
                lemma_some_child(self.table@, child_index as int);
            }
        }
        let now = child.is_some();
        self.table.set(child_index as usize, child);
        if now && !was {
            self.children_count = self.children_count + 1;
        } else if was && !now {
            self.children_count = self.children_count - 1;
        }
    }
}

/// A node: its value, its children, the path that leads to it, and its hash.
#[derive(Debug)]
pub struct VanillaTrieNode<T> {
    compressed_path: CompressedPathRaw,
    mpt_value: MptValue,
    children_table: VanillaChildrenTable<T>,
    merkle_hash: MerkleHash,
}

/// A node, as a mathematical value.
pub struct NodeView<T> {
    pub path: Seq<u8>,
    pub path_mask: u8,
    pub value: MptValueView,
    pub children: Seq<Option<T>>,
    pub merkle: MerkleHash,
}

impl<T> View for VanillaTrieNode<T> {
    type V = NodeView<T>;

    closed spec fn view(&self) -> NodeView<T> {
        NodeView {
            path: self.compressed_path.path@,
            path_mask: self.compressed_path.path_mask,
            value: self.mpt_value@,
            children: self.children_table@,
            merkle: self.merkle_hash,
        }
    }
}

impl<T> VanillaTrieNode<T> {
    /// The value is valid, and there is a place for each child.
    pub closed spec fn wf(&self) -> bool {
        self.children_table.wf() && is_valid(self.mpt_value@)
    }

    /// A node without a value, children or a path.
    pub fn empty() -> (r: Self)
        ensures
            r.wf(),
            r@.path == Seq::<u8>::empty(),
            r@.path_mask == 0,
            r@.value == MptValueView::Nothing,
            r@.children.len() == CHILDREN_COUNT,
            forall|i: int| 0 <= i < CHILDREN_COUNT ==> (#[trigger] r@.children[i]) is None,
            r@.merkle == merkle_null_node(),
    {
        VanillaTrieNode {
            compressed_path: CompressedPathRaw::empty(),
            mpt_value: MptValue::Nothing,
            children_table: VanillaChildrenTable::new(),
            merkle_hash: merkle_null_node(),
        }
    }

    /// A node; an empty value is a removal.
    pub fn new(
        merkle: MerkleHash,
        children_table: VanillaChildrenTable<T>,
        maybe_value: Option<Vec<u8>>,
        compressed_path: CompressedPathRaw,
    ) -> (r: Self)
        requires
            children_table.wf(),
        ensures
            r.wf(),
            r@ == (NodeView {
                path: compressed_path.path@,
                path_mask: compressed_path.path_mask,
                value: value_of(
                    match maybe_value {
                        Some(v) => Some(v@),
                        None => None,
                    },
                ),
                children: children_table@,
                merkle,
            }),
    {
        VanillaTrieNode {
            compressed_path,
            mpt_value: value_from(maybe_value),
            children_table,
            merkle_hash: merkle,
        }
    }

    /// The hash.
    pub fn get_merkle(&self) -> (r: &MerkleHash)
        ensures
            *r == self@.merkle,
    {
        &self.merkle_hash
    }

    /// Sets the hash.
    pub fn set_merkle(&mut self, merkle: &MerkleHash)
        requires
            old(self).wf(),
        ensures
            final(self).wf(),
            final(self)@ == (NodeView { merkle: *merkle, ..old(self)@ }),
    {
        self.merkle_hash = *merkle;
    }

    /// The path.
    pub fn compressed_path_ref(&self) -> (r: &CompressedPathRaw)
        ensures
            r.path@ == self@.path,
            r.path_mask == self@.path_mask,
    {
        &self.compressed_path
    }

    /// Sets the path.
    pub fn set_compressed_path(&mut self, compressed_path: CompressedPathRaw)
        requires
            old(self).wf(),
        ensures
            final(self).wf(),
            final(self)@ == (NodeView {
                path: compressed_path.path@,
                path_mask: compressed_path.path_mask,
                ..old(self)@
            }),
    {
        self.compressed_path = compressed_path;
    }

    /// Whether there is a value, or a removal of one.
    pub fn has_value(&self) -> (r: bool)
        ensures
            r == (self@.value != MptValueView::Nothing),
    {
        match &self.mpt_value {
            MptValue::Nothing => false,
            _ => true,
        }
    }

    /// The bytes that stand for the value.
    pub fn value_as_slice(&self) -> (r: Option<Vec<u8>>)
        ensures
            match r {
                Some(v) => bytes_of(self@.value) == Some(v@),
                None => bytes_of(self@.value) is None,
            },
    {
        match &self.mpt_value {
            MptValue::Nothing => None,
            MptValue::TombStone => {
                let empty: Vec<u8> = Vec::new();
                proof {
                    assert(empty@ =~= Seq::<u8>::empty());
                }
                Some(empty)
            },
            MptValue::Value(v) => Some(copy_bytes(v.as_slice())),
        }
    }

    /// Whether the value, where there is one, is a removal.
    pub fn mpt_value(&self) -> (r: &MptValue)
        ensures
            r@ == self@.value,
    {
        &self.mpt_value
    }

    /// Replaces the value, and gives the one from before. An empty one is a removal.
    pub fn replace_value_valid(&mut self, valid_value: Vec<u8>) -> (r: MptValue)
        requires
            old(self).wf(),
        ensures
            final(self).wf(),
            final(self)@ == (NodeView { value: value_of(Some(valid_value@)), ..old(self)@ }),
            r@ == old(self)@.value,
    {
        let mut value = value_from(Some(valid_value));
        std::mem::swap(&mut value, &mut self.mpt_value);
        value
    }

    /// Takes the value out, which has to be there. What stands for a removal is empty.
    pub fn delete_value_unchecked(&mut self) -> (r: Vec<u8>)
        requires
            old(self).wf(),
            old(self)@.value != MptValueView::Nothing,
        ensures
            final(self).wf(),
            final(self)@ == (NodeView { value: MptValueView::Nothing, ..old(self)@ }),
            bytes_of(old(self)@.value) == Some(r@),
    {
        let mut value = MptValue::Nothing;
        std::mem::swap(&mut value, &mut self.mpt_value);
        match value {
            MptValue::Value(v) => v,
            _ => {
                let empty: Vec<u8> = Vec::new();
                proof {
                    assert(empty@ =~= Seq::<u8>::empty());
                }
                empty
            },
        }
    }

    /// The number of children.
    pub fn get_children_count(&self) -> (r: u8)
        requires
            self.wf(),
        ensures
            r == count_children(self@.children),
    {
        self.children_table.get_children_count()
    }

    /// The child at an index.
    pub fn get_child(&self, child_index: u8) -> (r: Option<&T>)
        requires
            self.wf(),
            child_index < CHILDREN_COUNT,
        ensures
            match r {
                Some(child) => self@.children[child_index as int] == Some(*child),
                None => self@.children[child_index as int] is None,
            },
    {
        self.children_table.get_child(child_index)
    }

    /// The children.
    pub fn get_children_table_ref(&self) -> (r: &VanillaChildrenTable<T>)
        requires
            self.wf(),
        ensures
            r.wf(),
            r@ == self@.children,
    {
        &self.children_table
    }

    /// The children, where there are any.
    pub fn get_children_merkles(&self) -> (r: Option<&VanillaChildrenTable<T>>)
        requires
            self.wf(),
        ensures
            match r {
                Some(table) => {
                    &&& count_children(self@.children) > 0
                    &&& table.wf()
                    &&& table@ == self@.children
                },
                None => count_children(self@.children) == 0,
            },
    {
        if self.children_table.get_children_count() > 0 {
            Some(&self.children_table)
        } else {
            None
        }
    }

    /// Adds a child, which must not be there yet.
    pub fn add_new_child_unchecked(&mut self, child_index: u8, child: T)
        requires
            old(self).wf(),
            child_index < CHILDREN_COUNT,
            old(self)@.children[child_index as int] is None,
        ensures
            final(self).wf(),
            final(self)@ == (NodeView {
                children: old(self)@.children.update(child_index as int, Some(child)),
                ..old(self)@
            }),
            count_children(final(self)@.children) == count_children(old(self)@.children) + 1,
    {
        self.children_table.put(child_index, Some(child));
    }

    /// Replaces a child, which has to be there.
    pub fn replace_child_unchecked(&mut self, child_index: u8, child: T)
        requires
            old(self).wf(),
            child_index < CHILDREN_COUNT,
            old(self)@.children[child_index as int] is Some,
        ensures
            final(self).wf(),
            final(self)@ == (NodeView {
                children: old(self)@.children.update(child_index as int, Some(child)),
                ..old(self)@
            }),
            count_children(final(self)@.children) == count_children(old(self)@.children),
    {
        self.children_table.put(child_index, Some(child));
    }

    /// Takes a child out, which has to be there.
    pub fn delete_child_unchecked(&mut self, child_index: u8)
        requires
            old(self).wf(),
            child_index < CHILDREN_COUNT,
            old(self)@.children[child_index as int] is Some,
        ensures
            final(self).wf(),
            final(self)@ == (NodeView {
                children: old(self)@.children.update(child_index as int, None),
                ..old(self)@
            }),
            count_children(final(self)@.children) == count_children(old(self)@.children) - 1,
    {
        self.children_table.put(child_index, None);
    }
}

/// No bytes stand for no value, empty ones for a removal, and any others for themselves.
pub proof fn bytes_stand_for_their_values(v: Seq<u8>)
    ensures
        value_of(None) == MptValueView::Nothing,
        value_of(Some(v)) == MptValueView::TombStone <==> v.len() == 0,
        v.len() > 0 ==> value_of(Some(v)) == MptValueView::Value(v),
        bytes_of(MptValueView::Nothing) is None,
        bytes_of(MptValueView::TombStone) == Some(Seq::<u8>::empty()),
        bytes_of(MptValueView::Value(v)) == Some(v),
        is_valid(MptValueView::Value(v)) <==> v.len() > 0,
{
}

} // verus!
