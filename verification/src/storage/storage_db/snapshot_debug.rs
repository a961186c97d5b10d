//! Checking the trie of a snapshot against its entries.

use crate::bytes::bytes_eq;
use vstd::prelude::*;

verus! {

/// What an entry says of the value of its key in the trie.
pub trait MptValueKind {
    /// The value, or none, is as the entry says.
    spec fn agrees(&self, value: Option<Seq<u8>>) -> bool;

    /// Whether the value is as the entry says.
    fn value_eq(&self, maybe_value: Option<&[u8]>) -> (r: bool)
        ensures
            r == self.agrees(
                match maybe_value {
                    Some(v) => Some(v@),
                    None => None,
                },
            ),
    ;
}

/// A removal: there is no value.
impl MptValueKind for () {
    open spec fn agrees(&self, value: Option<Seq<u8>>) -> bool {
        value is None
    }

    fn value_eq(&self, maybe_value: Option<&[u8]>) -> (r: bool) {
        maybe_value.is_none()
    }
}

/// A setting: there is this value.
impl MptValueKind for Vec<u8> {
    open spec fn agrees(&self, value: Option<Seq<u8>>) -> bool {
        value == Some(self@)
    }

    fn value_eq(&self, maybe_value: Option<&[u8]>) -> (r: bool) {
        match maybe_value {
            Some(v) => bytes_eq(v, self.as_slice()),
            None => false,
        }
    }
}

/// What looking for a key in the trie ended at.
#[derive(Debug)]
pub enum PathEnd {
    /// The node of the key, with its value where it has one.
    Arrived(Option<Vec<u8>>),
    /// A node without the child that leads on.
    ChildNotFound,
    /// A node whose path leads elsewhere.
    PathDiverted,
}

impl PathEnd {
    /// The value of the key in the trie.
    pub open spec fn value(&self) -> Option<Seq<u8>> {
        match self {
            PathEnd::Arrived(Some(v)) => Some(v@),
            _ => None,
        }
    }
}

/// The entry disagrees with the trie.
pub open spec fn disagrees<V: MptValueKind>(
    entries: Seq<(Vec<u8>, V)>,
    ends: Seq<PathEnd>,
    i: int,
) -> bool {
    0 <= i < entries.len() && !entries[i].1.agrees(ends[i].value())
}

/// Compares entries with where looking for each in the trie ended. Gives how many there are, and,
/// where values are checked, which of them disagree.
pub fn check_key_value_load<V: MptValueKind>(
    entries: &Vec<(Vec<u8>, V)>,
    ends: &Vec<PathEnd>,
    check_value: bool,
) -> (r: (u64, Vec<usize>))
    requires
        entries@.len() == ends@.len(),
    ensures
        r.0 == entries@.len(),
        forall|x: int, y: int| 0 <= x < y < r.1@.len() ==> r.1@[x] < r.1@[y],
        forall|i: usize| #[trigger]
            r.1@.contains(i) <==> check_value && disagrees(entries@, ends@, i as int),
{
    let mut count: u64 = 0;
    let mut wrong: Vec<usize> = Vec::new();
    let mut i: usize = 0;
    while i < entries.len()
        invariant
            entries@.len() == ends@.len(),
            i <= entries@.len(),
            count == i,
            forall|x: int| 0 <= x < wrong@.len() ==> #[trigger] wrong@[x] < i,
            forall|x: int, y: int| 0 <= x < y < wrong@.len() ==> wrong@[x] < wrong@[y],
            forall|k: usize| #[trigger]
                wrong@.contains(k) <==> k < i && check_value && disagrees(
                    entries@,
                    ends@,
                    k as int,
                ),
        decreases entries.len() - i,
    {
        let ghost before = wrong@;
        if check_value {
            let value = match &ends[i] {
                PathEnd::Arrived(Some(v)) => Some(v.as_slice()),
                _ => None,
            };
            if !entries[i].1.value_eq(value) {
                wrong.push(i);
            }
        }
        count = count + 1;
        i = i + 1;
        proof {
            assert forall|k: usize| #[trigger]
                wrong@.contains(k) <==> k < i && check_value && disagrees(
                    entries@,
                    ends@,
                    k as int,
                ) by {
                if wrong@ != before {
                    assert(wrong@ =~= before.push((i - 1) as usize));
                    assert(wrong@[before.len() as int] == i - 1);
                    if before.contains(k) {
                        let x = choose|x: int| 0 <= x < before.len() && before[x] == k;
                        assert(wrong@[x] == k);
                    }
                    if wrong@.contains(k) && k != i - 1 {
                        let x = choose|x: int| 0 <= x < wrong@.len() && wrong@[x] == k;
                        assert(before[x] == k);
                    }
                }
                assert(before.contains(k) ==> k < i - 1);
            }
        }
    }
    (count, wrong)
}

} // verus!
