//! Walking a range of the keys under one prefix byte.

use super::mdbx_dual_write;
use super::mdbx_dual_write::Entry;
use crate::bytes;
use crate::bytes::{bytes_eq, bytes_lt, concat, copy_range};
use vstd::prelude::*;

verus! {

/// The key of a table under a prefix byte.
pub fn prefixed_key(prefix: u8, key: &[u8]) -> (r: Vec<u8>)
    ensures
        r@ == seq![prefix] + key@,
{
    let mut out: Vec<u8> = Vec::new();
    out.push(prefix);
    let r = concat(out.as_slice(), key);
    proof {
        assert(out@ =~= seq![prefix]);
    }
    r
}

/// A range of keys under a prefix byte, as a mathematical value.
pub struct RangeBounds {
    pub prefix: u8,
    pub lower: Option<Seq<u8>>,
    pub lower_exclusive: bool,
    pub upper: Option<Seq<u8>>,
}

/// A key without its prefix byte.
pub open spec fn stripped(prefix: u8, key: Seq<u8>) -> Option<Seq<u8>> {
    if key.len() > 0 && key[0] == prefix {
        Some(key.subrange(1, key.len() as int))
    } else {
        None
    }
}

/// The key comes before the range.
pub open spec fn comes_before(b: RangeBounds, key: Seq<u8>) -> bool {
    match b.lower {
        None => false,
        Some(lower) => if b.lower_exclusive {
            bytes::lex_le(key, lower)
        } else {
            bytes::lex_lt(key, lower)
        },
    }
}

/// The key comes behind the range.
pub open spec fn comes_behind(b: RangeBounds, key: Seq<u8>) -> bool {
    b.upper matches Some(upper) && !bytes::lex_lt(key, upper)
}

/// The next entry of the range from a position on, and the position behind it. An entry without the
/// prefix, or behind the range, ends the walk.
pub open spec fn next_from(entries: Seq<Entry>, i: int, b: RangeBounds) -> (Option<Entry>, int)
    decreases entries.len() - i,
{
    if i < 0 || i >= entries.len() {
        (None, i)
    } else {
        match stripped(b.prefix, entries[i].0) {
            None => (None, i + 1),
            Some(key) => if comes_before(b, key) {
                next_from(entries, i + 1, b)
            } else if comes_behind(b, key) {
                (None, i + 1)
            } else {
                (Some((key, entries[i].1)), i + 1)
            },
        }
    }
}

/// The entries of the range from a position on, up to the end of the walk.
pub open spec fn all_from(entries: Seq<Entry>, i: int, b: RangeBounds) -> Seq<Entry>
    decreases entries.len() - i,
{
    if i < 0 || i >= entries.len() {
        seq![]
    } else {
        match stripped(b.prefix, entries[i].0) {
            None => seq![],
            Some(key) => if comes_before(b, key) {
                all_from(entries, i + 1, b)
            } else if comes_behind(b, key) {
                seq![]
            } else {
                seq![(key, entries[i].1)] + all_from(entries, i + 1, b)
            },
        }
    }
}

/// A walk through entries that a store lists in the order of their keys.
#[derive(Debug)]
pub struct ParitydbRangeIter {
    entries: Vec<(Vec<u8>, Vec<u8>)>,
    position: usize,
    prefix: u8,
    lower_bound: Option<Vec<u8>>,
    lower_exclusive: bool,
    upper_bound: Option<Vec<u8>>,
}

/// The view of an optional byte string.
pub open spec fn bound_view(bound: Option<Vec<u8>>) -> Option<Seq<u8>> {
    match bound {
        Some(b) => Some(b@),
        None => None,
    }
}

/// The lower end of a range: an empty one is none.
pub open spec fn lower_end(bound: Seq<u8>) -> Option<Seq<u8>> {
    if bound.len() == 0 {
        None
    } else {
        Some(bound)
    }
}

impl ParitydbRangeIter {
    /// What is walked through.
    pub closed spec fn entries(&self) -> Seq<Entry> {
        mdbx_dual_write::entry_views(self.entries@)
    }

    /// How many entries are behind the walk.
    pub closed spec fn position(&self) -> int {
        self.position as int
    }

    /// The range.
    pub closed spec fn bounds(&self) -> RangeBounds {
        RangeBounds {
            prefix: self.prefix,
            lower: bound_view(self.lower_bound),
            lower_exclusive: self.lower_exclusive,
            upper: bound_view(self.upper_bound),
        }
    }

    /// The walk has not left its entries.
    pub closed spec fn wf(&self) -> bool {
        self.position <= self.entries@.len()
    }

    /// A walk through the entries under a prefix.
    pub fn new(
        entries: Vec<(Vec<u8>, Vec<u8>)>,
        prefix: u8,
        lower_bound: Option<Vec<u8>>,
        lower_exclusive: bool,
        upper_bound: Option<Vec<u8>>,
    ) -> (r: Self)
        ensures
            r.wf(),
            r.entries() == mdbx_dual_write::entry_views(entries@),
            r.position() == 0,
            r.bounds() == (RangeBounds {
                prefix,
                lower: bound_view(lower_bound),
                lower_exclusive,
                upper: bound_view(upper_bound),
            }),
    {
        ParitydbRangeIter {
            entries,
            position: 0,
            prefix,
            lower_bound,
            lower_exclusive,
            upper_bound,
        }
    }

    /// The entries from `lower_bound_incl` on, below `upper_bound_excl`.
    pub fn iter_range(
        entries: Vec<(Vec<u8>, Vec<u8>)>,
        prefix: u8,
        lower_bound_incl: &[u8],
        upper_bound_excl: Option<Vec<u8>>,
    ) -> (r: Self)
        ensures
            r.wf(),
            r.entries() == mdbx_dual_write::entry_views(entries@),
            r.position() == 0,
            r.bounds() == (RangeBounds {
                prefix,
                lower: lower_end(lower_bound_incl@),
                lower_exclusive: false,
                upper: bound_view(upper_bound_excl),
            }),
    {
        let lower = if lower_bound_incl.len() == 0 {
            None
        } else {
            Some(copy_range(lower_bound_incl, 0, lower_bound_incl.len()))
        };
        proof {
            assert(lower_bound_incl@.subrange(0, lower_bound_incl@.len() as int)
                =~= lower_bound_incl@);
        }
        Self::new(entries, prefix, lower, false, upper_bound_excl)
    }

    /// The entries behind `lower_bound_excl`, below `upper_bound_excl`.
    pub fn iter_range_excl(
        entries: Vec<(Vec<u8>, Vec<u8>)>,
        prefix: u8,
        lower_bound_excl: &[u8],
        upper_bound_excl: Vec<u8>,
    ) -> (r: Self)
        ensures
            r.wf(),
            r.entries() == mdbx_dual_write::entry_views(entries@),
            r.position() == 0,
            r.bounds() == (RangeBounds {
                prefix,
                lower: lower_end(lower_bound_excl@),
                lower_exclusive: true,
                upper: Some(upper_bound_excl@),
            }),
    {
        let lower = if lower_bound_excl.len() == 0 {
            None
        } else {
            Some(copy_range(lower_bound_excl, 0, lower_bound_excl.len()))
        };
        proof {
            assert(lower_bound_excl@.subrange(0, lower_bound_excl@.len() as int)
                =~= lower_bound_excl@);
        }
        Self::new(entries, prefix, lower, true, Some(upper_bound_excl))
    }

    fn before(&self, key: &[u8]) -> (r: bool)
        ensures
            r == comes_before(self.bounds(), key@),
    {
        match &self.lower_bound {
            None => false,
            Some(lower) => if self.lower_exclusive {
                bytes_eq(key, lower.as_slice()) || bytes_lt(key, lower.as_slice())
            } else {
                bytes_lt(key, lower.as_slice())
            },
        }
    }

    fn behind(&self, key: &[u8]) -> (r: bool)
        ensures
            r == comes_behind(self.bounds(), key@),
    {
        match &self.upper_bound {
            None => false,
            Some(upper) => !bytes_lt(key, upper.as_slice()),
        }
    }

    /// A key without the prefix byte of the walk.
    pub fn strip_prefix(&self, key: &[u8]) -> (r: Option<Vec<u8>>)
        ensures
            bound_view(r) == stripped(self.bounds().prefix, key@),
    {
        if key.len() > 0 && key[0] == self.prefix {
            Some(copy_range(key, 1, key.len()))
        } else {
            None
        }
    }

    /// The next entry of the range, without the prefix byte.
    pub fn next(&mut self) -> (r: Option<(Vec<u8>, Vec<u8>)>)
        requires
            old(self).wf(),
        ensures
            final(self).wf(),
            final(self).entries() == old(self).entries(),
            final(self).bounds() == old(self).bounds(),
            (
                match r {
                    Some(e) => Some((e.0@, e.1@)),
                    None => None,
                },
                final(self).position(),
            ) == next_from(old(self).entries(), old(self).position(), old(self).bounds()),
    {
        while self.position < self.entries.len()
            invariant
                self.wf(),
                self.entries() == old(self).entries(),
                self.bounds() == old(self).bounds(),
                next_from(old(self).entries(), old(self).position(), old(self).bounds())
                    == next_from(self.entries(), self.position(), self.bounds()),
            decreases self.entries@.len() - self.position,
        {
            let i: usize = self.position;
            self.position = i + 1;
            proof {
                assert(self.entries()[i as int] == (
                    self.entries@[i as int].0@,
                    self.entries@[i as int].1@,
                ));
            }
            let key = match self.strip_prefix(self.entries[i].0.as_slice()) {
                None => {
                    return None;
                },
                Some(key) => key,
            };
            if self.before(key.as_slice()) {
                continue;
            }
            if self.behind(key.as_slice()) {
                return None;
            }
            let value = copy_range(self.entries[i].1.as_slice(), 0, self.entries[i].1.len());
            proof {
                assert(value@ =~= self.entries@[i as int].1@);
            }
            return Some((key, value));
        }
        None
    }

    /// All entries of the range that are still to come, up to the end of the walk.
    pub fn collect(self) -> (r: Vec<(Vec<u8>, Vec<u8>)>)
        requires
            self.wf(),
        ensures
            mdbx_dual_write::entry_views(r@) == all_from(
                self.entries(),
                self.position(),
                self.bounds(),
            ),
    {
        let ghost entries = self.entries();
        let ghost bounds = self.bounds();
        let ghost all = all_from(entries, self.position(), bounds);
        let mut walk = self;
        let mut out: Vec<(Vec<u8>, Vec<u8>)> = Vec::new();
        proof {
            assert(mdbx_dual_write::entry_views(out@) + all =~= all);
        }
        loop
            invariant_except_break
                walk.wf(),
                walk.entries() == entries,
                walk.bounds() == bounds,
                all == mdbx_dual_write::entry_views(out@) + all_from(
                    entries,
                    walk.position(),
                    bounds,
                ),
            ensures
                all == mdbx_dual_write::entry_views(out@),
            decreases walk.entries().len() - walk.position(),
        {
            let ghost at = walk.position();
            let ghost before = mdbx_dual_write::entry_views(out@);
            proof {
                lemma_next_of_all(entries, at, bounds);
                lemma_next_advances(entries, at, bounds);
            }
            match walk.next() {
                None => {
                    proof {
                        assert(before + seq![] =~= before);
                    }
                    break;
                },
                Some(entry) => {
                    let ghost e = (entry.0@, entry.1@);
                    out.push(entry);
                    proof {
                        assert(mdbx_dual_write::entry_views(out@) =~= before.push(e));
                        let rest = all_from(entries, walk.position(), bounds);
                        assert(before + (seq![e] + rest) =~= before.push(e) + rest);
                    }
                },
            }
        }
        out
    }
}

proof fn lemma_next_of_all(entries: Seq<Entry>, i: int, b: RangeBounds)
    requires
        0 <= i <= entries.len(),
    ensures
        match next_from(entries, i, b) {
            (None, _) => all_from(entries, i, b) == Seq::<Entry>::empty(),
            (Some(e), j) => all_from(entries, i, b) == seq![e] + all_from(entries, j, b),
        },
    decreases entries.len() - i,
{
    if i < entries.len() {
        lemma_next_of_all(entries, i + 1, b);
    }
}

proof fn lemma_next_advances(entries: Seq<Entry>, i: int, b: RangeBounds)
    requires
        0 <= i <= entries.len(),
    ensures
        i <= next_from(entries, i, b).1 <= entries.len(),
        next_from(entries, i, b).0 is Some ==> i < next_from(entries, i, b).1,
    decreases entries.len() - i,
{
    if i < entries.len() {
        lemma_next_advances(entries, i + 1, b);
    }
}

/// The key is in the range.
pub open spec fn in_bounds(b: RangeBounds, key: Seq<u8>) -> bool {
    !comes_before(b, key) && !comes_behind(b, key)
}

/// The entry at a position is the given one, under the prefix.
pub open spec fn stands_at(entries: Seq<Entry>, i: int, b: RangeBounds, e: Entry) -> bool {
    &&& 0 <= i < entries.len()
    &&& stripped(b.prefix, entries[i].0) == Some(e.0)
    &&& entries[i].1 == e.1
}

proof fn lemma_stripping_keeps_order(prefix: u8, a: Seq<u8>, b: Seq<u8>)
    requires
        stripped(prefix, a) is Some,
        stripped(prefix, b) is Some,
        bytes::lex_lt(a, b),
    ensures
        bytes::lex_lt(stripped(prefix, a)->0, stripped(prefix, b)->0),
{
    let n = choose|n: int| bytes::lex_less_at(a, b, n);
    let x = stripped(prefix, a)->0;
    let y = stripped(prefix, b)->0;
    assert(n > 0);
    assert forall|j: int| 0 <= j < n - 1 implies x[j] == y[j] by {
        assert(a[j + 1] == b[j + 1]);
    }
    assert(bytes::lex_less_at(x, y, n - 1));
}

/// Where a store lists the entries under a prefix in the order of their keys, a walk gives exactly
/// those in its range, in that order.
pub proof fn walk_is_exact(entries: Seq<Entry>, i: int, b: RangeBounds)
    requires
        0 <= i <= entries.len(),
        bytes::ascending(mdbx_dual_write::keys_of(entries)),
        forall|j: int| 0 <= j < entries.len() ==> stripped(b.prefix, (#[trigger] entries[j]).0) is Some,
    ensures
        bytes::ascending(mdbx_dual_write::keys_of(all_from(entries, i, b))),
        forall|e: Entry| #[trigger]
            all_from(entries, i, b).contains(e) <==> in_bounds(b, e.0) && exists|j: int|
                i <= j && stands_at(entries, j, b, e),
    decreases entries.len() - i,
{
    let all = all_from(entries, i, b);
    let keys = mdbx_dual_write::keys_of(entries);
    if i < entries.len() {
        walk_is_exact(entries, i + 1, b);
        let rest = all_from(entries, i + 1, b);
        let key = stripped(b.prefix, entries[i].0)->0;
        let here = (key, entries[i].1);
        assert(keys[i] == entries[i].0);
        assert forall|j: int, e: Entry| i < j && #[trigger] stands_at(entries, j, b, e) implies
            bytes::lex_lt(key, e.0) by {
            assert(keys[j] == entries[j].0);
            assert(bytes::lex_lt(keys[i], keys[j]));
            lemma_stripping_keeps_order(b.prefix, entries[i].0, entries[j].0);
        }
        assert(stands_at(entries, i, b, here));
        if comes_before(b, key) {
            assert(all == rest);
            assert forall|e: Entry| #[trigger] all.contains(e) <==> in_bounds(b, e.0) && exists|
                j: int,
            |
                i <= j && stands_at(entries, j, b, e) by {
                if in_bounds(b, e.0) && exists|j: int| i <= j && stands_at(entries, j, b, e) {
                    let j = choose|j: int| i <= j && stands_at(entries, j, b, e);
                    if j == i {
                        assert(e == here);
                    }
                    assert(i + 1 <= j && stands_at(entries, j, b, e));
                }
                if rest.contains(e) {
                    let j = choose|j: int| i + 1 <= j && stands_at(entries, j, b, e);
                    assert(i <= j && stands_at(entries, j, b, e));
                }
            }
        } else if comes_behind(b, key) {
            assert(all =~= seq![]);
            assert forall|e: Entry| in_bounds(b, e.0) && (exists|j: int|
                i <= j && stands_at(entries, j, b, e)) implies false by {
                let j = choose|j: int| i <= j && stands_at(entries, j, b, e);
                let upper = b.upper->0;
                if j == i {
                    assert(e == here);
                } else {
                    bytes::lex_lt_transitive(key, e.0, upper);
                }
            }
        } else {
            assert(all =~= seq![here] + rest);
            assert forall|e: Entry| #[trigger] all.contains(e) <==> in_bounds(b, e.0) && exists|
                j: int,
            |
                i <= j && stands_at(entries, j, b, e) by {
                if all.contains(e) {
                    let k = choose|k: int| 0 <= k < all.len() && all[k] == e;
                    if k == 0 {
                        assert(e == here);
                    } else {
                        assert(rest[k - 1] == e);
                        assert(rest.contains(e));
                        let j = choose|j: int| i + 1 <= j && stands_at(entries, j, b, e);
                        assert(i <= j && stands_at(entries, j, b, e));
                    }
                }
                if in_bounds(b, e.0) && exists|j: int| i <= j && stands_at(entries, j, b, e) {
                    let j = choose|j: int| i <= j && stands_at(entries, j, b, e);
                    if j == i {
                        assert(e == here);
                        assert(all[0] == e);
                    } else {
                        assert(i + 1 <= j && stands_at(entries, j, b, e));
                        assert(rest.contains(e));
                        let k = choose|k: int| 0 <= k < rest.len() && rest[k] == e;
                        assert(all[k + 1] == e);
                    }
                }
            }
            let ks = mdbx_dual_write::keys_of(all);
            let rs = mdbx_dual_write::keys_of(rest);
            assert forall|x: int, y: int| 0 <= x < y < ks.len() implies #[trigger] bytes::lex_lt(
                ks[x],
                ks[y],
            ) by {
                assert(ks[y] == rs[y - 1]);
                if x == 0 {
                    let e = rest[y - 1];
                    assert(rest.contains(e));
                    let j = choose|j: int| i + 1 <= j && stands_at(entries, j, b, e);
                    assert(ks[y] == e.0);
                } else {
                    assert(ks[x] == rs[x - 1]);
                    assert(bytes::lex_lt(rs[x - 1], rs[y - 1]));
                }
            }
        }
    } else {
        assert(all =~= seq![]);
    }
}

/// A key lies in a range exactly if it is at or above the lower end, above it where that is left
/// out, and below the upper end. An end that is not given leaves nothing out.
pub proof fn ranges_lie_between_their_ends(b: RangeBounds, key: Seq<u8>)
    ensures
        !comes_before(b, key) <==> match b.lower {
            None => true,
            Some(lower) => if b.lower_exclusive {
                bytes::lex_lt(lower, key)
            } else {
                key == lower || bytes::lex_lt(lower, key)
            },
        },
        !comes_behind(b, key) <==> match b.upper {
            None => true,
            Some(upper) => bytes::lex_lt(key, upper),
        },
{
    if let Some(lower) = b.lower {
        bytes::lex_lt_total(key, lower);
        bytes::lex_lt_irreflexive(key);
        if bytes::lex_lt(key, lower) && bytes::lex_lt(lower, key) {
            bytes::lex_lt_asymmetric(key, lower);
        }
    }
}

/// A key without its prefix byte is what follows that byte; a key that begins otherwise has none.
pub proof fn prefixes_are_stripped(prefix: u8, key: Seq<u8>)
    ensures
        stripped(prefix, seq![prefix] + key) == Some(key),
        stripped(prefix, key) is Some <==> key.len() > 0 && key[0] == prefix,
        stripped(prefix, key) matches Some(rest) ==> seq![prefix] + rest == key,
{
    let whole = seq![prefix] + key;
    assert(whole.subrange(1, whole.len() as int) =~= key);
    if key.len() > 0 && key[0] == prefix {
        assert(seq![prefix] + key.subrange(1, key.len() as int) =~= key);
    }
}

} // verus!
