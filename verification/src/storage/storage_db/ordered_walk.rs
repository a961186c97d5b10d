//! Walks through a table in the order of its keys, from a first key up to where a range ends.

use super::mdbx_dual_write;
use super::mdbx_dual_write::Entry;
use crate::bytes;
use crate::bytes::{bytes_lt, starts_with};
use vstd::prelude::*;

verus! {

/// What a walk has found, and whether it has ended.
pub struct WalkView {
    pub found: Seq<Entry>,
    pub ended: bool,
}

/// A walk that comes upon an entry: the first key that `stops` ends it for good.
pub open spec fn walk_step(walk: WalkView, stops: bool, entry: Entry) -> WalkView {
    if walk.ended || stops {
        WalkView { found: walk.found, ended: true }
    } else {
        WalkView { found: walk.found.push(entry), ended: false }
    }
}

/// A walk through a list of entries.
pub open spec fn walked(entries: Seq<Entry>, stops: spec_fn(Seq<u8>) -> bool) -> WalkView
    decreases entries.len(),
{
    if entries.len() == 0 {
        WalkView { found: Seq::empty(), ended: false }
    } else {
        walk_step(
            walked(entries.drop_last(), stops),
            stops(entries.last().0),
            entries.last(),
        )
    }
}

/// The keys at which a range ends: those that are not below its upper end.
pub open spec fn at_or_above(upper: Option<Seq<u8>>) -> spec_fn(Seq<u8>) -> bool {
    |key: Seq<u8>| upper matches Some(u) && !bytes::lex_lt(key, u)
}

/// The keys at which the entries of a prefix end.
pub open spec fn without_prefix(prefix: Seq<u8>) -> spec_fn(Seq<u8>) -> bool {
    |key: Seq<u8>| !bytes::has_prefix(key, prefix)
}

proof fn walk_is_a_filter(
    entries: Seq<Entry>,
    stops: spec_fn(Seq<u8>) -> bool,
    keep: spec_fn(Entry) -> bool,
)
    requires
        forall|i: int, j: int|
            0 <= i <= j < entries.len() && stops((#[trigger] entries[i]).0) ==> stops(
                (#[trigger] entries[j]).0,
            ),
        forall|i: int|
            0 <= i < entries.len() ==> keep(#[trigger] entries[i]) == !stops(entries[i].0),
    ensures
        walked(entries, stops).found == entries.filter(keep),
        walked(entries, stops).ended == exists|i: int|
            0 <= i < entries.len() && stops((#[trigger] entries[i]).0),
    decreases entries.len(),
{
    reveal(Seq::filter);
    if entries.len() > 0 {
        let before = entries.drop_last();
        assert forall|i: int| 0 <= i < before.len() implies keep(#[trigger] before[i]) == !stops(
            before[i].0,
        ) by {
            assert(before[i] == entries[i]);
        }
        assert forall|i: int, j: int|
            0 <= i <= j < before.len() && stops((#[trigger] before[i]).0) implies stops(
            (#[trigger] before[j]).0,
        ) by {
            assert(before[i] == entries[i] && before[j] == entries[j]);
        }
        walk_is_a_filter(before, stops, keep);
        let n = entries.len() - 1;
        assert(keep(entries[n]) == !stops(entries[n].0));
        if walked(before, stops).ended {
            let i = choose|i: int| 0 <= i < before.len() && stops((#[trigger] before[i]).0);
            assert(entries[i] == before[i]);
            assert(stops(entries[n].0));
        } else if exists|i: int| 0 <= i < entries.len() && stops((#[trigger] entries[i]).0) {
            let i = choose|i: int| 0 <= i < entries.len() && stops((#[trigger] entries[i]).0);
            if i < n {
                assert(before[i] == entries[i]);
            }
        }
    }
}

/// A walk from the lower end of a range finds exactly the entries of the range, in their order.
pub proof fn range_walk_is_exact(entries: Seq<Entry>, lower: Seq<u8>, upper: Option<Seq<u8>>)
    requires
        bytes::ascending(mdbx_dual_write::keys_of(entries)),
        forall|i: int| 0 <= i < entries.len() ==> bytes::lex_le(lower, (#[trigger] entries[i]).0),
    ensures
        walked(entries, at_or_above(upper)).found == entries.filter(
            |e: Entry| bytes::in_range(e.0, lower, upper),
        ),
{
    let stops = at_or_above(upper);
    let keep = |e: Entry| bytes::in_range(e.0, lower, upper);
    assert forall|i: int, j: int|
        0 <= i <= j < entries.len() && stops((#[trigger] entries[i]).0) implies stops(
        (#[trigger] entries[j]).0,
    ) by {
        if i < j {
            let keys = mdbx_dual_write::keys_of(entries);
            assert(bytes::lex_lt(keys[i], keys[j]));
            let u = upper->0;
            if bytes::lex_lt(entries[j].0, u) {
                bytes::lex_lt_transitive(entries[i].0, entries[j].0, u);
            }
        }
    }
    walk_is_a_filter(entries, stops, keep);
}

proof fn prefix_ends_once(prefix: Seq<u8>, low: Seq<u8>, high: Seq<u8>)
    requires
        bytes::lex_le(prefix, low),
        bytes::lex_lt(low, high),
        bytes::has_prefix(high, prefix),
    ensures
        bytes::has_prefix(low, prefix),
{
    if prefix != low {
        let n = choose|n: int| bytes::lex_less_at(prefix, low, n);
        let m = choose|m: int| bytes::lex_less_at(low, high, m);
        assert(bytes::lex_less_at(prefix, low, n));
        assert(bytes::lex_less_at(low, high, m));
        if n < prefix.len() {
            assert(prefix[n] < low[n]);
            assert(high[n] == prefix[n]);
            if m < n {
                assert(prefix[m] == low[m]);
                assert(high[m] == prefix[m]);
            }
            assert(false);
        }
    }
}

/// A walk from a prefix on finds exactly the entries whose keys begin with the prefix, in their
/// order.
pub proof fn prefix_walk_is_exact(entries: Seq<Entry>, prefix: Seq<u8>)
    requires
        bytes::ascending(mdbx_dual_write::keys_of(entries)),
        forall|i: int| 0 <= i < entries.len() ==> bytes::lex_le(prefix, (#[trigger] entries[i]).0),
    ensures
        walked(entries, without_prefix(prefix)).found == entries.filter(
            |e: Entry| bytes::has_prefix(e.0, prefix),
        ),
{
    let stops = without_prefix(prefix);
    let keep = |e: Entry| bytes::has_prefix(e.0, prefix);
    assert forall|i: int, j: int|
        0 <= i <= j < entries.len() && stops((#[trigger] entries[i]).0) implies stops(
        (#[trigger] entries[j]).0,
    ) by {
        if i < j && !stops(entries[j].0) {
            let keys = mdbx_dual_write::keys_of(entries);
            assert(bytes::lex_lt(keys[i], keys[j]));
            prefix_ends_once(prefix, entries[i].0, entries[j].0);
        }
    }
    walk_is_a_filter(entries, stops, keep);
}

/// A walk through a range that gathers what it finds.
#[derive(Debug)]
pub struct RangeScan {
    upper: Option<Vec<u8>>,
    found: Vec<(Vec<u8>, Vec<u8>)>,
    ended: bool,
}

impl RangeScan {
    /// The upper end of the range.
    pub closed spec fn upper(&self) -> Option<Seq<u8>> {
        match self.upper {
            Some(u) => Some(u@),
            None => None,
        }
    }

    /// What was found, and whether the walk has ended.
    pub closed spec fn walk(&self) -> WalkView {
        WalkView { found: mdbx_dual_write::entry_views(self.found@), ended: self.ended }
    }

    /// A walk at its start.
    pub fn new(upper_bound_excl: Option<Vec<u8>>) -> (r: Self)
        ensures
            r.upper() == (match upper_bound_excl {
                Some(u) => Some(u@),
                None => None,
            }),
            r.walk() == walked(Seq::empty(), at_or_above(r.upper())),
    {
        let r = RangeScan { upper: upper_bound_excl, found: Vec::new(), ended: false };
        proof {
            assert(r.walk().found =~= Seq::<Entry>::empty());
        }
        r
    }

    /// Takes the next entry, and says whether the walk goes on.
    pub fn take(&mut self, key: Vec<u8>, value: Vec<u8>) -> (goes_on: bool)
        ensures
            final(self).upper() == old(self).upper(),
            final(self).walk() == walk_step(
                old(self).walk(),
                at_or_above(old(self).upper())(key@),
                (key@, value@),
            ),
            goes_on == !final(self).walk().ended,
            forall|seen: Seq<Entry>| #[trigger]
                walked(seen, at_or_above(old(self).upper())) == old(self).walk() ==> walked(
                    seen.push((key@, value@)),
                    at_or_above(old(self).upper()),
                ) == final(self).walk(),
    {
        let ghost before = self.walk();
        let ghost stops = at_or_above(self.upper());
        let stop = match &self.upper {
            Some(u) => !bytes_lt(key.as_slice(), u.as_slice()),
            None => false,
        };
        let ghost entry: Entry = (key@, value@);
        if self.ended || stop {
            self.ended = true;
        } else {
            let ghost found = self.found@;
            self.found.push((key, value));
            proof {
                assert(mdbx_dual_write::entry_views(self.found@)
                    =~= mdbx_dual_write::entry_views(found).push(entry));
            }
        }
        proof {
            assert forall|seen: Seq<Entry>| #[trigger] walked(seen, stops) == before implies walked(
                seen.push(entry),
                stops,
            ) == self.walk() by {
                assert(seen.push(entry).drop_last() =~= seen);
            }
        }
        !self.ended
    }

    /// What the walk has found.
    pub fn into_found(self) -> (r: Vec<(Vec<u8>, Vec<u8>)>)
        ensures
            mdbx_dual_write::entry_views(r@) == self.walk().found,
    {
        self.found
    }
}

/// A walk through the entries of a prefix that hands out what it comes upon.
#[derive(Debug)]
pub struct PrefixWalk {
    prefix: Vec<u8>,
    ended: bool,
}

impl PrefixWalk {
    /// The prefix.
    pub closed spec fn prefix(&self) -> Seq<u8> {
        self.prefix@
    }

    /// Whether the walk has ended.
    pub closed spec fn ended(&self) -> bool {
        self.ended
    }

    /// A walk at its start.
    pub fn new(prefix: Vec<u8>) -> (r: Self)
        ensures
            r.prefix() == prefix@,
            !r.ended(),
    {
        PrefixWalk { prefix, ended: false }
    }

    /// Whether the next entry is handed out. The first that is not ends the walk.
    pub fn hands_out(&mut self, key: &[u8]) -> (r: bool)
        ensures
            final(self).prefix() == old(self).prefix(),
            r == (!old(self).ended() && bytes::has_prefix(key@, old(self).prefix())),
            final(self).ended() == !r,
            forall|seen: Seq<Entry>, value: Seq<u8>|
                #![trigger walked(seen.push((key@, value)), without_prefix(old(self).prefix()))]
                walked(seen, without_prefix(old(self).prefix())).ended == old(self).ended() ==> {
                    let before = walked(seen, without_prefix(old(self).prefix()));
                    let after = walked(
                        seen.push((key@, value)),
                        without_prefix(old(self).prefix()),
                    );
                    &&& after.ended == final(self).ended()
                    &&& after.found == if r {
                        before.found.push((key@, value))
                    } else {
                        before.found
                    }
                },
    {
        let r = !self.ended && starts_with(key, self.prefix.as_slice());
        self.ended = !r;
        proof {
            let stops = without_prefix(self.prefix());
            assert forall|seen: Seq<Entry>, value: Seq<u8>|
                #![trigger walked(seen.push((key@, value)), stops)]
                walked(seen, stops).ended == old(self).ended() implies {
                let before = walked(seen, stops);
                let after = walked(seen.push((key@, value)), stops);
                &&& after.ended == self.ended()
                &&& after.found == if r {
                    before.found.push((key@, value))
                } else {
                    before.found
                }
            } by {
                assert(seen.push((key@, value)).drop_last() =~= seen);
            }
        }
        r
    }
}

} // verus!
