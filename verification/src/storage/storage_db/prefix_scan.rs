//! Finding the epochs that a shared column holds keys of, by jumping from one to the next.

use super::prefixed_kvdb_mdbx::DELTA_MPT_PREFIX_LEN;
use crate::bytes;
use crate::bytes::{copy_range, prefix_upper_bound};
use crate::hash;
use crate::hash::{EpochId, H256};
use vstd::prelude::*;

verus! {

/// How far a scan has come, as a mathematical value.
#[verifier::ext_equal]
pub struct ScanState {
    /// The epochs found, as bytes.
    pub found: Seq<Seq<u8>>,
    /// Where to look next; nowhere once the scan is over.
    pub cursor: Option<Seq<u8>>,
}

/// The state after the first key at or behind the cursor was looked up. A key that is too short to
/// start with an epoch is passed over.
pub open spec fn scan_step(s: ScanState, first_key: Option<Seq<u8>>) -> ScanState {
    match first_key {
        None => ScanState { cursor: None, ..s },
        Some(key) => if key.len() < DELTA_MPT_PREFIX_LEN {
            ScanState { cursor: Some(key.push(0)), ..s }
        } else {
            let prefix = key.subrange(0, DELTA_MPT_PREFIX_LEN as int);
            ScanState { found: s.found.push(prefix), cursor: bytes::upper_bound(prefix) }
        },
    }
}

/// The state before the first look.
pub open spec fn scan_start() -> ScanState {
    ScanState { found: seq![], cursor: Some(seq![]) }
}

/// `first` is the first of the keys at or behind `from`.
pub open spec fn is_first(keys: Set<Seq<u8>>, from: Seq<u8>, first: Option<Seq<u8>>) -> bool {
    match first {
        None => forall|k: Seq<u8>| #[trigger] keys.contains(k) ==> !bytes::lex_le(from, k),
        Some(key) => {
            &&& keys.contains(key)
            &&& bytes::lex_le(from, key)
            &&& forall|k: Seq<u8>| #[trigger]
                keys.contains(k) && bytes::lex_le(from, k) ==> bytes::lex_le(key, k)
        },
    }
}

/// Some key starts with the epoch.
pub open spec fn is_present(keys: Set<Seq<u8>>, prefix: Seq<u8>) -> bool {
    &&& prefix.len() == DELTA_MPT_PREFIX_LEN
    &&& exists|k: Seq<u8>| #[trigger] keys.contains(k) && bytes::has_prefix(k, prefix)
}

/// What is found is present, in order and without repetition; what is present and not found lies at
/// or behind the cursor.
pub open spec fn scan_is_true(keys: Set<Seq<u8>>, s: ScanState) -> bool {
    &&& forall|i: int| 0 <= i < s.found.len() ==> is_present(keys, #[trigger] s.found[i])
    &&& bytes::ascending(s.found)
    &&& s.cursor matches Some(c) ==> forall|i: int|
        0 <= i < s.found.len() ==> lies_behind(#[trigger] s.found[i], c)
    &&& forall|k: Seq<u8>| #[trigger]
        keys.contains(k) && k.len() >= DELTA_MPT_PREFIX_LEN ==> s.found.contains(
            k.subrange(0, DELTA_MPT_PREFIX_LEN as int),
        ) || (s.cursor matches Some(c) && bytes::lex_le(c, k))
}

/// The cursor is behind all keys of an epoch.
pub open spec fn lies_behind(prefix: Seq<u8>, cursor: Seq<u8>) -> bool {
    bytes::upper_bound(prefix) matches Some(u) && bytes::lex_le(u, cursor)
}

proof fn lemma_le_transitive(a: Seq<u8>, b: Seq<u8>, c: Seq<u8>)
    requires
        bytes::lex_le(a, b),
        bytes::lex_le(b, c),
    ensures
        bytes::lex_le(a, c),
{
    if a != b && b != c {
        bytes::lex_lt_transitive(a, b, c);
    }
}

/// Right behind a key comes the key with a zero byte appended.
proof fn lemma_successor(key: Seq<u8>, k: Seq<u8>)
    requires
        bytes::lex_lt(key, k),
    ensures
        bytes::lex_le(key.push(0), k),
        bytes::lex_lt(key, key.push(0)),
{
    let next = key.push(0);
    assert(bytes::lex_less_at(key, next, key.len() as int));
    let n = choose|n: int| bytes::lex_less_at(key, k, n);
    if n == key.len() {
        if k.len() == next.len() && k[n] == 0 {
            assert(k =~= next);
        } else if k[n] == 0 {
            assert(bytes::lex_less_at(next, k, next.len() as int));
        } else {
            assert(bytes::lex_less_at(next, k, n));
        }
    } else {
        assert(bytes::lex_less_at(next, k, n));
    }
}

/// A bound of the length of an epoch that is at or before a key is at or before its epoch.
proof fn lemma_bound_covers_epoch(bound: Seq<u8>, key: Seq<u8>)
    requires
        bound.len() == DELTA_MPT_PREFIX_LEN,
        key.len() >= DELTA_MPT_PREFIX_LEN,
        bytes::lex_le(bound, key),
    ensures
        bytes::lex_le(bound, key.subrange(0, DELTA_MPT_PREFIX_LEN as int)),
{
    let prefix = key.subrange(0, DELTA_MPT_PREFIX_LEN as int);
    if bound == key {
        assert(prefix =~= bound);
    } else {
        let n = choose|n: int| bytes::lex_less_at(bound, key, n);
        if n < bound.len() {
            assert(bytes::lex_less_at(bound, prefix, n));
        } else {
            assert(prefix =~= bound);
        }
    }
}

/// A scan starts out true of any column.
pub proof fn scan_starts_true(keys: Set<Seq<u8>>)
    ensures
        scan_is_true(keys, scan_start()),
{
    assert forall|k: Seq<u8>| #[trigger] keys.contains(k) implies bytes::lex_le(
        Seq::<u8>::empty(),
        k,
    ) by {
        bytes::lex_lt_total(Seq::<u8>::empty(), k);
        if bytes::lex_lt(k, Seq::<u8>::empty()) {
            let n = choose|n: int| bytes::lex_less_at(k, Seq::<u8>::empty(), n);
            assert(false);
        }
    }
    assert(Seq::<u8>::empty() =~= seq![]);
}

proof fn lemma_new_epoch_is_last(keys: Set<Seq<u8>>, s: ScanState, key: Seq<u8>)
    requires
        scan_is_true(keys, s),
        s.cursor matches Some(c) && bytes::lex_le(c, key),
        key.len() >= DELTA_MPT_PREFIX_LEN,
    ensures
        forall|i: int|
            0 <= i < s.found.len() ==> #[trigger] bytes::lex_lt(
                s.found[i],
                key.subrange(0, DELTA_MPT_PREFIX_LEN as int),
            ),
{
    let c = s.cursor->0;
    let prefix = key.subrange(0, DELTA_MPT_PREFIX_LEN as int);
    assert forall|i: int| 0 <= i < s.found.len() implies #[trigger] bytes::lex_lt(
        s.found[i],
        prefix,
    ) by {
        let p = s.found[i];
        assert(is_present(keys, p));
        assert(lies_behind(p, c));
        let u = bytes::upper_bound(p)->0;
        bytes::upper_bound_keeps_length(p);
        bytes::upper_bound_is_above(p);
        lemma_le_transitive(u, c, key);
        lemma_bound_covers_epoch(u, key);
        if u != prefix {
            bytes::lex_lt_transitive(p, u, prefix);
        }
    }
}

/// A true answer keeps a scan true.
pub proof fn true_answers_keep_the_scan_true(
    keys: Set<Seq<u8>>,
    s: ScanState,
    first_key: Option<Seq<u8>>,
)
    requires
        scan_is_true(keys, s),
        s.cursor matches Some(c) && is_first(keys, c, first_key),
    ensures
        scan_is_true(keys, scan_step(s, first_key)),
{
    let c = s.cursor->0;
    let t = scan_step(s, first_key);
    match first_key {
        None => {},
        Some(key) => {
            if key.len() < DELTA_MPT_PREFIX_LEN {
                assert(bytes::lex_less_at(key, key.push(0), key.len() as int));
                assert forall|i: int| 0 <= i < t.found.len() implies lies_behind(
                    #[trigger] t.found[i],
                    key.push(0),
                ) by {
                    assert(lies_behind(s.found[i], c));
                    let u = bytes::upper_bound(s.found[i])->0;
                    lemma_le_transitive(u, c, key);
                    lemma_le_transitive(u, key, key.push(0));
                }
                assert forall|k: Seq<u8>| #[trigger]
                    keys.contains(k) && k.len() >= DELTA_MPT_PREFIX_LEN implies t.found.contains(
                    k.subrange(0, DELTA_MPT_PREFIX_LEN as int),
                ) || bytes::lex_le(key.push(0), k) by {
                    if !s.found.contains(k.subrange(0, DELTA_MPT_PREFIX_LEN as int)) {
                        assert(bytes::lex_le(key, k));
                        lemma_successor(key, k);
                    }
                }
            } else {
                let prefix = key.subrange(0, DELTA_MPT_PREFIX_LEN as int);
                assert(bytes::has_prefix(key, prefix));
                assert(is_present(keys, prefix));
                lemma_new_epoch_is_last(keys, s, key);
                bytes::upper_bound_keeps_length(prefix);
                assert forall|i: int| 0 <= i < t.found.len() implies is_present(
                    keys,
                    #[trigger] t.found[i],
                ) by {
                    if i < s.found.len() {
                        assert(t.found[i] == s.found[i]);
                    }
                }
                assert forall|i: int, j: int| 0 <= i < j < t.found.len() implies #[trigger]
                    bytes::lex_lt(t.found[i], t.found[j]) by {
                    if j < s.found.len() {
                        assert(bytes::lex_lt(s.found[i], s.found[j]));
                    } else {
                        assert(bytes::lex_lt(s.found[i], prefix));
                    }
                }
                if t.cursor is Some {
                    let u = t.cursor->0;
                    bytes::upper_bound_is_above(prefix);
                    assert forall|i: int| 0 <= i < t.found.len() implies lies_behind(
                        #[trigger] t.found[i],
                        u,
                    ) by {
                        if i < s.found.len() {
                            let p = s.found[i];
                            assert(is_present(keys, p));
                            assert(lies_behind(p, c));
                            let v = bytes::upper_bound(p)->0;
                            bytes::upper_bound_keeps_length(p);
                            lemma_le_transitive(v, c, key);
                            lemma_bound_covers_epoch(v, key);
                            lemma_le_transitive(v, prefix, u);
                        }
                    }
                }
                assert forall|k: Seq<u8>| #[trigger]
                    keys.contains(k) && k.len() >= DELTA_MPT_PREFIX_LEN implies t.found.contains(
                    k.subrange(0, DELTA_MPT_PREFIX_LEN as int),
                ) || (t.cursor matches Some(u) && bytes::lex_le(u, k)) by {
                    let mine = k.subrange(0, DELTA_MPT_PREFIX_LEN as int);
                    if s.found.contains(mine) {
                        let i = choose|i: int| 0 <= i < s.found.len() && s.found[i] == mine;
                        assert(t.found[i] == mine);
                    } else {
                        assert(bytes::lex_le(key, k));
                        assert(bytes::lex_le(prefix, key)) by {
                            bytes::prefix_comes_first(prefix, key);
                        }
                        lemma_le_transitive(prefix, key, k);
                        bytes::upper_bound_spans_prefix(prefix, k);
                        if bytes::has_prefix(k, prefix) {
                            assert(mine =~= prefix);
                            assert(t.found[s.found.len() as int] == mine);
                        } else {
                            let u = bytes::upper_bound(prefix)->0;
                            bytes::lex_lt_total(k, u);
                        }
                    }
                }
            }
        },
    }
}

/// A true scan that is over has found exactly the epochs that some key starts with, in ascending
/// order.
pub proof fn finished_scan_is_exact(keys: Set<Seq<u8>>, s: ScanState, prefix: Seq<u8>)
    requires
        scan_is_true(keys, s),
        s.cursor is None,
    ensures
        s.found.contains(prefix) <==> is_present(keys, prefix),
        bytes::ascending(s.found),
{
    if is_present(keys, prefix) {
        let k = choose|k: Seq<u8>| #[trigger] keys.contains(k) && bytes::has_prefix(k, prefix);
        assert(k.subrange(0, DELTA_MPT_PREFIX_LEN as int) =~= prefix);
    }
    if s.found.contains(prefix) {
        let i = choose|i: int| 0 <= i < s.found.len() && s.found[i] == prefix;
        assert(is_present(keys, s.found[i]));
    }
}

/// Every answer ends the scan or moves its cursor ahead.
pub proof fn scan_moves_ahead(s: ScanState, first_key: Option<Seq<u8>>)
    requires
        s.cursor matches Some(c) && (first_key matches Some(key) ==> bytes::lex_le(c, key)),
    ensures
        scan_step(s, first_key).cursor matches Some(next) ==> bytes::lex_lt(s.cursor->0, next),
{
    let c = s.cursor->0;
    if let Some(key) = first_key {
        if key.len() < DELTA_MPT_PREFIX_LEN {
            assert(bytes::lex_less_at(key, key.push(0), key.len() as int));
            if c != key {
                bytes::lex_lt_transitive(c, key, key.push(0));
            }
        } else {
            let prefix = key.subrange(0, DELTA_MPT_PREFIX_LEN as int);
            if let Some(u) = bytes::upper_bound(prefix) {
                bytes::upper_bound_spans_prefix(prefix, key);
                assert(bytes::has_prefix(key, prefix));
                if c != key {
                    bytes::lex_lt_transitive(c, key, u);
                }
            }
        }
    }
}

/// A scan of a column for the epochs that its keys start with.
#[derive(Debug)]
pub struct PrefixScan {
    found: Vec<EpochId>,
    cursor: Option<Vec<u8>>,
}

/// The bytes of a list of epochs.
pub open spec fn epoch_bytes(epochs: Seq<EpochId>) -> Seq<Seq<u8>> {
    epochs.map_values(|e: EpochId| e@)
}

impl View for PrefixScan {
    type V = ScanState;

    closed spec fn view(&self) -> ScanState {
        ScanState {
            found: epoch_bytes(self.found@),
            cursor: match self.cursor {
                Some(c) => Some(c@),
                None => None,
            },
        }
    }
}

impl PrefixScan {
    /// A scan from the start of the column.
    pub fn new() -> (r: Self)
        ensures
            r@ == scan_start(),
    {
        let r = PrefixScan { found: Vec::new(), cursor: Some(Vec::new()) };
        proof {
            assert(epoch_bytes(r.found@) =~= seq![]);
            assert(r@.cursor->0 =~= seq![]);
        }
        r
    }

    /// Where to look next: the first key at or behind it is asked for. Nowhere once the scan is
    /// over.
    pub fn cursor(&self) -> (r: Option<&[u8]>)
        ensures
            match r {
                Some(c) => self@.cursor == Some(c@),
                None => self@.cursor is None,
            },
    {
        match &self.cursor {
            Some(c) => Some(c.as_slice()),
            None => None,
        }
    }

    /// Takes the first key at or behind the cursor, or none.
    pub fn answer(&mut self, first_key: Option<&[u8]>)
        requires
            old(self)@.cursor is Some,
        ensures
            final(self)@ == scan_step(
                old(self)@,
                match first_key {
                    Some(k) => Some(k@),
                    None => None,
                },
            ),
    {
        match first_key {
            None => {
                self.cursor = None;
            },
            Some(key) => {
                if key.len() < DELTA_MPT_PREFIX_LEN {
                    let mut next: Vec<u8> = copy_range(key, 0, key.len());
                    next.push(0);
                    self.cursor = Some(next);
                    proof {
                        assert(next@ =~= key@.push(0));
                    }
                } else {
                    let prefix = copy_range(key, 0, DELTA_MPT_PREFIX_LEN);
                    let epoch = H256::from_slice(prefix.as_slice());
                    let ghost before = self.found@;
                    self.found.push(epoch);
                    self.cursor = prefix_upper_bound(prefix.as_slice());
                    proof {
                        assert(epoch_bytes(self.found@) =~= epoch_bytes(before).push(prefix@));
                    }
                }
            },
        }
    }

    /// The epochs found.
    pub fn into_found(self) -> (r: Vec<EpochId>)
        ensures
            epoch_bytes(r@) == self@.found,
    {
        self.found
    }
}

/// Epochs whose bytes stand in order, as those that a scan finds do, are listed once each.
pub proof fn ascending_epochs_are_distinct(epochs: Seq<EpochId>)
    requires
        bytes::ascending(epoch_bytes(epochs)),
    ensures
        epochs.no_duplicates(),
{
    let found = epoch_bytes(epochs);
    assert forall|i: int, j: int| 0 <= i < j < epochs.len() implies epochs[i] != epochs[j] by {
        assert(bytes::lex_lt(found[i], found[j]));
        bytes::lex_lt_irreflexive(found[i]);
    }
}

/// A list of epochs holds an epoch exactly where the list of their bytes holds its bytes.
pub proof fn epoch_bytes_contain(epochs: Seq<EpochId>, e: EpochId)
    ensures
        epoch_bytes(epochs).contains(e@) <==> epochs.contains(e),
{
    if epochs.contains(e) {
        let i = choose|i: int| 0 <= i < epochs.len() && epochs[i] == e;
        assert(epoch_bytes(epochs)[i] == e@);
    }
    if epoch_bytes(epochs).contains(e@) {
        let i = choose|i: int|
            0 <= i < epoch_bytes(epochs).len() && epoch_bytes(epochs)[i] == e@;
        hash::h256_determined_by_bytes(epochs[i], e);
        assert(epochs[i] == e);
    }
}

} // verus!
