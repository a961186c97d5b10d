//! Mirroring the writes to one store into another, and comparing the two.

use super::kvdb_mdbx::{apply_ops, BatchOp, Table, WriteOp};
use super::mdbx_columns;
use super::mdbx_columns::Column;
use crate::bytes;
use crate::bytes::{bytes_eq, bytes_lt, copy_bytes};
use vstd::prelude::*;

verus! {

/// What went wrong in a store.
#[derive(Debug)]
pub struct StoreError(pub String);

/// A store that writes can be mirrored from and to. Whoever has such a store implements this.
pub trait DualWritePrimary: Send + Sync {
    /// Puts a value under a key, in place of what stood there.
    fn dw_put(&self, k: &[u8], v: &[u8]) -> Result<(), StoreError>;

    /// Takes a key out; it need not be there.
    fn dw_delete(&self, k: &[u8]) -> Result<(), StoreError>;

    /// The value of a key.
    fn dw_get(&self, k: &[u8]) -> Result<Option<Vec<u8>>, StoreError>;

    /// The entries with keys from `lower_incl` on, below `upper_excl`, in the order of the keys.
    fn dw_iter_range(&self, lower_incl: &[u8], upper_excl: Option<&[u8]>) -> Result<
        Vec<(Vec<u8>, Vec<u8>)>,
        StoreError,
    >;
}

/// An entry of a table: its key and its value.
pub type Entry = (Seq<u8>, Seq<u8>);

/// The views of a list of entries.
pub open spec fn entry_views(entries: Seq<(Vec<u8>, Vec<u8>)>) -> Seq<Entry> {
    entries.map_values(|e: (Vec<u8>, Vec<u8>)| (e.0@, e.1@))
}

/// The keys of a list of entries.
pub open spec fn keys_of(entries: Seq<Entry>) -> Seq<Seq<u8>> {
    entries.map_values(|e: Entry| e.0)
}

/// The keys on which two tables differ.
#[verifier::ext_equal]
pub struct Divergence {
    /// Keys that only the primary has.
    pub missing: Seq<Seq<u8>>,
    /// Keys that only the shadow has.
    pub extra: Seq<Seq<u8>>,
    /// Keys that both have, with different values.
    pub mismatched: Seq<Seq<u8>>,
}

/// The divergence of two lists that are walked in lockstep, the smaller key first.
pub open spec fn lockstep(primary: Seq<Entry>, shadow: Seq<Entry>) -> Divergence
    decreases primary.len() + shadow.len(),
{
    if primary.len() == 0 {
        Divergence { missing: seq![], extra: keys_of(shadow), mismatched: seq![] }
    } else if shadow.len() == 0 {
        Divergence { missing: keys_of(primary), extra: seq![], mismatched: seq![] }
    } else {
        let (pk, pv) = primary[0];
        let (sk, sv) = shadow[0];
        if pk == sk {
            let rest = lockstep(primary.drop_first(), shadow.drop_first());
            if pv == sv {
                rest
            } else {
                Divergence { mismatched: seq![pk] + rest.mismatched, ..rest }
            }
        } else if bytes::lex_lt(pk, sk) {
            let rest = lockstep(primary.drop_first(), shadow);
            Divergence { missing: seq![pk] + rest.missing, ..rest }
        } else {
            let rest = lockstep(primary, shadow.drop_first());
            Divergence { extra: seq![sk] + rest.extra, ..rest }
        }
    }
}

/// How a shadow differs from its primary.
#[derive(Debug)]
pub struct DualWriteReport {
    /// The name of the table.
    pub table: &'static str,
    pub primary_count: usize,
    pub shadow_count: usize,
    /// Keys that only the primary has.
    pub missing_in_shadow: Vec<Vec<u8>>,
    /// Keys that only the shadow has.
    pub extra_in_shadow: Vec<Vec<u8>>,
    /// Keys that both have, with different values.
    pub value_mismatches: Vec<Vec<u8>>,
}

impl DualWriteReport {
    /// The keys that are reported.
    pub open spec fn divergence(&self) -> Divergence {
        Divergence {
            missing: bytes::byte_views(self.missing_in_shadow@),
            extra: bytes::byte_views(self.extra_in_shadow@),
            mismatched: bytes::byte_views(self.value_mismatches@),
        }
    }

    /// The report is that of two lists of entries.
    pub open spec fn reports_on(&self, primary: Seq<Entry>, shadow: Seq<Entry>) -> bool {
        &&& self.primary_count == primary.len()
        &&& self.shadow_count == shadow.len()
        &&& self.divergence() == lockstep(primary, shadow)
    }

    /// Nothing is reported, and both sides are as long.
    pub open spec fn matched(&self) -> bool {
        &&& self.missing_in_shadow@.len() == 0
        &&& self.extra_in_shadow@.len() == 0
        &&& self.value_mismatches@.len() == 0
        &&& self.primary_count == self.shadow_count
    }

    /// Whether the shadow reproduces the primary.
    pub fn is_matched(&self) -> (r: bool)
        ensures
            r == self.matched(),
    {
        self.missing_in_shadow.is_empty() && self.extra_in_shadow.is_empty()
            && self.value_mismatches.is_empty() && self.primary_count == self.shadow_count
    }

    /// The number of keys on which the two differ.
    pub fn diverged_count(&self) -> (r: usize)
        requires
            self.missing_in_shadow@.len() + self.extra_in_shadow@.len()
                + self.value_mismatches@.len() <= usize::MAX,
        ensures
            r == self.missing_in_shadow@.len() + self.extra_in_shadow@.len()
                + self.value_mismatches@.len(),
    {
        self.missing_in_shadow.len() + self.extra_in_shadow.len() + self.value_mismatches.len()
    }
}

/// A report that matches says that both tables hold the same entries, and the other way round.
pub proof fn matched_means_equal(
    report: &DualWriteReport,
    primary: Seq<Entry>,
    shadow: Seq<Entry>,
)
    requires
        report.reports_on(primary, shadow),
    ensures
        report.matched() <==> primary == shadow,
{
    let d = lockstep(primary, shadow);
    assert(report.divergence().missing.len() == report.missing_in_shadow@.len());
    assert(report.divergence().extra.len() == report.extra_in_shadow@.len());
    assert(report.divergence().mismatched.len() == report.value_mismatches@.len());
    no_divergence_means_equal(primary, shadow);
}

proof fn no_divergence_means_equal(primary: Seq<Entry>, shadow: Seq<Entry>)
    ensures
        ({
            let d = lockstep(primary, shadow);
            (d.missing.len() == 0 && d.extra.len() == 0 && d.mismatched.len() == 0) <==> primary
                == shadow
        }),
    decreases primary.len() + shadow.len(),
{
    let d = lockstep(primary, shadow);
    if primary.len() == 0 {
        assert(d.extra.len() == shadow.len());
        if shadow.len() == 0 {
            assert(primary =~= shadow);
        }
    } else if shadow.len() == 0 {
        assert(d.missing.len() == primary.len());
    } else {
        let (pk, pv) = primary[0];
        let (sk, sv) = shadow[0];
        if pk == sk {
            no_divergence_means_equal(primary.drop_first(), shadow.drop_first());
            if primary == shadow {
                assert(primary.drop_first() == shadow.drop_first());
            }
            if pv == sv && primary.drop_first() == shadow.drop_first() {
                assert(primary =~= shadow) by {
                    assert forall|i: int| 0 <= i < primary.len() implies primary[i] == shadow[i] by {
                        if i > 0 {
                            assert(primary.drop_first()[i - 1] == primary[i]);
                            assert(shadow.drop_first()[i - 1] == shadow[i]);
                        }
                    }
                    assert(primary.drop_first().len() == shadow.drop_first().len());
                }
            }
        } else {
            assert(primary != shadow);
        }
    }
}

/// In lists in the order of their keys, the reported keys are exactly those that one side has and
/// the other has not, and those that both have with different values.
pub proof fn ordered_divergence_is_exact(primary: Seq<Entry>, shadow: Seq<Entry>, key: Seq<u8>)
    requires
        bytes::ascending(keys_of(primary)),
        bytes::ascending(keys_of(shadow)),
    ensures
        ({
            let d = lockstep(primary, shadow);
            let p = keys_of(primary);
            let s = keys_of(shadow);
            &&& d.missing.contains(key) <==> p.contains(key) && !s.contains(key)
            &&& d.extra.contains(key) <==> s.contains(key) && !p.contains(key)
            &&& d.mismatched.contains(key) <==> differs_on(primary, shadow, key)
        }),
    decreases primary.len() + shadow.len(),
{
    let d = lockstep(primary, shadow);
    let p = keys_of(primary);
    let s = keys_of(shadow);
    differing_keys_are_in_both(primary, shadow, key);
    if primary.len() > 0 && shadow.len() > 0 {
        let pr = primary.drop_first();
        let sr = shadow.drop_first();
        rest_is_ascending(primary);
        rest_is_ascending(shadow);
        let (pk, pv) = primary[0];
        let (sk, sv) = shadow[0];
        assert(p[0] == pk && s[0] == sk);
        contains_by_front(primary, key);
        contains_by_front(shadow, key);
        differs_by_front(primary, shadow, key);
        if pk == sk {
            ordered_divergence_is_exact(pr, sr, key);
            first_is_least(primary);
            first_is_least(shadow);
            front_of_concat(pk, lockstep(pr, sr).mismatched, key);
        } else if bytes::lex_lt(pk, sk) {
            ordered_divergence_is_exact(pr, shadow, key);
            differing_keys_are_in_both(pr, shadow, key);
            below_all(pk, shadow);
            first_is_least(primary);
            front_of_concat(pk, lockstep(pr, shadow).missing, key);
        } else {
            bytes::lex_lt_total(pk, sk);
            ordered_divergence_is_exact(primary, sr, key);
            differing_keys_are_in_both(primary, sr, key);
            below_all(sk, primary);
            first_is_least(shadow);
            front_of_concat(sk, lockstep(primary, sr).extra, key);
        }
    }
}

/// Both lists have the key, with different values.
pub open spec fn differs_on(primary: Seq<Entry>, shadow: Seq<Entry>, key: Seq<u8>) -> bool {
    exists|i: int, j: int| #[trigger] differs_at(primary, shadow, key, i, j)
}

/// The `i`-th entry of the one list and the `j`-th of the other have the key, with different
/// values.
pub open spec fn differs_at(
    primary: Seq<Entry>,
    shadow: Seq<Entry>,
    key: Seq<u8>,
    i: int,
    j: int,
) -> bool {
    &&& 0 <= i < primary.len()
    &&& 0 <= j < shadow.len()
    &&& primary[i].0 == key
    &&& shadow[j].0 == key
    &&& primary[i].1 != shadow[j].1
}

proof fn differing_keys_are_in_both(primary: Seq<Entry>, shadow: Seq<Entry>, key: Seq<u8>)
    ensures
        differs_on(primary, shadow, key) ==> keys_of(primary).contains(key) && keys_of(
            shadow,
        ).contains(key),
{
    if differs_on(primary, shadow, key) {
        let (i, j) = choose|i: int, j: int| #[trigger] differs_at(primary, shadow, key, i, j);
        assert(keys_of(primary)[i] == key);
        assert(keys_of(shadow)[j] == key);
    }
}

proof fn rest_is_ascending(entries: Seq<Entry>)
    requires
        entries.len() > 0,
        bytes::ascending(keys_of(entries)),
    ensures
        bytes::ascending(keys_of(entries.drop_first())),
{
    let rest = keys_of(entries.drop_first());
    assert forall|i: int, j: int| 0 <= i < j < rest.len() implies #[trigger] bytes::lex_lt(
        rest[i],
        rest[j],
    ) by {
        assert(bytes::lex_lt(keys_of(entries)[i + 1], keys_of(entries)[j + 1]));
    }
}

proof fn first_is_least(entries: Seq<Entry>)
    requires
        entries.len() > 0,
        bytes::ascending(keys_of(entries)),
    ensures
        !keys_of(entries.drop_first()).contains(entries[0].0),
{
    let rest = keys_of(entries.drop_first());
    if rest.contains(entries[0].0) {
        let i = choose|i: int| 0 <= i < rest.len() && rest[i] == entries[0].0;
        assert(bytes::lex_lt(keys_of(entries)[0], keys_of(entries)[i + 1]));
        bytes::lex_lt_irreflexive(entries[0].0);
    }
}

proof fn below_all(key: Seq<u8>, entries: Seq<Entry>)
    requires
        entries.len() > 0,
        bytes::ascending(keys_of(entries)),
        bytes::lex_lt(key, entries[0].0),
    ensures
        !keys_of(entries).contains(key),
{
    if keys_of(entries).contains(key) {
        let i = choose|i: int| 0 <= i < keys_of(entries).len() && keys_of(entries)[i] == key;
        if i > 0 {
            assert(bytes::lex_lt(keys_of(entries)[0], keys_of(entries)[i]));
            bytes::lex_lt_transitive(key, entries[0].0, key);
        }
        bytes::lex_lt_irreflexive(key);
    }
}

proof fn contains_by_front(entries: Seq<Entry>, key: Seq<u8>)
    requires
        entries.len() > 0,
    ensures
        keys_of(entries).contains(key) <==> entries[0].0 == key || keys_of(
            entries.drop_first(),
        ).contains(key),
{
    let all = keys_of(entries);
    let rest = keys_of(entries.drop_first());
    if all.contains(key) {
        let i = choose|i: int| 0 <= i < all.len() && all[i] == key;
        if i > 0 {
            assert(rest[i - 1] == key);
        }
    }
    if entries[0].0 == key {
        assert(all[0] == key);
    }
    if rest.contains(key) {
        let i = choose|i: int| 0 <= i < rest.len() && rest[i] == key;
        assert(all[i + 1] == key);
    }
}

proof fn front_of_concat(front: Seq<u8>, rest: Seq<Seq<u8>>, key: Seq<u8>)
    ensures
        (seq![front] + rest).contains(key) <==> front == key || rest.contains(key),
{
    let all = seq![front] + rest;
    if all.contains(key) {
        let i = choose|i: int| 0 <= i < all.len() && all[i] == key;
        if i > 0 {
            assert(rest[i - 1] == key);
        }
    }
    if front == key {
        assert(all[0] == key);
    }
    if rest.contains(key) {
        let i = choose|i: int| 0 <= i < rest.len() && rest[i] == key;
        assert(all[i + 1] == key);
    }
}

proof fn differs_by_front(primary: Seq<Entry>, shadow: Seq<Entry>, key: Seq<u8>)
    requires
        primary.len() > 0,
        shadow.len() > 0,
        bytes::ascending(keys_of(primary)),
        bytes::ascending(keys_of(shadow)),
    ensures
        primary[0].0 != key ==> (differs_on(primary, shadow, key) <==> differs_on(
            primary.drop_first(),
            shadow,
            key,
        )),
        shadow[0].0 != key ==> (differs_on(primary, shadow, key) <==> differs_on(
            primary,
            shadow.drop_first(),
            key,
        )),
        primary[0].0 == key && shadow[0].0 == key ==> (differs_on(primary, shadow, key)
            <==> primary[0].1 != shadow[0].1),
        primary[0].0 != key && shadow[0].0 != key ==> (differs_on(primary, shadow, key)
            <==> differs_on(primary.drop_first(), shadow.drop_first(), key)),
        primary[0].0 == key && shadow[0].0 == key ==> !differs_on(
            primary.drop_first(),
            shadow.drop_first(),
            key,
        ),
{
    let pr = primary.drop_first();
    let sr = shadow.drop_first();
    first_is_least(primary);
    first_is_least(shadow);
    if differs_on(primary, shadow, key) {
        let (i, j) = choose|i: int, j: int| #[trigger] differs_at(primary, shadow, key, i, j);
        if primary[0].0 != key {
            assert(differs_at(pr, shadow, key, i - 1, j));
        }
        if shadow[0].0 != key {
            assert(differs_at(primary, sr, key, i, j - 1));
        }
        if primary[0].0 != key && shadow[0].0 != key {
            assert(differs_at(pr, sr, key, i - 1, j - 1));
        }
        if primary[0].0 == key && shadow[0].0 == key {
            if i > 0 {
                assert(keys_of(pr)[i - 1] == key);
            }
            if j > 0 {
                assert(keys_of(sr)[j - 1] == key);
            }
        }
    }
    if differs_on(pr, shadow, key) {
        let (i, j) = choose|i: int, j: int| #[trigger] differs_at(pr, shadow, key, i, j);
        assert(differs_at(primary, shadow, key, i + 1, j));
    }
    if differs_on(primary, sr, key) {
        let (i, j) = choose|i: int, j: int| #[trigger] differs_at(primary, sr, key, i, j);
        assert(differs_at(primary, shadow, key, i, j + 1));
    }
    if differs_on(pr, sr, key) {
        let (i, j) = choose|i: int, j: int| #[trigger] differs_at(pr, sr, key, i, j);
        assert(differs_at(primary, shadow, key, i + 1, j + 1));
        assert(keys_of(pr)[i] == key);
    }
    if primary[0].0 == key && shadow[0].0 == key && primary[0].1 != shadow[0].1 {
        assert(differs_at(primary, shadow, key, 0, 0));
    }
}

fn push_key(keys: &mut Vec<Vec<u8>>, key: &Vec<u8>)
    ensures
        bytes::byte_views(final(keys)@) == bytes::byte_views(old(keys)@).push(key@),
{
    keys.push(copy_bytes(key.as_slice()));
    proof {
        assert(bytes::byte_views(keys@) =~= bytes::byte_views(old(keys)@).push(key@));
    }
}

/// How the entries of a shadow differ from those of its primary, both in the order of their keys.
pub fn compare_tables(
    column: Column,
    primary: &Vec<(Vec<u8>, Vec<u8>)>,
    shadow: &Vec<(Vec<u8>, Vec<u8>)>,
) -> (r: DualWriteReport)
    ensures
        r.table@ == mdbx_columns::column_name(column),
        r.reports_on(entry_views(primary@), entry_views(shadow@)),
{
    let ghost p = entry_views(primary@);
    let ghost s = entry_views(shadow@);
    let ghost all = lockstep(p, s);
    let mut missing_in_shadow: Vec<Vec<u8>> = Vec::new();
    let mut extra_in_shadow: Vec<Vec<u8>> = Vec::new();
    let mut value_mismatches: Vec<Vec<u8>> = Vec::new();
    let mut i: usize = 0;
    let mut j: usize = 0;
    proof {
        assert(p.subrange(0, p.len() as int) =~= p);
        assert(s.subrange(0, s.len() as int) =~= s);
        assert(bytes::byte_views(missing_in_shadow@) + all.missing =~= all.missing);
        assert(bytes::byte_views(extra_in_shadow@) + all.extra =~= all.extra);
        assert(bytes::byte_views(value_mismatches@) + all.mismatched =~= all.mismatched);
    }
    while i < primary.len() && j < shadow.len()
        invariant
            i <= primary.len(),
            j <= shadow.len(),
            p == entry_views(primary@),
            s == entry_views(shadow@),
            all == lockstep(p, s),
            all.missing == bytes::byte_views(missing_in_shadow@) + lockstep(
                p.subrange(i as int, p.len() as int),
                s.subrange(j as int, s.len() as int),
            ).missing,
            all.extra == bytes::byte_views(extra_in_shadow@) + lockstep(
                p.subrange(i as int, p.len() as int),
                s.subrange(j as int, s.len() as int),
            ).extra,
            all.mismatched == bytes::byte_views(value_mismatches@) + lockstep(
                p.subrange(i as int, p.len() as int),
                s.subrange(j as int, s.len() as int),
            ).mismatched,
        decreases primary.len() - i + shadow.len() - j,
    {
        let ghost pr = p.subrange(i as int, p.len() as int);
        let ghost sr = s.subrange(j as int, s.len() as int);
        let ghost now = lockstep(pr, sr);
        proof {
            assert(pr[0] == p[i as int]);
            assert(sr[0] == s[j as int]);
            assert(pr.drop_first() =~= p.subrange(i + 1, p.len() as int));
            assert(sr.drop_first() =~= s.subrange(j + 1, s.len() as int));
        }
        let pk = &primary[i].0;
        let sk = &shadow[j].0;
        let ghost m = bytes::byte_views(missing_in_shadow@);
        let ghost e = bytes::byte_views(extra_in_shadow@);
        let ghost v = bytes::byte_views(value_mismatches@);
        if bytes_eq(pk.as_slice(), sk.as_slice()) {
            let ghost rest = lockstep(pr.drop_first(), sr.drop_first());
            if !bytes_eq(primary[i].1.as_slice(), shadow[j].1.as_slice()) {
                push_key(&mut value_mismatches, pk);
                proof {
                    assert(v + (seq![pk@] + rest.mismatched) =~= v.push(pk@) + rest.mismatched);
                }
            }
            i = i + 1;
            j = j + 1;
        } else if bytes_lt(pk.as_slice(), sk.as_slice()) {
            let ghost rest = lockstep(pr.drop_first(), sr);
            push_key(&mut missing_in_shadow, pk);
            proof {
                assert(m + (seq![pk@] + rest.missing) =~= m.push(pk@) + rest.missing);
            }
            i = i + 1;
        } else {
            let ghost rest = lockstep(pr, sr.drop_first());
            push_key(&mut extra_in_shadow, sk);
            proof {
                assert(e + (seq![sk@] + rest.extra) =~= e.push(sk@) + rest.extra);
            }
            j = j + 1;
        }
    }
    let ghost pr = p.subrange(i as int, p.len() as int);
    let ghost sr = s.subrange(j as int, s.len() as int);
    let ghost m = bytes::byte_views(missing_in_shadow@);
    let ghost e = bytes::byte_views(extra_in_shadow@);
    let ghost i0 = i;
    let ghost j0 = j;
    while i < primary.len()
        invariant
            i0 <= i <= primary.len(),
            p == entry_views(primary@),
            bytes::byte_views(missing_in_shadow@) == m + keys_of(p.subrange(i0 as int, i as int)),
        decreases primary.len() - i,
    {
        push_key(&mut missing_in_shadow, &primary[i].0);
        i = i + 1;
        proof {
            assert(keys_of(p.subrange(i0 as int, i as int)) =~= keys_of(
                p.subrange(i0 as int, i - 1),
            ).push(p[i - 1].0));
        }
    }
    while j < shadow.len()
        invariant
            j0 <= j <= shadow.len(),
            s == entry_views(shadow@),
            bytes::byte_views(extra_in_shadow@) == e + keys_of(s.subrange(j0 as int, j as int)),
        decreases shadow.len() - j,
    {
        push_key(&mut extra_in_shadow, &shadow[j].0);
        j = j + 1;
        proof {
            assert(keys_of(s.subrange(j0 as int, j as int)) =~= keys_of(
                s.subrange(j0 as int, j - 1),
            ).push(s[j - 1].0));
        }
    }
    let report = DualWriteReport {
        table: column.name(),
        primary_count: primary.len(),
        shadow_count: shadow.len(),
        missing_in_shadow,
        extra_in_shadow,
        value_mismatches,
    };
    proof {
        assert(m + keys_of(pr) == report.divergence().missing);
        assert(e + keys_of(sr) == report.divergence().extra);
        assert(lockstep(pr, sr).missing =~= keys_of(pr));
        assert(lockstep(pr, sr).extra =~= keys_of(sr));
        assert(report.divergence().mismatched =~= all.mismatched);
        assert(report.divergence() =~= all);
    }
    report
}

/// Two equal lists do not diverge.
pub proof fn equal_lists_match(entries: Seq<Entry>)
    ensures
        lockstep(entries, entries) == (Divergence {
            missing: seq![],
            extra: seq![],
            mismatched: seq![],
        }),
    decreases entries.len(),
{
    if entries.len() > 0 {
        equal_lists_match(entries.drop_first());
    } else {
        assert(keys_of(entries) =~= seq![]);
    }
}

/// The keys that one side has too many are as many more as its entries are.
pub proof fn reported_counts_balance(
    report: &DualWriteReport,
    primary: Seq<Entry>,
    shadow: Seq<Entry>,
)
    requires
        report.reports_on(primary, shadow),
    ensures
        report.primary_count + report.extra_in_shadow@.len() == report.shadow_count
            + report.missing_in_shadow@.len(),
{
    assert(report.divergence().missing.len() == report.missing_in_shadow@.len());
    assert(report.divergence().extra.len() == report.extra_in_shadow@.len());
    lockstep_counts_balance(primary, shadow);
}

proof fn lockstep_counts_balance(primary: Seq<Entry>, shadow: Seq<Entry>)
    ensures
        primary.len() + lockstep(primary, shadow).extra.len() == shadow.len() + lockstep(
            primary,
            shadow,
        ).missing.len(),
    decreases primary.len() + shadow.len(),
{
    if primary.len() > 0 && shadow.len() > 0 {
        if primary[0].0 == shadow[0].0 {
            lockstep_counts_balance(primary.drop_first(), shadow.drop_first());
        } else if bytes::lex_lt(primary[0].0, shadow[0].0) {
            lockstep_counts_balance(primary.drop_first(), shadow);
        } else {
            lockstep_counts_balance(primary, shadow.drop_first());
        }
    }
}

/// The entries are all those of a table, in the order of their keys.
pub open spec fn lists_in_order(entries: Seq<Entry>, table: Table) -> bool {
    &&& bytes::ascending(keys_of(entries))
    &&& forall|key: Seq<u8>| #[trigger]
        table.contains_key(key) <==> keys_of(entries).contains(key)
    &&& forall|i: int|
        0 <= i < entries.len() ==> table[(#[trigger] entries[i]).0] == entries[i].1
}

/// A report on two tables matches exactly if they hold the same.
pub proof fn matched_means_equal_tables(
    report: &DualWriteReport,
    primary: Seq<Entry>,
    shadow: Seq<Entry>,
    p: Table,
    s: Table,
)
    requires
        lists_in_order(primary, p),
        lists_in_order(shadow, s),
        report.reports_on(primary, shadow),
    ensures
        report.matched() <==> p == s,
{
    matched_means_equal(report, primary, shadow);
    let d = lockstep(primary, shadow);
    if p == s {
        no_divergence_means_equal(primary, shadow);
        if d.missing.len() > 0 {
            assert(d.missing.contains(d.missing[0]));
            ordered_divergence_is_exact(primary, shadow, d.missing[0]);
            assert(p.contains_key(d.missing[0]));
        }
        if d.extra.len() > 0 {
            assert(d.extra.contains(d.extra[0]));
            ordered_divergence_is_exact(primary, shadow, d.extra[0]);
            assert(s.contains_key(d.extra[0]));
        }
        if d.mismatched.len() > 0 {
            let key = d.mismatched[0];
            assert(d.mismatched.contains(key));
            ordered_divergence_is_exact(primary, shadow, key);
            let (i, j) = choose|i: int, j: int| #[trigger] differs_at(primary, shadow, key, i, j);
            assert(p[primary[i].0] == primary[i].1);
            assert(s[shadow[j].0] == shadow[j].1);
        }
    }
    if primary == shadow {
        assert forall|key: Seq<u8>| p.contains_key(key) <==> s.contains_key(key) by {
            assert(p.contains_key(key) <==> keys_of(primary).contains(key));
            assert(s.contains_key(key) <==> keys_of(shadow).contains(key));
        }
        assert forall|key: Seq<u8>| #[trigger] p.contains_key(key) implies p[key] == s[key] by {
            let keys = keys_of(primary);
            let i = choose|i: int| 0 <= i < keys.len() && keys[i] == key;
            assert(primary[i].0 == key);
            assert(p[primary[i].0] == primary[i].1);
            assert(s[shadow[i].0] == shadow[i].1);
        }
        assert(p =~= s);
    }
}

/// A table after some batches of writes, in their order. A single write is a batch of one.
pub open spec fn apply_batches(table: Table, batches: Seq<Seq<WriteOp>>) -> Table
    decreases batches.len(),
{
    if batches.len() == 0 {
        table
    } else {
        apply_ops(apply_batches(table, batches.drop_last()), batches.last())
    }
}

/// Two stores that hold the same, and then take the same writes, match whenever they are compared.
pub proof fn mirrored_writes_match(
    report: &DualWriteReport,
    p: Table,
    s: Table,
    batches: Seq<Seq<WriteOp>>,
    primary: Seq<Entry>,
    shadow: Seq<Entry>,
)
    requires
        p == s,
        lists_in_order(primary, apply_batches(p, batches)),
        lists_in_order(shadow, apply_batches(s, batches)),
        report.reports_on(primary, shadow),
    ensures
        report.matched(),
{
    matched_means_equal_tables(
        report,
        primary,
        shadow,
        apply_batches(p, batches),
        apply_batches(s, batches),
    );
}

/// How far a mirrored write has come: what is to be done next.
#[derive(Clone, Copy, Debug, PartialEq, Eq, Structural)]
pub enum MirrorStage {
    /// Make the write at a position in the primary.
    Primary(usize),
    /// Make all the writes in the shadow.
    Shadow,
    /// Nothing: both stores have the writes.
    Done,
    /// Nothing: a store failed.
    Failed,
}

/// What is to be done when the first `made` of `count` writes were made in the primary.
pub open spec fn stage_at(count: int, made: int) -> MirrorStage {
    if made < count {
        MirrorStage::Primary(made as usize)
    } else {
        MirrorStage::Shadow
    }
}

/// What is to be done after a step that was answered by success or not.
pub open spec fn mirror_stage_after(count: int, stage: MirrorStage, taken: bool) -> MirrorStage {
    match stage {
        MirrorStage::Primary(i) => if taken {
            stage_at(count, i + 1)
        } else {
            MirrorStage::Failed
        },
        MirrorStage::Shadow => if taken {
            MirrorStage::Done
        } else {
            MirrorStage::Failed
        },
        _ => stage,
    }
}

/// What a mirrored write begins with.
pub fn first_mirror_stage(count: usize) -> (r: MirrorStage)
    ensures
        r == stage_at(count as int, 0),
{
    if count > 0 {
        MirrorStage::Primary(0)
    } else {
        MirrorStage::Shadow
    }
}

/// What is to be done after a step that was answered by success or not.
pub fn next_mirror_stage(count: usize, stage: MirrorStage, taken: bool) -> (r: MirrorStage)
    ensures
        r == mirror_stage_after(count as int, stage, taken),
{
    match stage {
        MirrorStage::Primary(i) => if !taken {
            MirrorStage::Failed
        } else if i < count && i + 1 < count {
            MirrorStage::Primary(i + 1)
        } else {
            MirrorStage::Shadow
        },
        MirrorStage::Shadow => if taken {
            MirrorStage::Done
        } else {
            MirrorStage::Failed
        },
        _ => stage,
    }
}

/// Where a mirrored write of `count` writes stands after some answers.
pub open spec fn mirror_run(count: int, answers: Seq<bool>) -> MirrorStage
    decreases answers.len(),
{
    if answers.len() == 0 {
        stage_at(count, 0)
    } else {
        mirror_stage_after(count, mirror_run(count, answers.drop_last()), answers.last())
    }
}

/// The shadow is written to when the primary has taken every write, and not before: once the
/// primary has failed to take one, neither the rest of them nor the shadow is ever come to.
pub proof fn failed_primaries_never_reach_the_shadow(count: usize, answers: Seq<bool>)
    ensures
        mirror_run(count as int, answers) == (if exists|i: int|
            0 <= i < answers.len() && i <= count && !(#[trigger] answers[i]) {
            MirrorStage::Failed
        } else if answers.len() <= count {
            stage_at(count as int, answers.len() as int)
        } else {
            MirrorStage::Done
        }),
    decreases answers.len(),
{
    if answers.len() > 0 {
        let before = answers.drop_last();
        let n = before.len() as int;
        failed_primaries_never_reach_the_shadow(count, before);
        let failed = exists|i: int|
            0 <= i < before.len() && i <= count && !(#[trigger] before[i]);
        if failed {
            let i = choose|i: int| 0 <= i < before.len() && i <= count && !(#[trigger] before[i]);
            assert(!answers[i]);
        } else {
            assert forall|i: int| 0 <= i < n && i <= count implies #[trigger] answers[i] by {
                assert(before[i]);
            }
            assert(answers.last() == answers[n]);
        }
    }
}

/// A store that takes a batch of writes at once.
pub trait ShadowStore: DualWritePrimary {
    /// Makes all the writes, in their order, or none.
    fn dw_write_batch(&self, ops: &[BatchOp]) -> Result<(), StoreError>;
}

/// The error in the answer to a write, where there is one.
pub open spec fn failure_of(r: Result<(), StoreError>) -> Option<StoreError> {
    match r {
        Ok(_) => None,
        Err(e) => Some(e),
    }
}

/// A store may answer a put by `failure`, or by success where there is none.
pub open spec fn answers_put<P: DualWritePrimary>(
    store: &P,
    k: &[u8],
    v: &[u8],
    failure: Option<StoreError>,
) -> bool {
    exists|r: Result<(), StoreError>| #[trigger]
        call_ensures(P::dw_put, (store, k, v), r) && failure_of(r) == failure
}

/// A store may answer a removal by `failure`, or by success where there is none.
pub open spec fn answers_delete<P: DualWritePrimary>(
    store: &P,
    k: &[u8],
    failure: Option<StoreError>,
) -> bool {
    exists|r: Result<(), StoreError>| #[trigger]
        call_ensures(P::dw_delete, (store, k), r) && failure_of(r) == failure
}

/// A store may answer a write of a batch, made on its own, by `failure`, or by success where there
/// is none.
pub open spec fn answers_write<P: DualWritePrimary>(
    store: &P,
    op: BatchOp,
    failure: Option<StoreError>,
) -> bool {
    match op {
        BatchOp::Put(k, v) => answers_put(store, k, v, failure),
        BatchOp::Delete(k) => answers_delete(store, k, failure),
    }
}

/// A store may answer each of the first `n` writes of a batch by success.
pub open spec fn takes_writes<P: DualWritePrimary>(store: &P, ops: Seq<BatchOp>, n: int) -> bool {
    forall|i: int| 0 <= i < n ==> answers_write(store, #[trigger] ops[i], None)
}

/// A store may answer a whole batch by `failure`, or by success where there is none.
pub open spec fn answers_batch<S: ShadowStore>(
    store: &S,
    ops: &[BatchOp],
    failure: Option<StoreError>,
) -> bool {
    exists|r: Result<(), StoreError>| #[trigger]
        call_ensures(S::dw_write_batch, (store, ops), r) && failure_of(r) == failure
}

/// A store may list all its entries by `r`.
pub open spec fn lists_entries<P: DualWritePrimary>(
    store: &P,
    r: Result<Vec<(Vec<u8>, Vec<u8>)>, StoreError>,
) -> bool {
    exists|lower: &[u8]|
        lower@.len() == 0 && #[trigger] call_ensures(P::dw_iter_range, (store, lower, None), r)
}

/// A store and its shadow: what is written to the one is written to the other. Reads come from the
/// primary alone.
pub struct MdbxShadowMirror<P: DualWritePrimary, S: ShadowStore> {
    primary: P,
    shadow: S,
    column: Column,
}

impl<P: DualWritePrimary, S: ShadowStore> MdbxShadowMirror<P, S> {
    /// The store that is read.
    pub closed spec fn spec_primary(&self) -> P {
        self.primary
    }

    /// The store that follows.
    pub closed spec fn spec_shadow(&self) -> S {
        self.shadow
    }

    /// The table that is mirrored.
    pub closed spec fn spec_column(&self) -> Column {
        self.column
    }

    /// A mirror of two stores.
    pub fn new(primary: P, shadow: S, column: Column) -> (r: Self)
        ensures
            r.spec_primary() == primary,
            r.spec_shadow() == shadow,
            r.spec_column() == column,
    {
        MdbxShadowMirror { primary, shadow, column }
    }

    /// The store that is read.
    pub fn primary(&self) -> (r: &P)
        ensures
            *r == self.spec_primary(),
    {
        &self.primary
    }

    /// The store that follows.
    pub fn shadow(&self) -> (r: &S)
        ensures
            *r == self.spec_shadow(),
    {
        &self.shadow
    }

    /// Writes to the primary and then to the shadow. Where the primary fails, the shadow is not
    /// written to, and the primary's error is returned.
    pub fn put(&self, k: &[u8], v: &[u8]) -> (r: Result<(), StoreError>)
        ensures
            r is Ok ==> answers_put(&self.spec_primary(), k, v, None) && answers_put(
                &self.spec_shadow(),
                k,
                v,
                None,
            ),
            r matches Err(e) ==> answers_put(&self.spec_primary(), k, v, Some(e)) || (answers_put(
                &self.spec_primary(),
                k,
                v,
                None,
            ) && answers_put(&self.spec_shadow(), k, v, Some(e))),
    {
        let answer = self.primary.dw_put(k, v);
        match next_mirror_stage(1, first_mirror_stage(1), answer.is_ok()) {
            MirrorStage::Shadow => self.shadow.dw_put(k, v),
            _ => answer,
        }
    }

    /// Removes from the primary and then from the shadow. Where the primary fails, the shadow is
    /// left alone, and the primary's error is returned.
    pub fn delete(&self, k: &[u8]) -> (r: Result<(), StoreError>)
        ensures
            r is Ok ==> answers_delete(&self.spec_primary(), k, None) && answers_delete(
                &self.spec_shadow(),
                k,
                None,
            ),
            r matches Err(e) ==> answers_delete(&self.spec_primary(), k, Some(e)) || (
            answers_delete(&self.spec_primary(), k, None) && answers_delete(
                &self.spec_shadow(),
                k,
                Some(e),
            )),
    {
        let answer = self.primary.dw_delete(k);
        match next_mirror_stage(1, first_mirror_stage(1), answer.is_ok()) {
            MirrorStage::Shadow => self.shadow.dw_delete(k),
            _ => answer,
        }
    }

    /// Makes the writes of a batch one by one in the primary, and then all at once in the shadow.
    /// The first error of the primary ends it, before the shadow is written to.
    pub fn write_batch(&self, ops: &[BatchOp]) -> (r: Result<(), StoreError>)
        ensures
            r is Ok ==> takes_writes(&self.spec_primary(), ops@, ops@.len() as int)
                && answers_batch(&self.spec_shadow(), ops, None),
            r matches Err(e) ==> (exists|i: int|
                0 <= i < ops@.len() && takes_writes(&self.spec_primary(), ops@, i)
                    && answers_write(&self.spec_primary(), #[trigger] ops@[i], Some(e))) || (
            takes_writes(&self.spec_primary(), ops@, ops@.len() as int) && answers_batch(
                &self.spec_shadow(),
                ops,
                Some(e),
            )),
    {
        let mut stage = first_mirror_stage(ops.len());
        let ghost mut made: int = 0;
        loop
            invariant
                0 <= made <= ops@.len(),
                stage == stage_at(ops@.len() as int, made),
                takes_writes(&self.primary, ops@, made),
            ensures
                takes_writes(&self.primary, ops@, ops@.len() as int),
            decreases ops@.len() - made,
        {
            let i: usize = match stage {
                MirrorStage::Primary(i) => i,
                _ => {
                    break;
                },
            };
            let answer = match ops[i] {
                BatchOp::Put(k, v) => self.primary.dw_put(k, v),
                BatchOp::Delete(k) => self.primary.dw_delete(k),
            };
            assert(answers_write(&self.primary, ops@[i as int], failure_of(answer)));
            stage = next_mirror_stage(ops.len(), stage, answer.is_ok());
            if stage == MirrorStage::Failed {
                return answer;
            }
            proof {
                made = made + 1;
            }
        }
        self.shadow.dw_write_batch(ops)
    }

    /// The value of a key, in the primary.
    pub fn get(&self, k: &[u8]) -> (r: Result<Option<Vec<u8>>, StoreError>)
        ensures
            call_ensures(P::dw_get, (&self.spec_primary(), k), r),
    {
        self.primary.dw_get(k)
    }

    /// Compares everything that the two stores hold, the primary read first.
    pub fn verify_parity(&self) -> (r: Result<DualWriteReport, StoreError>)
        ensures
            r matches Ok(report) ==> {
                &&& report.table@ == mdbx_columns::column_name(self.spec_column())
                &&& exists|primary: Vec<(Vec<u8>, Vec<u8>)>, shadow: Vec<(Vec<u8>, Vec<u8>)>|
                    {
                        &&& lists_entries(&self.spec_primary(), Ok(primary))
                        &&& lists_entries(&self.spec_shadow(), Ok(shadow))
                        &&& #[trigger] report.reports_on(
                            entry_views(primary@),
                            entry_views(shadow@),
                        )
                    }
            },
            r matches Err(e) ==> lists_entries(&self.spec_primary(), Err(e)) || (exists|
                primary: Vec<(Vec<u8>, Vec<u8>)>,
            | #[trigger]
                lists_entries(&self.spec_primary(), Ok(primary)) && lists_entries(
                    &self.spec_shadow(),
                    Err(e),
                )),
    {
        let none: [u8; 0] = [];
        let everything: &[u8] = none.as_slice();
        let listed = self.primary.dw_iter_range(everything, None);
        assert(lists_entries(&self.primary, listed));
        let primary = match listed {
            Ok(entries) => entries,
            Err(e) => {
                return Err(e);
            },
        };
        let mirrored = self.shadow.dw_iter_range(everything, None);
        assert(lists_entries(&self.shadow, mirrored));
        let shadow = match mirrored {
            Ok(entries) => entries,
            Err(e) => {
                return Err(e);
            },
        };
        let report = compare_tables(self.column, &primary, &shadow);
        assert(report.table@ == mdbx_columns::column_name(self.spec_column()));
        assert(lists_entries(&self.spec_primary(), Ok(primary)));
        assert(lists_entries(&self.spec_shadow(), Ok(shadow)));
        assert(report.reports_on(entry_views(primary@), entry_views(shadow@)));
        Ok(report)
    }
}

} // verus!
