//! What holds of every maintenance of the snapshots.

use super::maintenance;
use super::maintenance::ConfirmedEpoch;
use super::retention::RetentionConfig;
use crate::hash::{null_epoch, EpochId};
use crate::storage::snapshot_info::{SnapshotInfoView, SnapshotKeptToProvideSyncStatus};
use vstd::prelude::*;

verus! {

/// No two snapshots are taken at the same epoch.
pub open spec fn distinct_epochs(infos: Seq<SnapshotInfoView>) -> bool {
    forall|i: int, j: int|
        0 <= i < j < infos.len() ==> (#[trigger] infos[i]).epoch() != (#[trigger] infos[j]).epoch()
}

/// A snapshot stands behind its parent and is higher; only the genesis snapshot, which is its own
/// parent, is an exception.
pub open spec fn parents_first(infos: Seq<SnapshotInfoView>) -> bool {
    &&& forall|i: int, j: int|
        0 <= i < infos.len() && 0 <= j < infos.len() && (#[trigger] infos[j]).epoch() == (
        #[trigger] infos[i]).parent && infos[i].epoch() != null_epoch() ==> j < i
            && infos[j].height < infos[i].height
    &&& forall|i: int|
        0 <= i < infos.len() && (#[trigger] infos[i]).epoch() == null_epoch() ==> infos[i].parent
            == null_epoch() && infos[i].height == 0
}

pub(crate) proof fn filter_contains(s: Seq<EpochId>, f: spec_fn(EpochId) -> bool, e: EpochId)
    ensures
        s.filter(f).contains(e) <==> s.contains(e) && f(e),
    decreases s.len(),
{
    reveal(Seq::filter);
    if s.len() > 0 {
        filter_contains(s.drop_last(), f, e);
        let head = s.drop_last().filter(f);
        if s.contains(e) {
            let i = choose|i: int| 0 <= i < s.len() && s[i] == e;
            if i < s.len() - 1 {
                assert(s.drop_last()[i] == e);
            }
        }
        if s.drop_last().contains(e) {
            let i = choose|i: int| 0 <= i < s.drop_last().len() && s.drop_last()[i] == e;
            assert(s[i] == e);
        }
        if f(s.last()) {
            assert(s.filter(f) == head.push(s.last()));
            if head.contains(e) {
                let i = choose|i: int| 0 <= i < head.len() && head[i] == e;
                assert(head.push(s.last())[i] == e);
            }
            if s.last() == e {
                assert(head.push(s.last())[head.len() as int] == e);
                assert(s[s.len() - 1] == e);
            }
            if head.push(s.last()).contains(e) && !head.contains(e) {
                let i = choose|i: int|
                    0 <= i < head.push(s.last()).len() && head.push(s.last())[i] == e;
                if i < head.len() {
                    assert(head[i] == e);
                }
            }
        }
    }
}

pub(crate) proof fn entry_is_only_one(infos: Seq<SnapshotInfoView>, i: int)
    requires
        distinct_epochs(infos),
        0 <= i < infos.len(),
    ensures
        maintenance::entry_of(infos, infos[i].epoch()) == Some(i),
    decreases infos.len(),
{
    if i < infos.len() - 1 {
        let head = infos.drop_last();
        assert(infos[i].epoch() != infos[infos.len() - 1].epoch());
        assert forall|a: int, b: int| 0 <= a < b < head.len() implies (#[trigger] head[a]).epoch()
            != (#[trigger] head[b]).epoch() by {
            assert(infos[a].epoch() != infos[b].epoch());
        }
        entry_is_only_one(head, i);
        assert(head[i] == infos[i]);
    }
}

pub(crate) proof fn entry_is_in_list(infos: Seq<SnapshotInfoView>, e: EpochId)
    ensures
        maintenance::entry_of(infos, e) matches Some(j) ==> 0 <= j < infos.len()
            && infos[j].epoch() == e,
    decreases infos.len(),
{
    if infos.len() > 0 {
        entry_is_in_list(infos.drop_last(), e);
    }
}

/// Two walks up the chain of parents, one after the other, are one walk.
pub proof fn leads_to_composes(
    infos: Seq<SnapshotInfoView>,
    p: EpochId,
    q: EpochId,
    e: EpochId,
    k: nat,
    l: nat,
)
    requires
        maintenance::leads_to(infos, p, q, k),
        maintenance::leads_to(infos, q, e, l),
    ensures
        maintenance::leads_to(infos, p, e, k + l),
    decreases k,
{
    if k > 0 {
        let j = maintenance::entry_of(infos, p)->0;
        leads_to_composes(infos, infos[j].parent, q, e, (k - 1) as nat, l);
    }
}

/// Where a snapshot survives the removal, so do all of its ancestors: the chain of deltas from
/// any snapshot down to the null epoch is never broken by a removal.
pub proof fn survivors_keep_their_ancestors(
    infos: Seq<SnapshotInfoView>,
    removing: Seq<EpochId>,
    i: int,
    e: EpochId,
    k: nat,
)
    requires
        distinct_epochs(infos),
        maintenance::is_ancestor(infos, i, e, k),
        !maintenance::unprotected(infos, removing, removing).contains(infos[i].epoch()),
    ensures
        !maintenance::unprotected(infos, removing, removing).contains(e),
{
    let f = |x: EpochId| !maintenance::is_protected(infos, removing, x);
    let own = infos[i].epoch();
    filter_contains(removing, f, own);
    filter_contains(removing, f, e);
    if removing.contains(e) {
        if removing.contains(own) {
            assert(maintenance::is_protected(infos, removing, own));
            let (s, l) = choose|s: int, l: nat| #[trigger]
                maintenance::is_ancestor(infos, s, own, l) && !removing.contains(
                    infos[s].epoch(),
                );
            entry_is_only_one(infos, i);
            leads_ends_off_null(infos, infos[s].parent, own, l);
            assert(maintenance::leads_to(infos, own, e, k + 1));
            leads_to_composes(infos, infos[s].parent, own, e, l, k + 1);
            assert(maintenance::is_ancestor(infos, s, e, l + (k + 1)));
        }
        assert(maintenance::is_protected(infos, removing, e));
    }
}

pub(crate) proof fn leads_ends_off_null(infos: Seq<SnapshotInfoView>, p: EpochId, e: EpochId, k: nat)
    requires
        maintenance::leads_to(infos, p, e, k),
    ensures
        e != null_epoch(),
    decreases k,
{
    if k > 0 {
        let j = maintenance::entry_of(infos, p)->0;
        leads_ends_off_null(infos, infos[j].parent, e, (k - 1) as nat);
    }
}

/// Protecting ancestors only ever keeps more snapshots: nothing is removed that was not to be.
pub proof fn protection_only_retains(
    infos: Seq<SnapshotInfoView>,
    removing: Seq<EpochId>,
    s: Seq<EpochId>,
    e: EpochId,
)
    requires
        maintenance::unprotected(infos, removing, s).contains(e),
    ensures
        s.contains(e),
{
    filter_contains(s, |x: EpochId| !maintenance::is_protected(infos, removing, x), e);
}

/// The epoch was seen by the scan and has its place: its data is removed as old, or it is kept
/// for sync, or it is a fork.
pub open spec fn is_placed(st: maintenance::LowerScanView, e: EpochId) -> bool {
    ||| st.old_main.contains(e)
    ||| st.kept.contains((e, SnapshotKeptToProvideSyncStatus::InfoAndSnapshot))
    ||| st.non_main.contains(e)
}

proof fn placed_stays_placed(
    at: ConfirmedEpoch,
    conf: &RetentionConfig,
    stable: u64,
    era: u64,
    st: maintenance::LowerScanView,
    info: SnapshotInfoView,
    e: EpochId,
)
    requires
        is_placed(st, e),
    ensures
        is_placed(maintenance::lower_step(at, conf, stable, era, st, info), e),
{
    let next = maintenance::lower_step(at, conf, stable, era, st, info);
    if st.old_main.contains(e) {
        let i = choose|i: int| 0 <= i < st.old_main.len() && st.old_main[i] == e;
        assert(next.old_main[i] == e);
    } else if st.non_main.contains(e) {
        let i = choose|i: int| 0 <= i < st.non_main.len() && st.non_main[i] == e;
        assert(next.non_main[i] == e);
    } else {
        let pair = (e, SnapshotKeptToProvideSyncStatus::InfoAndSnapshot);
        let i = choose|i: int| 0 <= i < st.kept.len() && st.kept[i] == pair;
        assert(next.kept[i] == pair);
    }
}

/// Every snapshot below the confirmed one is accounted for: it is removed as old, kept for sync,
/// or found to be a fork.
pub proof fn lower_snapshots_are_accounted_for(
    at: ConfirmedEpoch,
    conf: &RetentionConfig,
    stable: u64,
    era: u64,
    infos: Seq<SnapshotInfoView>,
    n: nat,
    i: int,
)
    requires
        n <= infos.len(),
        infos.len() - n <= i < infos.len(),
        infos[i].height < maintenance::snapshot_height(at.height, conf.snapshot_epoch_count),
    ensures
        is_placed(maintenance::lower_scan(at, conf, stable, era, infos, n), infos[i].epoch()),
    decreases n,
{
    let before = maintenance::lower_scan(at, conf, stable, era, infos, (n - 1) as nat);
    let info = infos[infos.len() - n];
    let after = maintenance::lower_step(at, conf, stable, era, before, info);
    if i > infos.len() - n {
        lower_snapshots_are_accounted_for(at, conf, stable, era, infos, (n - 1) as nat, i);
        placed_stays_placed(at, conf, stable, era, before, info, infos[i].epoch());
    } else {
        let e = info.epoch();
        if e != before.prev {
            if !before.non_main.contains(e) {
                assert(after.non_main.last() == e);
            }
        } else if maintenance::rule_keeps(conf, stable, era, info.height) {
            assert(after.kept.last() == (e, SnapshotKeptToProvideSyncStatus::InfoAndSnapshot));
        } else {
            assert(after.old_main.last() == e);
        }
    }
}

/// `e` is the confirmed snapshot or one of its ancestors.
pub open spec fn on_confirmed_chain(
    infos: Seq<SnapshotInfoView>,
    at: ConfirmedEpoch,
    e: EpochId,
    k: nat,
) -> bool {
    maintenance::leads_to(infos, at.snapshot_epoch_id, e, k)
}

pub(crate) proof fn chain_goes_up(infos: Seq<SnapshotInfoView>, p: EpochId, e: EpochId, k: nat)
    requires
        distinct_epochs(infos),
        parents_first(infos),
        maintenance::leads_to(infos, p, e, k),
        maintenance::entry_of(infos, e) is Some,
        k > 0,
    ensures
        maintenance::entry_of(infos, p) is Some,
        maintenance::entry_of(infos, e)->0 < maintenance::entry_of(infos, p)->0,
        infos[maintenance::entry_of(infos, e)->0].height < infos[maintenance::entry_of(
            infos,
            p,
        )->0].height,
    decreases k,
{
    entry_is_in_list(infos, p);
    entry_is_in_list(infos, e);
    let j = maintenance::entry_of(infos, p)->0;
    let q = infos[j].parent;
    let x = maintenance::entry_of(infos, e)->0;
    leads_ends_off_null(infos, p, e, k);
    assert(infos[j].epoch() != null_epoch());
    if k == 1 {
        assert(maintenance::leads_to(infos, q, e, 0));
        assert(infos[x].epoch() == infos[j].parent);
    } else {
        chain_goes_up(infos, q, e, (k - 1) as nat);
        entry_is_in_list(infos, q);
        let m = maintenance::entry_of(infos, q)->0;
        assert(infos[m].epoch() == infos[j].parent);
        assert(q != null_epoch());
    }
}

/// The chain of the confirmed snapshot goes down to the null epoch, by way of the snapshot at `e`.
pub open spec fn chain_ends_at_null(
    infos: Seq<SnapshotInfoView>,
    at: ConfirmedEpoch,
    e: EpochId,
    k: nat,
) -> bool {
    &&& on_confirmed_chain(infos, at, e, k)
    &&& maintenance::entry_of(infos, e) is Some
    &&& infos[maintenance::entry_of(infos, e)->0].parent == null_epoch()
}

/// What the lower scan keeps about the confirmed chain once it has seen the entries from `m` on.
pub open spec fn chain_untouched(
    infos: Seq<SnapshotInfoView>,
    at: ConfirmedEpoch,
    st: maintenance::LowerScanView,
    c: int,
    m: int,
) -> bool {
    &&& forall|e: EpochId, k: nat|
        st.non_main.contains(e) ==> !#[trigger] on_confirmed_chain(infos, at, e, k)
    &&& st.non_main.contains(null_epoch()) ==> forall|e: EpochId, k: nat|
        !#[trigger] chain_ends_at_null(infos, at, e, k)
    &&& c >= m ==> exists|e: EpochId, k: nat|
        {
            &&& #[trigger] on_confirmed_chain(infos, at, e, k)
            &&& maintenance::entry_of(infos, e) is Some
            &&& maintenance::entry_of(infos, e)->0 >= m
            &&& st.prev == infos[maintenance::entry_of(infos, e)->0].parent
            &&& (maintenance::entry_of(infos, st.prev) matches Some(j) ==> st.prev
                == null_epoch() || j < m)
        }
}

proof fn chain_is_linear(infos: Seq<SnapshotInfoView>, p: EpochId, a: EpochId, b: EpochId, k: nat, l: nat)
    requires
        maintenance::leads_to(infos, p, a, k),
        maintenance::leads_to(infos, p, b, l),
        k <= l,
    ensures
        maintenance::leads_to(infos, a, b, (l - k) as nat),
    decreases k,
{
    if k > 0 {
        let j = maintenance::entry_of(infos, p)->0;
        chain_is_linear(infos, infos[j].parent, a, b, (k - 1) as nat, (l - 1) as nat);
    }
}

/// Where the walk down the chain has come past `x` without having met its end, the chain does not
/// end above `x`.
proof fn no_null_end_above(
    infos: Seq<SnapshotInfoView>,
    at: ConfirmedEpoch,
    e: EpochId,
    k: nat,
    e0: EpochId,
    k0: nat,
    x: int,
)
    requires
        distinct_epochs(infos),
        parents_first(infos),
        0 <= x < infos.len(),
        infos[x].epoch() == null_epoch(),
        on_confirmed_chain(infos, at, e0, k0),
        maintenance::entry_of(infos, e0) is Some,
        infos[maintenance::entry_of(infos, e0)->0].parent != null_epoch(),
        maintenance::entry_of(infos, infos[maintenance::entry_of(infos, e0)->0].parent) matches Some(
            j,
        ) ==> j <= x,
    ensures
        !chain_ends_at_null(infos, at, e, k),
{
    if chain_ends_at_null(infos, at, e, k) {
        let y = maintenance::entry_of(infos, e)->0;
        let prev = infos[maintenance::entry_of(infos, e0)->0].parent;
        entry_is_in_list(infos, e);
        leads_ends_off_null(infos, at.snapshot_epoch_id, e, k);
        assert(infos[x].epoch() == infos[y].parent);
        assert(x < y);
        if k <= k0 {
            chain_is_linear(infos, at.snapshot_epoch_id, e, e0, k, k0);
            if k < k0 {
                assert(maintenance::leads_to(infos, infos[y].parent, e0, (k0 - k - 1) as nat));
            }
        } else {
            chain_is_linear(infos, at.snapshot_epoch_id, e0, e, k0, k);
            let d = (k - k0) as nat;
            assert(maintenance::leads_to(infos, prev, e, (d - 1) as nat));
            if d > 1 {
                chain_goes_up(infos, prev, e, (d - 1) as nat);
            }
        }
    }
}

pub(crate) proof fn scan_leaves_chain(
    at: ConfirmedEpoch,
    conf: &RetentionConfig,
    stable: u64,
    era: u64,
    infos: Seq<SnapshotInfoView>,
    c: int,
    n: nat,
)
    requires
        distinct_epochs(infos),
        parents_first(infos),
        n <= infos.len(),
        0 <= c < infos.len(),
        infos[c].epoch() == at.snapshot_epoch_id,
        infos[c].height == maintenance::snapshot_height(at.height, conf.snapshot_epoch_count),
        at.snapshot_epoch_id != null_epoch(),
    ensures
        chain_untouched(
            infos,
            at,
            maintenance::lower_scan(at, conf, stable, era, infos, n),
            c,
            infos.len() - n,
        ),
    decreases n,
{
    let m = infos.len() - n;
    let after = maintenance::lower_scan(at, conf, stable, era, infos, n);
    entry_is_only_one(infos, c);
    assert(on_confirmed_chain(infos, at, at.snapshot_epoch_id, 0));
    if n > 0 {
        let before = maintenance::lower_scan(at, conf, stable, era, infos, (n - 1) as nat);
        scan_leaves_chain(at, conf, stable, era, infos, c, (n - 1) as nat);
        let x = m;
        let info = infos[x];
        entry_is_only_one(infos, x);
        let fork = maintenance::with_epoch(before.non_main, info.epoch());
        if x == c {
            let e = at.snapshot_epoch_id;
            assert(on_confirmed_chain(infos, at, e, 0));
            if maintenance::entry_of(infos, info.parent) is Some && info.parent != null_epoch() {
                entry_is_in_list(infos, info.parent);
                let j = maintenance::entry_of(infos, info.parent)->0;
                assert(infos[j].epoch() == infos[x].parent);
            }
        } else if x > c {
            // Entries behind the confirmed snapshot are not among its ancestors.
            assert forall|k: nat| !#[trigger] on_confirmed_chain(infos, at, info.epoch(), k) by {
                if on_confirmed_chain(infos, at, info.epoch(), k) {
                    if k > 0 {
                        chain_goes_up(infos, at.snapshot_epoch_id, info.epoch(), k);
                    } else {
                        assert(infos[c].epoch() != infos[x].epoch());
                    }
                }
            }
            if info.epoch() == null_epoch() {
                // Genesis stands before everything that descends from it.
                assert forall|e: EpochId, k: nat| !#[trigger]
                    chain_ends_at_null(infos, at, e, k) by {
                    if chain_ends_at_null(infos, at, e, k) {
                        entry_is_in_list(infos, e);
                        leads_ends_off_null(infos, at.snapshot_epoch_id, e, k);
                        let y = maintenance::entry_of(infos, e)->0;
                        assert(infos[x].epoch() == infos[y].parent);
                        if k > 0 {
                            chain_goes_up(infos, at.snapshot_epoch_id, e, k);
                        }
                    }
                }
            }
            fork_adds_only(before.non_main, info.epoch());
        } else {
            let (e0, k0) = choose|e: EpochId, k: nat|
                {
                    &&& #[trigger] on_confirmed_chain(infos, at, e, k)
                    &&& maintenance::entry_of(infos, e) is Some
                    &&& maintenance::entry_of(infos, e)->0 >= m + 1
                    &&& before.prev == infos[maintenance::entry_of(infos, e)->0].parent
                    &&& (maintenance::entry_of(infos, before.prev) matches Some(j) ==> before.prev
                        == null_epoch() || j < m + 1)
                };
            let y = maintenance::entry_of(infos, e0)->0;
            entry_is_in_list(infos, e0);
            leads_ends_off_null(infos, at.snapshot_epoch_id, e0, k0);
            entry_is_in_list(infos, before.prev);
            assert(infos[x].epoch() != infos[c].epoch());
            if info.epoch() == before.prev && before.prev != null_epoch() {
                // The next ancestor: the scan moves on to its parent.
                assert(maintenance::leads_to(infos, before.prev, before.prev, 0));
                assert(maintenance::leads_to(infos, e0, before.prev, 1));
                leads_to_composes(infos, at.snapshot_epoch_id, e0, before.prev, k0, 1);
                chain_goes_up(infos, at.snapshot_epoch_id, before.prev, k0 + 1);
                assert(on_confirmed_chain(infos, at, before.prev, k0 + 1));
                assert(info.height < infos[c].height);
                if maintenance::entry_of(infos, info.parent) is Some && info.parent
                    != null_epoch() {
                    entry_is_in_list(infos, info.parent);
                    let j = maintenance::entry_of(infos, info.parent)->0;
                    assert(infos[j].epoch() == infos[x].parent);
                }
            } else {
                assert forall|k: nat| !#[trigger] on_confirmed_chain(infos, at, info.epoch(), k) by {
                    if on_confirmed_chain(infos, at, info.epoch(), k) {
                        leads_ends_off_null(infos, at.snapshot_epoch_id, info.epoch(), k);
                        if k <= k0 {
                            chain_is_linear(
                                infos,
                                at.snapshot_epoch_id,
                                info.epoch(),
                                e0,
                                k,
                                k0,
                            );
                            if k < k0 {
                                chain_goes_up(infos, info.epoch(), e0, (k0 - k) as nat);
                            }
                            assert(false);
                        } else {
                            chain_is_linear(
                                infos,
                                at.snapshot_epoch_id,
                                e0,
                                info.epoch(),
                                k0,
                                k,
                            );
                            let d = (k - k0) as nat;
                            assert(maintenance::leads_to(
                                infos,
                                before.prev,
                                info.epoch(),
                                (d - 1) as nat,
                            ));
                            if d > 1 {
                                chain_goes_up(infos, before.prev, info.epoch(), (d - 1) as nat);
                                assert(before.prev != null_epoch());
                            }
                            assert(false);
                        }
                    }
                }
                fork_adds_only(before.non_main, info.epoch());
                assert(after.prev == before.prev || (info.epoch() == before.prev
                    && before.prev == null_epoch()));
                if info.epoch() == null_epoch() && info.epoch() != before.prev {
                    assert forall|e: EpochId, k: nat| !#[trigger]
                        chain_ends_at_null(infos, at, e, k) by {
                        no_null_end_above(infos, at, e, k, e0, k0, x);
                    }
                }
                // The genesis snapshot is its own parent, so that the next epoch stays the same.
                assert(after.prev == before.prev);
                assert(on_confirmed_chain(infos, at, e0, k0));
            }
        }
    }
}

pub(crate) proof fn fork_adds_only(s: Seq<EpochId>, e: EpochId)
    ensures
        forall|x: EpochId|
            maintenance::with_epoch(s, e).contains(x) ==> s.contains(x) || x == e,
{
    assert forall|x: EpochId| maintenance::with_epoch(s, e).contains(x) implies s.contains(x) || x
        == e by {
        let w = maintenance::with_epoch(s, e);
        let i = choose|i: int| 0 <= i < w.len() && w[i] == x;
        if i < s.len() {
            assert(s[i] == x);
        }
    }
}

pub(crate) proof fn forks_leave_chain(
    at: ConfirmedEpoch,
    conf: &RetentionConfig,
    stable: u64,
    era: u64,
    infos: Seq<SnapshotInfoView>,
    c: int,
    n: nat,
)
    requires
        distinct_epochs(infos),
        parents_first(infos),
        n <= infos.len(),
        0 <= c < infos.len(),
        infos[c].epoch() == at.snapshot_epoch_id,
        infos[c].height == maintenance::snapshot_height(at.height, conf.snapshot_epoch_count),
        infos[c].height < at.height,
        at.snapshot_epoch_id != null_epoch(),
    ensures
        ({
            let known = maintenance::upper_scan(
                at,
                infos,
                maintenance::lower_scan(at, conf, stable, era, infos, infos.len()).non_main,
                n,
            );
            &&& forall|e: EpochId, k: nat|
                known.contains(e) ==> !#[trigger] on_confirmed_chain(infos, at, e, k)
            &&& known.contains(null_epoch()) ==> forall|e: EpochId, k: nat|
                !#[trigger] chain_ends_at_null(infos, at, e, k)
        }),
    decreases n,
{
    let low = maintenance::lower_scan(at, conf, stable, era, infos, infos.len()).non_main;
    if n == 0 {
        scan_leaves_chain(at, conf, stable, era, infos, c, infos.len());
    } else {
        forks_leave_chain(at, conf, stable, era, infos, c, (n - 1) as nat);
        let known = maintenance::upper_scan(at, infos, low, (n - 1) as nat);
        let info = infos[n - 1];
        fork_adds_only(known, info.epoch());
        entry_is_only_one(infos, n - 1);
        entry_is_only_one(infos, c);
        if maintenance::is_off_chain(at, known, info) {
            assert forall|k: nat| !#[trigger] on_confirmed_chain(infos, at, info.epoch(), k) by {
                if on_confirmed_chain(infos, at, info.epoch(), k) {
                    leads_ends_off_null(infos, at.snapshot_epoch_id, info.epoch(), k);
                    if k > 0 {
                        chain_goes_up(infos, at.snapshot_epoch_id, info.epoch(), k);
                    }
                    assert(info.height < at.height);
                    assert(info.epoch_at(at.height) is None);
                    assert(known.contains(info.parent));
                    if info.parent == null_epoch() {
                        assert(chain_ends_at_null(infos, at, info.epoch(), k));
                    } else {
                        assert(maintenance::leads_to(infos, info.parent, info.parent, 0));
                        assert(maintenance::leads_to(infos, info.epoch(), info.parent, 1));
                        leads_to_composes(
                            infos,
                            at.snapshot_epoch_id,
                            info.epoch(),
                            info.parent,
                            k,
                            1,
                        );
                        assert(on_confirmed_chain(infos, at, info.parent, k + 1));
                    }
                }
            }
        }
    }
}

proof fn old_main_lies_below(
    at: ConfirmedEpoch,
    conf: &RetentionConfig,
    stable: u64,
    era: u64,
    infos: Seq<SnapshotInfoView>,
    n: nat,
    e: EpochId,
)
    requires
        n <= infos.len(),
        maintenance::lower_scan(at, conf, stable, era, infos, n).old_main.contains(e),
    ensures
        exists|i: int|
            0 <= i < infos.len() && (#[trigger] infos[i]).epoch() == e && infos[i].height
                < maintenance::snapshot_height(at.height, conf.snapshot_epoch_count),
    decreases n,
{
    if n > 0 {
        let before = maintenance::lower_scan(at, conf, stable, era, infos, (n - 1) as nat);
        let after = maintenance::lower_scan(at, conf, stable, era, infos, n);
        if before.old_main.contains(e) {
            old_main_lies_below(at, conf, stable, era, infos, (n - 1) as nat, e);
        } else {
            let i = choose|i: int| 0 <= i < after.old_main.len() && after.old_main[i] == e;
            if i < before.old_main.len() {
                assert(before.old_main[i] == e);
            }
            assert(infos[infos.len() - n].epoch() == e);
        }
    }
}

proof fn genesis_is_no_fork(
    at: ConfirmedEpoch,
    conf: &RetentionConfig,
    stable: u64,
    era: u64,
    infos: Seq<SnapshotInfoView>,
    n: nat,
    m: nat,
)
    requires
        parents_first(infos),
        n <= infos.len(),
        m <= infos.len(),
        at.snapshot_epoch_id == null_epoch(),
        at.height > 0,
        maintenance::snapshot_height(at.height, conf.snapshot_epoch_count) == 0,
    ensures
        !maintenance::lower_scan(at, conf, stable, era, infos, n).non_main.contains(null_epoch()),
        n == infos.len() ==> !maintenance::upper_scan(
            at,
            infos,
            maintenance::lower_scan(at, conf, stable, era, infos, n).non_main,
            m,
        ).contains(null_epoch()),
    decreases n, m,
{
    if n > 0 {
        genesis_is_no_fork(at, conf, stable, era, infos, (n - 1) as nat, 0);
        let before = maintenance::lower_scan(at, conf, stable, era, infos, (n - 1) as nat);
        fork_adds_only(before.non_main, infos[infos.len() - n].epoch());
    }
    if n == infos.len() && m > 0 {
        genesis_is_no_fork(at, conf, stable, era, infos, n, (m - 1) as nat);
        let low = maintenance::lower_scan(at, conf, stable, era, infos, n).non_main;
        let known = maintenance::upper_scan(at, infos, low, (m - 1) as nat);
        fork_adds_only(known, infos[m - 1].epoch());
    }
}

/// The snapshot that the confirmed state is built on is never removed, and neither it nor any of
/// its ancestors is taken for a fork.
pub proof fn confirmed_snapshot_survives(
    at: ConfirmedEpoch,
    conf: &RetentionConfig,
    stable: u64,
    era: u64,
    lower_bound: u64,
    infos: Seq<SnapshotInfoView>,
    map: Map<EpochId, SnapshotInfoView>,
    tasks: Seq<(EpochId, SnapshotInfoView)>,
    c: int,
)
    requires
        distinct_epochs(infos),
        parents_first(infos),
        at.height > 0,
        conf.snapshot_epoch_count > 0,
        0 <= c < infos.len(),
        infos[c].epoch() == at.snapshot_epoch_id,
        infos[c].height == maintenance::snapshot_height(at.height, conf.snapshot_epoch_count),
    ensures
        ({
            let plan = maintenance::maintenance_plan(
                at,
                conf,
                stable,
                era,
                lower_bound,
                infos,
                map,
                tasks,
            );
            &&& !plan.old_main.contains(at.snapshot_epoch_id)
            &&& !plan.non_main.contains(at.snapshot_epoch_id)
            &&& forall|e: EpochId, k: nat| #[trigger]
                on_confirmed_chain(infos, at, e, k) ==> !plan.non_main.contains(e)
        }),
{
    maintenance::heights_are_aligned(at.height, conf.snapshot_epoch_count);
    let plan = maintenance::maintenance_plan(at, conf, stable, era, lower_bound, infos, map, tasks);
    let low = maintenance::lower_scan(at, conf, stable, era, infos, infos.len());
    let off = maintenance::forks(at, conf, stable, era, infos);
    let present = |e: EpochId| maintenance::data_present(map, e);
    let removing = low.old_main.filter(present) + off.filter(present);
    let own = at.snapshot_epoch_id;
    if own != null_epoch() {
        forks_leave_chain(at, conf, stable, era, infos, c, infos.len());
        assert(on_confirmed_chain(infos, at, own, 0));
    } else {
        genesis_is_no_fork(at, conf, stable, era, infos, infos.len(), infos.len());
    }
    assert forall|e: EpochId| plan.non_main.contains(e) implies off.contains(e) by {
        protection_only_retains(infos, removing, off.filter(present), e);
        filter_contains(off, present, e);
    }
    if plan.old_main.contains(own) {
        protection_only_retains(infos, removing, low.old_main.filter(present), own);
        filter_contains(low.old_main, present, own);
        old_main_lies_below(at, conf, stable, era, infos, infos.len(), own);
        let i = choose|i: int|
            0 <= i < infos.len() && (#[trigger] infos[i]).epoch() == own && infos[i].height
                < maintenance::snapshot_height(at.height, conf.snapshot_epoch_count);
        if i < c {
            assert(infos[i].epoch() != infos[c].epoch());
        } else if c < i {
            assert(infos[c].epoch() != infos[i].epoch());
        }
    }
}

/// A maintenance never breaks the chain of deltas: where a snapshot survives the plan, none of its
/// ancestors is removed by it.
pub proof fn maintenance_keeps_delta_chains(
    at: ConfirmedEpoch,
    conf: &RetentionConfig,
    stable: u64,
    era: u64,
    lower_bound: u64,
    infos: Seq<SnapshotInfoView>,
    map: Map<EpochId, SnapshotInfoView>,
    tasks: Seq<(EpochId, SnapshotInfoView)>,
    i: int,
    e: EpochId,
    k: nat,
)
    requires
        distinct_epochs(infos),
        maintenance::is_ancestor(infos, i, e, k),
        ({
            let plan = maintenance::maintenance_plan(
                at,
                conf,
                stable,
                era,
                lower_bound,
                infos,
                map,
                tasks,
            );
            !plan.old_main.contains(infos[i].epoch()) && !plan.non_main.contains(infos[i].epoch())
        }),
    ensures
        ({
            let plan = maintenance::maintenance_plan(
                at,
                conf,
                stable,
                era,
                lower_bound,
                infos,
                map,
                tasks,
            );
            !plan.old_main.contains(e) && !plan.non_main.contains(e)
        }),
{
    let low = maintenance::lower_scan(at, conf, stable, era, infos, infos.len());
    let off = maintenance::forks(at, conf, stable, era, infos);
    let present = |x: EpochId| maintenance::data_present(map, x);
    let old_main = low.old_main.filter(present);
    let non_main = off.filter(present);
    let removing = old_main + non_main;
    let f = |x: EpochId| !maintenance::is_protected(infos, removing, x);
    assert forall|x: EpochId|
        #![trigger removing.contains(x)]
        removing.contains(x) == (old_main.contains(x) || non_main.contains(x)) by {
        if removing.contains(x) {
            let j = choose|j: int| 0 <= j < removing.len() && removing[j] == x;
            if j < old_main.len() {
                assert(old_main[j] == x);
            } else {
                assert(non_main[j - old_main.len()] == x);
            }
        }
        if old_main.contains(x) {
            let j = choose|j: int| 0 <= j < old_main.len() && old_main[j] == x;
            assert(removing[j] == x);
        }
        if non_main.contains(x) {
            let j = choose|j: int| 0 <= j < non_main.len() && non_main[j] == x;
            assert(removing[old_main.len() + j] == x);
        }
    }
    let own = infos[i].epoch();
    filter_contains(old_main, f, own);
    filter_contains(non_main, f, own);
    filter_contains(removing, f, own);
    filter_contains(old_main, f, e);
    filter_contains(non_main, f, e);
    filter_contains(removing, f, e);
    survivors_keep_their_ancestors(infos, removing, i, e, k);
}

} // verus!
