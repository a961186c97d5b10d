//! What the plan of a maintenance says of each snapshot and of each running task.

use super::maintenance;
use super::maintenance::ConfirmedEpoch;
use super::maintenance_laws;
use super::maintenance_laws::{
    chain_ends_at_null, chain_goes_up, chain_untouched, distinct_epochs, entry_is_in_list,
    entry_is_only_one, filter_contains, fork_adds_only, leads_ends_off_null, leads_to_composes,
    on_confirmed_chain, parents_first, scan_leaves_chain,
};
use super::retention::{ProvideExtraSnapshotSyncConfig, RetentionConfig};
use super::retention_laws::checkpoint_answer;
use crate::hash::{null_epoch, EpochId};
use crate::storage::snapshot_info::{SnapshotInfoView, SnapshotKeptToProvideSyncStatus};
use vstd::prelude::*;

verus! {

/// The snapshot names an epoch for a height: it lies neither below its parent nor above itself, and
/// it knows as many epochs as it takes.
pub open spec fn spans(info: SnapshotInfoView, height: int) -> bool {
    &&& info.parent_height <= height <= info.height
    &&& height - info.parent_height <= info.parts.len()
}

/// The snapshot passes a height on an epoch: its parent's at the height of its parent, and above
/// that those of its own one after the other.
pub open spec fn passes(info: SnapshotInfoView, height: int, epoch: EpochId) -> bool {
    &&& spans(info, height)
    &&& epoch == if height == info.parent_height {
        info.parent
    } else {
        info.parts[height - info.parent_height - 1]
    }
}

/// The heights that the trees of the state at a height end at. The delta trie begins above the
/// greatest multiple of the count below the height, and the intermediate trie one count below that,
/// where there is room.
pub open spec fn tree_heights(height: u64, count: u32, intermediate: int, snapshot: int) -> bool {
    &&& count > 0
    &&& intermediate % (count as int) == 0
    &&& if height == 0 {
        intermediate == 0
    } else {
        0 <= intermediate < height <= intermediate + count
    }
    &&& snapshot == if intermediate >= count {
        intermediate - count
    } else {
        0
    }
}

proof fn multiples_apart(a: int, b: int, c: int)
    requires
        c > 0,
        a % c == 0,
        b % c == 0,
        -c < a - b < c,
    ensures
        a == b,
{
    vstd::arithmetic::div_mod::lemma_fundamental_div_mod(a, c);
    vstd::arithmetic::div_mod::lemma_fundamental_div_mod(b, c);
    let x = a / c;
    let y = b / c;
    assert(a == c * x && b == c * y);
    assert(x == y) by (nonlinear_arith)
        requires
            a == c * x,
            b == c * y,
            -c < a - b < c,
            c > 0,
    ;
}

/// The trees of a state end where its height says.
pub proof fn trees_end_at_their_heights(height: u64, count: u32, intermediate: int, snapshot: int)
    requires
        tree_heights(height, count, intermediate, snapshot),
    ensures
        maintenance::intermediate_height(height, count) == intermediate,
        maintenance::snapshot_height(height, count) == snapshot,
        maintenance::delta_height(height, count) == height - intermediate,
{
    maintenance::heights_are_aligned(height, count);
    if height > 0 {
        multiples_apart(
            maintenance::intermediate_height(height, count),
            intermediate,
            count as int,
        );
    }
}

proof fn cancelled_contains(
    at: ConfirmedEpoch,
    count: u32,
    off: Seq<EpochId>,
    tasks: Seq<(EpochId, SnapshotInfoView)>,
    e: EpochId,
)
    ensures
        maintenance::cancelled(at, count, off, tasks).contains(e) <==> exists|t: int|
            0 <= t < tasks.len() && (#[trigger] tasks[t]).0 == e && maintenance::must_cancel(
                at,
                count,
                off,
                tasks[t].1,
            ),
    decreases tasks.len(),
{
    let f = |t: (EpochId, SnapshotInfoView)| maintenance::must_cancel(at, count, off, t.1);
    let kept = tasks.filter(f);
    let all = maintenance::cancelled(at, count, off, tasks);
    if all.contains(e) {
        let i = choose|i: int| 0 <= i < all.len() && all[i] == e;
        assert(kept[i].0 == e);
        tasks.lemma_filter_pred(f, i);
        assert(kept.contains(kept[i]));
        tasks.lemma_filter_contains_rev(f, kept[i]);
        let t = choose|t: int| 0 <= t < tasks.len() && tasks[t] == kept[i];
        assert(tasks[t].0 == e);
    }
    if exists|t: int|
        0 <= t < tasks.len() && (#[trigger] tasks[t]).0 == e && maintenance::must_cancel(
            at,
            count,
            off,
            tasks[t].1,
        ) {
        let t = choose|t: int|
            0 <= t < tasks.len() && (#[trigger] tasks[t]).0 == e && maintenance::must_cancel(
                at,
                count,
                off,
                tasks[t].1,
            );
        tasks.lemma_filter_contains(f, t);
        let i = choose|i: int| 0 <= i < kept.len() && kept[i] == tasks[t];
        assert(all[i] == e);
    }
}

/// Which running tasks are cancelled. A task whose snapshot lies at or above the confirmed height
/// and passes it on the confirmed epoch goes on; one that passes it on another epoch is cancelled;
/// and one whose snapshot begins above it shares the fate of its parent. A task for a snapshot
/// between the intermediate epoch and the confirmed height goes on exactly if it passes the
/// intermediate epoch, and one below that is cancelled.
pub proof fn tasks_off_the_confirmed_chain_are_cancelled(
    at: ConfirmedEpoch,
    conf: &RetentionConfig,
    stable: u64,
    era: u64,
    lower_bound: u64,
    infos: Seq<SnapshotInfoView>,
    map: Map<EpochId, SnapshotInfoView>,
    tasks: Seq<(EpochId, SnapshotInfoView)>,
    t: int,
    intermediate: int,
    snapshot: int,
)
    requires
        tree_heights(at.height, conf.snapshot_epoch_count, intermediate, snapshot),
        0 <= t < tasks.len(),
        forall|u: int| 0 <= u < tasks.len() && u != t ==> (#[trigger] tasks[u]).0 != tasks[t].0,
    ensures
        ({
            let plan = maintenance::maintenance_plan(
                at,
                conf,
                stable,
                era,
                lower_bound,
                infos,
                map,
                tasks,
            );
            let off = maintenance::forks(at, conf, stable, era, infos);
            let info = tasks[t].1;
            let cancelled = plan.cancel.contains(tasks[t].0);
            if info.height < intermediate {
                cancelled
            } else if info.height < at.height {
                cancelled <==> !passes(info, intermediate, at.intermediate_epoch_id)
            } else if spans(info, at.height as int) {
                cancelled <==> !passes(info, at.height as int, at.epoch_id)
            } else {
                cancelled <==> off.contains(info.parent)
            }
        }),
        forall|e: EpochId| #[trigger]
            maintenance::maintenance_plan(
                at,
                conf,
                stable,
                era,
                lower_bound,
                infos,
                map,
                tasks,
            ).cancel.contains(e) ==> exists|u: int|
                0 <= u < tasks.len() && (#[trigger] tasks[u]).0 == e,
{
    trees_end_at_their_heights(at.height, conf.snapshot_epoch_count, intermediate, snapshot);
    let off = maintenance::forks(at, conf, stable, era, infos);
    let plan = maintenance::maintenance_plan(at, conf, stable, era, lower_bound, infos, map, tasks);
    let count = conf.snapshot_epoch_count;
    cancelled_contains(at, count, off, tasks, tasks[t].0);
    if maintenance::must_cancel(at, count, off, tasks[t].1) {
        assert(plan.cancel.contains(tasks[t].0));
    }
    assert forall|e: EpochId| #[trigger] plan.cancel.contains(e) implies exists|u: int|
        0 <= u < tasks.len() && (#[trigger] tasks[u]).0 == e by {
        cancelled_contains(at, count, off, tasks, e);
    }
}

/// A walk up the chain of parents goes from each listed snapshot to its parent.
pub proof fn chains_follow_parents(
    infos: Seq<SnapshotInfoView>,
    i: int,
    e: EpochId,
    k: nat,
)
    requires
        distinct_epochs(infos),
        0 <= i < infos.len(),
    ensures
        maintenance::leads_to(infos, infos[i].epoch(), e, 0) <==> infos[i].epoch() == e && e
            != null_epoch(),
        maintenance::leads_to(infos, infos[i].epoch(), e, k + 1) <==> infos[i].epoch()
            != null_epoch() && maintenance::leads_to(infos, infos[i].parent, e, k),
        (forall|j: int| 0 <= j < infos.len() ==> (#[trigger] infos[j]).epoch() != e)
            ==> !maintenance::leads_to(infos, e, infos[i].epoch(), k + 1),
        maintenance::is_ancestor(infos, i, e, 0) <==> infos[i].parent == e && e != null_epoch(),
        forall|p: int|
            0 <= p < infos.len() && (#[trigger] infos[p]).epoch() == infos[i].parent ==> (
            maintenance::is_ancestor(infos, i, e, k + 1) <==> infos[i].parent != null_epoch()
                && maintenance::is_ancestor(infos, p, e, k)),
{
    assert forall|p: int|
        0 <= p < infos.len() && (#[trigger] infos[p]).epoch() == infos[i].parent implies (
    maintenance::is_ancestor(infos, i, e, k + 1) <==> infos[i].parent != null_epoch()
        && maintenance::is_ancestor(infos, p, e, k)) by {
        entry_is_only_one(infos, p);
    }
    entry_is_only_one(infos, i);
    entry_is_in_list(infos, e);
}

/// The list is that of a maintenance: no epoch is listed twice, parents stand before their children,
/// the snapshot that the confirmed state is built on is listed at `c`, and genesis stands before it.
pub open spec fn is_maintained(
    at: ConfirmedEpoch,
    infos: Seq<SnapshotInfoView>,
    c: int,
    snapshot: int,
) -> bool {
    &&& distinct_epochs(infos)
    &&& parents_first(infos)
    &&& 0 <= c < infos.len()
    &&& infos[c].epoch() == at.snapshot_epoch_id
    &&& infos[c].height == snapshot
    &&& forall|i: int|
        0 <= i < infos.len() && (#[trigger] infos[i]).epoch() == null_epoch() ==> i <= c
}

/// The listed snapshot is an ancestor of the one that the confirmed state is built on; genesis is,
/// where the chain of that goes down to it.
pub open spec fn is_main(at: ConfirmedEpoch, infos: Seq<SnapshotInfoView>, i: int) -> bool {
    if infos[i].epoch() == null_epoch() {
        exists|e: EpochId, k: nat| #[trigger] chain_ends_at_null(infos, at, e, k)
    } else {
        exists|k: nat| #[trigger] on_confirmed_chain(infos, at, infos[i].epoch(), k)
    }
}

/// The listed snapshot is an old one of the main chain.
pub open spec fn is_old(
    at: ConfirmedEpoch,
    infos: Seq<SnapshotInfoView>,
    snapshot: int,
    i: int,
) -> bool {
    0 <= i < infos.len() && infos[i].height < snapshot && is_main(at, infos, i)
}

/// The retention rules keep the snapshot at a height.
pub open spec fn is_kept(conf: &RetentionConfig, stable: u64, era: u64, height: u64) -> bool {
    &&& exists|j: int|
        0 <= j < conf.provide_more_snapshot_for_sync@.len() && (
        #[trigger] conf.provide_more_snapshot_for_sync@[j])
            == ProvideExtraSnapshotSyncConfig::StableCheckpoint
    &&& checkpoint_answer(conf, stable, era, height)
}

proof fn prev_is_null_above(
    at: ConfirmedEpoch,
    conf: &RetentionConfig,
    stable: u64,
    era: u64,
    infos: Seq<SnapshotInfoView>,
    c: int,
    n: nat,
)
    requires
        is_maintained(
            at,
            infos,
            c,
            maintenance::snapshot_height(at.height, conf.snapshot_epoch_count),
        ),
        n <= infos.len() - 1 - c,
    ensures
        maintenance::lower_scan(at, conf, stable, era, infos, n).prev == null_epoch(),
    decreases n,
{
    if n > 0 {
        prev_is_null_above(at, conf, stable, era, infos, c, (n - 1) as nat);
        let x = infos.len() - n;
        assert(c < x);
        assert(infos[c].epoch() != infos[x].epoch());
    }
}

/// The lower scan comes to a snapshot below the confirmed one with its epoch in mind exactly if the
/// snapshot is on the main chain.
proof fn scan_meets_the_main_chain(
    at: ConfirmedEpoch,
    conf: &RetentionConfig,
    stable: u64,
    era: u64,
    infos: Seq<SnapshotInfoView>,
    c: int,
    x: int,
)
    requires
        is_maintained(
            at,
            infos,
            c,
            maintenance::snapshot_height(at.height, conf.snapshot_epoch_count),
        ),
        0 <= x < infos.len(),
        infos[x].height < maintenance::snapshot_height(at.height, conf.snapshot_epoch_count),
    ensures
        maintenance::lower_scan(at, conf, stable, era, infos, (infos.len() - 1 - x) as nat).prev
            == infos[x].epoch() <==> is_main(at, infos, x),
{
    let sh = maintenance::snapshot_height(at.height, conf.snapshot_epoch_count);
    let n = (infos.len() - 1 - x) as nat;
    let before = maintenance::lower_scan(at, conf, stable, era, infos, n);
    let after = maintenance::lower_scan(at, conf, stable, era, infos, n + 1);
    let e = infos[x].epoch();
    entry_is_only_one(infos, x);
    entry_is_only_one(infos, c);
    // The confirmed snapshot lies above zero, so that it is not genesis.
    assert(at.snapshot_epoch_id != null_epoch());
    scan_leaves_chain(at, conf, stable, era, infos, c, n);
    scan_leaves_chain(at, conf, stable, era, infos, c, n + 1);
    assert(after == maintenance::lower_step(at, conf, stable, era, before, infos[x]));
    if before.prev != e {
        assert(after.non_main == maintenance::with_epoch(before.non_main, e));
        with_epoch_contains(before.non_main, e, e);
    }
    if x < c {
        let m = x + 1;
        assert(chain_untouched(infos, at, before, c, m));
        let (e0, k0) = choose|e0: EpochId, k0: nat|
            {
                &&& #[trigger] on_confirmed_chain(infos, at, e0, k0)
                &&& maintenance::entry_of(infos, e0) is Some
                &&& maintenance::entry_of(infos, e0)->0 >= m
                &&& before.prev == infos[maintenance::entry_of(infos, e0)->0].parent
                &&& (maintenance::entry_of(infos, before.prev) matches Some(j) ==> before.prev
                    == null_epoch() || j < m)
            };
        entry_is_in_list(infos, e0);
        if before.prev == e {
            if e == null_epoch() {
                assert(chain_ends_at_null(infos, at, e0, k0));
            } else {
                leads_ends_off_null(infos, at.snapshot_epoch_id, e0, k0);
                assert(maintenance::leads_to(infos, e, e, 0));
                assert(maintenance::leads_to(infos, e0, e, 1));
                leads_to_composes(infos, at.snapshot_epoch_id, e0, e, k0, 1);
                assert(on_confirmed_chain(infos, at, e, k0 + 1));
            }
        }
    } else {
        assert(x != c);
        prev_is_null_above(at, conf, stable, era, infos, c, n);
        assert(e != null_epoch());
        assert forall|k: nat| !#[trigger] on_confirmed_chain(infos, at, e, k) by {
            if on_confirmed_chain(infos, at, e, k) {
                if k > 0 {
                    chain_goes_up(infos, at.snapshot_epoch_id, e, k);
                } else {
                    assert(infos[c].epoch() != infos[x].epoch());
                }
            }
        }
    }
}

proof fn with_epoch_contains(s: Seq<EpochId>, e: EpochId, x: EpochId)
    ensures
        maintenance::with_epoch(s, e).contains(x) <==> s.contains(x) || x == e,
{
    fork_adds_only(s, e);
    let w = maintenance::with_epoch(s, e);
    if s.contains(x) {
        let i = choose|i: int| 0 <= i < s.len() && s[i] == x;
        assert(w[i] == x);
    }
    if x == e && !s.contains(e) {
        assert(w[s.len() as int] == e);
    }
}

/// The listed snapshot is found to be off the confirmed chain by the lower scan.
pub open spec fn is_low_fork(
    at: ConfirmedEpoch,
    infos: Seq<SnapshotInfoView>,
    intermediate: int,
    snapshot: int,
    i: int,
) -> bool {
    let info = infos[i];
    if info.height < snapshot {
        !is_main(at, infos, i)
    } else if info.height == snapshot {
        info.epoch() != at.snapshot_epoch_id
    } else {
        info.height < at.height && !passes(info, intermediate, at.intermediate_epoch_id)
    }
}

/// The listed snapshot keeps only its info: it is an old one that the rules do not keep, above one
/// that they keep, unless it stands right before the stable checkpoint.
pub open spec fn keeps_info_only(
    at: ConfirmedEpoch,
    conf: &RetentionConfig,
    stable: u64,
    era: u64,
    infos: Seq<SnapshotInfoView>,
    snapshot: int,
    i: int,
) -> bool {
    &&& is_old(at, infos, snapshot, i)
    &&& !is_kept(conf, stable, era, infos[i].height)
    &&& infos[i].height + conf.snapshot_epoch_count != stable
    &&& exists|j: int|
        #![trigger infos[j]]
        j < i && is_old(at, infos, snapshot, j) && is_kept(conf, stable, era, infos[j].height)
}

/// One of the listed snapshots from `m` on and before `i` is an old one that the rules keep.
spec fn keeps_below(
    at: ConfirmedEpoch,
    conf: &RetentionConfig,
    stable: u64,
    era: u64,
    infos: Seq<SnapshotInfoView>,
    snapshot: int,
    m: int,
    i: int,
) -> bool {
    exists|j: int|
        #![trigger infos[j]]
        m <= j < i && is_old(at, infos, snapshot, j) && is_kept(conf, stable, era, infos[j].height)
}

proof fn push_contains<A>(s: Seq<A>, a: A, x: A)
    ensures
        s.push(a).contains(x) <==> s.contains(x) || x == a,
{
    let w = s.push(a);
    if s.contains(x) {
        let i = choose|i: int| 0 <= i < s.len() && s[i] == x;
        assert(w[i] == x);
    }
    if w.contains(x) {
        let i = choose|i: int| 0 <= i < w.len() && w[i] == x;
        if i < s.len() {
            assert(s[i] == x);
        }
    }
    assert(w[s.len() as int] == a);
}

proof fn kept_contains(
    kept: Seq<(EpochId, SnapshotKeptToProvideSyncStatus)>,
    infos: Seq<EpochId>,
    e: EpochId,
    s: SnapshotKeptToProvideSyncStatus,
)
    ensures
        (kept + maintenance::as_info_only(infos)).contains((e, s)) <==> kept.contains((e, s)) || (s
            == SnapshotKeptToProvideSyncStatus::InfoOnly && infos.contains(e)),
{
    let only = maintenance::as_info_only(infos);
    let all = kept + only;
    if all.contains((e, s)) {
        let i = choose|i: int| 0 <= i < all.len() && all[i] == (e, s);
        if i < kept.len() {
            assert(kept[i] == (e, s));
        } else {
            assert(only[i - kept.len()] == (e, s));
            assert(infos[i - kept.len()] == e);
        }
    }
    if kept.contains((e, s)) {
        let i = choose|i: int| 0 <= i < kept.len() && kept[i] == (e, s);
        assert(all[i] == (e, s));
    }
    if s == SnapshotKeptToProvideSyncStatus::InfoOnly && infos.contains(e) {
        let i = choose|i: int| 0 <= i < infos.len() && infos[i] == e;
        assert(all[kept.len() + i] == (e, s));
    }
}

/// What the lower scan says of a listed snapshot once it has seen the last `n` of them.
#[verifier::rlimit(60)]
proof fn scan_places(
    at: ConfirmedEpoch,
    conf: &RetentionConfig,
    stable: u64,
    era: u64,
    infos: Seq<SnapshotInfoView>,
    c: int,
    intermediate: int,
    snapshot: int,
    n: nat,
    i: int,
    s: SnapshotKeptToProvideSyncStatus,
)
    requires
        tree_heights(at.height, conf.snapshot_epoch_count, intermediate, snapshot),
        is_maintained(at, infos, c, snapshot),
        era > 0,
        n <= infos.len(),
        0 <= i < infos.len(),
    ensures
        ({
            let st = maintenance::lower_scan(at, conf, stable, era, infos, n);
            let m = infos.len() - n;
            let e = infos[i].epoch();
            let goes = is_old(at, infos, snapshot, i) && !is_kept(
                conf,
                stable,
                era,
                infos[i].height,
            );
            let apart = infos[i].height + conf.snapshot_epoch_count != stable;
            let below = keeps_below(at, conf, stable, era, infos, snapshot, m, i);
            &&& st.non_main.contains(e) <==> i >= m && is_low_fork(
                at,
                infos,
                intermediate,
                snapshot,
                i,
            )
            &&& st.old_main.contains(e) <==> i >= m && goes
            &&& st.old_main_infos.contains(e) <==> i >= m && goes && apart && !below
            &&& st.kept.contains((e, s)) <==> i >= m && is_old(at, infos, snapshot, i) && if is_kept(
                conf,
                stable,
                era,
                infos[i].height,
            ) {
                s == SnapshotKeptToProvideSyncStatus::InfoAndSnapshot
            } else {
                s == SnapshotKeptToProvideSyncStatus::InfoOnly && apart && below
            }
        }),
    decreases n,
{
    trees_end_at_their_heights(at.height, conf.snapshot_epoch_count, intermediate, snapshot);
    let e = infos[i].epoch();
    if n == 0 {
    } else {
        scan_places(at, conf, stable, era, infos, c, intermediate, snapshot, (n - 1) as nat, i, s);
        let before = maintenance::lower_scan(at, conf, stable, era, infos, (n - 1) as nat);
        let after = maintenance::lower_scan(at, conf, stable, era, infos, n);
        let x = infos.len() - n;
        let info = infos[x];
        assert(after == maintenance::lower_step(at, conf, stable, era, before, info));
        if x < i {
            assert(infos[x].epoch() != infos[i].epoch());
        } else if i < x {
            assert(infos[i].epoch() != infos[x].epoch());
        }
        with_epoch_contains(before.non_main, info.epoch(), e);
        push_contains(before.old_main, info.epoch(), e);
        push_contains(before.old_main_infos, info.epoch(), e);
        kept_contains(before.kept, before.old_main_infos, e, s);
        push_contains(
            before.kept + maintenance::as_info_only(before.old_main_infos),
            (info.epoch(), SnapshotKeptToProvideSyncStatus::InfoAndSnapshot),
            (e, s),
        );
        super::retention_laws::checkpoints_decide_what_is_kept(conf, stable, era, info.height, 0);
        assert(is_kept(conf, stable, era, info.height) <==> maintenance::rule_keeps(
            conf,
            stable,
            era,
            info.height,
        ));
        if info.height < snapshot {
            scan_meets_the_main_chain(at, conf, stable, era, infos, c, x);
        }
        let kept_here = is_old(at, infos, snapshot, x) && is_kept(conf, stable, era, info.height);
        let was = keeps_below(at, conf, stable, era, infos, snapshot, x + 1, i);
        let is = keeps_below(at, conf, stable, era, infos, snapshot, x, i);
        assert(is <==> was || (x < i && kept_here)) by {
            if is {
                let j = choose|j: int|
                    #![trigger infos[j]]
                    x <= j < i && is_old(at, infos, snapshot, j) && is_kept(
                        conf,
                        stable,
                        era,
                        infos[j].height,
                    );
                if j != x {
                    assert(infos[j] == infos[j]);
                }
            }
            if was {
                let j = choose|j: int|
                    #![trigger infos[j]]
                    x + 1 <= j < i && is_old(at, infos, snapshot, j) && is_kept(
                        conf,
                        stable,
                        era,
                        infos[j].height,
                    );
                assert(infos[j] == infos[j]);
            }
            if x < i && kept_here {
                assert(infos[x] == infos[x]);
            }
        }
        if info.height > snapshot && info.height < at.height {
            assert(info.epoch_at(intermediate as u64) == Some(at.intermediate_epoch_id) <==> passes(
                info,
                intermediate,
                at.intermediate_epoch_id,
            ));
        }
    }
}

proof fn low_forks_are_listed(
    at: ConfirmedEpoch,
    conf: &RetentionConfig,
    stable: u64,
    era: u64,
    infos: Seq<SnapshotInfoView>,
    n: nat,
    e: EpochId,
)
    requires
        n <= infos.len(),
        maintenance::lower_scan(at, conf, stable, era, infos, n).non_main.contains(e),
    ensures
        exists|i: int| 0 <= i < infos.len() && (#[trigger] infos[i]).epoch() == e,
    decreases n,
{
    if n > 0 {
        let before = maintenance::lower_scan(at, conf, stable, era, infos, (n - 1) as nat);
        let x = infos.len() - n;
        with_epoch_contains(before.non_main, infos[x].epoch(), e);
        if before.non_main.contains(e) {
            low_forks_are_listed(at, conf, stable, era, infos, (n - 1) as nat, e);
        } else {
            assert(infos[x].epoch() == e);
        }
    }
}

proof fn upper_scan_stays(
    at: ConfirmedEpoch,
    infos: Seq<SnapshotInfoView>,
    start: Seq<EpochId>,
    a: nat,
    b: nat,
    e: EpochId,
)
    requires
        a <= b <= infos.len(),
        forall|i: int| a <= i < b ==> (#[trigger] infos[i]).epoch() != e,
    ensures
        maintenance::upper_scan(at, infos, start, a).contains(e) <==> maintenance::upper_scan(
            at,
            infos,
            start,
            b,
        ).contains(e),
    decreases b,
{
    if a < b {
        upper_scan_stays(at, infos, start, a, (b - 1) as nat, e);
        let known = maintenance::upper_scan(at, infos, start, (b - 1) as nat);
        assert(infos[b - 1].epoch() != e);
        with_epoch_contains(known, infos[b - 1].epoch(), e);
    }
}

/// Which snapshots are forks. One that spans the confirmed height is, exactly if it passes that on
/// another epoch than the confirmed one. Any other is, exactly if its parent is, or it is itself off
/// the confirmed chain: below the snapshot that the confirmed state is built on, if it is none of
/// the ancestors of that; at the same height, if it is another one; and between that and the
/// confirmed height, if it does not pass the intermediate epoch. Genesis has no parent that matters.
pub proof fn forks_leave_the_confirmed_chain(
    at: ConfirmedEpoch,
    conf: &RetentionConfig,
    stable: u64,
    era: u64,
    infos: Seq<SnapshotInfoView>,
    c: int,
    intermediate: int,
    snapshot: int,
    i: int,
)
    requires
        tree_heights(at.height, conf.snapshot_epoch_count, intermediate, snapshot),
        is_maintained(at, infos, c, snapshot),
        at.height > 0,
        era > 0,
        0 <= i < infos.len(),
    ensures
        ({
            let off = maintenance::forks(at, conf, stable, era, infos);
            let info = infos[i];
            &&& off.contains(info.epoch()) <==> if spans(info, at.height as int) {
                !passes(info, at.height as int, at.epoch_id)
            } else {
                ||| is_low_fork(at, infos, intermediate, snapshot, i)
                ||| info.epoch() != null_epoch() && off.contains(info.parent)
            }
        }),
        forall|e: EpochId| #[trigger]
            maintenance::forks(at, conf, stable, era, infos).contains(e) ==> exists|j: int|
                0 <= j < infos.len() && (#[trigger] infos[j]).epoch() == e,
{
    trees_end_at_their_heights(at.height, conf.snapshot_epoch_count, intermediate, snapshot);
    let len = infos.len();
    let low = maintenance::lower_scan(at, conf, stable, era, infos, len).non_main;
    let off = maintenance::forks(at, conf, stable, era, infos);
    let info = infos[i];
    let e = info.epoch();
    let p = info.parent;
    let known = maintenance::upper_scan(at, infos, low, i as nat);
    let next = maintenance::upper_scan(at, infos, low, (i + 1) as nat);
    scan_places(
        at,
        conf,
        stable,
        era,
        infos,
        c,
        intermediate,
        snapshot,
        len,
        i,
        SnapshotKeptToProvideSyncStatus::No,
    );
    assert forall|j: int| 0 <= j < i implies (#[trigger] infos[j]).epoch() != e by {}
    assert forall|j: int| i < j < len implies (#[trigger] infos[j]).epoch() != e by {
        assert(infos[i].epoch() != infos[j].epoch());
    }
    upper_scan_stays(at, infos, low, 0, i as nat, e);
    upper_scan_stays(at, infos, low, (i + 1) as nat, len, e);
    with_epoch_contains(known, e, e);
    assert(next == if maintenance::is_off_chain(at, known, info) {
        maintenance::with_epoch(known, e)
    } else {
        known
    });
    assert(off.contains(e) <==> low.contains(e) || maintenance::is_off_chain(at, known, info));
    assert(info.epoch_at(at.height) is Some <==> spans(info, at.height as int));
    if e != null_epoch() {
        assert forall|j: int| i <= j < len implies (#[trigger] infos[j]).epoch() != p by {
            if infos[j].epoch() == infos[i].parent {
                assert(j < i);
            }
        }
        upper_scan_stays(at, infos, low, i as nat, len, p);
    }
    assert forall|x: EpochId| #[trigger] off.contains(x) implies exists|j: int|
        0 <= j < infos.len() && (#[trigger] infos[j]).epoch() == x by {
        if forall|j: int| 0 <= j < infos.len() ==> (#[trigger] infos[j]).epoch() != x {
            upper_scan_stays(at, infos, low, 0, len, x);
            low_forks_are_listed(at, conf, stable, era, infos, len, x);
        }
    }
}

/// The record does not say that the data of the snapshot is gone already.
pub open spec fn has_data(map: Map<EpochId, SnapshotInfoView>, e: EpochId) -> bool {
    !(map.contains_key(e) && map[e].kept == SnapshotKeptToProvideSyncStatus::InfoOnly)
}

/// A snapshot that the plan does not remove descends from the snapshot at `e`.
pub open spec fn is_needed(
    infos: Seq<SnapshotInfoView>,
    plan: maintenance::MaintenancePlanView,
    e: EpochId,
) -> bool {
    exists|i: int, k: nat| #[trigger]
        maintenance::is_ancestor(infos, i, e, k) && !plan.old_main.contains(infos[i].epoch())
            && !plan.non_main.contains(infos[i].epoch())
}

proof fn old_main_is_listed(
    at: ConfirmedEpoch,
    conf: &RetentionConfig,
    stable: u64,
    era: u64,
    infos: Seq<SnapshotInfoView>,
    n: nat,
    e: EpochId,
)
    requires
        n <= infos.len(),
    ensures
        ({
            let st = maintenance::lower_scan(at, conf, stable, era, infos, n);
            st.old_main.contains(e) || st.old_main_infos.contains(e) ==> exists|i: int|
                0 <= i < infos.len() && (#[trigger] infos[i]).epoch() == e
        }),
    decreases n,
{
    if n > 0 {
        old_main_is_listed(at, conf, stable, era, infos, (n - 1) as nat, e);
        let before = maintenance::lower_scan(at, conf, stable, era, infos, (n - 1) as nat);
        let after = maintenance::lower_scan(at, conf, stable, era, infos, n);
        let x = infos.len() - n;
        push_contains(before.old_main, infos[x].epoch(), e);
        push_contains(before.old_main_infos, infos[x].epoch(), e);
        if (after.old_main.contains(e) || after.old_main_infos.contains(e)) && !(
        before.old_main.contains(e) || before.old_main_infos.contains(e)) {
            assert(infos[x].epoch() == e);
        }
    }
}

proof fn sum_contains(a: Seq<EpochId>, b: Seq<EpochId>, e: EpochId)
    ensures
        (a + b).contains(e) <==> a.contains(e) || b.contains(e),
{
    let s = a + b;
    if s.contains(e) {
        let j = choose|j: int| 0 <= j < s.len() && s[j] == e;
        if j < a.len() {
            assert(a[j] == e);
        } else {
            assert(b[j - a.len()] == e);
        }
    }
    if a.contains(e) {
        let j = choose|j: int| 0 <= j < a.len() && a[j] == e;
        assert(s[j] == e);
    }
    if b.contains(e) {
        let j = choose|j: int| 0 <= j < b.len() && b[j] == e;
        assert(s[a.len() + j] == e);
    }
}

/// Which snapshots the plan removes. A fork goes with its data and its info, and an old snapshot of
/// the main chain that the rules do not keep goes with its data, in either case unless its data is
/// gone already or a snapshot that is not removed descends from it. Nothing else is removed.
pub proof fn plans_remove_what_nothing_needs(
    at: ConfirmedEpoch,
    conf: &RetentionConfig,
    stable: u64,
    era: u64,
    lower_bound: u64,
    infos: Seq<SnapshotInfoView>,
    map: Map<EpochId, SnapshotInfoView>,
    tasks: Seq<(EpochId, SnapshotInfoView)>,
    c: int,
    intermediate: int,
    snapshot: int,
    i: int,
)
    requires
        tree_heights(at.height, conf.snapshot_epoch_count, intermediate, snapshot),
        is_maintained(at, infos, c, snapshot),
        at.height > 0,
        era > 0,
        0 <= i < infos.len(),
    ensures
        ({
            let plan = maintenance::maintenance_plan(
                at,
                conf,
                stable,
                era,
                lower_bound,
                infos,
                map,
                tasks,
            );
            let off = maintenance::forks(at, conf, stable, era, infos);
            let e = infos[i].epoch();
            let old = is_old(at, infos, snapshot, i) && !is_kept(conf, stable, era, infos[i].height);
            let any = plan.old_main.len() > 0 || plan.non_main.len() > 0;
            let info_goes = old && infos[i].height + conf.snapshot_epoch_count != stable
                && !keeps_info_only(at, conf, stable, era, infos, snapshot, i);
            &&& plan.non_main.contains(e) <==> off.contains(e) && has_data(map, e) && !is_needed(
                infos,
                plan,
                e,
            )
            &&& plan.old_main.contains(e) <==> old && has_data(map, e) && !is_needed(infos, plan, e)
            &&& plan.infos.contains(e) <==> any && (plan.non_main.contains(e) || (info_goes && (
            !has_data(map, e) || plan.old_main.contains(e))))
            &&& plan.lower_bound == (if any && snapshot > 0 && snapshot + 1 > lower_bound {
                Some((snapshot + 1) as u64)
            } else {
                None
            })
        }),
{
    trees_end_at_their_heights(at.height, conf.snapshot_epoch_count, intermediate, snapshot);
    let plan = maintenance::maintenance_plan(at, conf, stable, era, lower_bound, infos, map, tasks);
    let len = infos.len();
    let low = maintenance::lower_scan(at, conf, stable, era, infos, len);
    let off = maintenance::forks(at, conf, stable, era, infos);
    let present = |x: EpochId| maintenance::data_present(map, x);
    let old_main = low.old_main.filter(present);
    let non_main = off.filter(present);
    let removing = old_main + non_main;
    let f = |x: EpochId| !maintenance::is_protected(infos, removing, x);
    let e = infos[i].epoch();
    scan_places(
        at,
        conf,
        stable,
        era,
        infos,
        c,
        intermediate,
        snapshot,
        len,
        i,
        SnapshotKeptToProvideSyncStatus::No,
    );
    forks_leave_the_confirmed_chain(
        at,
        conf,
        stable,
        era,
        infos,
        c,
        intermediate,
        snapshot,
        i,
    );
    assert forall|x: EpochId|
        #![trigger removing.contains(x)]
        {
            &&& removing.contains(x) <==> (low.old_main.contains(x) || off.contains(x)) && has_data(
                map,
                x,
            )
            &&& plan.old_main.contains(x) <==> low.old_main.contains(x) && has_data(map, x)
                && !maintenance::is_protected(infos, removing, x)
            &&& plan.non_main.contains(x) <==> off.contains(x) && has_data(map, x)
                && !maintenance::is_protected(infos, removing, x)
        } by {
        filter_contains(low.old_main, present, x);
        filter_contains(off, present, x);
        sum_contains(old_main, non_main, x);
        filter_contains(old_main, f, x);
        filter_contains(non_main, f, x);
    }
    assert(removing.contains(e) ==> (maintenance::is_protected(infos, removing, e) <==> is_needed(
        infos,
        plan,
        e,
    ))) by {
        if maintenance::is_protected(infos, removing, e) {
            let (x, k) = choose|x: int, k: nat| #[trigger]
                maintenance::is_ancestor(infos, x, e, k) && !removing.contains(infos[x].epoch());
            assert(maintenance::is_ancestor(infos, x, e, k));
            assert(!plan.old_main.contains(infos[x].epoch()));
        }
        if is_needed(infos, plan, e) && removing.contains(e) {
            let (x, k) = choose|x: int, k: nat| #[trigger]
                maintenance::is_ancestor(infos, x, e, k) && !plan.old_main.contains(
                    infos[x].epoch(),
                ) && !plan.non_main.contains(infos[x].epoch());
            maintenance_laws::maintenance_keeps_delta_chains(
                at,
                conf,
                stable,
                era,
                lower_bound,
                infos,
                map,
                tasks,
                x,
                e,
                k,
            );
        }
    }
    filter_contains(low.old_main_infos, f, e);
    let old_main_infos = maintenance::unprotected(infos, removing, low.old_main_infos);
    let below = keeps_below(at, conf, stable, era, infos, snapshot, 0, i);
    assert(below <==> exists|j: int|
        #![trigger infos[j]]
        j < i && is_old(at, infos, snapshot, j) && is_kept(conf, stable, era, infos[j].height));
}

/// A plan removes nothing that is not listed.
pub proof fn plans_remove_listed_snapshots_only(
    at: ConfirmedEpoch,
    conf: &RetentionConfig,
    stable: u64,
    era: u64,
    lower_bound: u64,
    infos: Seq<SnapshotInfoView>,
    map: Map<EpochId, SnapshotInfoView>,
    tasks: Seq<(EpochId, SnapshotInfoView)>,
    e: EpochId,
)
    requires
        ({
            let plan = maintenance::maintenance_plan(
                at,
                conf,
                stable,
                era,
                lower_bound,
                infos,
                map,
                tasks,
            );
            plan.old_main.contains(e) || plan.non_main.contains(e) || plan.infos.contains(e)
        }),
    ensures
        exists|j: int| 0 <= j < infos.len() && (#[trigger] infos[j]).epoch() == e,
{
    let plan = maintenance::maintenance_plan(at, conf, stable, era, lower_bound, infos, map, tasks);
    let len = infos.len();
    let low = maintenance::lower_scan(at, conf, stable, era, infos, len);
    let off = maintenance::forks(at, conf, stable, era, infos);
    let present = |x: EpochId| maintenance::data_present(map, x);
    let removing = low.old_main.filter(present) + off.filter(present);
    let f = |x: EpochId| !maintenance::is_protected(infos, removing, x);
    old_main_is_listed(at, conf, stable, era, infos, len, e);
    filter_contains(low.old_main, present, e);
    filter_contains(low.old_main.filter(present), f, e);
    filter_contains(off, present, e);
    filter_contains(off.filter(present), f, e);
    filter_contains(low.old_main_infos, f, e);
    if off.contains(e) && forall|j: int| 0 <= j < len ==> (#[trigger] infos[j]).epoch() != e {
        upper_scan_stays(at, infos, low.non_main, 0, len, e);
        low_forks_are_listed(at, conf, stable, era, infos, len, e);
    }
}

/// The first `n` changes of status name the epoch.
spec fn is_named(
    kept: Seq<(EpochId, SnapshotKeptToProvideSyncStatus)>,
    n: nat,
    e: EpochId,
) -> bool {
    exists|j: int| 0 <= j < n && (#[trigger] kept[j]).0 == e
}

/// Two records differ at most in their status.
pub open spec fn same_but_status(a: SnapshotInfoView, b: SnapshotInfoView) -> bool {
    &&& a.serve_one_step_sync == b.serve_one_step_sync
    &&& a.merkle_root == b.merkle_root
    &&& a.height == b.height
    &&& a.parent_height == b.parent_height
    &&& a.parent == b.parent
    &&& a.parts == b.parts
}

proof fn statuses_reach_their_records(
    map: Map<EpochId, SnapshotInfoView>,
    kept: Seq<(EpochId, SnapshotKeptToProvideSyncStatus)>,
    n: nat,
    e: EpochId,
    status: SnapshotKeptToProvideSyncStatus,
)
    requires
        n <= kept.len(),
        forall|j: int| 0 <= j < kept.len() && (#[trigger] kept[j]).0 == e ==> kept[j].1 == status,
    ensures
        ({
            let after = maintenance::apply_statuses(map, kept, n);
            &&& after.contains_key(e) <==> map.contains_key(e)
            &&& map.contains_key(e) ==> same_but_status(after[e], map[e])
            &&& map.contains_key(e) ==> after[e].kept == (if is_named(kept, n, e) {
                status
            } else {
                map[e].kept
            })
            &&& maintenance::changed_by(map, kept, n).contains(e) <==> is_named(kept, n, e)
                && map.contains_key(e) && map[e].kept != status
        }),
    decreases n,
{
    if n > 0 {
        statuses_reach_their_records(map, kept, (n - 1) as nat, e, status);
        let changed = maintenance::changed_by(map, kept, (n - 1) as nat);
        with_epoch_contains(changed, kept[n - 1].0, e);
        if is_named(kept, n, e) && kept[n - 1].0 != e {
            let j = choose|j: int| 0 <= j < n && (#[trigger] kept[j]).0 == e;
            assert(is_named(kept, (n - 1) as nat, e));
        }
        if is_named(kept, (n - 1) as nat, e) {
            let j = choose|j: int| 0 <= j < n - 1 && (#[trigger] kept[j]).0 == e;
            assert(is_named(kept, n, e));
        }
        if kept[n - 1].0 == e {
            assert(is_named(kept, n, e));
        }
    }
}

/// What a maintenance writes to the records. An old snapshot of the main chain that the rules keep
/// is recorded as kept with its data, and one above it that they do not keep as kept with its info
/// alone, so that the kept one stays traceable. No other record changes, and nothing but the status
/// of any. The plan names exactly the records that changed, and the list has their new statuses.
pub proof fn plans_keep_the_kept_traceable(
    at: ConfirmedEpoch,
    conf: &RetentionConfig,
    stable: u64,
    era: u64,
    lower_bound: u64,
    infos: Seq<SnapshotInfoView>,
    map: Map<EpochId, SnapshotInfoView>,
    tasks: Seq<(EpochId, SnapshotInfoView)>,
    c: int,
    intermediate: int,
    snapshot: int,
    i: int,
)
    requires
        tree_heights(at.height, conf.snapshot_epoch_count, intermediate, snapshot),
        is_maintained(at, infos, c, snapshot),
        era > 0,
        0 <= i < infos.len(),
    ensures
        ({
            let plan = maintenance::maintenance_plan(
                at,
                conf,
                stable,
                era,
                lower_bound,
                infos,
                map,
                tasks,
            );
            let kept = maintenance::lower_scan(at, conf, stable, era, infos, infos.len()).kept;
            let after = maintenance::apply_statuses(map, kept, kept.len());
            let list = maintenance::restated(infos, after, plan.updated);
            let e = infos[i].epoch();
            &&& after.contains_key(e) <==> map.contains_key(e)
            &&& map.contains_key(e) ==> {
                &&& same_but_status(after[e], map[e])
                &&& after[e].kept == (if is_old(at, infos, snapshot, i) && is_kept(
                    conf,
                    stable,
                    era,
                    infos[i].height,
                ) {
                    SnapshotKeptToProvideSyncStatus::InfoAndSnapshot
                } else if keeps_info_only(at, conf, stable, era, infos, snapshot, i) {
                    SnapshotKeptToProvideSyncStatus::InfoOnly
                } else {
                    map[e].kept
                })
            }
            &&& plan.updated.contains(e) <==> map.contains_key(e) && after[e].kept != map[e].kept
            &&& list.len() == infos.len()
            &&& same_but_status(list[i], infos[i])
            &&& list[i].kept == (if plan.updated.contains(e) {
                after[e].kept
            } else {
                infos[i].kept
            })
        }),
{
    let len = infos.len();
    let kept = maintenance::lower_scan(at, conf, stable, era, infos, len).kept;
    let e = infos[i].epoch();
    let rule = is_kept(conf, stable, era, infos[i].height);
    let status = if rule {
        SnapshotKeptToProvideSyncStatus::InfoAndSnapshot
    } else {
        SnapshotKeptToProvideSyncStatus::InfoOnly
    };
    let below = keeps_below(at, conf, stable, era, infos, snapshot, 0, i);
    assert(below <==> exists|j: int|
        #![trigger infos[j]]
        j < i && is_old(at, infos, snapshot, j) && is_kept(conf, stable, era, infos[j].height));
    assert forall|j: int| 0 <= j < kept.len() && (#[trigger] kept[j]).0 == e implies kept[j].1
        == status by {
        assert(kept.contains((e, kept[j].1)));
        scan_places(
            at,
            conf,
            stable,
            era,
            infos,
            c,
            intermediate,
            snapshot,
            len,
            i,
            kept[j].1,
        );
    }
    scan_places(at, conf, stable, era, infos, c, intermediate, snapshot, len, i, status);
    statuses_reach_their_records(map, kept, kept.len(), e, status);
    if kept.contains((e, status)) {
        let j = choose|j: int| 0 <= j < kept.len() && kept[j] == (e, status);
        assert(is_named(kept, kept.len(), e));
    }
    if is_named(kept, kept.len(), e) {
        let j = choose|j: int| 0 <= j < kept.len() && (#[trigger] kept[j]).0 == e;
        assert(kept.contains((e, status)));
    }
}

/// A maintenance changes no record of a snapshot that is not listed.
pub proof fn plans_restate_listed_snapshots_only(
    at: ConfirmedEpoch,
    conf: &RetentionConfig,
    stable: u64,
    era: u64,
    infos: Seq<SnapshotInfoView>,
    map: Map<EpochId, SnapshotInfoView>,
    n: nat,
    e: EpochId,
)
    requires
        n <= infos.len(),
        forall|j: int| 0 <= j < infos.len() ==> (#[trigger] infos[j]).epoch() != e,
    ensures
        ({
            let kept = maintenance::lower_scan(at, conf, stable, era, infos, n).kept;
            let after = maintenance::apply_statuses(map, kept, kept.len());
            &&& after.contains_key(e) <==> map.contains_key(e)
            &&& map.contains_key(e) ==> after[e] == map[e]
            &&& !maintenance::changed_by(map, kept, kept.len()).contains(e)
        }),
{
    let kept = maintenance::lower_scan(at, conf, stable, era, infos, n).kept;
    kept_is_listed(at, conf, stable, era, infos, n, e);
    statuses_reach_their_records(
        map,
        kept,
        kept.len(),
        e,
        SnapshotKeptToProvideSyncStatus::No,
    );
}

proof fn kept_is_listed(
    at: ConfirmedEpoch,
    conf: &RetentionConfig,
    stable: u64,
    era: u64,
    infos: Seq<SnapshotInfoView>,
    n: nat,
    e: EpochId,
)
    requires
        n <= infos.len(),
        forall|j: int| 0 <= j < infos.len() ==> (#[trigger] infos[j]).epoch() != e,
    ensures
        ({
            let st = maintenance::lower_scan(at, conf, stable, era, infos, n);
            forall|j: int| 0 <= j < st.kept.len() ==> (#[trigger] st.kept[j]).0 != e
        }),
    decreases n,
{
    if n > 0 {
        kept_is_listed(at, conf, stable, era, infos, (n - 1) as nat, e);
        old_main_is_listed(at, conf, stable, era, infos, (n - 1) as nat, e);
        let before = maintenance::lower_scan(at, conf, stable, era, infos, (n - 1) as nat);
        let after = maintenance::lower_scan(at, conf, stable, era, infos, n);
        let x = infos.len() - n;
        assert(infos[x].epoch() != e);
        assert forall|j: int| 0 <= j < after.kept.len() implies (#[trigger] after.kept[j]).0 != e by {
            if j < before.kept.len() {
                assert(after.kept[j] == before.kept[j]);
            } else if j < before.kept.len() + before.old_main_infos.len() {
                let k = j - before.kept.len();
                assert(before.old_main_infos.contains(before.old_main_infos[k]));
                assert(after.kept[j].0 == before.old_main_infos[k]);
            }
        }
    }
}

} // verus!
