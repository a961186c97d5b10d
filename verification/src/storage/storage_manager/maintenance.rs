//! What happens to the snapshots when an epoch of the main chain is confirmed.
//!
//! The main chain is traced backwards from the confirmed snapshot. What cannot be traced is
//! removed as a fork; what is traced and lies below the confirmed snapshot is removed as old,
//! unless a retention rule keeps it. No snapshot is removed while a snapshot that descends from
//! it survives.

use super::retention;
use super::retention::{extra_snapshots_to_keep_predicate, RetentionConfig};
use crate::hash::{null_epoch, EpochId};
use crate::storage::snapshot_info;
use crate::storage::snapshot_info::{
    contains_epoch, PersistedSnapshotInfoMap, SnapshotInfo, SnapshotInfoView,
    SnapshotKeptToProvideSyncStatus,
};
use vstd::prelude::*;

verus! {

/// The epoch up to which the main chain is confirmed, and the state trees that it is built on.
#[derive(Clone, Copy, Debug)]
pub struct ConfirmedEpoch {
    pub height: u64,
    pub epoch_id: EpochId,
    /// The epoch that the intermediate trie of the confirmed state ends at.
    pub intermediate_epoch_id: EpochId,
    /// The snapshot that the confirmed state is built on.
    pub snapshot_epoch_id: EpochId,
}

/// The number of epochs, up to and with the one at `height`, that its delta trie holds.
pub open spec fn delta_height(height: u64, snapshot_epoch_count: u32) -> int {
    if height == 0 {
        0
    } else {
        (height - 1) % (snapshot_epoch_count as int) + 1
    }
}

/// The height that the intermediate trie of the state at `height` ends at.
pub open spec fn intermediate_height(height: u64, snapshot_epoch_count: u32) -> int {
    height - delta_height(height, snapshot_epoch_count)
}

/// The height of the snapshot that the state at `height` is built on.
pub open spec fn snapshot_height(height: u64, snapshot_epoch_count: u32) -> int {
    if intermediate_height(height, snapshot_epoch_count) > snapshot_epoch_count {
        intermediate_height(height, snapshot_epoch_count) - snapshot_epoch_count
    } else {
        0
    }
}

/// The first height whose state is still available once the older snapshots are gone.
pub open spec fn first_available_height(height: u64, snapshot_epoch_count: u32) -> int {
    if snapshot_height(height, snapshot_epoch_count) > 0 {
        snapshot_height(height, snapshot_epoch_count) + 1
    } else {
        0
    }
}

/// The heights of a state's trees fit together: they lie below it, on multiples of the distance
/// between two snapshots.
pub proof fn heights_are_aligned(height: u64, snapshot_epoch_count: u32)
    requires
        snapshot_epoch_count > 0,
    ensures
        0 <= snapshot_height(height, snapshot_epoch_count) <= intermediate_height(
            height,
            snapshot_epoch_count,
        ) <= height,
        intermediate_height(height, snapshot_epoch_count) % (snapshot_epoch_count as int) == 0,
        snapshot_height(height, snapshot_epoch_count) % (snapshot_epoch_count as int) == 0,
        height > 0 ==> 1 <= delta_height(height, snapshot_epoch_count) <= snapshot_epoch_count,
{
    let c = snapshot_epoch_count as int;
    if height > 0 {
        let h1 = height - 1;
        vstd::arithmetic::div_mod::lemma_fundamental_div_mod(h1, c);
        assert(h1 - h1 % c == c * (h1 / c));
        vstd::arithmetic::div_mod::lemma_mod_multiples_basic(h1 / c, c);
        assert(c * (h1 / c) == (h1 / c) * c) by (nonlinear_arith);
        assert(0 <= h1 % c < c);
        assert(h1 % c <= h1) by {
            vstd::arithmetic::div_mod::lemma_mod_decreases(h1 as nat, c as nat);
        }
    } else {
        vstd::arithmetic::div_mod::lemma_small_mod(0, c as nat);
    }
    let ih = intermediate_height(height, snapshot_epoch_count);
    if ih > c {
        vstd::arithmetic::div_mod::lemma_mod_sub_multiples_vanish(ih, c);
    } else {
        vstd::arithmetic::div_mod::lemma_small_mod(0, c as nat);
    }
}

/// The number of epochs, up to and with the one at `height`, that its delta trie holds.
pub fn height_to_delta_height(height: u64, snapshot_epoch_count: u32) -> (r: u32)
    requires
        height > 0 ==> snapshot_epoch_count > 0,
    ensures
        r == delta_height(height, snapshot_epoch_count),
{
    if height == 0 {
        0
    } else {
        let offset: u64 = (height - 1) % (snapshot_epoch_count as u64);
        offset as u32 + 1
    }
}

/// `s` with `e` at its end, or `s` itself where it already holds `e`.
pub open spec fn with_epoch(s: Seq<EpochId>, e: EpochId) -> Seq<EpochId> {
    if s.contains(e) {
        s
    } else {
        s.push(e)
    }
}

fn insert_epoch(v: &mut Vec<EpochId>, e: EpochId)
    ensures
        final(v)@ == with_epoch(old(v)@, e),
{
    if !contains_epoch(v, &e) {
        v.push(e);
    }
}

/// What the scan of the snapshots below the confirmed epoch has found.
#[verifier::ext_equal]
pub struct LowerScanView {
    /// The next epoch of the main chain, further down.
    pub prev: EpochId,
    /// Old snapshots of the main chain whose infos or data stay, with their new status.
    pub kept: Seq<(EpochId, SnapshotKeptToProvideSyncStatus)>,
    /// Old snapshots of the main chain whose data goes.
    pub old_main: Seq<EpochId>,
    /// Old snapshots of the main chain whose infos go.
    pub old_main_infos: Seq<EpochId>,
    /// Snapshots of forks.
    pub non_main: Seq<EpochId>,
}

/// The scan before its first snapshot.
pub open spec fn lower_start() -> LowerScanView {
    LowerScanView {
        prev: null_epoch(),
        kept: seq![],
        old_main: seq![],
        old_main_infos: seq![],
        non_main: seq![],
    }
}

/// The status that the infos above a kept snapshot get, so that the snapshot stays traceable.
pub open spec fn as_info_only(s: Seq<EpochId>) -> Seq<(EpochId, SnapshotKeptToProvideSyncStatus)> {
    s.map_values(|e: EpochId| (e, SnapshotKeptToProvideSyncStatus::InfoOnly))
}

/// The retention rules keep the old main-chain snapshot at `height`.
pub open spec fn rule_keeps(conf: &RetentionConfig, stable: u64, era: u64, height: u64) -> bool {
    retention::keep_from(conf, stable, era, height, false, 0).0
}

/// The scan after one more snapshot, of those below the confirmed epoch.
pub open spec fn lower_step(
    at: ConfirmedEpoch,
    conf: &RetentionConfig,
    stable: u64,
    era: u64,
    st: LowerScanView,
    info: SnapshotInfoView,
) -> LowerScanView {
    let count = conf.snapshot_epoch_count;
    let fork = LowerScanView { non_main: with_epoch(st.non_main, info.epoch()), ..st };
    if info.height == snapshot_height(at.height, count) {
        if info.epoch() == at.snapshot_epoch_id {
            LowerScanView { prev: info.parent, ..st }
        } else {
            fork
        }
    } else if info.height < snapshot_height(at.height, count) {
        if info.epoch() != st.prev {
            fork
        } else if rule_keeps(conf, stable, era, info.height) {
            LowerScanView {
                prev: info.parent,
                kept: (st.kept + as_info_only(st.old_main_infos)).push(
                    (info.epoch(), SnapshotKeptToProvideSyncStatus::InfoAndSnapshot),
                ),
                old_main_infos: seq![],
                ..st
            }
        } else {
            LowerScanView {
                prev: info.parent,
                old_main: st.old_main.push(info.epoch()),
                old_main_infos: if info.height + count != stable {
                    st.old_main_infos.push(info.epoch())
                } else {
                    st.old_main_infos
                },
                ..st
            }
        }
    } else if info.height < at.height && info.epoch_at(
        intermediate_height(at.height, count) as u64,
    ) != Some(at.intermediate_epoch_id) {
        fork
    } else {
        st
    }
}

/// The scan after the last `n` snapshots of the list, from its end on.
pub open spec fn lower_scan(
    at: ConfirmedEpoch,
    conf: &RetentionConfig,
    stable: u64,
    era: u64,
    infos: Seq<SnapshotInfoView>,
    n: nat,
) -> LowerScanView
    decreases n,
{
    if n == 0 {
        lower_start()
    } else {
        lower_step(
            at,
            conf,
            stable,
            era,
            lower_scan(at, conf, stable, era, infos, (n - 1) as nat),
            infos[infos.len() - n],
        )
    }
}

/// A snapshot is off the confirmed chain: it passes the confirmed height on another epoch, or it
/// does not span that height and its parent is off the chain.
pub open spec fn is_off_chain(
    at: ConfirmedEpoch,
    non_main: Seq<EpochId>,
    info: SnapshotInfoView,
) -> bool {
    match info.epoch_at(at.height) {
        Some(epoch) => epoch != at.epoch_id,
        None => non_main.contains(info.parent),
    }
}

/// The forks known after the first `n` snapshots, where `start` was known before.
pub open spec fn upper_scan(
    at: ConfirmedEpoch,
    infos: Seq<SnapshotInfoView>,
    start: Seq<EpochId>,
    n: nat,
) -> Seq<EpochId>
    decreases n,
{
    if n == 0 {
        start
    } else {
        let known = upper_scan(at, infos, start, (n - 1) as nat);
        if is_off_chain(at, known, infos[n - 1]) {
            with_epoch(known, infos[n - 1].epoch())
        } else {
            known
        }
    }
}

/// The snapshot that a task makes is not on the confirmed chain, so the task is cancelled.
pub open spec fn must_cancel(
    at: ConfirmedEpoch,
    snapshot_epoch_count: u32,
    non_main: Seq<EpochId>,
    info: SnapshotInfoView,
) -> bool {
    let ih = intermediate_height(at.height, snapshot_epoch_count);
    if info.height < ih {
        true
    } else if info.height < at.height {
        info.epoch_at(ih as u64) != Some(at.intermediate_epoch_id)
    } else {
        is_off_chain(at, non_main, info)
    }
}

/// The views of a list of running snapshot tasks.
pub open spec fn task_views(tasks: Seq<(EpochId, SnapshotInfo)>) -> Seq<(EpochId, SnapshotInfoView)> {
    tasks.map_values(|t: (EpochId, SnapshotInfo)| (t.0, t.1@))
}

/// The epochs of the tasks that are cancelled, in the order of the tasks.
pub open spec fn cancelled(
    at: ConfirmedEpoch,
    snapshot_epoch_count: u32,
    non_main: Seq<EpochId>,
    tasks: Seq<(EpochId, SnapshotInfoView)>,
) -> Seq<EpochId> {
    tasks.filter(
        |t: (EpochId, SnapshotInfoView)| must_cancel(at, snapshot_epoch_count, non_main, t.1),
    ).map_values(|t: (EpochId, SnapshotInfoView)| t.0)
}

/// The data of the snapshot has not been removed before, as far as the records say.
pub open spec fn data_present(map: Map<EpochId, SnapshotInfoView>, e: EpochId) -> bool {
    map.contains_key(e) ==> map[e].kept != SnapshotKeptToProvideSyncStatus::InfoOnly
}

/// The records after the first `n` changes of status. An epoch without a record stays without.
pub open spec fn apply_statuses(
    map: Map<EpochId, SnapshotInfoView>,
    kept: Seq<(EpochId, SnapshotKeptToProvideSyncStatus)>,
    n: nat,
) -> Map<EpochId, SnapshotInfoView>
    decreases n,
{
    if n == 0 {
        map
    } else {
        let m = apply_statuses(map, kept, (n - 1) as nat);
        let (e, status) = kept[n - 1];
        if m.contains_key(e) && m[e].kept != status {
            m.insert(e, m[e].with_status(status))
        } else {
            m
        }
    }
}

/// The epochs whose records changed in the first `n` changes of status.
pub open spec fn changed_by(
    map: Map<EpochId, SnapshotInfoView>,
    kept: Seq<(EpochId, SnapshotKeptToProvideSyncStatus)>,
    n: nat,
) -> Seq<EpochId>
    decreases n,
{
    if n == 0 {
        seq![]
    } else {
        let m = apply_statuses(map, kept, (n - 1) as nat);
        let changed = changed_by(map, kept, (n - 1) as nat);
        let (e, status) = kept[n - 1];
        if m.contains_key(e) && m[e].kept != status {
            with_epoch(changed, e)
        } else {
            changed
        }
    }
}

/// The list of snapshots with the new status of those whose records changed.
pub open spec fn restated(
    infos: Seq<SnapshotInfoView>,
    map: Map<EpochId, SnapshotInfoView>,
    changed: Seq<EpochId>,
) -> Seq<SnapshotInfoView> {
    infos.map_values(
        |i: SnapshotInfoView|
            if changed.contains(i.epoch()) {
                i.with_status(map[i.epoch()].kept)
            } else {
                i
            },
    )
}

/// The position of the last snapshot of the list that is taken at `e`.
pub open spec fn entry_of(infos: Seq<SnapshotInfoView>, e: EpochId) -> Option<int>
    decreases infos.len(),
{
    if infos.len() == 0 {
        None
    } else if infos.last().epoch() == e {
        Some(infos.len() - 1)
    } else {
        entry_of(infos.drop_last(), e)
    }
}

/// From `p` on, `k` steps to the parent lead to `e`, and none of these is the null epoch.
pub open spec fn leads_to(infos: Seq<SnapshotInfoView>, p: EpochId, e: EpochId, k: nat) -> bool
    decreases k,
{
    &&& p != null_epoch()
    &&& if k == 0 {
        p == e
    } else {
        match entry_of(infos, p) {
            Some(j) => leads_to(infos, infos[j].parent, e, (k - 1) as nat),
            None => false,
        }
    }
}

/// The snapshot at `e` is an ancestor of the `i`-th snapshot, `k` generations above its parent.
pub open spec fn is_ancestor(infos: Seq<SnapshotInfoView>, i: int, e: EpochId, k: nat) -> bool {
    0 <= i < infos.len() && leads_to(infos, infos[i].parent, e, k)
}

/// Removing `e` would leave a surviving snapshot without one of its ancestors.
pub open spec fn is_protected(
    infos: Seq<SnapshotInfoView>,
    removing: Seq<EpochId>,
    e: EpochId,
) -> bool {
    &&& removing.contains(e)
    &&& exists|i: int, k: nat| #[trigger]
        is_ancestor(infos, i, e, k) && !removing.contains(infos[i].epoch())
}

/// `s` without the protected epochs.
pub open spec fn unprotected(
    infos: Seq<SnapshotInfoView>,
    removing: Seq<EpochId>,
    s: Seq<EpochId>,
) -> Seq<EpochId> {
    s.filter(|e: EpochId| !is_protected(infos, removing, e))
}

/// What the scan of the snapshots below the confirmed epoch has found.
struct LowerScan {
    prev: EpochId,
    kept: Vec<(EpochId, SnapshotKeptToProvideSyncStatus)>,
    old_main: Vec<EpochId>,
    old_main_infos: Vec<EpochId>,
    non_main: Vec<EpochId>,
}

impl View for LowerScan {
    type V = LowerScanView;

    closed spec fn view(&self) -> LowerScanView {
        LowerScanView {
            prev: self.prev,
            kept: self.kept@,
            old_main: self.old_main@,
            old_main_infos: self.old_main_infos@,
            non_main: self.non_main@,
        }
    }
}

/// The retention rules have an answer for every snapshot that they are asked of: those of the main
/// chain below the confirmed one.
pub open spec fn rules_defined(
    at: ConfirmedEpoch,
    conf: &RetentionConfig,
    stable: u64,
    era: u64,
    infos: Seq<SnapshotInfoView>,
) -> bool {
    forall|n: nat|
        n < infos.len() ==> {
            let info = infos[infos.len() - 1 - n];
            &&& info.height < snapshot_height(at.height, conf.snapshot_epoch_count)
            &&& info.epoch() == (#[trigger] lower_scan(at, conf, stable, era, infos, n)).prev
        } ==> retention::keep_defined_from(
            conf,
            stable,
            era,
            infos[infos.len() - 1 - n].height,
            false,
            0,
        )
}

fn scan_lower(
    at: &ConfirmedEpoch,
    conf: &RetentionConfig,
    stable: u64,
    era: u64,
    infos: &Vec<SnapshotInfo>,
    confirmed_intermediate_height: u64,
    confirmed_snapshot_height: u64,
) -> (st: LowerScan)
    requires
        snapshot_info::infos_wf(snapshot_info::info_views(infos@)),
        rules_defined(*at, conf, stable, era, snapshot_info::info_views(infos@)),
        confirmed_intermediate_height == intermediate_height(at.height, conf.snapshot_epoch_count),
        confirmed_snapshot_height == snapshot_height(at.height, conf.snapshot_epoch_count),
    ensures
        st@ == lower_scan(
            *at,
            conf,
            stable,
            era,
            snapshot_info::info_views(infos@),
            infos@.len(),
        ),
{
    let ghost views = snapshot_info::info_views(infos@);
    let mut st = LowerScan {
        prev: null_epoch(),
        kept: Vec::new(),
        old_main: Vec::new(),
        old_main_infos: Vec::new(),
        non_main: Vec::new(),
    };
    let mut n: usize = 0;
    proof {
        assert(st@ =~= lower_start());
    }
    while n < infos.len()
        invariant
            n <= infos.len(),
            views == snapshot_info::info_views(infos@),
            snapshot_info::infos_wf(views),
            rules_defined(*at, conf, stable, era, views),
            confirmed_intermediate_height == intermediate_height(
                at.height,
                conf.snapshot_epoch_count,
            ),
            confirmed_snapshot_height == snapshot_height(at.height, conf.snapshot_epoch_count),
            st@ == lower_scan(*at, conf, stable, era, views, n as nat),
        decreases infos.len() - n,
    {
        let info = &infos[infos.len() - 1 - n];
        let ghost before = st@;
        proof {
            assert(views[views.len() - (n + 1)] == info@);
            assert(info@.wf());
        }
        let epoch: EpochId = info.get_snapshot_epoch_id();
        if info.height == confirmed_snapshot_height {
            if epoch == at.snapshot_epoch_id {
                st.prev = info.parent_snapshot_epoch_id;
            } else {
                insert_epoch(&mut st.non_main, epoch);
            }
        } else if info.height < confirmed_snapshot_height {
            if epoch == st.prev {
                let mut find_nearest_multiple_of: bool = false;
                proof {
                    retention::finished_search_stays_finished(conf, stable, era, info.height, 0);
                }
                if extra_snapshots_to_keep_predicate(
                    conf,
                    stable,
                    era,
                    info.height,
                    &mut find_nearest_multiple_of,
                ) {
                    let mut i: usize = 0;
                    let ghost kept = st.kept@;
                    let ghost only = as_info_only(st.old_main_infos@);
                    while i < st.old_main_infos.len()
                        invariant
                            i <= st.old_main_infos.len(),
                            only == as_info_only(st.old_main_infos@),
                            st.kept@ == kept + only.subrange(0, i as int),
                            st.prev == before.prev,
                            st.old_main@ == before.old_main,
                            st.old_main_infos@ == before.old_main_infos,
                            st.non_main@ == before.non_main,
                        decreases st.old_main_infos.len() - i,
                    {
                        st.kept.push(
                            (st.old_main_infos[i], SnapshotKeptToProvideSyncStatus::InfoOnly),
                        );
                        i = i + 1;
                        proof {
                            assert(only.subrange(0, i as int) =~= only.subrange(0, i - 1).push(
                                only[i - 1],
                            ));
                        }
                    }
                    proof {
                        assert(only.subrange(0, only.len() as int) =~= only);
                    }
                    st.old_main_infos = Vec::new();
                    st.kept.push((epoch, SnapshotKeptToProvideSyncStatus::InfoAndSnapshot));
                } else {
                    if info.height + conf.snapshot_epoch_count as u64 != stable {
                        st.old_main_infos.push(epoch);
                    }
                    st.old_main.push(epoch);
                }
                st.prev = info.parent_snapshot_epoch_id;
            } else {
                insert_epoch(&mut st.non_main, epoch);
            }
        } else if info.height < at.height {
            let on_path: bool = match info.get_epoch_id_at_height(confirmed_intermediate_height) {
                Some(e) => e == at.intermediate_epoch_id,
                None => false,
            };
            if !on_path {
                insert_epoch(&mut st.non_main, epoch);
            }
        }
        n = n + 1;
        proof {
            assert(st@ =~= lower_step(*at, conf, stable, era, before, info@));
        }
    }
    st
}

fn off_chain(at: &ConfirmedEpoch, non_main: &Vec<EpochId>, info: &SnapshotInfo) -> (r: bool)
    ensures
        r == is_off_chain(*at, non_main@, info@),
{
    match info.get_epoch_id_at_height(at.height) {
        Some(epoch) => epoch != at.epoch_id,
        None => contains_epoch(non_main, &info.parent_snapshot_epoch_id),
    }
}

fn scan_upper(at: &ConfirmedEpoch, infos: &Vec<SnapshotInfo>, non_main: &mut Vec<EpochId>)
    requires
        snapshot_info::infos_wf(snapshot_info::info_views(infos@)),
    ensures
        final(non_main)@ == upper_scan(
            *at,
            snapshot_info::info_views(infos@),
            old(non_main)@,
            infos@.len(),
        ),
{
    let ghost views = snapshot_info::info_views(infos@);
    let mut n: usize = 0;
    while n < infos.len()
        invariant
            n <= infos.len(),
            views == snapshot_info::info_views(infos@),
            snapshot_info::infos_wf(views),
            non_main@ == upper_scan(*at, views, old(non_main)@, n as nat),
        decreases infos.len() - n,
    {
        let info = &infos[n];
        proof {
            assert(views[n as int] == info@);
            assert(info@.wf());
        }
        if off_chain(at, non_main, info) {
            insert_epoch(non_main, info.get_snapshot_epoch_id());
        }
        n = n + 1;
    }
}

fn tasks_to_cancel(
    at: &ConfirmedEpoch,
    snapshot_epoch_count: u32,
    confirmed_intermediate_height: u64,
    non_main: &Vec<EpochId>,
    tasks: &Vec<(EpochId, SnapshotInfo)>,
) -> (r: Vec<EpochId>)
    requires
        confirmed_intermediate_height == intermediate_height(at.height, snapshot_epoch_count),
    ensures
        r@ == cancelled(*at, snapshot_epoch_count, non_main@, task_views(tasks@)),
{
    let ghost views = task_views(tasks@);
    let ghost cancels = |t: (EpochId, SnapshotInfoView)|
        must_cancel(*at, snapshot_epoch_count, non_main@, t.1);
    let mut r: Vec<EpochId> = Vec::new();
    let mut i: usize = 0;
    proof {
        reveal(Seq::filter);
        assert(views.subrange(0, 0) =~= seq![]);
        assert(r@ =~= cancelled(*at, snapshot_epoch_count, non_main@, views.subrange(0, 0)));
    }
    while i < tasks.len()
        invariant
            i <= tasks.len(),
            views == task_views(tasks@),
            confirmed_intermediate_height == intermediate_height(at.height, snapshot_epoch_count),
            r@ == cancelled(
                *at,
                snapshot_epoch_count,
                non_main@,
                views.subrange(0, i as int),
            ),
            cancels == |t: (EpochId, SnapshotInfoView)|
                must_cancel(*at, snapshot_epoch_count, non_main@, t.1),
        decreases tasks.len() - i,
    {
        let info = &tasks[i].1;
        proof {
            assert(views[i as int] == (tasks[i as int].0, info@));
        }
        let cancel: bool = if info.height < confirmed_intermediate_height {
            true
        } else if info.height < at.height {
            match info.get_epoch_id_at_height(confirmed_intermediate_height) {
                Some(e) => e != at.intermediate_epoch_id,
                None => true,
            }
        } else {
            off_chain(at, non_main, info)
        };
        proof {
            assert(cancel == must_cancel(*at, snapshot_epoch_count, non_main@, info@));
            let now = views.subrange(0, i + 1);
            assert(now.drop_last() =~= views.subrange(0, i as int));
            assert(now.last() == views[i as int]);
            reveal(Seq::filter);
            if cancel {
                let head = views.subrange(0, i as int).filter(cancels);
                assert(now.filter(cancels) == head.push(views[i as int]));
                assert(cancelled(*at, snapshot_epoch_count, non_main@, now) =~= cancelled(
                    *at,
                    snapshot_epoch_count,
                    non_main@,
                    views.subrange(0, i as int),
                ).push(tasks[i as int].0));
            } else {
                assert(now.filter(cancels) == views.subrange(0, i as int).filter(cancels));
            }
        }
        if cancel {
            r.push(tasks[i].0);
        }
        i = i + 1;
    }
    proof {
        assert(views.subrange(0, views.len() as int) =~= views);
    }
    r
}

/// The epochs of `epochs` whose data has not been removed before.
fn retain_present(map: &PersistedSnapshotInfoMap, epochs: &Vec<EpochId>) -> (r: Vec<EpochId>)
    requires
        map.wf(),
    ensures
        r@ == epochs@.filter(|e: EpochId| data_present(map@, e)),
{
    let ghost present = |e: EpochId| data_present(map@, e);
    let mut r: Vec<EpochId> = Vec::new();
    let mut i: usize = 0;
    proof {
        reveal(Seq::filter);
        assert(epochs@.subrange(0, 0).filter(present) =~= r@);
    }
    while i < epochs.len()
        invariant
            i <= epochs.len(),
            map.wf(),
            present == |e: EpochId| data_present(map@, e),
            r@ == epochs@.subrange(0, i as int).filter(present),
        decreases epochs.len() - i,
    {
        let keep: bool = match map.get(&epochs[i]) {
            Some(info) => info.snapshot_info_kept_to_provide_sync
                != SnapshotKeptToProvideSyncStatus::InfoOnly,
            None => true,
        };
        proof {
            let now = epochs@.subrange(0, i + 1);
            assert(now.drop_last() =~= epochs@.subrange(0, i as int));
            assert(now.last() == epochs@[i as int]);
            reveal(Seq::filter);
        }
        if keep {
            r.push(epochs[i]);
        }
        i = i + 1;
    }
    proof {
        assert(epochs@.subrange(0, epochs@.len() as int) =~= epochs@);
    }
    r
}

/// Gives the records their new status; the epochs whose records changed.
fn update_statuses(
    map: &mut PersistedSnapshotInfoMap,
    kept: &Vec<(EpochId, SnapshotKeptToProvideSyncStatus)>,
) -> (changed: Vec<EpochId>)
    requires
        old(map).wf(),
    ensures
        final(map).wf(),
        final(map)@ == apply_statuses(old(map)@, kept@, kept@.len()),
        changed@ == changed_by(old(map)@, kept@, kept@.len()),
{
    let mut changed: Vec<EpochId> = Vec::new();
    let mut i: usize = 0;
    while i < kept.len()
        invariant
            i <= kept.len(),
            map.wf(),
            map@ == apply_statuses(old(map)@, kept@, i as nat),
            changed@ == changed_by(old(map)@, kept@, i as nat),
        decreases kept.len() - i,
    {
        let epoch: EpochId = kept[i].0;
        let status: SnapshotKeptToProvideSyncStatus = kept[i].1;
        let updated: Option<SnapshotInfo> = match map.get(&epoch) {
            Some(info) => if info.snapshot_info_kept_to_provide_sync != status {
                let mut new_info = info.clone();
                new_info.snapshot_info_kept_to_provide_sync = status;
                Some(new_info)
            } else {
                None
            },
            None => None,
        };
        if let Some(new_info) = updated {
            proof {
                assert(new_info@ =~= map@[epoch].with_status(status));
            }
            map.insert(&epoch, new_info);
            insert_epoch(&mut changed, epoch);
        }
        i = i + 1;
    }
    changed
}

/// Every changed epoch has a record.
proof fn changed_have_records(
    map: Map<EpochId, SnapshotInfoView>,
    kept: Seq<(EpochId, SnapshotKeptToProvideSyncStatus)>,
    n: nat,
)
    requires
        n <= kept.len(),
    ensures
        apply_statuses(map, kept, n).dom() == map.dom(),
        forall|e: EpochId| changed_by(map, kept, n).contains(e) ==> map.contains_key(e),
    decreases n,
{
    if n > 0 {
        changed_have_records(map, kept, (n - 1) as nat);
        let m = apply_statuses(map, kept, (n - 1) as nat);
        let (e, status) = kept[n - 1];
        assert(apply_statuses(map, kept, n).dom() =~= map.dom());
        let before = changed_by(map, kept, (n - 1) as nat);
        assert forall|x: EpochId| changed_by(map, kept, n).contains(x) implies map.contains_key(
            x,
        ) by {
            if !before.contains(x) {
                let i = choose|i: int|
                    0 <= i < changed_by(map, kept, n).len() && changed_by(map, kept, n)[i] == x;
                if i < before.len() {
                    assert(before.contains(before[i]));
                }
                assert(x == e);
                assert(m.contains_key(e));
                assert(m.dom() == map.dom());
            }
        }
    }
}

fn restate(
    infos: &mut Vec<SnapshotInfo>,
    map: &PersistedSnapshotInfoMap,
    changed: &Vec<EpochId>,
)
    requires
        map.wf(),
        snapshot_info::infos_wf(snapshot_info::info_views(old(infos)@)),
        forall|e: EpochId| changed@.contains(e) ==> map@.contains_key(e),
    ensures
        snapshot_info::info_views(final(infos)@) == restated(
            snapshot_info::info_views(old(infos)@),
            map@,
            changed@,
        ),
{
    let ghost views = snapshot_info::info_views(infos@);
    let ghost goal = restated(views, map@, changed@);
    let mut i: usize = 0;
    while i < infos.len()
        invariant
            i <= infos.len(),
            infos.len() == views.len(),
            map.wf(),
            views == snapshot_info::info_views(old(infos)@),
            snapshot_info::infos_wf(views),
            goal == restated(views, map@, changed@),
            forall|e: EpochId| changed@.contains(e) ==> map@.contains_key(e),
            forall|j: int| 0 <= j < i ==> (#[trigger] infos[j])@ == goal[j],
            forall|j: int| i <= j < infos.len() ==> (#[trigger] infos[j])@ == views[j],
        decreases infos.len() - i,
    {
        proof {
            assert(infos[i as int]@ == views[i as int]);
            assert(views[i as int].wf());
        }
        let epoch: EpochId = infos[i].get_snapshot_epoch_id();
        if contains_epoch(changed, &epoch) {
            if let Some(record) = map.get(&epoch) {
                let status: SnapshotKeptToProvideSyncStatus =
                    record.snapshot_info_kept_to_provide_sync;
                let ghost list = infos@;
                let mut info = infos[i].clone();
                info.snapshot_info_kept_to_provide_sync = status;
                proof {
                    assert(info@ =~= goal[i as int]);
                }
                infos[i] = info;
                proof {
                    assert(infos@ == list.update(i as int, info));
                }
            }
        }
        i = i + 1;
    }
    proof {
        assert(snapshot_info::info_views(infos@) =~= goal);
    }
}

/// The position of the last snapshot of the list that is taken at `epoch`.
fn find_entry(infos: &Vec<SnapshotInfo>, epoch: &EpochId) -> (r: Option<usize>)
    requires
        snapshot_info::infos_wf(snapshot_info::info_views(infos@)),
    ensures
        r matches Some(i) ==> entry_of(snapshot_info::info_views(infos@), *epoch) == Some(
            i as int,
        ) && i < infos.len(),
        r is None ==> entry_of(snapshot_info::info_views(infos@), *epoch) is None,
{
    let ghost views = snapshot_info::info_views(infos@);
    let mut n: usize = infos.len();
    proof {
        assert(views.subrange(0, n as int) =~= views);
    }
    while n > 0
        invariant
            n <= infos.len(),
            views == snapshot_info::info_views(infos@),
            snapshot_info::infos_wf(views),
            entry_of(views, *epoch) == entry_of(views.subrange(0, n as int), *epoch),
        decreases n,
    {
        proof {
            assert(views[n - 1] == infos[n - 1]@);
            assert(views[n - 1].wf());
            let now = views.subrange(0, n as int);
            assert(now.last() == views[n - 1]);
            assert(now.drop_last() =~= views.subrange(0, n - 1));
        }
        if infos[n - 1].get_snapshot_epoch_id() == *epoch {
            return Some(n - 1);
        }
        n = n - 1;
    }
    None
}

proof fn entry_of_in_range(infos: Seq<SnapshotInfoView>, e: EpochId)
    ensures
        entry_of(infos, e) matches Some(j) ==> 0 <= j < infos.len() && infos[j].epoch() == e,
        (exists|i: int| 0 <= i < infos.len() && infos[i].epoch() == e) ==> entry_of(
            infos,
            e,
        ) is Some,
    decreases infos.len(),
{
    if infos.len() > 0 {
        entry_of_in_range(infos.drop_last(), e);
        if exists|i: int| 0 <= i < infos.len() && infos[i].epoch() == e {
            let i = choose|i: int| 0 <= i < infos.len() && infos[i].epoch() == e;
            if i < infos.len() - 1 {
                assert(infos.drop_last()[i].epoch() == e);
            }
        }
    }
}

spec fn unmarked(marks: Seq<bool>) -> nat
    decreases marks.len(),
{
    if marks.len() == 0 {
        0
    } else {
        unmarked(marks.drop_last()) + if marks.last() {
            0nat
        } else {
            1nat
        }
    }
}

proof fn marking_lowers_unmarked(marks: Seq<bool>, j: int)
    requires
        0 <= j < marks.len(),
        !marks[j],
    ensures
        unmarked(marks.update(j, true)) < unmarked(marks),
    decreases marks.len(),
{
    let after = marks.update(j, true);
    if j == marks.len() - 1 {
        assert(after.drop_last() =~= marks.drop_last());
    } else {
        marking_lowers_unmarked(marks.drop_last(), j);
        assert(after.drop_last() =~= marks.drop_last().update(j, true));
    }
}

/// Nothing is left to look at from `p` on: it is protected where it has to be, and the walk has
/// passed its snapshot.
spec fn settled(
    infos: Seq<SnapshotInfoView>,
    removing: Seq<EpochId>,
    protected: Seq<EpochId>,
    marks: Seq<bool>,
    p: EpochId,
) -> bool {
    p == null_epoch() || {
        &&& removing.contains(p) ==> protected.contains(p)
        &&& entry_of(infos, p) matches Some(j) ==> marks[j]
    }
}

/// What is settled stays so as more is protected and marked.
proof fn settled_grows(
    infos: Seq<SnapshotInfoView>,
    removing: Seq<EpochId>,
    protected: Seq<EpochId>,
    marks: Seq<bool>,
    more_protected: Seq<EpochId>,
    more_marks: Seq<bool>,
)
    requires
        marks.len() == infos.len(),
        more_marks.len() == infos.len(),
        forall|e: EpochId| #[trigger] protected.contains(e) ==> more_protected.contains(e),
        forall|j: int| 0 <= j < marks.len() && #[trigger] marks[j] ==> more_marks[j],
    ensures
        forall|q: EpochId| #[trigger]
            settled(infos, removing, protected, marks, q) ==> settled(
                infos,
                removing,
                more_protected,
                more_marks,
                q,
            ),
{
    assert forall|q: EpochId| #[trigger]
        settled(infos, removing, protected, marks, q) implies settled(
        infos,
        removing,
        more_protected,
        more_marks,
        q,
    ) by {
        entry_of_in_range(infos, q);
    }
}

proof fn settled_reaches_all(
    infos: Seq<SnapshotInfoView>,
    removing: Seq<EpochId>,
    protected: Seq<EpochId>,
    marks: Seq<bool>,
    p: EpochId,
    e: EpochId,
    k: nat,
)
    requires
        marks.len() == infos.len(),
        forall|j: int|
            0 <= j < marks.len() && #[trigger] marks[j] ==> settled(
                infos,
                removing,
                protected,
                marks,
                infos[j].parent,
            ),
        settled(infos, removing, protected, marks, p),
        leads_to(infos, p, e, k),
        removing.contains(e),
    ensures
        protected.contains(e),
    decreases k,
{
    if k > 0 {
        entry_of_in_range(infos, p);
        let j = entry_of(infos, p)->0;
        assert(marks[j]);
        settled_reaches_all(
            infos,
            removing,
            protected,
            marks,
            infos[j].parent,
            e,
            (k - 1) as nat,
        );
    }
}

proof fn leads_to_step(infos: Seq<SnapshotInfoView>, from: EpochId, p: EpochId, k: nat)
    requires
        leads_to(infos, from, p, k),
        entry_of(infos, p) is Some,
        infos[entry_of(infos, p)->0].parent != null_epoch(),
    ensures
        leads_to(infos, from, infos[entry_of(infos, p)->0].parent, k + 1),
    decreases k,
{
    if k == 0 {
        assert(leads_to(
            infos,
            infos[entry_of(infos, p)->0].parent,
            infos[entry_of(infos, p)->0].parent,
            0,
        ));
    } else {
        leads_to_step(infos, infos[entry_of(infos, from)->0].parent, p, (k - 1) as nat);
    }
}

/// The epochs of `removing` that have to stay, because a snapshot that is not removed descends
/// from them.
fn protected_epochs(infos: &Vec<SnapshotInfo>, removing: &Vec<EpochId>) -> (protected: Vec<EpochId>)
    requires
        snapshot_info::infos_wf(snapshot_info::info_views(infos@)),
    ensures
        forall|e: EpochId|
            protected@.contains(e) <==> is_protected(
                snapshot_info::info_views(infos@),
                removing@,
                e,
            ),
{
    let ghost views = snapshot_info::info_views(infos@);
    let mut protected: Vec<EpochId> = Vec::new();
    let mut marks: Vec<bool> = Vec::new();
    let mut m: usize = 0;
    while m < infos.len()
        invariant
            m <= infos.len(),
            marks.len() == m,
            forall|j: int| 0 <= j < m ==> !#[trigger] marks[j],
        decreases infos.len() - m,
    {
        marks.push(false);
        m = m + 1;
    }
    let mut i: usize = 0;
    while i < infos.len()
        invariant
            i <= infos.len(),
            marks.len() == infos.len(),
            views == snapshot_info::info_views(infos@),
            snapshot_info::infos_wf(views),
            forall|e: EpochId| #[trigger]
                protected@.contains(e) ==> is_protected(views, removing@, e),
            forall|j: int|
                0 <= j < marks.len() && #[trigger] marks[j] ==> settled(
                    views,
                    removing@,
                    protected@,
                    marks@,
                    views[j].parent,
                ),
            forall|j: int|
                0 <= j < i && !removing@.contains((#[trigger] views[j]).epoch()) ==> settled(
                    views,
                    removing@,
                    protected@,
                    marks@,
                    views[j].parent,
                ),
        decreases infos.len() - i,
    {
        proof {
            assert(views[i as int] == infos[i as int]@);
            assert(views[i as int].wf());
        }
        let epoch: EpochId = infos[i].get_snapshot_epoch_id();
        if !contains_epoch(removing, &epoch) {
            let mut p: EpochId = infos[i].parent_snapshot_epoch_id;
            let ghost mut k: nat = 0;
            let mut walking: bool = p != null_epoch();
            proof {
                if walking {
                    assert(leads_to(views, views[i as int].parent, p, 0));
                }
            }
            while walking
                invariant
                    i < infos.len(),
                    marks.len() == infos.len(),
                    views == snapshot_info::info_views(infos@),
                    snapshot_info::infos_wf(views),
                    !removing@.contains(views[i as int].epoch()),
                    walking ==> leads_to(views, views[i as int].parent, p, k),
                    walking ==> p != null_epoch(),
                    !walking ==> settled(views, removing@, protected@, marks@, p),
                    forall|e: EpochId| #[trigger]
                        protected@.contains(e) ==> is_protected(views, removing@, e),
                    forall|j: int|
                        0 <= j < marks.len() && #[trigger] marks[j] ==> settled(
                            views,
                            removing@,
                            protected@,
                            marks@,
                            views[j].parent,
                        ) || views[j].parent == p,
                    forall|j: int|
                        0 <= j < i && !removing@.contains((#[trigger] views[j]).epoch())
                            ==> settled(views, removing@, protected@, marks@, views[j].parent)
                            || views[j].parent == p,
                    settled(views, removing@, protected@, marks@, views[i as int].parent)
                        || views[i as int].parent == p,
                decreases unmarked(marks@) + if walking {
                    1nat
                } else {
                    0nat
                },
            {
                let ghost first_protected = protected@;
                let ghost first_marks = marks@;
                if contains_epoch(removing, &p) {
                    let ghost before = protected@;
                    if !contains_epoch(&protected, &p) {
                        protected.push(p);
                    }
                    proof {
                        assert(is_ancestor(views, i as int, p, k));
                        assert(is_protected(views, removing@, p));
                        assert forall|e: EpochId| before.contains(e) implies protected@.contains(
                            e,
                        ) by {
                            let x = choose|x: int| 0 <= x < before.len() && before[x] == e;
                            assert(protected@[x] == e);
                        }
                        assert forall|e: EpochId| #[trigger]
                            protected@.contains(e) implies is_protected(views, removing@, e) by {
                            if !before.contains(e) {
                                assert(e == p);
                            }
                        }
                        assert(protected@.contains(p)) by {
                            if !before.contains(p) {
                                assert(protected@.last() == p);
                            }
                        }
                    }
                }
                proof {
                    settled_grows(
                        views,
                        removing@,
                        first_protected,
                        first_marks,
                        protected@,
                        marks@,
                    );
                }
                match find_entry(infos, &p) {
                    None => {
                        walking = false;
                    },
                    Some(j) => {
                        if marks[j] {
                            walking = false;
                        } else {
                            let ghost old_marks = marks@;
                            marks[j] = true;
                            proof {
                                assert(marks@ == old_marks.update(j as int, true));
                                marking_lowers_unmarked(old_marks, j as int);
                                settled_grows(
                                    views,
                                    removing@,
                                    protected@,
                                    old_marks,
                                    protected@,
                                    marks@,
                                );
                                assert(settled(views, removing@, protected@, marks@, p));
                            }
                            let ghost here = p;
                            p = infos[j].parent_snapshot_epoch_id;
                            proof {
                                assert(views[j as int] == infos[j as int]@);
                                if p != null_epoch() {
                                    leads_to_step(views, views[i as int].parent, here, k);
                                    k = k + 1;
                                }
                            }
                            walking = p != null_epoch();
                        }
                    },
                }
            }
        }
        i = i + 1;
    }
    proof {
        assert forall|e: EpochId| is_protected(views, removing@, e) implies protected@.contains(
            e,
        ) by {
            let (s, k) = choose|s: int, k: nat| #[trigger]
                is_ancestor(views, s, e, k) && !removing@.contains(views[s].epoch());
            settled_reaches_all(views, removing@, protected@, marks@, views[s].parent, e, k);
        }
    }
    protected
}

/// The epochs of `epochs` that are not in `excluded`.
fn without(epochs: &Vec<EpochId>, excluded: &Vec<EpochId>) -> (r: Vec<EpochId>)
    ensures
        r@ == epochs@.filter(|e: EpochId| !excluded@.contains(e)),
{
    let ghost stays = |e: EpochId| !excluded@.contains(e);
    let mut r: Vec<EpochId> = Vec::new();
    let mut i: usize = 0;
    proof {
        reveal(Seq::filter);
        assert(epochs@.subrange(0, 0).filter(stays) =~= r@);
    }
    while i < epochs.len()
        invariant
            i <= epochs.len(),
            stays == |e: EpochId| !excluded@.contains(e),
            r@ == epochs@.subrange(0, i as int).filter(stays),
        decreases epochs.len() - i,
    {
        proof {
            let now = epochs@.subrange(0, i + 1);
            assert(now.drop_last() =~= epochs@.subrange(0, i as int));
            assert(now.last() == epochs@[i as int]);
            reveal(Seq::filter);
        }
        if !contains_epoch(excluded, &epochs[i]) {
            r.push(epochs[i]);
        }
        i = i + 1;
    }
    proof {
        assert(epochs@.subrange(0, epochs@.len() as int) =~= epochs@);
    }
    r
}

/// What is to be done after an epoch was confirmed.
#[derive(Debug)]
pub struct MaintenancePlan {
    /// Old snapshots of the main chain whose data is removed.
    pub old_main_snapshots_to_remove: Vec<EpochId>,
    /// Snapshots of forks that are removed.
    pub non_main_snapshots_to_remove: Vec<EpochId>,
    /// Snapshots whose infos are removed, each once.
    pub snapshot_infos_to_remove: Vec<EpochId>,
    /// The new lower end of the available states, where it moves.
    pub new_lower_bound: Option<u64>,
    /// The epochs whose records changed and have to be written.
    pub updated_infos: Vec<EpochId>,
    /// The running snapshot tasks to cancel.
    pub tasks_to_cancel: Vec<EpochId>,
}

/// What is to be done after an epoch was confirmed, as a mathematical value.
#[verifier::ext_equal]
pub struct MaintenancePlanView {
    pub old_main: Seq<EpochId>,
    pub non_main: Seq<EpochId>,
    pub infos: Set<EpochId>,
    pub lower_bound: Option<u64>,
    pub updated: Seq<EpochId>,
    pub cancel: Seq<EpochId>,
}

impl View for MaintenancePlan {
    type V = MaintenancePlanView;

    open spec fn view(&self) -> MaintenancePlanView {
        MaintenancePlanView {
            old_main: self.old_main_snapshots_to_remove@,
            non_main: self.non_main_snapshots_to_remove@,
            infos: self.snapshot_infos_to_remove@.to_set(),
            lower_bound: self.new_lower_bound,
            updated: self.updated_infos@,
            cancel: self.tasks_to_cancel@,
        }
    }
}

/// The forks among the snapshots.
pub open spec fn forks(
    at: ConfirmedEpoch,
    conf: &RetentionConfig,
    stable: u64,
    era: u64,
    infos: Seq<SnapshotInfoView>,
) -> Seq<EpochId> {
    upper_scan(
        at,
        infos,
        lower_scan(at, conf, stable, era, infos, infos.len()).non_main,
        infos.len(),
    )
}

/// The plan that follows from the snapshots, their records and the running tasks.
pub open spec fn maintenance_plan(
    at: ConfirmedEpoch,
    conf: &RetentionConfig,
    stable: u64,
    era: u64,
    lower_bound: u64,
    infos: Seq<SnapshotInfoView>,
    map: Map<EpochId, SnapshotInfoView>,
    tasks: Seq<(EpochId, SnapshotInfoView)>,
) -> MaintenancePlanView {
    let low = lower_scan(at, conf, stable, era, infos, infos.len());
    let off = forks(at, conf, stable, era, infos);
    let present = |e: EpochId| data_present(map, e);
    let removing = low.old_main.filter(present) + off.filter(present);
    let old_main = unprotected(infos, removing, low.old_main.filter(present));
    let non_main = unprotected(infos, removing, off.filter(present));
    let old_main_infos = unprotected(infos, removing, low.old_main_infos);
    let any = old_main.len() > 0 || non_main.len() > 0;
    let first = first_available_height(at.height, conf.snapshot_epoch_count);
    MaintenancePlanView {
        old_main,
        non_main,
        infos: if any {
            old_main_infos.to_set().union(non_main.to_set())
        } else {
            Set::empty()
        },
        lower_bound: if any && first > lower_bound {
            Some(first as u64)
        } else {
            None
        },
        updated: changed_by(map, low.kept, low.kept.len()),
        cancel: cancelled(at, conf.snapshot_epoch_count, off, tasks),
    }
}

proof fn filter_by_membership(
    infos: Seq<SnapshotInfoView>,
    removing: Seq<EpochId>,
    protected: Seq<EpochId>,
    s: Seq<EpochId>,
)
    requires
        forall|e: EpochId| protected.contains(e) <==> is_protected(infos, removing, e),
    ensures
        s.filter(|e: EpochId| !protected.contains(e)) == unprotected(infos, removing, s),
{
    let f = |e: EpochId| !protected.contains(e);
    let g = |e: EpochId| !is_protected(infos, removing, e);
    assert(f =~= g);
}

/// All epochs of both lists, each once.
fn union_epochs(a: &Vec<EpochId>, b: &Vec<EpochId>) -> (r: Vec<EpochId>)
    ensures
        r@.to_set() == a@.to_set().union(b@.to_set()),
        r@.no_duplicates(),
{
    let mut r: Vec<EpochId> = Vec::new();
    let mut i: usize = 0;
    while i < a.len()
        invariant
            i <= a.len(),
            r@.no_duplicates(),
            forall|e: EpochId| r@.contains(e) <==> a@.subrange(0, i as int).contains(e),
        decreases a.len() - i,
    {
        let ghost before = r@;
        insert_epoch(&mut r, a[i]);
        i = i + 1;
        proof {
            assert(a@.subrange(0, i as int) =~= a@.subrange(0, i - 1).push(a@[i - 1]));
            broadcast use vstd::seq_lib::group_seq_properties;

        }
    }
    let mut j: usize = 0;
    proof {
        assert(a@.subrange(0, a@.len() as int) =~= a@);
    }
    while j < b.len()
        invariant
            j <= b.len(),
            r@.no_duplicates(),
            forall|e: EpochId|
                r@.contains(e) <==> a@.contains(e) || b@.subrange(0, j as int).contains(e),
        decreases b.len() - j,
    {
        let ghost before = r@;
        insert_epoch(&mut r, b[j]);
        j = j + 1;
        proof {
            assert(b@.subrange(0, j as int) =~= b@.subrange(0, j - 1).push(b@[j - 1]));
            broadcast use vstd::seq_lib::group_seq_properties;

        }
    }
    proof {
        assert(b@.subrange(0, b@.len() as int) =~= b@);
        assert(r@.to_set() =~= a@.to_set().union(b@.to_set()));
    }
    r
}

/// Takes note that the main chain is confirmed up to `at`, and works out which snapshots go,
/// which records change and which running tasks are cancelled. `None`, and nothing done, where
/// the confirmed intermediate epoch is the one noted before.
pub fn maintain_snapshots_main_chain_confirmed(
    current_snapshots: &mut Vec<SnapshotInfo>,
    info_map: &mut PersistedSnapshotInfoMap,
    last_confirmed_snapshottable_epoch_id: &mut Option<EpochId>,
    in_progress: &Vec<(EpochId, SnapshotInfo)>,
    at: &ConfirmedEpoch,
    state_lower_bound: u64,
    conf: &RetentionConfig,
    stable_checkpoint_height: u64,
    era_epoch_count: u64,
) -> (plan: Option<MaintenancePlan>)
    requires
        old(info_map).wf(),
        *old(last_confirmed_snapshottable_epoch_id) != Some(at.intermediate_epoch_id) ==> {
            &&& at.height > 0 ==> conf.snapshot_epoch_count > 0
            &&& snapshot_info::infos_wf(snapshot_info::info_views(old(current_snapshots)@))
            &&& rules_defined(
                *at,
                conf,
                stable_checkpoint_height,
                era_epoch_count,
                snapshot_info::info_views(old(current_snapshots)@),
            )
        },
    ensures
        final(info_map).wf(),
        *final(last_confirmed_snapshottable_epoch_id) == Some(at.intermediate_epoch_id),
        plan is None <==> *old(last_confirmed_snapshottable_epoch_id) == Some(
            at.intermediate_epoch_id,
        ),
        plan is None ==> final(info_map)@ == old(info_map)@ && final(current_snapshots)@ == old(
            current_snapshots,
        )@,
        plan matches Some(p) ==> {
            let infos = snapshot_info::info_views(old(current_snapshots)@);
            let low = lower_scan(
                *at,
                conf,
                stable_checkpoint_height,
                era_epoch_count,
                infos,
                infos.len(),
            );
            &&& p@ == maintenance_plan(
                *at,
                conf,
                stable_checkpoint_height,
                era_epoch_count,
                state_lower_bound,
                infos,
                old(info_map)@,
                task_views(in_progress@),
            )
            &&& p.snapshot_infos_to_remove@.no_duplicates()
            &&& final(info_map)@ == apply_statuses(old(info_map)@, low.kept, low.kept.len())
            &&& snapshot_info::info_views(final(current_snapshots)@) == restated(
                infos,
                final(info_map)@,
                p@.updated,
            )
        },
{
    let unchanged: bool = match last_confirmed_snapshottable_epoch_id {
        Some(e) => *e == at.intermediate_epoch_id,
        None => false,
    };
    if unchanged {
        return None;
    }
    *last_confirmed_snapshottable_epoch_id = Some(at.intermediate_epoch_id);

    let count: u32 = conf.snapshot_epoch_count;
    proof {
        if at.height > 0 {
            heights_are_aligned(at.height, count);
        }
    }
    let confirmed_intermediate_height: u64 = at.height - height_to_delta_height(
        at.height,
        count,
    ) as u64;
    let confirmed_snapshot_height: u64 = if confirmed_intermediate_height > count as u64 {
        confirmed_intermediate_height - count as u64
    } else {
        0
    };
    let first_available_state_height: u64 = if confirmed_snapshot_height > 0 {
        confirmed_snapshot_height + 1
    } else {
        0
    };
    let ghost infos = snapshot_info::info_views(current_snapshots@);
    let low = scan_lower(
        at,
        conf,
        stable_checkpoint_height,
        era_epoch_count,
        current_snapshots,
        confirmed_intermediate_height,
        confirmed_snapshot_height,
    );
    let ghost low_view = low@;
    let LowerScan { prev: _, kept, old_main, old_main_infos, mut non_main } = low;
    scan_upper(at, current_snapshots, &mut non_main);
    let tasks_to_cancel = tasks_to_cancel(
        at,
        count,
        confirmed_intermediate_height,
        &non_main,
        in_progress,
    );
    let non_main = retain_present(info_map, &non_main);
    let old_main = retain_present(info_map, &old_main);
    let mut removing = snapshot_info::copy_epochs(&old_main);
    let mut i: usize = 0;
    while i < non_main.len()
        invariant
            i <= non_main.len(),
            removing@ == old_main@ + non_main@.subrange(0, i as int),
        decreases non_main.len() - i,
    {
        removing.push(non_main[i]);
        i = i + 1;
        proof {
            assert(non_main@.subrange(0, i as int) =~= non_main@.subrange(0, i - 1).push(
                non_main@[i - 1],
            ));
        }
    }
    proof {
        assert(non_main@.subrange(0, non_main@.len() as int) =~= non_main@);
    }
    let protected = protected_epochs(current_snapshots, &removing);
    proof {
        filter_by_membership(infos, removing@, protected@, old_main@);
        filter_by_membership(infos, removing@, protected@, non_main@);
        filter_by_membership(infos, removing@, protected@, old_main_infos@);
    }
    let old_main = without(&old_main, &protected);
    let non_main = without(&non_main, &protected);
    let old_main_infos = without(&old_main_infos, &protected);

    let ghost map = info_map@;
    let updated_infos = update_statuses(info_map, &kept);
    proof {
        changed_have_records(map, kept@, kept@.len());
    }
    restate(current_snapshots, info_map, &updated_infos);

    let any: bool = old_main.len() > 0 || non_main.len() > 0;
    let snapshot_infos_to_remove: Vec<EpochId> = if any {
        union_epochs(&old_main_infos, &non_main)
    } else {
        Vec::new()
    };
    let new_lower_bound: Option<u64> = if any && first_available_state_height > state_lower_bound {
        Some(first_available_state_height)
    } else {
        None
    };
    proof {
        if !any {
            assert(snapshot_infos_to_remove@.to_set() =~= Set::empty());
        }
    }
    Some(
        MaintenancePlan {
            old_main_snapshots_to_remove: old_main,
            non_main_snapshots_to_remove: non_main,
            snapshot_infos_to_remove,
            new_lower_bound,
            updated_infos,
            tasks_to_cancel,
        },
    )
}

/// The height from which states are maintained once `confirmed_height` is confirmed: the
/// configured number of snapshots below it.
pub open spec fn maintained_height(
    confirmed_height: u64,
    additional_maintained_snapshot_count: u32,
    snapshot_epoch_count: u32,
) -> int {
    let gap = additional_maintained_snapshot_count * snapshot_epoch_count;
    if confirmed_height > gap {
        confirmed_height - gap
    } else {
        0
    }
}

/// The height from which states are maintained, where it lies above the present lower end of the
/// available states; otherwise there is nothing to maintain.
pub fn maintain_state_confirmed(
    confirmed_height: u64,
    additional_maintained_snapshot_count: u32,
    snapshot_epoch_count: u32,
    state_lower_bound: u64,
) -> (r: Option<u64>)
    requires
        additional_maintained_snapshot_count * snapshot_epoch_count <= u32::MAX,
    ensures
        r == (if maintained_height(
            confirmed_height,
            additional_maintained_snapshot_count,
            snapshot_epoch_count,
        ) > state_lower_bound {
            Some(
                maintained_height(
                    confirmed_height,
                    additional_maintained_snapshot_count,
                    snapshot_epoch_count,
                ) as u64,
            )
        } else {
            None
        }),
{
    let gap: u64 = (additional_maintained_snapshot_count * snapshot_epoch_count) as u64;
    let height: u64 = if confirmed_height > gap {
        confirmed_height - gap
    } else {
        0
    };
    if height <= state_lower_bound {
        None
    } else {
        Some(height)
    }
}

/// The states that are maintained reach the given number of snapshots below the confirmed height,
/// or down to genesis where there are not so many.
pub proof fn maintained_states_reach_their_count(
    confirmed_height: u64,
    additional: u32,
    count: u32,
)
    ensures
        ({
            let from = maintained_height(confirmed_height, additional, count);
            &&& 0 <= from <= confirmed_height
            &&& from + additional * count == confirmed_height || (from == 0 && confirmed_height
                < additional * count)
        }),
{
    assert(0 <= additional * count) by (nonlinear_arith);
}

} // verus!
