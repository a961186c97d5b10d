//! The steps in which snapshots and their infos are removed.

use crate::hash::EpochId;
use crate::storage::snapshot_info;
use crate::storage::snapshot_info::{contains_epoch, SnapshotInfo, SnapshotInfoView};
use vstd::prelude::*;

verus! {

/// One step of a removal.
#[derive(Clone, Copy, Debug)]
pub enum RemovalStep {
    /// Remove the data of an old snapshot of the main chain.
    RemoveOldMain(EpochId),
    /// Remove the data of a snapshot of a fork.
    RemoveNonMain(EpochId),
    /// Forget the record in memory.
    ForgetInfo(EpochId),
    /// Release the tries that belong to the snapshot.
    ReleaseDeltaMpts(EpochId),
    /// Erase the record on disk.
    EraseInfo(EpochId),
}

/// The steps of a removal in their order. The records on disk come last, so that they survive
/// where an earlier step fails.
pub open spec fn removal_steps(
    old_main: Seq<EpochId>,
    non_main: Seq<EpochId>,
    infos: Seq<EpochId>,
) -> Seq<RemovalStep> {
    old_main.map_values(|e: EpochId| RemovalStep::RemoveOldMain(e)) + non_main.map_values(
        |e: EpochId| RemovalStep::RemoveNonMain(e),
    ) + infos.map_values(|e: EpochId| RemovalStep::ForgetInfo(e)) + old_main.map_values(
        |e: EpochId| RemovalStep::ReleaseDeltaMpts(e),
    ) + non_main.map_values(|e: EpochId| RemovalStep::ReleaseDeltaMpts(e)) + infos.map_values(
        |e: EpochId| RemovalStep::EraseInfo(e),
    )
}

/// The snapshots whose infos stay.
pub open spec fn remaining(
    infos: Seq<SnapshotInfoView>,
    removed: Seq<EpochId>,
) -> Seq<SnapshotInfoView> {
    infos.filter(|i: SnapshotInfoView| !removed.contains(i.epoch()))
}

/// Takes the snapshots whose infos go out of the list, and gives the steps that remove the rest.
pub fn remove_snapshots(
    current_snapshots: &mut Vec<SnapshotInfo>,
    old_main_snapshots_to_remove: &Vec<EpochId>,
    non_main_snapshots_to_remove: &Vec<EpochId>,
    snapshot_infos_to_remove: &Vec<EpochId>,
) -> (steps: Vec<RemovalStep>)
    requires
        snapshot_info::infos_wf(snapshot_info::info_views(old(current_snapshots)@)),
    ensures
        snapshot_info::info_views(final(current_snapshots)@) == remaining(
            snapshot_info::info_views(old(current_snapshots)@),
            snapshot_infos_to_remove@,
        ),
        steps@ == removal_steps(
            old_main_snapshots_to_remove@,
            non_main_snapshots_to_remove@,
            snapshot_infos_to_remove@,
        ),
{
    let ghost views = snapshot_info::info_views(current_snapshots@);
    let ghost stays = |i: SnapshotInfoView| !snapshot_infos_to_remove@.contains(i.epoch());
    let mut kept: Vec<SnapshotInfo> = Vec::new();
    let mut i: usize = 0;
    proof {
        reveal(Seq::filter);
        assert(snapshot_info::info_views(kept@) =~= views.subrange(0, 0).filter(stays));
    }
    while i < current_snapshots.len()
        invariant
            i <= current_snapshots.len(),
            views == snapshot_info::info_views(current_snapshots@),
            snapshot_info::infos_wf(views),
            stays == |i: SnapshotInfoView| !snapshot_infos_to_remove@.contains(i.epoch()),
            snapshot_info::info_views(kept@) == views.subrange(0, i as int).filter(stays),
        decreases current_snapshots.len() - i,
    {
        proof {
            assert(views[i as int] == current_snapshots[i as int]@);
            assert(views[i as int].wf());
            let now = views.subrange(0, i + 1);
            assert(now.drop_last() =~= views.subrange(0, i as int));
            assert(now.last() == views[i as int]);
            reveal(Seq::filter);
        }
        let epoch: EpochId = current_snapshots[i].get_snapshot_epoch_id();
        if !contains_epoch(snapshot_infos_to_remove, &epoch) {
            let ghost before = kept@;
            let info = current_snapshots[i].clone();
            kept.push(info);
            proof {
                assert(snapshot_info::info_views(kept@) =~= snapshot_info::info_views(
                    before,
                ).push(info@));
            }
        }
        i = i + 1;
    }
    proof {
        assert(views.subrange(0, views.len() as int) =~= views);
    }
    *current_snapshots = kept;

    let mut steps: Vec<RemovalStep> = Vec::new();
    let n_old: usize = old_main_snapshots_to_remove.len();
    let n_non: usize = non_main_snapshots_to_remove.len();
    let n_infos: usize = snapshot_infos_to_remove.len();
    let ghost part1 = old_main_snapshots_to_remove@.map_values(
        |e: EpochId| RemovalStep::RemoveOldMain(e),
    );
    let ghost part2 = non_main_snapshots_to_remove@.map_values(
        |e: EpochId| RemovalStep::RemoveNonMain(e),
    );
    let ghost part3 = snapshot_infos_to_remove@.map_values(|e: EpochId| RemovalStep::ForgetInfo(e));
    let ghost part4 = old_main_snapshots_to_remove@.map_values(
        |e: EpochId| RemovalStep::ReleaseDeltaMpts(e),
    );
    let ghost part5 = non_main_snapshots_to_remove@.map_values(
        |e: EpochId| RemovalStep::ReleaseDeltaMpts(e),
    );
    let ghost part6 = snapshot_infos_to_remove@.map_values(|e: EpochId| RemovalStep::EraseInfo(e));

    let mut a: usize = 0;
    while a < n_old
        invariant
            a <= n_old == old_main_snapshots_to_remove.len(),
            part1 == old_main_snapshots_to_remove@.map_values(
                |e: EpochId| RemovalStep::RemoveOldMain(e),
            ),
            steps@ == part1.subrange(0, a as int),
        decreases n_old - a,
    {
        steps.push(RemovalStep::RemoveOldMain(old_main_snapshots_to_remove[a]));
        a = a + 1;
    }
    let ghost done1 = steps@;
    let mut b: usize = 0;
    while b < n_non
        invariant
            b <= n_non == non_main_snapshots_to_remove.len(),
            part2 == non_main_snapshots_to_remove@.map_values(
                |e: EpochId| RemovalStep::RemoveNonMain(e),
            ),
            steps@ == done1 + part2.subrange(0, b as int),
        decreases n_non - b,
    {
        steps.push(RemovalStep::RemoveNonMain(non_main_snapshots_to_remove[b]));
        b = b + 1;
    }
    let ghost done2 = steps@;
    let mut c: usize = 0;
    while c < n_infos
        invariant
            c <= n_infos == snapshot_infos_to_remove.len(),
            part3 == snapshot_infos_to_remove@.map_values(|e: EpochId| RemovalStep::ForgetInfo(e)),
            steps@ == done2 + part3.subrange(0, c as int),
        decreases n_infos - c,
    {
        steps.push(RemovalStep::ForgetInfo(snapshot_infos_to_remove[c]));
        c = c + 1;
    }
    let ghost done3 = steps@;
    let mut d: usize = 0;
    while d < n_old
        invariant
            d <= n_old == old_main_snapshots_to_remove.len(),
            part4 == old_main_snapshots_to_remove@.map_values(
                |e: EpochId| RemovalStep::ReleaseDeltaMpts(e),
            ),
            steps@ == done3 + part4.subrange(0, d as int),
        decreases n_old - d,
    {
        steps.push(RemovalStep::ReleaseDeltaMpts(old_main_snapshots_to_remove[d]));
        d = d + 1;
    }
    let ghost done4 = steps@;
    let mut f: usize = 0;
    while f < n_non
        invariant
            f <= n_non == non_main_snapshots_to_remove.len(),
            part5 == non_main_snapshots_to_remove@.map_values(
                |e: EpochId| RemovalStep::ReleaseDeltaMpts(e),
            ),
            steps@ == done4 + part5.subrange(0, f as int),
        decreases n_non - f,
    {
        steps.push(RemovalStep::ReleaseDeltaMpts(non_main_snapshots_to_remove[f]));
        f = f + 1;
    }
    let ghost done5 = steps@;
    let mut g: usize = 0;
    while g < n_infos
        invariant
            g <= n_infos == snapshot_infos_to_remove.len(),
            part6 == snapshot_infos_to_remove@.map_values(|e: EpochId| RemovalStep::EraseInfo(e)),
            steps@ == done5 + part6.subrange(0, g as int),
        decreases n_infos - g,
    {
        steps.push(RemovalStep::EraseInfo(snapshot_infos_to_remove[g]));
        g = g + 1;
    }
    proof {
        assert(part1.subrange(0, n_old as int) =~= part1);
        assert(part2.subrange(0, n_non as int) =~= part2);
        assert(part3.subrange(0, n_infos as int) =~= part3);
        assert(part4.subrange(0, n_old as int) =~= part4);
        assert(part5.subrange(0, n_non as int) =~= part5);
        assert(part6.subrange(0, n_infos as int) =~= part6);
    }
    steps
}

/// The place of a step among the others.
pub open spec fn step_rank(step: RemovalStep) -> int {
    match step {
        RemovalStep::RemoveOldMain(_) => 0,
        RemovalStep::RemoveNonMain(_) => 1,
        RemovalStep::ForgetInfo(_) => 2,
        RemovalStep::ReleaseDeltaMpts(_) => 3,
        RemovalStep::EraseInfo(_) => 4,
    }
}

proof fn mapped_contains(epochs: Seq<EpochId>, f: spec_fn(EpochId) -> RemovalStep, e: EpochId)
    requires
        forall|x: EpochId, y: EpochId| #![trigger f(x), f(y)] f(x) == f(y) ==> x == y,
    ensures
        epochs.map_values(f).contains(f(e)) <==> epochs.contains(e),
{
    let steps = epochs.map_values(f);
    if epochs.contains(e) {
        let i = choose|i: int| 0 <= i < epochs.len() && epochs[i] == e;
        assert(steps[i] == f(e));
    }
    if steps.contains(f(e)) {
        let i = choose|i: int| 0 <= i < steps.len() && steps[i] == f(e);
        assert(f(epochs[i]) == f(e));
        assert(epochs[i] == e);
    }
}

proof fn joined_contains(a: Seq<RemovalStep>, b: Seq<RemovalStep>, step: RemovalStep)
    ensures
        (a + b).contains(step) <==> a.contains(step) || b.contains(step),
{
    let s = a + b;
    if s.contains(step) {
        let i = choose|i: int| 0 <= i < s.len() && s[i] == step;
        if i < a.len() {
            assert(a[i] == step);
        } else {
            assert(b[i - a.len()] == step);
        }
    }
    if a.contains(step) {
        let i = choose|i: int| 0 <= i < a.len() && a[i] == step;
        assert(s[i] == step);
    }
    if b.contains(step) {
        let i = choose|i: int| 0 <= i < b.len() && b[i] == step;
        assert(s[a.len() + i] == step);
    }
}

/// What a removal does to each snapshot: the data of the old and of the forked ones is removed and
/// their tries are released, and the infos that go are forgotten and erased; nothing else is done.
pub proof fn removals_reach_every_snapshot(
    old_main: Seq<EpochId>,
    non_main: Seq<EpochId>,
    infos: Seq<EpochId>,
    e: EpochId,
)
    ensures
        ({
            let steps = removal_steps(old_main, non_main, infos);
            &&& steps.contains(RemovalStep::RemoveOldMain(e)) <==> old_main.contains(e)
            &&& steps.contains(RemovalStep::RemoveNonMain(e)) <==> non_main.contains(e)
            &&& steps.contains(RemovalStep::ForgetInfo(e)) <==> infos.contains(e)
            &&& steps.contains(RemovalStep::ReleaseDeltaMpts(e)) <==> old_main.contains(e)
                || non_main.contains(e)
            &&& steps.contains(RemovalStep::EraseInfo(e)) <==> infos.contains(e)
            &&& steps.len() == 2 * (old_main.len() + non_main.len() + infos.len())
        }),
{
    let p1 = old_main.map_values(|e: EpochId| RemovalStep::RemoveOldMain(e));
    let p2 = non_main.map_values(|e: EpochId| RemovalStep::RemoveNonMain(e));
    let p3 = infos.map_values(|e: EpochId| RemovalStep::ForgetInfo(e));
    let p4 = old_main.map_values(|e: EpochId| RemovalStep::ReleaseDeltaMpts(e));
    let p5 = non_main.map_values(|e: EpochId| RemovalStep::ReleaseDeltaMpts(e));
    let p6 = infos.map_values(|e: EpochId| RemovalStep::EraseInfo(e));
    mapped_contains(old_main, |e: EpochId| RemovalStep::RemoveOldMain(e), e);
    mapped_contains(non_main, |e: EpochId| RemovalStep::RemoveNonMain(e), e);
    mapped_contains(infos, |e: EpochId| RemovalStep::ForgetInfo(e), e);
    mapped_contains(old_main, |e: EpochId| RemovalStep::ReleaseDeltaMpts(e), e);
    mapped_contains(non_main, |e: EpochId| RemovalStep::ReleaseDeltaMpts(e), e);
    mapped_contains(infos, |e: EpochId| RemovalStep::EraseInfo(e), e);
    assert forall|step: RemovalStep| #[trigger]
        removal_steps(old_main, non_main, infos).contains(step) <==> p1.contains(step)
            || p2.contains(step) || p3.contains(step) || p4.contains(step) || p5.contains(step)
            || p6.contains(step) by {
        joined_contains(p1, p2, step);
        joined_contains(p1 + p2, p3, step);
        joined_contains(p1 + p2 + p3, p4, step);
        joined_contains(p1 + p2 + p3 + p4, p5, step);
        joined_contains(p1 + p2 + p3 + p4 + p5, p6, step);
    }
}

/// The steps of a removal come in their order: data first, then the records in memory, then the
/// tries, and the records on disk last of all.
pub proof fn removals_erase_records_last(
    old_main: Seq<EpochId>,
    non_main: Seq<EpochId>,
    infos: Seq<EpochId>,
)
    ensures
        forall|i: int, j: int|
            0 <= i < j < removal_steps(old_main, non_main, infos).len() ==> step_rank(
                #[trigger] removal_steps(old_main, non_main, infos)[i],
            ) <= step_rank(#[trigger] removal_steps(old_main, non_main, infos)[j]),
{
}

/// What is left of a list is what is taken at none of the removed epochs.
pub proof fn remaining_snapshots_are_not_removed(
    infos: Seq<SnapshotInfoView>,
    removed: Seq<EpochId>,
    info: SnapshotInfoView,
)
    ensures
        remaining(infos, removed).contains(info) <==> infos.contains(info) && !removed.contains(
            info.epoch(),
        ),
{
    let f = |i: SnapshotInfoView| !removed.contains(i.epoch());
    let left = remaining(infos, removed);
    if left.contains(info) {
        let i = choose|i: int| 0 <= i < left.len() && left[i] == info;
        infos.lemma_filter_pred(f, i);
        infos.lemma_filter_contains_rev(f, info);
    }
    if infos.contains(info) && !removed.contains(info.epoch()) {
        let i = choose|i: int| 0 <= i < infos.len() && infos[i] == info;
        infos.lemma_filter_contains(f, i);
    }
}

} // verus!
