//! What holds of every start of the node: which snapshots it keeps, and with which tries.

use super::listing;
use super::maintenance_laws::distinct_epochs;
use super::registry::{DeltaMptId, SnapshotMpts};
use super::removal;
use super::startup;
use crate::hash::{null_epoch, EpochId};
use crate::storage::snapshot_info::SnapshotInfoView;
use vstd::prelude::*;

verus! {

/// Of the snapshots that are said to be missing, each loses its record, and no other does.
pub proof fn missing_snapshots_are_forgotten(
    records: Map<EpochId, SnapshotInfoView>,
    missing: Seq<EpochId>,
    n: nat,
    e: EpochId,
)
    requires
        n <= missing.len(),
    ensures
        ({
            let left = startup::forget_all(records, missing, n);
            &&& left.contains_key(e) <==> records.contains_key(e) && (e == null_epoch()
                || !missing.subrange(0, n as int).contains(e))
            &&& left.contains_key(e) ==> left[e] == records[e]
        }),
    decreases n,
{
    if n > 0 {
        missing_snapshots_are_forgotten(records, missing, (n - 1) as nat, e);
        prefix_contains(missing, n, e);
    } else {
        assert(!missing.subrange(0, 0).contains(e));
    }
}

proof fn prefix_contains(epochs: Seq<EpochId>, n: nat, e: EpochId)
    requires
        0 < n <= epochs.len(),
    ensures
        epochs.subrange(0, n as int).contains(e) <==> epochs.subrange(0, n - 1).contains(e)
            || epochs[n - 1] == e,
{
    let before = epochs.subrange(0, n - 1);
    let now = epochs.subrange(0, n as int);
    if before.contains(e) {
        let i = choose|i: int| 0 <= i < before.len() && before[i] == e;
        assert(now[i] == e);
    }
    if now.contains(e) {
        let i = choose|i: int| 0 <= i < now.len() && now[i] == e;
        if i < n - 1 {
            assert(before[i] == e);
        }
    }
    assert(now[n - 1] == epochs[n - 1]);
}

/// Which of the snapshots without a delta trie can be used. One whose parent has a delta trie can: it
/// may have been made right before the node was stopped. It keeps its record and is not destroyed.
/// One whose parent has none either is forgotten and destroyed, as is one without a record. The
/// snapshot before genesis and every snapshot that is not among those without a delta trie stay.
pub proof fn fresh_snapshots_are_kept(
    records: Map<EpochId, SnapshotInfoView>,
    delta_mpts: Map<EpochId, DeltaMptId>,
    missing: Seq<EpochId>,
    n: nat,
    e: EpochId,
)
    requires
        n <= missing.len(),
    ensures
        ({
            let left = startup::forget_without_tries(records, delta_mpts, missing, n);
            let destroyed = startup::destroyed_without_tries(records, delta_mpts, missing, n);
            let without_delta = missing.subrange(0, n as int).contains(e);
            let fresh = records.contains_key(e) && delta_mpts.contains_key(records[e].parent);
            &&& left.contains_key(e) <==> records.contains_key(e) && (e == null_epoch()
                || !without_delta || fresh)
            &&& left.contains_key(e) ==> left[e] == records[e]
            &&& destroyed.contains(e) <==> e != null_epoch() && without_delta && !fresh
        }),
    decreases n,
{
    if n > 0 {
        fresh_snapshots_are_kept(records, delta_mpts, missing, (n - 1) as nat, e);
        fresh_snapshots_are_kept(records, delta_mpts, missing, (n - 1) as nat, missing[n - 1]);
        prefix_contains(missing, n, e);
        let before = startup::destroyed_without_tries(records, delta_mpts, missing, (n - 1) as nat);
        let now = startup::destroyed_without_tries(records, delta_mpts, missing, n);
        let last = missing[n - 1];
        if now != before {
            assert(now =~= before.push(last));
            assert(now[now.len() - 1] == last);
            if before.contains(e) {
                let i = choose|i: int| 0 <= i < before.len() && before[i] == e;
                assert(now[i] == e);
            }
            if now.contains(e) && e != last {
                let i = choose|i: int| 0 <= i < now.len() && now[i] == e;
                assert(before[i] == e);
            }
        }
    } else {
        assert(!missing.subrange(0, 0).contains(e));
        assert(startup::destroyed_without_tries(records, delta_mpts, missing, 0) =~= seq![]);
    }
}

/// The tries that a start gives to a snapshot: its own delta trie, where one was found, and as its
/// intermediate trie the delta trie of its parent, where that was found. What is not listed keeps
/// its tries.
pub proof fn restored_tries_are_those_found(
    mpts: Map<EpochId, SnapshotMpts>,
    infos: Seq<SnapshotInfoView>,
    delta_mpts: Map<EpochId, DeltaMptId>,
    n: nat,
)
    requires
        distinct_epochs(infos),
        n <= infos.len(),
    ensures
        ({
            let after = startup::associate(mpts, infos, delta_mpts, n);
            &&& forall|i: int|
                0 <= i < n ==> {
                    let info = #[trigger] infos[i];
                    let e = info.epoch();
                    &&& after.contains_key(e)
                    &&& after[e].delta is Some <==> delta_mpts.contains_key(e)
                    &&& delta_mpts.contains_key(e) ==> after[e].delta == Some(delta_mpts[e])
                    &&& after[e].intermediate is Some <==> delta_mpts.contains_key(info.parent)
                    &&& delta_mpts.contains_key(info.parent) ==> after[e].intermediate == Some(
                        delta_mpts[info.parent],
                    )
                }
            &&& forall|e: EpochId|
                (forall|i: int| 0 <= i < n ==> (#[trigger] infos[i]).epoch() != e) ==> (
                #[trigger] after.contains_key(e) <==> mpts.contains_key(e)) && after[e] == mpts[e]
        }),
    decreases n,
{
    if n > 0 {
        restored_tries_are_those_found(mpts, infos, delta_mpts, (n - 1) as nat);
        let before = startup::associate(mpts, infos, delta_mpts, (n - 1) as nat);
        let after = startup::associate(mpts, infos, delta_mpts, n);
        assert forall|i: int| 0 <= i < n - 1 implies (#[trigger] infos[i]).epoch() != infos[n
            - 1].epoch() by {}
        assert forall|e: EpochId|
            (forall|i: int| 0 <= i < n ==> (#[trigger] infos[i]).epoch() != e) implies (
        #[trigger] after.contains_key(e) <==> mpts.contains_key(e)) && after[e] == mpts[e] by {
            assert(infos[n - 1].epoch() != e);
            assert(before.contains_key(e) <==> mpts.contains_key(e));
        }
    }
}

proof fn orphans_are_forgotten(
    records: Map<EpochId, SnapshotInfoView>,
    infos: Seq<SnapshotInfoView>,
    n: nat,
    e: EpochId,
)
    requires
        n <= infos.len(),
    ensures
        startup::orphans(records, infos, n).contains(e) ==> !startup::heal(
            records,
            infos,
            n,
        ).contains_key(e),
        records.contains_key(e) && !startup::orphans(records, infos, n).contains(e)
            ==> startup::heal(records, infos, n).contains_key(e),
        startup::heal(records, infos, n).contains_key(e) ==> records.contains_key(e)
            && startup::heal(records, infos, n)[e] == records[e],
    decreases n,
{
    if n > 0 {
        orphans_are_forgotten(records, infos, (n - 1) as nat, e);
        let before = startup::orphans(records, infos, (n - 1) as nat);
        let now = startup::orphans(records, infos, n);
        let last = infos[n - 1].epoch();
        if now != before {
            assert(now =~= before.push(last));
            assert(now[now.len() - 1] == last);
            if before.contains(e) {
                let i = choose|i: int| 0 <= i < before.len() && before[i] == e;
                assert(now[i] == e);
            }
            if now.contains(e) && e != last {
                let i = choose|i: int| 0 <= i < now.len() && now[i] == e;
                assert(before[i] == e);
            }
        }
    }
}

/// What a start of the node leaves. A snapshot is left exactly if it was recorded, it has a usable
/// trie or is not among those without a delta trie, and the same holds of its parent, of the parent
/// of that, and so on down to the null epoch. What is left keeps its record and is listed, the lower
/// snapshots first, and nothing else is listed. The orphans are what was usable and is not left.
pub proof fn starts_leave_whole_chains(
    recorded: Map<EpochId, SnapshotInfoView>,
    delta_mpts: Map<EpochId, DeltaMptId>,
    missing: Seq<EpochId>,
    left: Map<EpochId, SnapshotInfoView>,
    infos: Seq<SnapshotInfoView>,
    orphaned: Seq<EpochId>,
)
    requires
        startup::records_consistent(recorded),
        startup::is_restored(recorded, delta_mpts, missing, left, infos, orphaned),
    ensures
        forall|e: EpochId| #[trigger]
            left.contains_key(e) ==> {
                &&& recorded.contains_key(e)
                &&& left[e] == recorded[e]
                &&& left[e].parent == null_epoch() || left.contains_key(left[e].parent)
                &&& e == null_epoch() || !missing.contains(e) || delta_mpts.contains_key(
                    recorded[e].parent,
                )
            },
        forall|e: EpochId| #[trigger]
            recorded.contains_key(e) && !left.contains_key(e) ==> {
                ||| e != null_epoch() && missing.contains(e) && !delta_mpts.contains_key(
                    recorded[e].parent,
                )
                ||| recorded[e].parent != null_epoch() && !left.contains_key(recorded[e].parent)
            },
        forall|e: EpochId| #[trigger]
            orphaned.contains(e) <==> recorded.contains_key(e) && !left.contains_key(e) && (e
                == null_epoch() || !missing.contains(e) || delta_mpts.contains_key(
                recorded[e].parent,
            )),
        forall|e: EpochId| #[trigger] left.contains_key(e) ==> infos.contains(left[e]),
        forall|i: int|
            0 <= i < infos.len() ==> left.contains_key((#[trigger] infos[i]).epoch())
                && left[infos[i].epoch()] == infos[i],
        forall|i: int, j: int|
            0 <= i < j < infos.len() ==> (#[trigger] infos[i]).height <= (
            #[trigger] infos[j]).height,
        distinct_epochs(infos),
{
    let records = startup::forget_without_tries(recorded, delta_mpts, missing, missing.len());
    let listed = choose|listed: Seq<SnapshotInfoView>| #[trigger]
        startup::lists_all(listed, records) && {
            &&& startup::sorted_by_height(listed)
            &&& left == startup::heal(records, listed, listed.len())
            &&& orphaned == startup::orphans(records, listed, listed.len())
            &&& infos == removal::remaining(listed, orphaned)
        };
    assert(missing.subrange(0, missing.len() as int) =~= missing);
    assert forall|e: EpochId| #![trigger records.contains_key(e)]
        (records.contains_key(e) <==> recorded.contains_key(e) && (e == null_epoch()
            || !missing.contains(e) || delta_mpts.contains_key(recorded[e].parent))) && (
        records.contains_key(e) ==> records[e] == recorded[e]) by {
        fresh_snapshots_are_kept(recorded, delta_mpts, missing, missing.len(), e);
    }
    assert(startup::records_consistent(records)) by {
        assert forall|e: EpochId| #[trigger] records.contains_key(e) implies records[e].epoch()
            == e by {
            assert(recorded.contains_key(e));
        }
        assert forall|e: EpochId| #[trigger]
            records.contains_key(e) && records[e].parent != null_epoch() && records.contains_key(
                records[e].parent,
            ) implies records[records[e].parent].height < records[e].height by {
            assert(recorded.contains_key(e));
            assert(recorded.contains_key(records[e].parent));
        }
    }
    startup::healing_leaves_whole_chains(records, listed);
    listing::restored_snapshots_are_listed_once(
        recorded,
        delta_mpts,
        missing,
        left,
        infos,
        orphaned,
    );
    assert forall|e: EpochId| #![trigger left.contains_key(e)]
        (left.contains_key(e) <==> records.contains_key(e) && !orphaned.contains(e)) && (
        left.contains_key(e) ==> left[e] == records[e]) by {
        orphans_are_forgotten(records, listed, listed.len(), e);
    }
    assert forall|e: EpochId| #[trigger] orphaned.contains(e) implies records.contains_key(e) by {
        orphans_are_recorded(records, listed, listed.len(), e);
    }
    assert forall|e: EpochId| #[trigger]
        recorded.contains_key(e) && !left.contains_key(e) && records.contains_key(
            e,
        ) implies recorded[e].parent != null_epoch() && !left.contains_key(recorded[e].parent) by {
        let k = choose|k: nat| startup::is_broken(records, e, k);
        assert(startup::is_broken(records, e, k));
        let p = records[e].parent;
        if k == 0 {
            assert(!records.contains_key(p));
            assert(!left.contains_key(p));
        } else {
            assert(startup::is_broken(records, p, (k - 1) as nat));
            assert(!left.contains_key(p));
        }
    }
    let stays = |i: SnapshotInfoView| !orphaned.contains(i.epoch());
    assert forall|e: EpochId| #[trigger] left.contains_key(e) implies infos.contains(left[e]) by {
        assert(listed.contains(records[e]));
        let i = choose|i: int| 0 <= i < listed.len() && listed[i] == records[e];
        listed.lemma_filter_contains(stays, i);
    }
    assert forall|i: int| 0 <= i < infos.len() implies left.contains_key(
        (#[trigger] infos[i]).epoch(),
    ) && left[infos[i].epoch()] == infos[i] by {
        assert(infos.contains(infos[i]));
        listed.lemma_filter_contains_rev(stays, infos[i]);
        listed.lemma_filter_pred(stays, i);
        let j = choose|j: int| 0 <= j < listed.len() && listed[j] == infos[i];
        assert(startup::is_recorded(records, listed[j]));
        let e = choose|e: EpochId| #[trigger] records.contains_key(e) && records[e] == listed[j];
        assert(records.contains_key(e));
        assert(left.contains_key(e));
    }
    filtering_keeps_order(listed, stays);
}

proof fn orphans_are_recorded(
    records: Map<EpochId, SnapshotInfoView>,
    infos: Seq<SnapshotInfoView>,
    n: nat,
    e: EpochId,
)
    requires
        n <= infos.len(),
        startup::lists_all(infos, records),
        startup::records_consistent(records),
    ensures
        startup::orphans(records, infos, n).contains(e) ==> records.contains_key(e),
    decreases n,
{
    if n > 0 {
        orphans_are_recorded(records, infos, (n - 1) as nat, e);
        let before = startup::orphans(records, infos, (n - 1) as nat);
        let now = startup::orphans(records, infos, n);
        assert(startup::is_recorded(records, infos[n - 1]));
        let k = choose|k: EpochId| #[trigger]
            records.contains_key(k) && records[k] == infos[n - 1];
        assert(records.contains_key(k));
        if now != before && now.contains(e) && e != infos[n - 1].epoch() {
            let i = choose|i: int| 0 <= i < now.len() && now[i] == e;
            assert(now =~= before.push(infos[n - 1].epoch()));
            assert(before[i] == e);
        }
    }
}

proof fn filtering_keeps_order(
    infos: Seq<SnapshotInfoView>,
    pred: spec_fn(SnapshotInfoView) -> bool,
)
    requires
        startup::sorted_by_height(infos),
    ensures
        startup::sorted_by_height(infos.filter(pred)),
    decreases infos.len(),
{
    reveal(Seq::filter);
    if infos.len() > 0 {
        let before = infos.drop_last();
        assert forall|i: int, j: int| 0 <= i < j < before.len() implies (
        #[trigger] before[i]).height <= (#[trigger] before[j]).height by {
            assert(infos[i].height <= infos[j].height);
        }
        filtering_keeps_order(before, pred);
        let rest = before.filter(pred);
        let all = infos.filter(pred);
        if pred(infos.last()) {
            assert forall|i: int, j: int| 0 <= i < j < all.len() implies (
            #[trigger] all[i]).height <= (#[trigger] all[j]).height by {
                assert(all[i] == rest[i]);
                if j < rest.len() {
                    assert(all[j] == rest[j]);
                } else {
                    assert(rest.contains(rest[i]));
                    before.lemma_filter_contains_rev(pred, rest[i]);
                    let k = choose|k: int| 0 <= k < before.len() && before[k] == rest[i];
                    assert(infos[k].height <= infos[infos.len() - 1].height);
                }
            }
        }
    }
}

} // verus!
