//! That every snapshot is listed once, whatever is done to the list.

use super::maintenance;
use super::maintenance_laws::distinct_epochs;
use super::registry::{DeltaMptId, SnapshotMpts};
use super::removal;
use super::startup;
use crate::hash::EpochId;
use crate::storage::snapshot_info::{SnapshotInfoView, SnapshotKeptToProvideSyncStatus};
use vstd::prelude::*;

verus! {

/// Every record stands under the epoch of its snapshot.
pub open spec fn keyed_by_epoch(records: Map<EpochId, SnapshotInfoView>) -> bool {
    forall|e: EpochId| #[trigger] records.contains_key(e) ==> records[e].epoch() == e
}

/// The list holds a snapshot that is taken at an epoch.
pub open spec fn lists_epoch(infos: Seq<SnapshotInfoView>, epoch: EpochId) -> bool {
    exists|i: int| 0 <= i < infos.len() && (#[trigger] infos[i]).epoch() == epoch
}

/// Every listed snapshot has an entry among the tries.
pub open spec fn have_tries(
    infos: Seq<SnapshotInfoView>,
    mpts: Map<EpochId, SnapshotMpts>,
) -> bool {
    forall|i: int| 0 <= i < infos.len() ==> mpts.contains_key((#[trigger] infos[i]).epoch())
}

/// A list to which a snapshot is added that it does not hold lists each snapshot once, as before.
pub proof fn adding_keeps_epochs_distinct(infos: Seq<SnapshotInfoView>, info: SnapshotInfoView)
    requires
        distinct_epochs(infos),
        !lists_epoch(infos, info.epoch()),
    ensures
        distinct_epochs(infos.push(info)),
{
    let after = infos.push(info);
    assert forall|i: int, j: int| 0 <= i < j < after.len() implies (#[trigger] after[i]).epoch()
        != (#[trigger] after[j]).epoch() by {
        assert(after[i] == infos[i]);
        if j < infos.len() {
            assert(after[j] == infos[j]);
        }
    }
}

/// A list from which snapshots are removed lists each snapshot once, as before, and holds nothing
/// that it did not hold.
pub proof fn removing_keeps_epochs_distinct(infos: Seq<SnapshotInfoView>, removed: Seq<EpochId>)
    requires
        distinct_epochs(infos),
    ensures
        distinct_epochs(removal::remaining(infos, removed)),
{
    filtering_keeps_epochs_distinct(
        infos,
        |i: SnapshotInfoView| !removed.contains(i.epoch()),
    );
}

proof fn filtering_keeps_epochs_distinct(
    infos: Seq<SnapshotInfoView>,
    pred: spec_fn(SnapshotInfoView) -> bool,
)
    requires
        distinct_epochs(infos),
    ensures
        distinct_epochs(infos.filter(pred)),
    decreases infos.len(),
{
    reveal(Seq::filter);
    if infos.len() > 0 {
        let before = infos.drop_last();
        let last = infos.last();
        assert(distinct_epochs(before)) by {
            assert forall|i: int, j: int| 0 <= i < j < before.len() implies (
            #[trigger] before[i]).epoch() != (#[trigger] before[j]).epoch() by {
                assert(infos[i].epoch() != infos[j].epoch());
            }
        }
        filtering_keeps_epochs_distinct(before, pred);
        let rest = before.filter(pred);
        if pred(last) {
            if lists_epoch(rest, last.epoch()) {
                let i = choose|i: int|
                    0 <= i < rest.len() && (#[trigger] rest[i]).epoch() == last.epoch();
                assert(rest.contains(rest[i]));
                before.lemma_filter_contains_rev(pred, rest[i]);
                let j = choose|j: int| 0 <= j < before.len() && before[j] == rest[i];
                assert(infos[j].epoch() != infos[infos.len() - 1].epoch());
            }
            adding_keeps_epochs_distinct(rest, last);
        }
    }
}

/// The tries of all listed snapshots are those of what is left of the list too.
pub proof fn removing_keeps_tries(
    infos: Seq<SnapshotInfoView>,
    removed: Seq<EpochId>,
    mpts: Map<EpochId, SnapshotMpts>,
)
    requires
        have_tries(infos, mpts),
    ensures
        have_tries(removal::remaining(infos, removed), mpts),
{
    let pred = |i: SnapshotInfoView| !removed.contains(i.epoch());
    let left = removal::remaining(infos, removed);
    assert forall|i: int| 0 <= i < left.len() implies mpts.contains_key(
        (#[trigger] left[i]).epoch(),
    ) by {
        assert(left.contains(left[i]));
        infos.lemma_filter_contains_rev(pred, left[i]);
        let j = choose|j: int| 0 <= j < infos.len() && infos[j] == left[i];
        assert(mpts.contains_key(infos[j].epoch()));
    }
}

/// New statuses change neither the epochs of the list nor their order.
pub proof fn restating_keeps_epochs(
    infos: Seq<SnapshotInfoView>,
    records: Map<EpochId, SnapshotInfoView>,
    changed: Seq<EpochId>,
)
    ensures
        maintenance::restated(infos, records, changed).len() == infos.len(),
        forall|i: int|
            0 <= i < infos.len() ==> (#[trigger] maintenance::restated(
                infos,
                records,
                changed,
            )[i]).epoch() == infos[i].epoch(),
        distinct_epochs(infos) ==> distinct_epochs(maintenance::restated(infos, records, changed)),
{
    let after = maintenance::restated(infos, records, changed);
    assert forall|i: int| 0 <= i < infos.len() implies (#[trigger] after[i]).epoch()
        == infos[i].epoch() by {}
    if distinct_epochs(infos) {
        assert forall|i: int, j: int| 0 <= i < j < after.len() implies (
        #[trigger] after[i]).epoch() != (#[trigger] after[j]).epoch() by {
            assert(infos[i].epoch() != infos[j].epoch());
        }
    }
}

/// New statuses leave every record under its epoch.
pub proof fn statuses_keep_keys(
    records: Map<EpochId, SnapshotInfoView>,
    kept: Seq<(EpochId, SnapshotKeptToProvideSyncStatus)>,
    n: nat,
)
    requires
        keyed_by_epoch(records),
    ensures
        keyed_by_epoch(maintenance::apply_statuses(records, kept, n)),
    decreases n,
{
    if n > 0 {
        statuses_keep_keys(records, kept, (n - 1) as nat);
        let before = maintenance::apply_statuses(records, kept, (n - 1) as nat);
        let after = maintenance::apply_statuses(records, kept, n);
        assert forall|e: EpochId| #[trigger] after.contains_key(e) implies after[e].epoch()
            == e by {
            assert(before.contains_key(e));
        }
    }
}

/// Forgetting missing snapshots leaves the other records under their epochs.
pub proof fn forgetting_keeps_keys(
    records: Map<EpochId, SnapshotInfoView>,
    epochs: Seq<EpochId>,
    n: nat,
)
    requires
        keyed_by_epoch(records),
    ensures
        keyed_by_epoch(startup::forget_all(records, epochs, n)),
    decreases n,
{
    if n > 0 {
        forgetting_keeps_keys(records, epochs, (n - 1) as nat);
        let before = startup::forget_all(records, epochs, (n - 1) as nat);
        let after = startup::forget_all(records, epochs, n);
        assert forall|e: EpochId| #[trigger] after.contains_key(e) implies after[e].epoch()
            == e by {
            assert(before.contains_key(e));
        }
    }
}

proof fn forgetting_without_tries_keeps_keys(
    records: Map<EpochId, SnapshotInfoView>,
    delta_mpts: Map<EpochId, DeltaMptId>,
    epochs: Seq<EpochId>,
    n: nat,
)
    requires
        keyed_by_epoch(records),
    ensures
        keyed_by_epoch(startup::forget_without_tries(records, delta_mpts, epochs, n)),
    decreases n,
{
    if n > 0 {
        forgetting_without_tries_keeps_keys(records, delta_mpts, epochs, (n - 1) as nat);
        let before = startup::forget_without_tries(records, delta_mpts, epochs, (n - 1) as nat);
        let after = startup::forget_without_tries(records, delta_mpts, epochs, n);
        assert forall|e: EpochId| #[trigger] after.contains_key(e) implies after[e].epoch()
            == e by {
            assert(before.contains_key(e));
        }
    }
}

proof fn healing_keeps_keys(
    records: Map<EpochId, SnapshotInfoView>,
    infos: Seq<SnapshotInfoView>,
    n: nat,
)
    requires
        keyed_by_epoch(records),
    ensures
        keyed_by_epoch(startup::heal(records, infos, n)),
    decreases n,
{
    if n > 0 {
        healing_keeps_keys(records, infos, (n - 1) as nat);
        let before = startup::heal(records, infos, (n - 1) as nat);
        let after = startup::heal(records, infos, n);
        assert forall|e: EpochId| #[trigger] after.contains_key(e) implies after[e].epoch()
            == e by {
            assert(before.contains_key(e));
        }
    }
}

proof fn complete_lists_are_distinct(
    listed: Seq<SnapshotInfoView>,
    records: Map<EpochId, SnapshotInfoView>,
)
    requires
        startup::lists_all(listed, records),
        keyed_by_epoch(records),
    ensures
        distinct_epochs(listed),
{
    let epochs = listed.map_values(|i: SnapshotInfoView| i.epoch());
    assert forall|e: EpochId| epochs.to_set().contains(e) <==> records.dom().contains(e) by {
        if records.contains_key(e) {
            let i = choose|i: int| 0 <= i < listed.len() && listed[i] == records[e];
            assert(listed.contains(records[e]));
            assert(epochs[i] == e);
        }
        if epochs.contains(e) {
            let i = choose|i: int| 0 <= i < epochs.len() && epochs[i] == e;
            assert(startup::is_recorded(records, listed[i]));
            let k = choose|k: EpochId| #[trigger]
                records.contains_key(k) && records[k] == listed[i];
            assert(records.contains_key(k));
        }
    }
    assert(epochs.to_set() =~= records.dom());
    epochs.lemma_no_dup_set_cardinality();
    assert forall|i: int, j: int| 0 <= i < j < listed.len() implies (#[trigger] listed[i]).epoch()
        != (#[trigger] listed[j]).epoch() by {
        assert(epochs[i] != epochs[j]);
    }
}

/// A start of the node lists each snapshot once, and leaves every record under its epoch.
pub proof fn restored_snapshots_are_listed_once(
    recorded: Map<EpochId, SnapshotInfoView>,
    delta_mpts: Map<EpochId, DeltaMptId>,
    missing: Seq<EpochId>,
    left: Map<EpochId, SnapshotInfoView>,
    infos: Seq<SnapshotInfoView>,
    orphaned: Seq<EpochId>,
)
    requires
        keyed_by_epoch(recorded),
        startup::is_restored(recorded, delta_mpts, missing, left, infos, orphaned),
    ensures
        distinct_epochs(infos),
        keyed_by_epoch(left),
{
    let records = startup::forget_without_tries(recorded, delta_mpts, missing, missing.len());
    forgetting_without_tries_keeps_keys(recorded, delta_mpts, missing, missing.len());
    let listed = choose|listed: Seq<SnapshotInfoView>| #[trigger]
        startup::lists_all(listed, records) && {
            &&& startup::sorted_by_height(listed)
            &&& left == startup::heal(records, listed, listed.len())
            &&& orphaned == startup::orphans(records, listed, listed.len())
            &&& infos == removal::remaining(listed, orphaned)
        };
    complete_lists_are_distinct(listed, records);
    removing_keeps_epochs_distinct(listed, orphaned);
    healing_keeps_keys(records, listed, listed.len());
}

/// A start of the node gives every snapshot that it lists its entry among the tries.
pub proof fn restored_snapshots_have_tries(
    mpts: Map<EpochId, SnapshotMpts>,
    infos: Seq<SnapshotInfoView>,
    delta_mpts: Map<EpochId, DeltaMptId>,
    n: nat,
)
    requires
        n <= infos.len(),
    ensures
        have_tries(
            infos.subrange(0, n as int),
            startup::associate(mpts, infos, delta_mpts, n),
        ),
    decreases n,
{
    if n > 0 {
        restored_snapshots_have_tries(mpts, infos, delta_mpts, (n - 1) as nat);
        let before = infos.subrange(0, n - 1);
        let now = infos.subrange(0, n as int);
        let after = startup::associate(mpts, infos, delta_mpts, n);
        assert forall|i: int| 0 <= i < now.len() implies after.contains_key(
            (#[trigger] now[i]).epoch(),
        ) by {
            if i < n - 1 {
                assert(now[i] == before[i]);
            }
        }
    }
}

} // verus!
