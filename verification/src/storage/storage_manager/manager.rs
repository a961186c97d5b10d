//! The storage manager: the snapshots that the node has, and what is done to them.

use super::listing;
use super::maintenance;
use super::maintenance::{ConfirmedEpoch, MaintenancePlan};
use super::maintenance_laws::distinct_epochs;
use super::registry;
use super::registry::{DeltaMptError, DeltaMptId, RegisterError, SnapshotMpts};
use super::removal;
use super::removal::RemovalStep;
use super::retention::RetentionConfig;
use super::startup;
use super::startup::RestoredSnapshots;
use crate::hash::{null_epoch, EpochId, MerkleHash};
use crate::storage::epoch_map::EpochMap;
use crate::storage::snapshot_info;
use crate::storage::snapshot_info::{
    PersistedSnapshotInfoMap, SnapshotInfo, SnapshotInfoView, SnapshotKeptToProvideSyncStatus,
};
use crate::storage::storage_db::snapshot_db_manager_mdbx::SnapshotPersistState;
use vstd::prelude::*;

verus! {

/// The snapshots that the node has.
#[derive(Debug)]
pub struct StorageManager {
    pub storage_conf: RetentionConfig,
    /// The snapshots in use, the lower first.
    pub current_snapshots: Vec<SnapshotInfo>,
    /// The records of the snapshots.
    pub snapshot_info_map_by_epoch: PersistedSnapshotInfoMap,
    /// The delta tries of the snapshots.
    pub snapshot_associated_mpts_by_epoch: EpochMap<SnapshotMpts>,
    /// The last epoch up to which the snapshots were looked at.
    pub last_confirmed_snapshottable_epoch_id: Option<EpochId>,
    /// The height of the highest snapshot that was found when the node started.
    pub persisted_max: Option<u64>,
}

/// Every record has an epoch of its own.
pub open spec fn records_wf(records: Map<EpochId, SnapshotInfoView>) -> bool {
    forall|e: EpochId| #[trigger] records.contains_key(e) ==> records[e].wf()
}

proof fn statuses_keep_records_wf(
    records: Map<EpochId, SnapshotInfoView>,
    kept: Seq<(EpochId, SnapshotKeptToProvideSyncStatus)>,
    n: nat,
)
    requires
        records_wf(records),
    ensures
        records_wf(maintenance::apply_statuses(records, kept, n)),
    decreases n,
{
    if n > 0 {
        statuses_keep_records_wf(records, kept, (n - 1) as nat);
        let before = maintenance::apply_statuses(records, kept, (n - 1) as nat);
        let after = maintenance::apply_statuses(records, kept, n);
        assert forall|e: EpochId| #[trigger] after.contains_key(e) implies after[e].wf() by {
            assert(before.contains_key(e));
        }
    }
}

proof fn forgetting_keeps_records_wf(
    records: Map<EpochId, SnapshotInfoView>,
    epochs: Seq<EpochId>,
    n: nat,
)
    requires
        records_wf(records),
    ensures
        records_wf(startup::forget_all(records, epochs, n)),
    decreases n,
{
    if n > 0 {
        forgetting_keeps_records_wf(records, epochs, (n - 1) as nat);
        let before = startup::forget_all(records, epochs, (n - 1) as nat);
        let after = startup::forget_all(records, epochs, n);
        assert forall|e: EpochId| #[trigger] after.contains_key(e) implies after[e].wf() by {
            assert(before.contains_key(e));
        }
    }
}

impl StorageManager {
    /// The maps are sound, and every snapshot has an epoch of its own.
    pub open spec fn wf(&self) -> bool {
        &&& self.snapshot_info_map_by_epoch.wf()
        &&& self.snapshot_associated_mpts_by_epoch.wf()
        &&& records_wf(self.snapshot_info_map_by_epoch@)
        &&& snapshot_info::infos_wf(self.infos())
    }

    /// Every snapshot is listed once, and every record stands under the epoch of its snapshot.
    pub open spec fn lists_once(&self) -> bool {
        distinct_epochs(self.infos()) && listing::keyed_by_epoch(self.records())
    }

    /// Every listed snapshot has an entry among the tries. It loses that when its tries are released
    /// while it stays in the list.
    pub open spec fn listed_have_tries(&self) -> bool {
        listing::have_tries(self.infos(), self.mpts())
    }

    /// The snapshots in use.
    pub open spec fn infos(&self) -> Seq<SnapshotInfoView> {
        snapshot_info::info_views(self.current_snapshots@)
    }

    /// The records of the snapshots.
    pub open spec fn records(&self) -> Map<EpochId, SnapshotInfoView> {
        self.snapshot_info_map_by_epoch@
    }

    /// The delta tries of the snapshots.
    pub open spec fn mpts(&self) -> Map<EpochId, SnapshotMpts> {
        self.snapshot_associated_mpts_by_epoch@
    }

    /// A manager without snapshots.
    pub fn new(storage_conf: RetentionConfig) -> (r: Self)
        ensures
            r.wf(),
            r.lists_once(),
            r.listed_have_tries(),
            r.storage_conf == storage_conf,
            r.infos() == Seq::<SnapshotInfoView>::empty(),
            r.records() == Map::<EpochId, SnapshotInfoView>::empty(),
            r.mpts() == Map::<EpochId, SnapshotMpts>::empty(),
            r.last_confirmed_snapshottable_epoch_id is None,
            r.persisted_max is None,
    {
        let r = StorageManager {
            storage_conf,
            current_snapshots: Vec::new(),
            snapshot_info_map_by_epoch: PersistedSnapshotInfoMap::new(),
            snapshot_associated_mpts_by_epoch: EpochMap::new(),
            last_confirmed_snapshottable_epoch_id: None,
            persisted_max: None,
        };
        proof {
            assert(r.infos() =~= Seq::<SnapshotInfoView>::empty());
        }
        r
    }

    /// The number of epochs between two snapshots.
    pub fn get_snapshot_epoch_count(&self) -> (r: u32)
        ensures
            r == self.storage_conf.snapshot_epoch_count,
    {
        self.storage_conf.snapshot_epoch_count
    }

    /// Whether the snapshot before a stable checkpoint is kept.
    pub fn keeps_pre_stable_snapshot(&self) -> (r: bool)
        ensures
            r == self.storage_conf.keep_snapshot_before_stable_checkpoint,
    {
        self.storage_conf.keep_snapshot_before_stable_checkpoint
    }

    /// The height of the highest snapshot that was found when the node started.
    pub fn persisted_max_epoch_height(&self) -> (r: u64)
        ensures
            r == (match self.persisted_max {
                Some(height) => height,
                None => 0,
            }),
    {
        match self.persisted_max {
            Some(height) => height,
            None => 0,
        }
    }

    /// The record of a snapshot.
    pub fn get_snapshot_info_at_epoch(&self, snapshot_epoch_id: &EpochId) -> (r: Option<
        SnapshotInfo,
    >)
        requires
            self.wf(),
        ensures
            match r {
                Some(info) => self.records().contains_key(*snapshot_epoch_id) && info@
                    == self.records()[*snapshot_epoch_id],
                None => !self.records().contains_key(*snapshot_epoch_id),
            },
    {
        match self.snapshot_info_map_by_epoch.get(snapshot_epoch_id) {
            Some(info) => Some(info.clone()),
            None => None,
        }
    }

    /// The Merkle root of the snapshot at an epoch.
    pub fn find_merkle_root(
        current_snapshots: &Vec<SnapshotInfo>,
        epoch_id: &EpochId,
    ) -> (r: Option<MerkleHash>)
        requires
            snapshot_info::infos_wf(snapshot_info::info_views(current_snapshots@)),
        ensures
            r == registry::merkle_root_of(
                snapshot_info::info_views(current_snapshots@),
                *epoch_id,
            ),
    {
        registry::find_merkle_root(current_snapshots, epoch_id)
    }

    /// The height of the highest recorded snapshot.
    pub fn latest_snapshot_epoch_height(&self) -> (r: Option<u64>)
        requires
            self.wf(),
        ensures
            match r {
                Some(height) => registry::is_latest_height(self.records(), height),
                None => self.records() == Map::<EpochId, SnapshotInfoView>::empty(),
            },
    {
        registry::latest_snapshot_epoch_height(&self.snapshot_info_map_by_epoch)
    }

    /// The height of the lowest recorded snapshot, without the empty one.
    pub fn earliest_snapshot_epoch_height(&self) -> (r: Option<u64>)
        requires
            self.wf(),
        ensures
            r matches Some(height) ==> registry::is_earliest_height(self.records(), height),
            r is None <==> forall|e: EpochId| #[trigger]
                self.records().contains_key(e) ==> e == null_epoch(),
    {
        let r = registry::earliest_snapshot_epoch_height(&self.snapshot_info_map_by_epoch);
        proof {
            assert forall|e: EpochId| r is None && #[trigger]
                self.records().contains_key(e) implies e == null_epoch() by {
                assert(self.snapshot_info_map_by_epoch@.contains_key(e));
            }
            if r is Some {
                let e = choose|e: EpochId| #[trigger]
                    self.snapshot_info_map_by_epoch@.contains_key(e) && e != null_epoch();
                assert(self.records().contains_key(e));
            }
        }
        r
    }

    /// The number of recorded snapshots.
    pub fn available_snapshot_count(&self) -> (r: usize)
        requires
            self.wf(),
        ensures
            r == self.records().dom().len(),
            self.records().dom().finite(),
    {
        registry::available_snapshot_count(&self.snapshot_info_map_by_epoch)
    }

    /// The delta trie of a snapshot, where it is there already.
    pub fn get_delta_mpt(&self, snapshot_epoch_id: &EpochId) -> (r: Result<
        Option<DeltaMptId>,
        DeltaMptError,
    >)
        requires
            self.wf(),
        ensures
            r == (if self.mpts().contains_key(*snapshot_epoch_id) {
                Ok(self.mpts()[*snapshot_epoch_id].delta)
            } else {
                Err(DeltaMptError::DeltaMPTEntryNotFound)
            }),
    {
        registry::get_delta_mpt(&self.snapshot_associated_mpts_by_epoch, snapshot_epoch_id)
    }

    /// The intermediate trie of a snapshot.
    pub fn get_intermediate_mpt(&self, snapshot_epoch_id: &EpochId) -> (r: Result<
        Option<DeltaMptId>,
        DeltaMptError,
    >)
        requires
            self.wf(),
        ensures
            r == (if self.mpts().contains_key(*snapshot_epoch_id) {
                Ok(self.mpts()[*snapshot_epoch_id].intermediate)
            } else {
                Err(DeltaMptError::DeltaMPTEntryNotFound)
            }),
    {
        registry::get_intermediate_mpt(&self.snapshot_associated_mpts_by_epoch, snapshot_epoch_id)
    }

    /// The delta trie of a snapshot: the one that is there, or `fresh`, which is put in its place.
    pub fn new_or_get_delta_mpt(
        &mut self,
        snapshot_epoch_id: &EpochId,
        fresh: DeltaMptId,
    ) -> (r: Result<DeltaMptId, DeltaMptError>)
        requires
            old(self).wf(),
        ensures
            final(self).wf(),
            old(self).lists_once() ==> final(self).lists_once(),
            old(self).listed_have_tries() ==> final(self).listed_have_tries(),
            final(self).storage_conf == old(self).storage_conf,
            final(self).infos() == old(self).infos(),
            final(self).records() == old(self).records(),
            final(self).persisted_max == old(self).persisted_max,
            final(self).last_confirmed_snapshottable_epoch_id == old(
                self,
            ).last_confirmed_snapshottable_epoch_id,
            ({
                let mpts = old(self).mpts();
                if !mpts.contains_key(*snapshot_epoch_id) {
                    &&& r == Err::<DeltaMptId, DeltaMptError>(DeltaMptError::SnapshotNotFound)
                    &&& final(self).mpts() == mpts
                } else {
                    match mpts[*snapshot_epoch_id].delta {
                        Some(id) => {
                            &&& r == Ok::<DeltaMptId, DeltaMptError>(id)
                            &&& final(self).mpts() == mpts
                        },
                        None => {
                            &&& r == Ok::<DeltaMptId, DeltaMptError>(fresh)
                            &&& final(self).mpts() == mpts.insert(
                                *snapshot_epoch_id,
                                registry::with_delta(
                                    mpts[*snapshot_epoch_id],
                                    *snapshot_epoch_id,
                                    fresh,
                                ),
                            )
                        },
                    }
                }
            }),
    {
        registry::new_or_get_delta_mpt(
            &mut self.snapshot_associated_mpts_by_epoch,
            snapshot_epoch_id,
            fresh,
        )
    }

    /// Registers a snapshot; see [`registry::register_new_snapshot`]. It is listed once more where it
    /// is listed already and its tries were released.
    pub fn register_new_snapshot(
        &mut self,
        new_snapshot_info: SnapshotInfo,
        fresh: DeltaMptId,
    ) -> (r: Result<(), RegisterError>)
        requires
            old(self).wf(),
            new_snapshot_info@.wf(),
        ensures
            final(self).wf(),
            old(self).lists_once() && (listing::lists_epoch(
                old(self).infos(),
                new_snapshot_info@.epoch(),
            ) ==> old(self).mpts().contains_key(new_snapshot_info@.epoch()))
                ==> final(self).lists_once(),
            old(self).lists_once() && old(self).listed_have_tries() ==> final(self).lists_once(),
            old(self).listed_have_tries() ==> final(self).listed_have_tries(),
            final(self).storage_conf == old(self).storage_conf,
            final(self).last_confirmed_snapshottable_epoch_id == old(
                self,
            ).last_confirmed_snapshottable_epoch_id,
            final(self).persisted_max == old(self).persisted_max,
            match registry::rejection(new_snapshot_info@, old(self).records()) {
                Some(e) => {
                    &&& r == Err::<(), RegisterError>(e)
                    &&& final(self).mpts() == old(self).mpts()
                    &&& final(self).records() == old(self).records()
                    &&& final(self).infos() == old(self).infos()
                },
                None => {
                    let info = new_snapshot_info@;
                    &&& r is Ok
                    &&& final(self).mpts() == registry::registered_mpts(
                        old(self).mpts(),
                        info.epoch(),
                        info.parent,
                        fresh,
                    )
                    &&& final(self).records() == old(self).records().insert(info.epoch(), info)
                    &&& final(self).infos() == (if old(self).mpts().contains_key(info.epoch()) {
                        old(self).infos()
                    } else {
                        old(self).infos().push(info)
                    })
                },
            },
    {
        let ghost info = new_snapshot_info@;
        let r = registry::register_new_snapshot(
            &mut self.snapshot_associated_mpts_by_epoch,
            &mut self.snapshot_info_map_by_epoch,
            &mut self.current_snapshots,
            new_snapshot_info,
            fresh,
        );
        proof {
            let before = old(self).infos();
            if distinct_epochs(before) && !listing::lists_epoch(before, info.epoch()) {
                listing::adding_keeps_epochs_distinct(before, info);
            }
            if old(self).listed_have_tries() {
                assert forall|i: int| 0 <= i < self.infos().len() implies self.mpts().contains_key(
                    (#[trigger] self.infos()[i]).epoch(),
                ) by {
                    if i < before.len() {
                        assert(self.infos()[i] == before[i]);
                    }
                }
            }
        }
        r
    }

    /// Takes note that the main chain is confirmed up to an epoch, and works out what is to be done;
    /// see [`maintenance::maintain_snapshots_main_chain_confirmed`].
    pub fn maintain_snapshots_main_chain_confirmed(
        &mut self,
        in_progress: &Vec<(EpochId, SnapshotInfo)>,
        at: &ConfirmedEpoch,
        state_lower_bound: u64,
        stable_checkpoint_height: u64,
        era_epoch_count: u64,
    ) -> (plan: Option<MaintenancePlan>)
        requires
            old(self).wf(),
            old(self).last_confirmed_snapshottable_epoch_id != Some(at.intermediate_epoch_id) ==> {
                &&& at.height > 0 ==> old(self).storage_conf.snapshot_epoch_count > 0
                &&& maintenance::rules_defined(
                    *at,
                    &old(self).storage_conf,
                    stable_checkpoint_height,
                    era_epoch_count,
                    old(self).infos(),
                )
            },
        ensures
            final(self).wf(),
            old(self).lists_once() ==> final(self).lists_once(),
            old(self).listed_have_tries() ==> final(self).listed_have_tries(),
            final(self).storage_conf == old(self).storage_conf,
            final(self).mpts() == old(self).mpts(),
            final(self).persisted_max == old(self).persisted_max,
            final(self).last_confirmed_snapshottable_epoch_id == Some(at.intermediate_epoch_id),
            match plan {
                None => {
                    &&& old(self).last_confirmed_snapshottable_epoch_id == Some(
                        at.intermediate_epoch_id,
                    )
                    &&& final(self).records() == old(self).records()
                    &&& final(self).infos() == old(self).infos()
                },
                Some(p) => {
                    let low = maintenance::lower_scan(
                        *at,
                        &old(self).storage_conf,
                        stable_checkpoint_height,
                        era_epoch_count,
                        old(self).infos(),
                        old(self).infos().len(),
                    );
                    &&& old(self).last_confirmed_snapshottable_epoch_id != Some(
                        at.intermediate_epoch_id,
                    )
                    &&& p@ == maintenance::maintenance_plan(
                        *at,
                        &old(self).storage_conf,
                        stable_checkpoint_height,
                        era_epoch_count,
                        state_lower_bound,
                        old(self).infos(),
                        old(self).records(),
                        maintenance::task_views(in_progress@),
                    )
                    &&& p.snapshot_infos_to_remove@.no_duplicates()
                    &&& final(self).records() == maintenance::apply_statuses(
                        old(self).records(),
                        low.kept,
                        low.kept.len(),
                    )
                    &&& final(self).infos() == maintenance::restated(
                        old(self).infos(),
                        final(self).records(),
                        p@.updated,
                    )
                },
            },
    {
        let plan = maintenance::maintain_snapshots_main_chain_confirmed(
            &mut self.current_snapshots,
            &mut self.snapshot_info_map_by_epoch,
            &mut self.last_confirmed_snapshottable_epoch_id,
            in_progress,
            at,
            state_lower_bound,
            &self.storage_conf,
            stable_checkpoint_height,
            era_epoch_count,
        );
        proof {
            if plan is Some {
                let low = maintenance::lower_scan(
                    *at,
                    &old(self).storage_conf,
                    stable_checkpoint_height,
                    era_epoch_count,
                    old(self).infos(),
                    old(self).infos().len(),
                );
                statuses_keep_records_wf(old(self).records(), low.kept, low.kept.len());
                listing::restating_keeps_epochs(
                    old(self).infos(),
                    self.records(),
                    plan.unwrap()@.updated,
                );
                if old(self).lists_once() {
                    listing::statuses_keep_keys(old(self).records(), low.kept, low.kept.len());
                }
                if old(self).listed_have_tries() {
                    assert forall|i: int|
                        0 <= i < self.infos().len() implies self.mpts().contains_key(
                        (#[trigger] self.infos()[i]).epoch(),
                    ) by {
                        assert(old(self).mpts().contains_key(old(self).infos()[i].epoch()));
                    }
                }
                assert forall|i: int| 0 <= i < self.infos().len() implies (
                #[trigger] self.infos()[i]).wf() by {
                    assert(old(self).infos()[i].wf());
                }
            }
        }
        plan
    }

    /// Takes the snapshots whose infos go out of the list, and gives the steps that remove the rest;
    /// see [`removal::remove_snapshots`].
    pub fn remove_snapshots(
        &mut self,
        old_main_snapshots_to_remove: &Vec<EpochId>,
        non_main_snapshots_to_remove: &Vec<EpochId>,
        snapshot_infos_to_remove: &Vec<EpochId>,
    ) -> (steps: Vec<RemovalStep>)
        requires
            old(self).wf(),
        ensures
            final(self).wf(),
            old(self).lists_once() ==> final(self).lists_once(),
            old(self).listed_have_tries() ==> final(self).listed_have_tries(),
            final(self).storage_conf == old(self).storage_conf,
            final(self).mpts() == old(self).mpts(),
            final(self).records() == old(self).records(),
            final(self).persisted_max == old(self).persisted_max,
            final(self).last_confirmed_snapshottable_epoch_id == old(
                self,
            ).last_confirmed_snapshottable_epoch_id,
            final(self).infos() == removal::remaining(
                old(self).infos(),
                snapshot_infos_to_remove@,
            ),
            steps@ == removal::removal_steps(
                old_main_snapshots_to_remove@,
                non_main_snapshots_to_remove@,
                snapshot_infos_to_remove@,
            ),
    {
        let steps = removal::remove_snapshots(
            &mut self.current_snapshots,
            old_main_snapshots_to_remove,
            non_main_snapshots_to_remove,
            snapshot_infos_to_remove,
        );
        proof {
            let before = old(self).infos();
            let pred = |i: SnapshotInfoView| !snapshot_infos_to_remove@.contains(i.epoch());
            assert forall|i: int| 0 <= i < self.infos().len() implies (
            #[trigger] self.infos()[i]).wf() by {
                assert(before.filter(pred).contains(self.infos()[i]));
                before.lemma_filter_contains_rev(pred, self.infos()[i]);
                let j = choose|j: int| 0 <= j < before.len() && before[j] == self.infos()[i];
                assert(before[j].wf());
            }
            if old(self).lists_once() {
                listing::removing_keeps_epochs_distinct(before, snapshot_infos_to_remove@);
            }
            if old(self).listed_have_tries() {
                listing::removing_keeps_tries(before, snapshot_infos_to_remove@, self.mpts());
            }
        }
        steps
    }

    /// Releases the tries of a snapshot.
    pub fn release_delta_mpts_from_snapshot(&mut self, snapshot_epoch_id: &EpochId)
        requires
            old(self).wf(),
        ensures
            final(self).wf(),
            old(self).lists_once() ==> final(self).lists_once(),
            old(self).listed_have_tries() && !listing::lists_epoch(
                old(self).infos(),
                *snapshot_epoch_id,
            ) ==> final(self).listed_have_tries(),
            final(self).storage_conf == old(self).storage_conf,
            final(self).mpts() == old(self).mpts().remove(*snapshot_epoch_id),
            final(self).records() == old(self).records(),
            final(self).infos() == old(self).infos(),
            final(self).persisted_max == old(self).persisted_max,
            final(self).last_confirmed_snapshottable_epoch_id == old(
                self,
            ).last_confirmed_snapshottable_epoch_id,
    {
        self.snapshot_associated_mpts_by_epoch.remove(snapshot_epoch_id);
    }

    /// Forgets the record of a snapshot.
    pub fn forget_info(&mut self, snapshot_epoch_id: &EpochId)
        requires
            old(self).wf(),
        ensures
            final(self).wf(),
            old(self).lists_once() ==> final(self).lists_once(),
            old(self).listed_have_tries() ==> final(self).listed_have_tries(),
            final(self).storage_conf == old(self).storage_conf,
            final(self).mpts() == old(self).mpts(),
            final(self).records() == old(self).records().remove(*snapshot_epoch_id),
            final(self).infos() == old(self).infos(),
            final(self).persisted_max == old(self).persisted_max,
            final(self).last_confirmed_snapshottable_epoch_id == old(
                self,
            ).last_confirmed_snapshottable_epoch_id,
    {
        self.snapshot_info_map_by_epoch.remove(snapshot_epoch_id);
        proof {
            assert forall|e: EpochId| #[trigger] self.records().contains_key(e) implies old(
                self,
            ).records().contains_key(e) && self.records()[e] == old(self).records()[e] by {}
        }
    }

    /// Puts the empty snapshot before genesis in its place when the node starts.
    pub fn load_genesis(&mut self)
        requires
            old(self).wf(),
        ensures
            final(self).wf(),
            old(self).lists_once() && !listing::lists_epoch(old(self).infos(), null_epoch())
                ==> final(self).lists_once(),
            old(self).listed_have_tries() ==> final(self).listed_have_tries(),
            final(self).storage_conf == old(self).storage_conf,
            final(self).persisted_max == old(self).persisted_max,
            final(self).last_confirmed_snapshottable_epoch_id == old(
                self,
            ).last_confirmed_snapshottable_epoch_id,
            final(self).mpts() == old(self).mpts().insert(
                null_epoch(),
                (SnapshotMpts { intermediate: None, delta: None }),
            ),
            final(self).records() == old(self).records().insert(
                null_epoch(),
                snapshot_info::genesis_info(),
            ),
            final(self).infos() == old(self).infos().push(snapshot_info::genesis_info()),
    {
        startup::load_genesis(
            &mut self.snapshot_associated_mpts_by_epoch,
            &mut self.snapshot_info_map_by_epoch,
            &mut self.current_snapshots,
        );
        proof {
            let before = old(self).infos();
            if distinct_epochs(before) && !listing::lists_epoch(before, null_epoch()) {
                listing::adding_keeps_epochs_distinct(before, snapshot_info::genesis_info());
            }
            if old(self).listed_have_tries() {
                assert forall|i: int| 0 <= i < self.infos().len() implies self.mpts().contains_key(
                    (#[trigger] self.infos()[i]).epoch(),
                ) by {
                    if i < before.len() {
                        assert(self.infos()[i] == before[i]);
                    }
                }
            }
        }
    }

    /// Takes note of the stored snapshots when the node starts: of the highest of them, and forgets
    /// those that are missing. Gives the epochs whose delta databases are to be destroyed with them.
    pub fn take_snapshot_scan(&mut self, state: &SnapshotPersistState) -> (dropped: Vec<EpochId>)
        requires
            old(self).wf(),
        ensures
            final(self).wf(),
            old(self).lists_once() ==> final(self).lists_once(),
            old(self).listed_have_tries() ==> final(self).listed_have_tries(),
            final(self).storage_conf == old(self).storage_conf,
            final(self).mpts() == old(self).mpts(),
            final(self).infos() == old(self).infos(),
            final(self).persisted_max == Some(state.max_epoch_height),
            final(self).last_confirmed_snapshottable_epoch_id == old(
                self,
            ).last_confirmed_snapshottable_epoch_id,
            dropped@ == state.missing_snapshots@.filter(|e: EpochId| e != null_epoch()),
            final(self).records() == startup::forget_all(
                old(self).records(),
                state.missing_snapshots@,
                state.missing_snapshots@.len(),
            ),
    {
        self.persisted_max = Some(state.max_epoch_height);
        let dropped = startup::drop_missing_snapshots(
            &mut self.snapshot_info_map_by_epoch,
            &state.missing_snapshots,
        );
        proof {
            forgetting_keeps_records_wf(
                old(self).records(),
                state.missing_snapshots@,
                state.missing_snapshots@.len(),
            );
            if old(self).lists_once() {
                listing::forgetting_keeps_keys(
                    old(self).records(),
                    state.missing_snapshots@,
                    state.missing_snapshots@.len(),
                );
            }
        }
        dropped
    }

    /// Restores the snapshots when the node starts; see [`startup::load_persist_state`].
    pub fn load_persist_state(
        &mut self,
        missing_delta_db_snapshots: &Vec<EpochId>,
        delta_mpts: &EpochMap<DeltaMptId>,
    ) -> (r: RestoredSnapshots)
        requires
            old(self).wf(),
            delta_mpts.wf(),
        ensures
            final(self).wf(),
            listing::keyed_by_epoch(old(self).records()) ==> final(self).lists_once(),
            final(self).listed_have_tries(),
            final(self).storage_conf == old(self).storage_conf,
            final(self).persisted_max == old(self).persisted_max,
            final(self).last_confirmed_snapshottable_epoch_id == old(
                self,
            ).last_confirmed_snapshottable_epoch_id,
            r.without_tries@ == startup::destroyed_without_tries(
                old(self).records(),
                delta_mpts@,
                missing_delta_db_snapshots@,
                missing_delta_db_snapshots@.len(),
            ),
            startup::is_restored(
                old(self).records(),
                delta_mpts@,
                missing_delta_db_snapshots@,
                final(self).records(),
                final(self).infos(),
                r.orphans@,
            ),
            final(self).mpts() == startup::associate(
                old(self).mpts(),
                final(self).infos(),
                delta_mpts@,
                final(self).infos().len(),
            ),
    {
        let r = startup::load_persist_state(
            &mut self.snapshot_associated_mpts_by_epoch,
            &mut self.snapshot_info_map_by_epoch,
            &mut self.current_snapshots,
            missing_delta_db_snapshots,
            delta_mpts,
        );
        proof {
            let infos = self.infos();
            if listing::keyed_by_epoch(old(self).records()) {
                listing::restored_snapshots_are_listed_once(
                    old(self).records(),
                    delta_mpts@,
                    missing_delta_db_snapshots@,
                    self.records(),
                    infos,
                    r.orphans@,
                );
            }
            listing::restored_snapshots_have_tries(
                old(self).mpts(),
                infos,
                delta_mpts@,
                infos.len(),
            );
            assert(infos.subrange(0, infos.len() as int) =~= infos);
        }
        r
    }
}

} // verus!
