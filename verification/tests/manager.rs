use mazze_storage::hash::{merkle_null_node, null_epoch, EpochId, H256};
use mazze_storage::storage::epoch_map::EpochMap;
use mazze_storage::storage::snapshot_info::{
    contains_epoch, SnapshotInfo, SnapshotKeptToProvideSyncStatus,
};
use mazze_storage::storage::storage_db::snapshot_db_manager_mdbx::SnapshotPersistState;
use mazze_storage::storage::storage_manager::background::{
    checker_range, merged_root, should_make_snapshot, snapshot_info_without_delta,
    snapshot_task_end, snapshot_task_step, wait_for_snapshot, MainChainWalk, MainChainWalkError,
    SnapshotTaskAction, SnapshotTaskEnd, SnapshotTaskEvent, WaitEvent, WaitForSnapshot,
};
use mazze_storage::storage::storage_manager::maintenance::{
    height_to_delta_height, maintain_state_confirmed, ConfirmedEpoch,
};
use mazze_storage::storage::storage_manager::manager::StorageManager;
use mazze_storage::storage::storage_manager::registry::{
    needs_new_delta_mpt, note_parent, registration_error, DeltaMptError,
    MaybeDeltaTrieDestroyErrors, RegisterError, SnapshotMpts,
};
use mazze_storage::storage::storage_manager::removal::RemovalStep;
use mazze_storage::storage::storage_manager::retention::{
    extra_snapshots_to_keep_predicate, ProvideExtraSnapshotSyncConfig, RetentionConfig,
};

fn id(byte: u8) -> EpochId {
    EpochId::from_slice(&[byte; 32])
}

fn conf() -> RetentionConfig {
    RetentionConfig {
        provide_more_snapshot_for_sync: vec![ProvideExtraSnapshotSyncConfig::StableCheckpoint],
        snapshot_epoch_count: 10,
        era_epoch_count: 100,
        keep_snapshot_before_stable_checkpoint: true,
        keep_era_genesis_snapshot: false,
    }
}

/// A snapshot of ten epochs. The one at a height between two snapshots is named after the height.
fn info(epoch: u8, parent: EpochId, height: u64) -> SnapshotInfo {
    let first = height.saturating_sub(10) as u8 + 1;
    let mut parts: Vec<EpochId> = (first..height as u8).map(|h| id(0x40 + h)).collect();
    parts.push(id(epoch));
    SnapshotInfo {
        snapshot_info_kept_to_provide_sync: SnapshotKeptToProvideSyncStatus::No,
        serve_one_step_sync: true,
        merkle_root: id(epoch ^ 0x80),
        height,
        parent_snapshot_height: height.saturating_sub(10),
        parent_snapshot_epoch_id: parent,
        main_chain_parts: parts,
    }
}

/// A chain of snapshots 1 to 4 at the heights 10 to 40, and the snapshot 9 of a fork at height 20.
fn manager() -> StorageManager {
    let mut m = StorageManager::new(conf());
    m.load_genesis();
    m.register_new_snapshot(info(1, null_epoch(), 10), 11).unwrap();
    m.register_new_snapshot(info(2, id(1), 20), 12).unwrap();
    m.register_new_snapshot(info(9, id(1), 20), 13).unwrap();
    m.register_new_snapshot(info(3, id(2), 30), 14).unwrap();
    m.register_new_snapshot(info(4, id(3), 40), 15).unwrap();
    m
}

fn heights(m: &StorageManager) -> Vec<u64> {
    m.current_snapshots.iter().map(|i| i.height).collect()
}

#[test]
fn registered_snapshots_are_recorded() {
    let m = manager();
    assert_eq!(m.available_snapshot_count(), 6);
    assert_eq!(m.latest_snapshot_epoch_height(), Some(40));
    assert_eq!(m.earliest_snapshot_epoch_height(), Some(10));
    assert_eq!(m.get_snapshot_info_at_epoch(&id(3)).unwrap().height, 30);
    assert!(m.get_snapshot_info_at_epoch(&id(7)).is_none());
    assert_eq!(
        StorageManager::find_merkle_root(&m.current_snapshots, &id(2)),
        Some(id(0x82))
    );
    assert_eq!(StorageManager::find_merkle_root(&m.current_snapshots, &id(7)), None);
    assert_eq!(m.get_snapshot_epoch_count(), 10);
    assert!(m.keeps_pre_stable_snapshot());
    assert_eq!(m.persisted_max_epoch_height(), 0);
    assert_eq!(heights(&m), vec![0, 10, 20, 20, 30, 40]);
}

#[test]
fn a_new_manager_has_nothing() {
    let m = StorageManager::new(conf());
    assert_eq!(m.available_snapshot_count(), 0);
    assert_eq!(m.latest_snapshot_epoch_height(), None);
    assert_eq!(m.earliest_snapshot_epoch_height(), None);
}

#[test]
fn snapshots_hand_their_tries_on() {
    let mut m = manager();
    assert_eq!(m.get_delta_mpt(&id(1)), Ok(Some(12)));
    assert_eq!(m.get_intermediate_mpt(&id(2)), Ok(Some(12)));
    assert_eq!(m.get_intermediate_mpt(&id(9)), Ok(Some(12)));
    assert_eq!(m.get_delta_mpt(&id(4)), Ok(None));
    assert_eq!(m.new_or_get_delta_mpt(&id(4), 40), Ok(40));
    assert_eq!(m.new_or_get_delta_mpt(&id(4), 41), Ok(40));
    assert_eq!(
        m.new_or_get_delta_mpt(&id(7), 42),
        Err(DeltaMptError::SnapshotNotFound)
    );
    assert_eq!(m.get_delta_mpt(&id(7)), Err(DeltaMptError::DeltaMPTEntryNotFound));
    assert_eq!(
        m.get_intermediate_mpt(&id(7)),
        Err(DeltaMptError::DeltaMPTEntryNotFound)
    );
}

#[test]
fn snapshots_without_a_root_or_a_parent_are_refused() {
    let mut m = manager();
    let mut unset = info(5, id(4), 50);
    unset.merkle_root = H256::zero();
    let e = m.register_new_snapshot(unset, 16).unwrap_err();
    assert!(matches!(e, RegisterError::ZeroMerkleRoot { snapshot } if snapshot == id(5)));
    let e = m.register_new_snapshot(info(5, id(7), 50), 16).unwrap_err();
    assert!(matches!(
        e,
        RegisterError::ParentNotRegistered { snapshot, parent }
            if snapshot == id(5) && parent == id(7)
    ));
    assert_eq!(m.available_snapshot_count(), 6);
}

#[test]
fn confirming_an_epoch_removes_the_fork() {
    let mut m = manager();
    let at = ConfirmedEpoch {
        height: 35,
        epoch_id: id(0x40 + 35),
        intermediate_epoch_id: id(3),
        snapshot_epoch_id: id(2),
    };
    let plan = m
        .maintain_snapshots_main_chain_confirmed(&Vec::new(), &at, 0, 0, 100)
        .unwrap();
    assert_eq!(plan.non_main_snapshots_to_remove, vec![id(9)]);
    assert!(contains_epoch(&plan.snapshot_infos_to_remove, &id(9)));
    assert!(!contains_epoch(&plan.snapshot_infos_to_remove, &id(2)));
    assert!(!contains_epoch(&plan.old_main_snapshots_to_remove, &id(3)));
    assert!(m
        .maintain_snapshots_main_chain_confirmed(&Vec::new(), &at, 0, 0, 100)
        .is_none());

    let steps = m.remove_snapshots(
        &plan.old_main_snapshots_to_remove,
        &plan.non_main_snapshots_to_remove,
        &plan.snapshot_infos_to_remove,
    );
    assert!(steps.iter().any(|s| matches!(s, RemovalStep::RemoveNonMain(e) if *e == id(9))));
    assert!(!m.current_snapshots.iter().any(|i| i.get_snapshot_epoch_id() == id(9)));
    assert!(m.current_snapshots.iter().any(|i| i.get_snapshot_epoch_id() == id(2)));
}

#[test]
fn restored_snapshots_form_whole_chains() {
    let mut m = StorageManager::new(conf());
    for i in [info(2, id(1), 20), info(1, null_epoch(), 10), info(5, id(8), 50)] {
        m.snapshot_info_map_by_epoch.insert(&i.get_snapshot_epoch_id(), i);
    }
    let mut deltas = EpochMap::new();
    deltas.insert(&id(1), 7);
    let r = m.load_persist_state(&Vec::new(), &deltas);
    assert_eq!(r.orphans, vec![id(5)]);
    assert!(r.without_tries.is_empty());
    assert_eq!(heights(&m), vec![10, 20]);
    assert!(m.get_snapshot_info_at_epoch(&id(5)).is_none());
    assert_eq!(
        m.snapshot_associated_mpts_by_epoch.get(&id(1)),
        Some(&SnapshotMpts { intermediate: None, delta: Some(7) })
    );
    assert_eq!(m.get_intermediate_mpt(&id(2)), Ok(Some(7)));
}

#[test]
fn missing_snapshots_are_forgotten() {
    let mut m = manager();
    let state = SnapshotPersistState {
        missing_snapshots: vec![null_epoch(), id(4)],
        max_epoch_id: id(3),
        max_epoch_height: 30,
        temp_snapshot_db_existing: None,
        removed_snapshots: Vec::new(),
        max_snapshot_epoch_height_has_mpt: Some(30),
    };
    assert_eq!(m.take_snapshot_scan(&state), vec![id(4)]);
    assert!(m.get_snapshot_info_at_epoch(&id(4)).is_none());
    assert!(m.get_snapshot_info_at_epoch(&null_epoch()).is_some());
    assert_eq!(m.persisted_max_epoch_height(), 30);
}

#[test]
fn destroy_errors_are_taken_once() {
    let mut errors: MaybeDeltaTrieDestroyErrors<u8> = MaybeDeltaTrieDestroyErrors::new();
    assert_eq!(errors.take_result(), Ok(()));
    errors.set_maybe_error(Some(1));
    errors.set_maybe_error(Some(2));
    assert!(errors.take_result().is_err());
    assert_eq!(errors.take_result(), Ok(()));
}

#[test]
fn checkpoint_snapshots_stay() {
    let mut c = conf();
    let mut find = false;
    assert!(extra_snapshots_to_keep_predicate(&c, 100, 100, 100, &mut find));
    assert!(extra_snapshots_to_keep_predicate(&c, 100, 100, 300, &mut find));
    assert!(extra_snapshots_to_keep_predicate(&c, 100, 100, 90, &mut find));
    assert!(!extra_snapshots_to_keep_predicate(&c, 100, 100, 80, &mut find));
    c.keep_snapshot_before_stable_checkpoint = false;
    assert!(!extra_snapshots_to_keep_predicate(&c, 100, 100, 90, &mut find));
    c.keep_era_genesis_snapshot = true;
    assert!(extra_snapshots_to_keep_predicate(&c, 100, 100, 0, &mut find));
}

#[test]
fn the_nearest_multiple_is_kept_once() {
    let mut c = conf();
    c.provide_more_snapshot_for_sync =
        vec![ProvideExtraSnapshotSyncConfig::EpochNearestMultipleOf(50)];
    let mut find = true;
    assert!(!extra_snapshots_to_keep_predicate(&c, 0, 100, 60, &mut find));
    assert!(extra_snapshots_to_keep_predicate(&c, 0, 100, 50, &mut find));
    assert!(!find);
    assert!(!extra_snapshots_to_keep_predicate(&c, 0, 100, 50, &mut find));
}

#[test]
fn delta_heights_count_from_one() {
    assert_eq!(height_to_delta_height(0, 10), 0);
    assert_eq!(height_to_delta_height(1, 10), 1);
    assert_eq!(height_to_delta_height(10, 10), 10);
    assert_eq!(height_to_delta_height(11, 10), 1);
}

#[test]
fn states_are_maintained_some_snapshots_behind() {
    assert_eq!(maintain_state_confirmed(100, 2, 10, 50), Some(80));
    assert_eq!(maintain_state_confirmed(100, 2, 10, 80), None);
    assert_eq!(maintain_state_confirmed(15, 2, 10, 0), None);
}

#[test]
fn a_snapshot_is_made_once() {
    let mut record = info(1, null_epoch(), 10);
    assert_eq!(should_make_snapshot(true, None, false), None);
    assert_eq!(should_make_snapshot(false, None, false), Some(false));
    assert_eq!(should_make_snapshot(false, Some(&record), false), None);
    assert_eq!(should_make_snapshot(false, Some(&record), true), Some(true));
    record.snapshot_info_kept_to_provide_sync = SnapshotKeptToProvideSyncStatus::InfoOnly;
    assert_eq!(should_make_snapshot(false, Some(&record), false), Some(false));
}

#[test]
fn a_walk_down_the_chain_names_every_epoch() {
    let mut walk = MainChainWalk::new(id(30), 6, 3);
    assert_eq!(walk.question(), Some(id(30)));
    walk.answer(Some(id(29))).unwrap();
    assert_eq!(walk.question(), Some(id(29)));
    assert_eq!(walk.answer(None), Err(MainChainWalkError::DbValueError));
    walk.answer(Some(id(28))).unwrap();
    walk.answer(Some(id(27))).unwrap();
    assert_eq!(walk.question(), None);
    let info = walk.snapshot_info();
    assert_eq!(info.main_chain_parts, vec![id(28), id(29), id(30)]);
    assert_eq!(info.parent_snapshot_epoch_id, id(27));
    assert_eq!(info.parent_snapshot_height, 3);
    assert_eq!(info.get_epoch_id_at_height(5), Some(id(29)));
    assert_eq!(info.get_epoch_id_at_height(3), Some(id(27)));
    assert_eq!(info.get_epoch_id_at_height(2), None);
    assert_eq!(info.get_snapshot_epoch_id(), id(30));
}

#[test]
fn the_first_snapshot_lies_above_genesis() {
    let mut walk = MainChainWalk::new(id(2), 2, 2);
    walk.answer(Some(id(1))).unwrap();
    assert_eq!(walk.question(), None);
    let first = walk.snapshot_info();
    assert_eq!(first.parent_snapshot_epoch_id, null_epoch());
    assert_eq!(first.main_chain_parts, vec![id(1), id(2)]);
    let lone = snapshot_info_without_delta(id(2), 2, 2);
    assert_eq!(lone.main_chain_parts, vec![H256::zero(), id(2)]);
}

#[test]
fn cancelled_tasks_register_nothing() {
    assert_eq!(
        snapshot_task_step(SnapshotTaskEvent::Started { cancelled: true }),
        SnapshotTaskAction::Stop
    );
    assert_eq!(
        snapshot_task_step(SnapshotTaskEvent::Merged { cancelled: true }),
        SnapshotTaskAction::Discard
    );
    assert_eq!(
        snapshot_task_step(SnapshotTaskEvent::Started { cancelled: false }),
        SnapshotTaskAction::Merge
    );
    assert_eq!(
        snapshot_task_step(SnapshotTaskEvent::Merged { cancelled: false }),
        SnapshotTaskAction::Register
    );
    assert_eq!(
        snapshot_task_step(SnapshotTaskEvent::Registered { accepted: true }),
        SnapshotTaskAction::Announce
    );
    assert_eq!(
        snapshot_task_step(SnapshotTaskEvent::Registered { accepted: false }),
        SnapshotTaskAction::Fail
    );
}

#[test]
fn cancelled_tasks_end_as_cancelled() {
    let cancelled = Some(SnapshotTaskEnd::Cancelled);
    assert_eq!(snapshot_task_end(SnapshotTaskAction::Stop), cancelled);
    assert_eq!(snapshot_task_end(SnapshotTaskAction::Discard), cancelled);
    assert_eq!(snapshot_task_end(SnapshotTaskAction::Merge), None);
    assert_eq!(snapshot_task_end(SnapshotTaskAction::Register), None);
    assert_eq!(snapshot_task_end(SnapshotTaskAction::Announce), Some(SnapshotTaskEnd::Done));
    assert_eq!(snapshot_task_end(SnapshotTaskAction::Fail), Some(SnapshotTaskEnd::Failed));
}

#[test]
fn checkers_share_the_keys() {
    assert_eq!(checker_range(4, 0), (0, Some(64)));
    assert_eq!(checker_range(4, 3), (192, None));
    assert_eq!(checker_range(3, 2), (170, Some(255)));
}

#[test]
fn snapshots_are_waited_for() {
    let run = |events: &[WaitEvent]| {
        events.iter().fold(WaitForSnapshot::Open, |stage, e| wait_for_snapshot(stage, *e))
    };
    let (done, absent, failed) = (WaitEvent::Done, WaitEvent::Absent, WaitEvent::Failed);
    assert_eq!(run(&[done]), WaitForSnapshot::Found);
    assert_eq!(run(&[failed]), WaitForSnapshot::Failed);
    assert_eq!(run(&[absent]), WaitForSnapshot::FindTask);
    assert_eq!(run(&[absent, absent]), WaitForSnapshot::NotFound);
    assert_eq!(run(&[absent, done]), WaitForSnapshot::JoinTask);
    assert_eq!(run(&[absent, done, failed]), WaitForSnapshot::Failed);
    assert_eq!(run(&[absent, done, done, done]), WaitForSnapshot::Found);
    assert_eq!(run(&[absent, done, done, absent]), WaitForSnapshot::NotFound);
    assert_eq!(merged_root(None), merkle_null_node());
    assert_eq!(merged_root(Some(id(3))), id(3));
}

#[test]
fn parents_without_delta_tries_need_one() {
    let mut mpts = EpochMap::new();
    assert!(needs_new_delta_mpt(&mpts, &id(1)));
    note_parent(&mut mpts, &id(1));
    assert_eq!(mpts.get(&id(1)), Some(&SnapshotMpts { intermediate: None, delta: None }));
    assert!(needs_new_delta_mpt(&mpts, &id(1)));
    mpts.insert(&id(1), SnapshotMpts { intermediate: None, delta: Some(3) });
    assert!(!needs_new_delta_mpt(&mpts, &id(1)));
    note_parent(&mut mpts, &id(1));
    assert_eq!(mpts.get(&id(1)), Some(&SnapshotMpts { intermediate: None, delta: Some(3) }));
}

#[test]
fn a_snapshot_with_tries_is_listed_once() {
    let mut m = manager();
    let before = heights(&m);
    m.register_new_snapshot(info(2, id(1), 20), 31).unwrap();
    assert_eq!(heights(&m), before);
    m.release_delta_mpts_from_snapshot(&id(2));
    assert_eq!(m.get_delta_mpt(&id(2)), Err(DeltaMptError::DeltaMPTEntryNotFound));
    m.register_new_snapshot(info(2, id(1), 20), 32).unwrap();
    assert_eq!(heights(&m).len(), before.len() + 1);
}

#[test]
fn a_refused_snapshot_is_known_beforehand() {
    let mut m = manager();
    let refused = info(6, id(7), 60);
    let e = registration_error(&refused, &m.snapshot_info_map_by_epoch);
    assert!(matches!(
        e,
        Some(RegisterError::ParentNotRegistered { snapshot, parent })
            if snapshot == id(6) && parent == id(7)
    ));
    let accepted = info(5, id(4), 50);
    assert!(registration_error(&accepted, &m.snapshot_info_map_by_epoch).is_none());
    m.forget_info(&id(4));
    assert!(m.get_snapshot_info_at_epoch(&id(4)).is_none());
    assert!(registration_error(&accepted, &m.snapshot_info_map_by_epoch).is_some());
}
