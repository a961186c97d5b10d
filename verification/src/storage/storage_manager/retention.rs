//! Which snapshots below the maintained range are kept so that peers can sync from them.

use vstd::prelude::*;

verus! {

/// One rule that keeps snapshots beyond the maintained range.
#[derive(Clone, Copy, Debug, PartialEq, Eq, Structural)]
pub enum ProvideExtraSnapshotSyncConfig {
    /// Keep the snapshots at stable checkpoints.
    StableCheckpoint,
    /// Keep the next snapshot whose height is a multiple of the number, where such a one is looked
    /// for. The maintenance of the snapshots looks for none, so that there the rule keeps nothing.
    EpochNearestMultipleOf(u32),
}

/// The settings that the retention rules read.
#[derive(Debug)]
pub struct RetentionConfig {
    pub provide_more_snapshot_for_sync: Vec<ProvideExtraSnapshotSyncConfig>,
    /// The number of epochs between two snapshots.
    pub snapshot_epoch_count: u32,
    /// The number of epochs of an era.
    pub era_epoch_count: u64,
    pub keep_snapshot_before_stable_checkpoint: bool,
    pub keep_era_genesis_snapshot: bool,
}

/// `height` is a stable checkpoint or lies whole eras above one.
pub open spec fn on_checkpoint(height: int, stable: u64, era: u64) -> bool {
    height >= stable && (height - stable) % (era as int) == 0
}

/// The height of the snapshot at the genesis of the era before the stable checkpoint.
pub open spec fn era_genesis_height(stable: u64, era: u64) -> int {
    if stable >= era {
        stable - era
    } else {
        0
    }
}

/// What the rule for stable checkpoints says of a snapshot: `Some` answer, or `None` where the
/// rule says nothing of it. The checkpoint itself is kept, the one before it as configured, and
/// the genesis of the era before it where that is configured.
pub open spec fn checkpoint_rule(conf: &RetentionConfig, stable: u64, era: u64, height: u64) -> Option<bool> {
    if on_checkpoint(height as int, stable, era) {
        Some(true)
    } else if on_checkpoint(height + conf.snapshot_epoch_count, stable, era) {
        Some(conf.keep_snapshot_before_stable_checkpoint)
    } else if conf.keep_era_genesis_snapshot && era_genesis_height(stable, conf.era_epoch_count) == height {
        Some(true)
    } else {
        None
    }
}

/// The arithmetic of the rule for stable checkpoints has a result.
pub open spec fn checkpoint_rule_defined(conf: &RetentionConfig, stable: u64, era: u64, height: u64) -> bool {
    &&& height >= stable ==> era > 0
    &&& !on_checkpoint(height as int, stable, era) ==> {
        &&& height + conf.snapshot_epoch_count <= u64::MAX
        &&& height + conf.snapshot_epoch_count >= stable ==> era > 0
    }
}

/// The first answer that the rules from the `i`-th on give; `(keep, flag)`, where the flag says
/// whether a snapshot at a multiple is still looked for.
pub open spec fn keep_from(
    conf: &RetentionConfig,
    stable: u64,
    era: u64,
    height: u64,
    find: bool,
    i: int,
) -> (bool, bool)
    decreases conf.provide_more_snapshot_for_sync@.len() - i,
{
    if i < 0 || i >= conf.provide_more_snapshot_for_sync@.len() {
        (false, find)
    } else {
        match conf.provide_more_snapshot_for_sync@[i] {
            ProvideExtraSnapshotSyncConfig::StableCheckpoint => match checkpoint_rule(
                conf,
                stable,
                era,
                height,
            ) {
                Some(keep) => (keep, find),
                None => keep_from(conf, stable, era, height, find, i + 1),
            },
            ProvideExtraSnapshotSyncConfig::EpochNearestMultipleOf(multiple) => if find && height
                % (multiple as u64) == 0 {
                (true, false)
            } else {
                keep_from(conf, stable, era, height, find, i + 1)
            },
        }
    }
}

/// The arithmetic of every rule that is consulted, from the `i`-th on, has a result.
pub open spec fn keep_defined_from(
    conf: &RetentionConfig,
    stable: u64,
    era: u64,
    height: u64,
    find: bool,
    i: int,
) -> bool
    decreases conf.provide_more_snapshot_for_sync@.len() - i,
{
    if i < 0 || i >= conf.provide_more_snapshot_for_sync@.len() {
        true
    } else {
        match conf.provide_more_snapshot_for_sync@[i] {
            ProvideExtraSnapshotSyncConfig::StableCheckpoint => {
                &&& checkpoint_rule_defined(conf, stable, era, height)
                &&& checkpoint_rule(conf, stable, era, height) is None ==> keep_defined_from(
                    conf,
                    stable,
                    era,
                    height,
                    find,
                    i + 1,
                )
            },
            ProvideExtraSnapshotSyncConfig::EpochNearestMultipleOf(multiple) => {
                &&& find ==> multiple > 0
                &&& !(find && height % (multiple as u64) == 0) ==> keep_defined_from(
                    conf,
                    stable,
                    era,
                    height,
                    find,
                    i + 1,
                )
            },
        }
    }
}

/// Whether the rules keep the snapshot at `height`. The first rule that answers decides.
pub fn extra_snapshots_to_keep_predicate(
    storage_conf: &RetentionConfig,
    stable_checkpoint_height: u64,
    era_epoch_count: u64,
    height: u64,
    find_epoch_nearest_multiple_of: &mut bool,
) -> (keep: bool)
    requires
        keep_defined_from(
            storage_conf,
            stable_checkpoint_height,
            era_epoch_count,
            height,
            *old(find_epoch_nearest_multiple_of),
            0,
        ),
    ensures
        (keep, *final(find_epoch_nearest_multiple_of)) == keep_from(
            storage_conf,
            stable_checkpoint_height,
            era_epoch_count,
            height,
            *old(find_epoch_nearest_multiple_of),
            0,
        ),
{
    let mut i: usize = 0;
    let ghost find = *find_epoch_nearest_multiple_of;
    while i < storage_conf.provide_more_snapshot_for_sync.len()
        invariant
            i <= storage_conf.provide_more_snapshot_for_sync.len(),
            *find_epoch_nearest_multiple_of == find,
            keep_defined_from(
                storage_conf,
                stable_checkpoint_height,
                era_epoch_count,
                height,
                find,
                i as int,
            ),
            keep_from(storage_conf, stable_checkpoint_height, era_epoch_count, height, find, 0)
                == keep_from(
                storage_conf,
                stable_checkpoint_height,
                era_epoch_count,
                height,
                find,
                i as int,
            ),
            find == *old(find_epoch_nearest_multiple_of),
        decreases storage_conf.provide_more_snapshot_for_sync.len() - i,
    {
        match storage_conf.provide_more_snapshot_for_sync[i] {
            ProvideExtraSnapshotSyncConfig::StableCheckpoint => {
                if height >= stable_checkpoint_height && (height - stable_checkpoint_height)
                    % era_epoch_count == 0 {
                    return true;
                }
                let check_next_snapshot_height: u64 = height
                    + storage_conf.snapshot_epoch_count as u64;
                if check_next_snapshot_height >= stable_checkpoint_height && (
                check_next_snapshot_height - stable_checkpoint_height) % era_epoch_count == 0 {
                    return storage_conf.keep_snapshot_before_stable_checkpoint;
                }
                if storage_conf.keep_era_genesis_snapshot {
                    let era_genesis_snapshot_height: u64 = if stable_checkpoint_height
                        >= storage_conf.era_epoch_count {
                        stable_checkpoint_height - storage_conf.era_epoch_count
                    } else {
                        0
                    };
                    if era_genesis_snapshot_height == height {
                        return true;
                    }
                }
            },
            ProvideExtraSnapshotSyncConfig::EpochNearestMultipleOf(multiple) => {
                if *find_epoch_nearest_multiple_of && height % (multiple as u64) == 0 {
                    *find_epoch_nearest_multiple_of = false;
                    return true;
                }
            },
        }
        i = i + 1;
    }
    false
}

/// A snapshot at a stable checkpoint is kept whenever that rule stands first.
pub proof fn checkpoint_snapshots_are_kept(
    conf: &RetentionConfig,
    stable: u64,
    era: u64,
    height: u64,
    find: bool,
)
    requires
        conf.provide_more_snapshot_for_sync@.len() > 0,
        conf.provide_more_snapshot_for_sync@[0]
            == ProvideExtraSnapshotSyncConfig::StableCheckpoint,
        on_checkpoint(height as int, stable, era),
    ensures
        keep_from(conf, stable, era, height, find, 0).0,
{
}

/// Without rules nothing is kept.
pub proof fn no_rule_keeps_nothing(
    conf: &RetentionConfig,
    stable: u64,
    era: u64,
    height: u64,
    find: bool,
)
    requires
        conf.provide_more_snapshot_for_sync@.len() == 0,
    ensures
        keep_from(conf, stable, era, height, find, 0) == (false, find),
        keep_defined_from(conf, stable, era, height, find, 0),
{
}

/// The search for a multiple never starts again once it is off.
pub proof fn finished_search_stays_finished(
    conf: &RetentionConfig,
    stable: u64,
    era: u64,
    height: u64,
    i: int,
)
    ensures
        keep_from(conf, stable, era, height, false, i).1 == false,
    decreases conf.provide_more_snapshot_for_sync@.len() - i,
{
    if 0 <= i < conf.provide_more_snapshot_for_sync@.len() {
        finished_search_stays_finished(conf, stable, era, height, i + 1);
    }
}

} // verus!
