//! What the retention rules say of each height.

use super::retention;
use super::retention::{ProvideExtraSnapshotSyncConfig, RetentionConfig};
use vstd::prelude::*;

verus! {

/// The snapshot at a height is that of a stable checkpoint, or lies whole eras above one.
pub open spec fn at_checkpoint(height: int, stable: u64, era: u64) -> bool {
    exists|eras: int| eras >= 0 && height == stable + #[trigger] (eras * (era as int))
}

/// What is kept for the sake of stable checkpoints: the snapshot at one, the one before it where
/// that is configured, and, where that is configured and the two say nothing, the one at the genesis
/// of the era before it.
pub open spec fn checkpoint_answer(
    conf: &RetentionConfig,
    stable: u64,
    era: u64,
    height: u64,
) -> bool {
    if at_checkpoint(height as int, stable, era) {
        true
    } else if at_checkpoint(height + conf.snapshot_epoch_count, stable, era) {
        conf.keep_snapshot_before_stable_checkpoint
    } else {
        conf.keep_era_genesis_snapshot && (height == 0 && stable < conf.era_epoch_count || height
            + conf.era_epoch_count == stable)
    }
}

proof fn checkpoints_by_remainder(height: int, stable: u64, era: u64)
    requires
        era > 0,
    ensures
        at_checkpoint(height, stable, era) <==> retention::on_checkpoint(height, stable, era),
{
    let d = height - stable;
    let e = era as int;
    if at_checkpoint(height, stable, era) {
        let eras = choose|eras: int| eras >= 0 && height == stable + #[trigger] (eras * e);
        assert(eras * e >= 0) by (nonlinear_arith)
            requires
                eras >= 0,
                e > 0,
        ;
        vstd::arithmetic::div_mod::lemma_mod_multiples_basic(eras, e);
    }
    if retention::on_checkpoint(height, stable, era) {
        vstd::arithmetic::div_mod::lemma_fundamental_div_mod(d, e);
        let eras = d / e;
        assert(eras >= 0) by {
            vstd::arithmetic::div_mod::lemma_div_pos_is_pos(d, e);
        }
        assert(eras * e == e * eras) by (nonlinear_arith);
        assert(height == stable + eras * e);
    }
}

/// The maintenance keeps a snapshot at a height exactly if the rule for stable checkpoints is among
/// the rules and keeps it; the other rules keep nothing there.
pub proof fn checkpoints_decide_what_is_kept(
    conf: &RetentionConfig,
    stable: u64,
    era: u64,
    height: u64,
    i: int,
)
    requires
        era > 0,
        0 <= i,
    ensures
        retention::keep_from(conf, stable, era, height, false, i) == (({
            &&& exists|j: int|
                i <= j < conf.provide_more_snapshot_for_sync@.len() && (
                #[trigger] conf.provide_more_snapshot_for_sync@[j])
                    == ProvideExtraSnapshotSyncConfig::StableCheckpoint
            &&& checkpoint_answer(conf, stable, era, height)
        }), false),
    decreases conf.provide_more_snapshot_for_sync@.len() - i,
{
    let rules = conf.provide_more_snapshot_for_sync@;
    checkpoints_by_remainder(height as int, stable, era);
    checkpoints_by_remainder(height + conf.snapshot_epoch_count, stable, era);
    if i < rules.len() {
        checkpoints_decide_what_is_kept(conf, stable, era, height, i + 1);
        if rules[i] == ProvideExtraSnapshotSyncConfig::StableCheckpoint {
            assert(rules[i] == ProvideExtraSnapshotSyncConfig::StableCheckpoint);
        }
    }
}

/// While a snapshot at a multiple is looked for, the first rule that keeps a snapshot decides: a
/// multiple ends the search, and a stable checkpoint does not.
pub proof fn multiples_end_the_search(
    conf: &RetentionConfig,
    stable: u64,
    era: u64,
    height: u64,
    i: int,
)
    requires
        era > 0,
        0 <= i < conf.provide_more_snapshot_for_sync@.len(),
    ensures
        ({
            let found = retention::keep_from(conf, stable, era, height, true, i);
            let rest = retention::keep_from(conf, stable, era, height, true, i + 1);
            match conf.provide_more_snapshot_for_sync@[i] {
                ProvideExtraSnapshotSyncConfig::EpochNearestMultipleOf(m) => if height % (m as u64)
                    == 0 {
                    found == (true, false)
                } else {
                    found == rest
                },
                ProvideExtraSnapshotSyncConfig::StableCheckpoint => if checkpoint_answer(
                    conf,
                    stable,
                    era,
                    height,
                ) {
                    found == (true, true)
                } else if at_checkpoint(height + conf.snapshot_epoch_count, stable, era) {
                    found == (false, true)
                } else {
                    found == rest
                },
            }
        }),
        retention::keep_from(
            conf,
            stable,
            era,
            height,
            true,
            conf.provide_more_snapshot_for_sync@.len() as int,
        ) == (false, true),
{
    checkpoints_by_remainder(height as int, stable, era);
    checkpoints_by_remainder(height + conf.snapshot_epoch_count, stable, era);
}

} // verus!
