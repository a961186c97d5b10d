use mazze_storage::hash::EpochId;
use mazze_storage::storage::storage_db::snapshot_prefix::{
    compose_snapshot_prefix, compose_snapshot_scope, snapshot_scope_upper_bound, MergeMarkerKind,
    SNAPSHOT_EPOCH_ID_LEN, SNAPSHOT_PREFIX_LEN, SUB_PREFIX_DELTA_DEL, SUB_PREFIX_DELTA_SET,
    SUB_PREFIX_KV, SUB_PREFIX_MERGE_MARKER, SUB_PREFIX_MPT,
};

#[test]
fn marker_sorts_first() {
    for data_sub in [
        SUB_PREFIX_KV,
        SUB_PREFIX_DELTA_SET,
        SUB_PREFIX_DELTA_DEL,
        SUB_PREFIX_MPT,
    ] {
        assert!(
            SUB_PREFIX_MERGE_MARKER < data_sub,
            "marker byte 0x{:02x} must sort below 0x{:02x}",
            SUB_PREFIX_MERGE_MARKER,
            data_sub,
        );
    }
}

#[test]
fn sub_prefixes_are_distinct() {
    let all = [
        SUB_PREFIX_KV,
        SUB_PREFIX_DELTA_SET,
        SUB_PREFIX_DELTA_DEL,
        SUB_PREFIX_MPT,
        SUB_PREFIX_MERGE_MARKER,
    ];
    for i in 0..all.len() {
        for j in (i + 1)..all.len() {
            assert_ne!(all[i], all[j], "sub_prefix collision between {} and {}", i, j);
        }
    }
}

#[test]
fn sub_prefixes_match_paritydb_reference() {
    assert_eq!(SUB_PREFIX_KV, b'k');
    assert_eq!(SUB_PREFIX_DELTA_SET, b's');
    assert_eq!(SUB_PREFIX_DELTA_DEL, b'd');
    assert_eq!(SUB_PREFIX_MPT, b'm');
}

#[test]
fn compose_layout_is_epoch_then_sub() {
    let epoch = EpochId::from_slice(&[0x42u8; SNAPSHOT_EPOCH_ID_LEN]);
    let prefix = compose_snapshot_prefix(&epoch, SUB_PREFIX_KV);
    assert_eq!(prefix.len(), SNAPSHOT_PREFIX_LEN);
    assert_eq!(&prefix[..SNAPSHOT_EPOCH_ID_LEN], epoch.as_bytes());
    assert_eq!(prefix[SNAPSHOT_EPOCH_ID_LEN], SUB_PREFIX_KV);
    assert_eq!(&compose_snapshot_scope(&epoch)[..], epoch.as_bytes());
}

#[test]
fn compose_sub_prefixes_isolate() {
    let epoch = EpochId::from_slice(&[0x0a; SNAPSHOT_EPOCH_ID_LEN]);
    let kv = compose_snapshot_prefix(&epoch, SUB_PREFIX_KV);
    let mpt = compose_snapshot_prefix(&epoch, SUB_PREFIX_MPT);
    assert_eq!(&kv[..SNAPSHOT_EPOCH_ID_LEN], &mpt[..SNAPSHOT_EPOCH_ID_LEN]);
    assert_ne!(kv[SNAPSHOT_EPOCH_ID_LEN], mpt[SNAPSHOT_EPOCH_ID_LEN]);
}

#[test]
fn scope_upper_bound_shape() {
    let low = EpochId::from_slice(&[0u8; SNAPSHOT_EPOCH_ID_LEN]);
    let mut expected = [0u8; SNAPSHOT_EPOCH_ID_LEN];
    expected[SNAPSHOT_EPOCH_ID_LEN - 1] = 1;
    assert_eq!(snapshot_scope_upper_bound(&low), Some(expected));

    let high = EpochId::from_slice(&[0xff; SNAPSHOT_EPOCH_ID_LEN]);
    assert_eq!(snapshot_scope_upper_bound(&high), None);
}

#[test]
fn scope_upper_bound_carries() {
    let mut prefix = [0u8; SNAPSHOT_EPOCH_ID_LEN];
    prefix[SNAPSHOT_EPOCH_ID_LEN - 1] = 0xff;
    let epoch = EpochId::from_slice(&prefix);
    let mut expected = [0u8; SNAPSHOT_EPOCH_ID_LEN];
    expected[SNAPSHOT_EPOCH_ID_LEN - 2] = 1;
    assert_eq!(snapshot_scope_upper_bound(&epoch), Some(expected));
}

#[test]
fn merge_marker_kind_round_trips() {
    for variant in [MergeMarkerKind::Merge, MergeMarkerKind::FullSync] {
        assert_eq!(MergeMarkerKind::from_tag(variant.tag()), Some(variant));
    }
    assert_eq!(MergeMarkerKind::from_tag(0), None);
    assert_eq!(MergeMarkerKind::from_tag(255), None);
}
