//! The catalogue of tables of the hot environment.
//!
//! Each logical table is one column, with a number of its own that never changes. New tables get
//! new numbers at the end.

use vstd::prelude::*;

verus! {

/// The logical tables. The documentation of each gives its keys and values.
#[derive(Clone, Copy, Debug, PartialEq, Eq, Structural, Hash)]
pub enum Column {
    /// `block_hash (32B) -> Header (RLP)`.
    BlockHeaders,
    /// `block_hash (32B) -> Body (RLP: Vec<Tx>)`.
    BlockBodies,
    /// `block_hash (32B) -> Vec<Receipt> (RLP)`.
    BlockReceipts,
    /// `block_hash (32B) -> Vec<Trace> (RLP)`.
    BlockTraces,
    /// `epoch_id (32B) -> StateRootWithAuxInfo`.
    BlockExecutionCommitment,
    /// `block_hash (32B) -> RewardInfo { author, block_reward, tx_fees }`.
    BlockRewards,
    /// `tx_hash (32B) -> { block_hash (32B), index (u32) }`.
    TxIndex,
    /// `block_number (u64 BE) -> block_hash (32B)`.
    HashByNumber,
    /// `block_hash (32B) -> block_number (u64 BE)`.
    NumberByHash,
    /// `epoch (u64 BE) -> Vec<block_hash> (RLP)`.
    EpochBlocks,
    /// `epoch (u64 BE) -> block_hash (32B)`.
    BestPivot,
    /// `timer_height (u64 BE) -> block_hash (32B)`.
    TimerChain,
    /// `block_hash (32B) -> bool (1B)`.
    BlockIsTimer,
    /// `parent_hash (32B) -> Vec<block_hash> (RLP)`.
    ChildrenByParent,
    /// `block_hash (32B) -> VerifiedRootInfo (RLP)`.
    BlamedHeaderVerifiedRoots,
    /// `block_hash (32B) -> () (empty value)`.
    VerifiedInvalidBlocks,
    /// `(space (1B), address (20B)) -> Account (RLP)`.
    PlainAccount,
    /// `(space (1B), address (20B), key (32B)) -> U256 (32B BE)`.
    PlainStorage,
    /// `code_hash (32B) -> code_bytes (varlen)`.
    CodeStore,
    /// `(space (1B), address (20B)) -> H256 (32B)`.
    StorageRoots,
    /// `(space (1B), address (20B)) -> RoaringBitmap (varlen)`.
    AccountHistory,
    /// `(space (1B), address (20B), key (32B)) -> RoaringBitmap`.
    StorageHistory,
    /// `(space (1B), address (20B), epoch (u64 BE)) -> { prev_account (RLP), source_block_hash (32B) }`.
    AccountChangeSet,
    /// `(space (1B), address (20B), key (32B), epoch (u64 BE)) -> { prev_value (32B), source_block_hash (32B) }`.
    StorageChangeSet,
    /// `epoch (u64 BE) -> Vec<(space, address)> (RLP)`.
    AccountsAtEpoch,
    /// `epoch (u64 BE) -> Vec<(space, address, key)> (RLP)`.
    StorageAtEpoch,
    /// `code_hash (32B) -> RoaringBitmap<epoch>`.
    CodeHistory,
    /// `single_key_id (u8) -> ChainMeta (RLP)`.
    ChainMetadata,
    /// `snapshot_epoch_id (32B) -> SnapshotInfo (RLP)`.
    SnapshotInfo,
    /// `single_key (u8) -> { lower_bound (u64 BE), upper_bound (u64 BE), main_chain (Vec<block_hash>) }`.
    StateAvailabilityBoundary,
    /// `timer_height (u64 BE) -> block_hash (32B)`.
    ForceConfirmed,
    /// `seed_segment_start_epoch (u64 BE) -> seed_hash (32B)`.
    RandomxSeedByEpoch,
    /// `level (u32 BE) -> hash (32B)`.
    ShieldedFrontier,
    /// `slot (u32 BE) -> root_hash (32B)`.
    ShieldedRoots,
    /// `nullifier_hash (32B) -> () (empty)`.
    ShieldedNullifiers,
    /// `single_key (u8) -> indices (RLP)`.
    ShieldedIndices,
    /// `word_index (u32 BE) -> 32-byte word`.
    ShieldedVKWords,
    /// `(era_index (u64 BE), operator_pubkey (33B)) -> signature (65B)`.
    EraAttestations,
    /// `era_index (u64 BE) -> root_hash (32B)`.
    EraArtifactRoots,
    /// `column_type (u8) -> Vec<SegmentDescriptor (RLP)>`.
    StaticFileIndex,
    /// `(column_type (u8), block_range_start (u64 BE)) -> { end (u64 BE), pruned_at_epoch (u64 BE), reason (u8) }`.
    PrunedRanges,
    /// `single_key (u8) -> { version (u32), applied_at_epoch (u64 BE) }`.
    SchemaVersion,
    /// `migration_id (u32 BE) -> { last_committed_key (Vec<u8>), progress_epoch (u64 BE), started_at (u64 BE), stage (u8) }`.
    MigrationCheckpoint,
    /// `epoch (u64 BE) -> { table_bitmap (RoaringBitmap), sha3_of_sorted_kv (32B) }`.
    IntegrityChecksums,
    /// `epoch (u64 BE) -> Bloom (256B)`.
    EpochLogsBloom,
    /// `(space (1B), address (20B)) -> RoaringBitmap<epoch>`.
    AddressTouchedBitmap,
    /// `(topic_index (u8), topic (32B)) -> RoaringBitmap<epoch>`.
    TopicTouchedBitmap,
    /// `epoch (u64 BE) -> { reward_window_hashes (Vec<block_hash>), pinned_from_epoch (u64 BE) }`.
    RewardWindowMetadata,
    /// `single_key (u8) -> GenesisSummary (RLP)`.
    GenesisMetadata,
}

/// The number of columns.
pub const NUM_COLUMNS: u32 = 49;

/// The number of a column.
pub open spec fn column_id(c: Column) -> u32 {
    match c {
        Column::BlockHeaders => 0,
        Column::BlockBodies => 1,
        Column::BlockReceipts => 2,
        Column::BlockTraces => 3,
        Column::BlockExecutionCommitment => 4,
        Column::BlockRewards => 5,
        Column::TxIndex => 6,
        Column::HashByNumber => 7,
        Column::NumberByHash => 8,
        Column::EpochBlocks => 9,
        Column::BestPivot => 10,
        Column::TimerChain => 11,
        Column::BlockIsTimer => 12,
        Column::ChildrenByParent => 13,
        Column::BlamedHeaderVerifiedRoots => 14,
        Column::VerifiedInvalidBlocks => 15,
        Column::PlainAccount => 16,
        Column::PlainStorage => 17,
        Column::CodeStore => 18,
        Column::StorageRoots => 19,
        Column::AccountHistory => 20,
        Column::StorageHistory => 21,
        Column::AccountChangeSet => 22,
        Column::StorageChangeSet => 23,
        Column::AccountsAtEpoch => 24,
        Column::StorageAtEpoch => 25,
        Column::CodeHistory => 26,
        Column::ChainMetadata => 27,
        Column::SnapshotInfo => 28,
        Column::StateAvailabilityBoundary => 29,
        Column::ForceConfirmed => 30,
        Column::RandomxSeedByEpoch => 31,
        Column::ShieldedFrontier => 32,
        Column::ShieldedRoots => 33,
        Column::ShieldedNullifiers => 34,
        Column::ShieldedIndices => 35,
        Column::ShieldedVKWords => 36,
        Column::EraAttestations => 37,
        Column::EraArtifactRoots => 38,
        Column::StaticFileIndex => 39,
        Column::PrunedRanges => 40,
        Column::SchemaVersion => 41,
        Column::MigrationCheckpoint => 42,
        Column::IntegrityChecksums => 43,
        Column::EpochLogsBloom => 44,
        Column::AddressTouchedBitmap => 45,
        Column::TopicTouchedBitmap => 46,
        Column::RewardWindowMetadata => 47,
        Column::GenesisMetadata => 48,
    }
}

/// The name of a column: that of its variant.
pub open spec fn column_name(c: Column) -> Seq<char> {
    match c {
        Column::BlockHeaders => "BlockHeaders"@,
        Column::BlockBodies => "BlockBodies"@,
        Column::BlockReceipts => "BlockReceipts"@,
        Column::BlockTraces => "BlockTraces"@,
        Column::BlockExecutionCommitment => "BlockExecutionCommitment"@,
        Column::BlockRewards => "BlockRewards"@,
        Column::TxIndex => "TxIndex"@,
        Column::HashByNumber => "HashByNumber"@,
        Column::NumberByHash => "NumberByHash"@,
        Column::EpochBlocks => "EpochBlocks"@,
        Column::BestPivot => "BestPivot"@,
        Column::TimerChain => "TimerChain"@,
        Column::BlockIsTimer => "BlockIsTimer"@,
        Column::ChildrenByParent => "ChildrenByParent"@,
        Column::BlamedHeaderVerifiedRoots => "BlamedHeaderVerifiedRoots"@,
        Column::VerifiedInvalidBlocks => "VerifiedInvalidBlocks"@,
        Column::PlainAccount => "PlainAccount"@,
        Column::PlainStorage => "PlainStorage"@,
        Column::CodeStore => "CodeStore"@,
        Column::StorageRoots => "StorageRoots"@,
        Column::AccountHistory => "AccountHistory"@,
        Column::StorageHistory => "StorageHistory"@,
        Column::AccountChangeSet => "AccountChangeSet"@,
        Column::StorageChangeSet => "StorageChangeSet"@,
        Column::AccountsAtEpoch => "AccountsAtEpoch"@,
        Column::StorageAtEpoch => "StorageAtEpoch"@,
        Column::CodeHistory => "CodeHistory"@,
        Column::ChainMetadata => "ChainMetadata"@,
        Column::SnapshotInfo => "SnapshotInfo"@,
        Column::StateAvailabilityBoundary => "StateAvailabilityBoundary"@,
        Column::ForceConfirmed => "ForceConfirmed"@,
        Column::RandomxSeedByEpoch => "RandomxSeedByEpoch"@,
        Column::ShieldedFrontier => "ShieldedFrontier"@,
        Column::ShieldedRoots => "ShieldedRoots"@,
        Column::ShieldedNullifiers => "ShieldedNullifiers"@,
        Column::ShieldedIndices => "ShieldedIndices"@,
        Column::ShieldedVKWords => "ShieldedVKWords"@,
        Column::EraAttestations => "EraAttestations"@,
        Column::EraArtifactRoots => "EraArtifactRoots"@,
        Column::StaticFileIndex => "StaticFileIndex"@,
        Column::PrunedRanges => "PrunedRanges"@,
        Column::SchemaVersion => "SchemaVersion"@,
        Column::MigrationCheckpoint => "MigrationCheckpoint"@,
        Column::IntegrityChecksums => "IntegrityChecksums"@,
        Column::EpochLogsBloom => "EpochLogsBloom"@,
        Column::AddressTouchedBitmap => "AddressTouchedBitmap"@,
        Column::TopicTouchedBitmap => "TopicTouchedBitmap"@,
        Column::RewardWindowMetadata => "RewardWindowMetadata"@,
        Column::GenesisMetadata => "GenesisMetadata"@,
    }
}

/// The column with a number.
pub open spec fn column_with_id(id: u32) -> Option<Column> {
    match id {
        0 => Some(Column::BlockHeaders),
        1 => Some(Column::BlockBodies),
        2 => Some(Column::BlockReceipts),
        3 => Some(Column::BlockTraces),
        4 => Some(Column::BlockExecutionCommitment),
        5 => Some(Column::BlockRewards),
        6 => Some(Column::TxIndex),
        7 => Some(Column::HashByNumber),
        8 => Some(Column::NumberByHash),
        9 => Some(Column::EpochBlocks),
        10 => Some(Column::BestPivot),
        11 => Some(Column::TimerChain),
        12 => Some(Column::BlockIsTimer),
        13 => Some(Column::ChildrenByParent),
        14 => Some(Column::BlamedHeaderVerifiedRoots),
        15 => Some(Column::VerifiedInvalidBlocks),
        16 => Some(Column::PlainAccount),
        17 => Some(Column::PlainStorage),
        18 => Some(Column::CodeStore),
        19 => Some(Column::StorageRoots),
        20 => Some(Column::AccountHistory),
        21 => Some(Column::StorageHistory),
        22 => Some(Column::AccountChangeSet),
        23 => Some(Column::StorageChangeSet),
        24 => Some(Column::AccountsAtEpoch),
        25 => Some(Column::StorageAtEpoch),
        26 => Some(Column::CodeHistory),
        27 => Some(Column::ChainMetadata),
        28 => Some(Column::SnapshotInfo),
        29 => Some(Column::StateAvailabilityBoundary),
        30 => Some(Column::ForceConfirmed),
        31 => Some(Column::RandomxSeedByEpoch),
        32 => Some(Column::ShieldedFrontier),
        33 => Some(Column::ShieldedRoots),
        34 => Some(Column::ShieldedNullifiers),
        35 => Some(Column::ShieldedIndices),
        36 => Some(Column::ShieldedVKWords),
        37 => Some(Column::EraAttestations),
        38 => Some(Column::EraArtifactRoots),
        39 => Some(Column::StaticFileIndex),
        40 => Some(Column::PrunedRanges),
        41 => Some(Column::SchemaVersion),
        42 => Some(Column::MigrationCheckpoint),
        43 => Some(Column::IntegrityChecksums),
        44 => Some(Column::EpochLogsBloom),
        45 => Some(Column::AddressTouchedBitmap),
        46 => Some(Column::TopicTouchedBitmap),
        47 => Some(Column::RewardWindowMetadata),
        48 => Some(Column::GenesisMetadata),
        _ => None,
    }
}

/// All columns in the order of their numbers.
pub open spec fn all_columns() -> Seq<Column> {
    Seq::new(NUM_COLUMNS as nat, |i: int| column_with_id(i as u32)->0)
}

impl Column {
    /// The stable number of the column.
    pub fn id(self) -> (r: u32)
        ensures
            r == column_id(self),
            r < NUM_COLUMNS,
    {
        match self {
            Column::BlockHeaders => 0,
            Column::BlockBodies => 1,
            Column::BlockReceipts => 2,
            Column::BlockTraces => 3,
            Column::BlockExecutionCommitment => 4,
            Column::BlockRewards => 5,
            Column::TxIndex => 6,
            Column::HashByNumber => 7,
            Column::NumberByHash => 8,
            Column::EpochBlocks => 9,
            Column::BestPivot => 10,
            Column::TimerChain => 11,
            Column::BlockIsTimer => 12,
            Column::ChildrenByParent => 13,
            Column::BlamedHeaderVerifiedRoots => 14,
            Column::VerifiedInvalidBlocks => 15,
            Column::PlainAccount => 16,
            Column::PlainStorage => 17,
            Column::CodeStore => 18,
            Column::StorageRoots => 19,
            Column::AccountHistory => 20,
            Column::StorageHistory => 21,
            Column::AccountChangeSet => 22,
            Column::StorageChangeSet => 23,
            Column::AccountsAtEpoch => 24,
            Column::StorageAtEpoch => 25,
            Column::CodeHistory => 26,
            Column::ChainMetadata => 27,
            Column::SnapshotInfo => 28,
            Column::StateAvailabilityBoundary => 29,
            Column::ForceConfirmed => 30,
            Column::RandomxSeedByEpoch => 31,
            Column::ShieldedFrontier => 32,
            Column::ShieldedRoots => 33,
            Column::ShieldedNullifiers => 34,
            Column::ShieldedIndices => 35,
            Column::ShieldedVKWords => 36,
            Column::EraAttestations => 37,
            Column::EraArtifactRoots => 38,
            Column::StaticFileIndex => 39,
            Column::PrunedRanges => 40,
            Column::SchemaVersion => 41,
            Column::MigrationCheckpoint => 42,
            Column::IntegrityChecksums => 43,
            Column::EpochLogsBloom => 44,
            Column::AddressTouchedBitmap => 45,
            Column::TopicTouchedBitmap => 46,
            Column::RewardWindowMetadata => 47,
            Column::GenesisMetadata => 48,
        }
    }

    /// The column with a number, if there is one.
    pub fn from_id(id: u32) -> (r: Option<Column>)
        ensures
            r == column_with_id(id),
            r is Some <==> id < NUM_COLUMNS,
    {
        match id {
            0 => Some(Column::BlockHeaders),
            1 => Some(Column::BlockBodies),
            2 => Some(Column::BlockReceipts),
            3 => Some(Column::BlockTraces),
            4 => Some(Column::BlockExecutionCommitment),
            5 => Some(Column::BlockRewards),
            6 => Some(Column::TxIndex),
            7 => Some(Column::HashByNumber),
            8 => Some(Column::NumberByHash),
            9 => Some(Column::EpochBlocks),
            10 => Some(Column::BestPivot),
            11 => Some(Column::TimerChain),
            12 => Some(Column::BlockIsTimer),
            13 => Some(Column::ChildrenByParent),
            14 => Some(Column::BlamedHeaderVerifiedRoots),
            15 => Some(Column::VerifiedInvalidBlocks),
            16 => Some(Column::PlainAccount),
            17 => Some(Column::PlainStorage),
            18 => Some(Column::CodeStore),
            19 => Some(Column::StorageRoots),
            20 => Some(Column::AccountHistory),
            21 => Some(Column::StorageHistory),
            22 => Some(Column::AccountChangeSet),
            23 => Some(Column::StorageChangeSet),
            24 => Some(Column::AccountsAtEpoch),
            25 => Some(Column::StorageAtEpoch),
            26 => Some(Column::CodeHistory),
            27 => Some(Column::ChainMetadata),
            28 => Some(Column::SnapshotInfo),
            29 => Some(Column::StateAvailabilityBoundary),
            30 => Some(Column::ForceConfirmed),
            31 => Some(Column::RandomxSeedByEpoch),
            32 => Some(Column::ShieldedFrontier),
            33 => Some(Column::ShieldedRoots),
            34 => Some(Column::ShieldedNullifiers),
            35 => Some(Column::ShieldedIndices),
            36 => Some(Column::ShieldedVKWords),
            37 => Some(Column::EraAttestations),
            38 => Some(Column::EraArtifactRoots),
            39 => Some(Column::StaticFileIndex),
            40 => Some(Column::PrunedRanges),
            41 => Some(Column::SchemaVersion),
            42 => Some(Column::MigrationCheckpoint),
            43 => Some(Column::IntegrityChecksums),
            44 => Some(Column::EpochLogsBloom),
            45 => Some(Column::AddressTouchedBitmap),
            46 => Some(Column::TopicTouchedBitmap),
            47 => Some(Column::RewardWindowMetadata),
            48 => Some(Column::GenesisMetadata),
            _ => None,
        }
    }

    /// All columns in the order of their numbers.
    pub fn all() -> (r: Vec<Column>)
        ensures
            r@ == all_columns(),
    {
        let mut all: Vec<Column> = Vec::new();
        let mut id: u32 = 0;
        while id < NUM_COLUMNS
            invariant
                id <= NUM_COLUMNS,
                all@ == all_columns().subrange(0, id as int),
            decreases NUM_COLUMNS - id,
        {
            if let Some(column) = Column::from_id(id) {
                all.push(column);
            }
            id = id + 1;
        }
        proof {
            assert(all_columns().subrange(0, NUM_COLUMNS as int) =~= all_columns());
        }
        all
    }

    /// The name of the column, for logs and metrics.
    pub fn name(self) -> (r: &'static str)
        ensures
            r@ == column_name(self),
    {
        match self {
            Column::BlockHeaders => "BlockHeaders",
            Column::BlockBodies => "BlockBodies",
            Column::BlockReceipts => "BlockReceipts",
            Column::BlockTraces => "BlockTraces",
            Column::BlockExecutionCommitment => "BlockExecutionCommitment",
            Column::BlockRewards => "BlockRewards",
            Column::TxIndex => "TxIndex",
            Column::HashByNumber => "HashByNumber",
            Column::NumberByHash => "NumberByHash",
            Column::EpochBlocks => "EpochBlocks",
            Column::BestPivot => "BestPivot",
            Column::TimerChain => "TimerChain",
            Column::BlockIsTimer => "BlockIsTimer",
            Column::ChildrenByParent => "ChildrenByParent",
            Column::BlamedHeaderVerifiedRoots => "BlamedHeaderVerifiedRoots",
            Column::VerifiedInvalidBlocks => "VerifiedInvalidBlocks",
            Column::PlainAccount => "PlainAccount",
            Column::PlainStorage => "PlainStorage",
            Column::CodeStore => "CodeStore",
            Column::StorageRoots => "StorageRoots",
            Column::AccountHistory => "AccountHistory",
            Column::StorageHistory => "StorageHistory",
            Column::AccountChangeSet => "AccountChangeSet",
            Column::StorageChangeSet => "StorageChangeSet",
            Column::AccountsAtEpoch => "AccountsAtEpoch",
            Column::StorageAtEpoch => "StorageAtEpoch",
            Column::CodeHistory => "CodeHistory",
            Column::ChainMetadata => "ChainMetadata",
            Column::SnapshotInfo => "SnapshotInfo",
            Column::StateAvailabilityBoundary => "StateAvailabilityBoundary",
            Column::ForceConfirmed => "ForceConfirmed",
            Column::RandomxSeedByEpoch => "RandomxSeedByEpoch",
            Column::ShieldedFrontier => "ShieldedFrontier",
            Column::ShieldedRoots => "ShieldedRoots",
            Column::ShieldedNullifiers => "ShieldedNullifiers",
            Column::ShieldedIndices => "ShieldedIndices",
            Column::ShieldedVKWords => "ShieldedVKWords",
            Column::EraAttestations => "EraAttestations",
            Column::EraArtifactRoots => "EraArtifactRoots",
            Column::StaticFileIndex => "StaticFileIndex",
            Column::PrunedRanges => "PrunedRanges",
            Column::SchemaVersion => "SchemaVersion",
            Column::MigrationCheckpoint => "MigrationCheckpoint",
            Column::IntegrityChecksums => "IntegrityChecksums",
            Column::EpochLogsBloom => "EpochLogsBloom",
            Column::AddressTouchedBitmap => "AddressTouchedBitmap",
            Column::TopicTouchedBitmap => "TopicTouchedBitmap",
            Column::RewardWindowMetadata => "RewardWindowMetadata",
            Column::GenesisMetadata => "GenesisMetadata",
        }
    }
}

/// The columns are numbered without gaps: the `i`-th has the number `i`.
pub proof fn column_ids_are_dense(i: int)
    requires
        0 <= i < all_columns().len(),
    ensures
        all_columns().len() == NUM_COLUMNS,
        column_id(all_columns()[i]) == i,
{
}

/// Two columns with the same number are the same.
pub proof fn column_ids_are_unique(a: Column, b: Column)
    requires
        column_id(a) == column_id(b),
    ensures
        a == b,
{
}

/// Every column is in the list.
pub proof fn all_columns_are_listed(c: Column)
    ensures
        column_id(c) < all_columns().len(),
        all_columns()[column_id(c) as int] == c,
{
}

/// The length of a name and those of its letters by which the names differ.
spec fn name_mark(c: Column) -> (nat, char, char) {
    match c {
        Column::BlockHeaders => (12, 'B', 'd'),
        Column::BlockBodies => (11, 'B', 'd'),
        Column::BlockReceipts => (13, 'B', 'i'),
        Column::BlockTraces => (11, 'B', 'a'),
        Column::BlockExecutionCommitment => (24, 'B', 'm'),
        Column::BlockRewards => (12, 'B', 'a'),
        Column::TxIndex => (7, 'T', 'n'),
        Column::HashByNumber => (12, 'H', 'm'),
        Column::NumberByHash => (12, 'N', 'H'),
        Column::EpochBlocks => (11, 'E', 'o'),
        Column::BestPivot => (9, 'B', 'i'),
        Column::TimerChain => (10, 'T', 'h'),
        Column::BlockIsTimer => (12, 'B', 'i'),
        Column::ChildrenByParent => (16, 'C', 'r'),
        Column::BlamedHeaderVerifiedRoots => (25, 'B', 'o'),
        Column::VerifiedInvalidBlocks => (21, 'V', 'o'),
        Column::PlainAccount => (12, 'P', 'o'),
        Column::PlainStorage => (12, 'P', 'r'),
        Column::CodeStore => (9, 'C', 't'),
        Column::StorageRoots => (12, 'S', 'o'),
        Column::AccountHistory => (14, 'A', 't'),
        Column::StorageHistory => (14, 'S', 't'),
        Column::AccountChangeSet => (16, 'A', 'e'),
        Column::StorageChangeSet => (16, 'S', 'e'),
        Column::AccountsAtEpoch => (15, 'A', 'p'),
        Column::StorageAtEpoch => (14, 'S', 'p'),
        Column::CodeHistory => (11, 'C', 't'),
        Column::ChainMetadata => (13, 'C', 'd'),
        Column::SnapshotInfo => (12, 'S', 'I'),
        Column::StateAvailabilityBoundary => (25, 'S', 'd'),
        Column::ForceConfirmed => (14, 'F', 'r'),
        Column::RandomxSeedByEpoch => (18, 'R', 'p'),
        Column::ShieldedFrontier => (16, 'S', 't'),
        Column::ShieldedRoots => (13, 'S', 'o'),
        Column::ShieldedNullifiers => (18, 'S', 'i'),
        Column::ShieldedIndices => (15, 'S', 'i'),
        Column::ShieldedVKWords => (15, 'S', 'o'),
        Column::EraAttestations => (15, 'E', 'i'),
        Column::EraArtifactRoots => (16, 'E', 'o'),
        Column::StaticFileIndex => (15, 'S', 'n'),
        Column::PrunedRanges => (12, 'P', 'n'),
        Column::SchemaVersion => (13, 'S', 's'),
        Column::MigrationCheckpoint => (19, 'M', 'o'),
        Column::IntegrityChecksums => (18, 'I', 's'),
        Column::EpochLogsBloom => (14, 'E', 'l'),
        Column::AddressTouchedBitmap => (20, 'A', 't'),
        Column::TopicTouchedBitmap => (18, 'T', 't'),
        Column::RewardWindowMetadata => (20, 'R', 'd'),
        Column::GenesisMetadata => (15, 'G', 'd'),
    }
}

proof fn name_has_mark(c: Column)
    ensures
        column_name(c).len() == name_mark(c).0,
        column_name(c)[0] == name_mark(c).1,
        column_name(c)[column_name(c).len() - 4] == name_mark(c).2,
{
    match c {
        Column::BlockHeaders => {
            reveal_strlit("BlockHeaders");
        },
        Column::BlockBodies => {
            reveal_strlit("BlockBodies");
        },
        Column::BlockReceipts => {
            reveal_strlit("BlockReceipts");
        },
        Column::BlockTraces => {
            reveal_strlit("BlockTraces");
        },
        Column::BlockExecutionCommitment => {
            reveal_strlit("BlockExecutionCommitment");
        },
        Column::BlockRewards => {
            reveal_strlit("BlockRewards");
        },
        Column::TxIndex => {
            reveal_strlit("TxIndex");
        },
        Column::HashByNumber => {
            reveal_strlit("HashByNumber");
        },
        Column::NumberByHash => {
            reveal_strlit("NumberByHash");
        },
        Column::EpochBlocks => {
            reveal_strlit("EpochBlocks");
        },
        Column::BestPivot => {
            reveal_strlit("BestPivot");
        },
        Column::TimerChain => {
            reveal_strlit("TimerChain");
        },
        Column::BlockIsTimer => {
            reveal_strlit("BlockIsTimer");
        },
        Column::ChildrenByParent => {
            reveal_strlit("ChildrenByParent");
        },
        Column::BlamedHeaderVerifiedRoots => {
            reveal_strlit("BlamedHeaderVerifiedRoots");
        },
        Column::VerifiedInvalidBlocks => {
            reveal_strlit("VerifiedInvalidBlocks");
        },
        Column::PlainAccount => {
            reveal_strlit("PlainAccount");
        },
        Column::PlainStorage => {
            reveal_strlit("PlainStorage");
        },
        Column::CodeStore => {
            reveal_strlit("CodeStore");
        },
        Column::StorageRoots => {
            reveal_strlit("StorageRoots");
        },
        Column::AccountHistory => {
            reveal_strlit("AccountHistory");
        },
        Column::StorageHistory => {
            reveal_strlit("StorageHistory");
        },
        Column::AccountChangeSet => {
            reveal_strlit("AccountChangeSet");
        },
        Column::StorageChangeSet => {
            reveal_strlit("StorageChangeSet");
        },
        Column::AccountsAtEpoch => {
            reveal_strlit("AccountsAtEpoch");
        },
        Column::StorageAtEpoch => {
            reveal_strlit("StorageAtEpoch");
        },
        Column::CodeHistory => {
            reveal_strlit("CodeHistory");
        },
        Column::ChainMetadata => {
            reveal_strlit("ChainMetadata");
        },
        Column::SnapshotInfo => {
            reveal_strlit("SnapshotInfo");
        },
        Column::StateAvailabilityBoundary => {
            reveal_strlit("StateAvailabilityBoundary");
        },
        Column::ForceConfirmed => {
            reveal_strlit("ForceConfirmed");
        },
        Column::RandomxSeedByEpoch => {
            reveal_strlit("RandomxSeedByEpoch");
        },
        Column::ShieldedFrontier => {
            reveal_strlit("ShieldedFrontier");
        },
        Column::ShieldedRoots => {
            reveal_strlit("ShieldedRoots");
        },
        Column::ShieldedNullifiers => {
            reveal_strlit("ShieldedNullifiers");
        },
        Column::ShieldedIndices => {
            reveal_strlit("ShieldedIndices");
        },
        Column::ShieldedVKWords => {
            reveal_strlit("ShieldedVKWords");
        },
        Column::EraAttestations => {
            reveal_strlit("EraAttestations");
        },
        Column::EraArtifactRoots => {
            reveal_strlit("EraArtifactRoots");
        },
        Column::StaticFileIndex => {
            reveal_strlit("StaticFileIndex");
        },
        Column::PrunedRanges => {
            reveal_strlit("PrunedRanges");
        },
        Column::SchemaVersion => {
            reveal_strlit("SchemaVersion");
        },
        Column::MigrationCheckpoint => {
            reveal_strlit("MigrationCheckpoint");
        },
        Column::IntegrityChecksums => {
            reveal_strlit("IntegrityChecksums");
        },
        Column::EpochLogsBloom => {
            reveal_strlit("EpochLogsBloom");
        },
        Column::AddressTouchedBitmap => {
            reveal_strlit("AddressTouchedBitmap");
        },
        Column::TopicTouchedBitmap => {
            reveal_strlit("TopicTouchedBitmap");
        },
        Column::RewardWindowMetadata => {
            reveal_strlit("RewardWindowMetadata");
        },
        Column::GenesisMetadata => {
            reveal_strlit("GenesisMetadata");
        },
    }
}

/// Two columns with the same name are the same.
pub proof fn column_names_are_unique(a: Column, b: Column)
    requires
        column_name(a) == column_name(b),
    ensures
        a == b,
{
    name_has_mark(a);
    name_has_mark(b);
}

} // verus!
