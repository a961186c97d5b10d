//! The settings of a database.

use crate::text::text_is;
use std::sync::Arc;
use vstd::prelude::*;
use vstd::string::{StrSliceExecFns, StringExecFns};

verus! {

/// A database, behind the handle that its users share.
pub struct SystemDB<K> {
    key_value: Arc<K>,
}

impl<K> SystemDB<K> {
    /// The handle.
    pub closed spec fn spec_key_value(&self) -> Arc<K> {
        self.key_value
    }

    /// A database behind a handle.
    pub fn new(kvdb: Arc<K>) -> (r: Self)
        ensures
            r.spec_key_value() == kvdb,
    {
        SystemDB { key_value: kvdb }
    }

    /// The handle.
    pub fn key_value(&self) -> (r: Arc<K>)
        ensures
            r == self.spec_key_value(),
    {
        Arc::clone(&self.key_value)
    }
}

/// How a database is compacted.
#[derive(Clone, Copy, Debug, PartialEq, Eq, Structural)]
pub enum DatabaseCompactionProfile {
    /// As fits the disk.
    Auto,
    /// For a solid-state disk.
    SSD,
    /// For a slow disk.
    HDD,
}

impl Default for DatabaseCompactionProfile {
    fn default() -> (r: Self)
        ensures
            r == DatabaseCompactionProfile::Auto,
    {
        DatabaseCompactionProfile::Auto
    }
}

/// The profile that a name stands for.
pub open spec fn profile_of(name: Seq<char>) -> Option<DatabaseCompactionProfile> {
    if name == "auto"@ {
        Some(DatabaseCompactionProfile::Auto)
    } else if name == "ssd"@ {
        Some(DatabaseCompactionProfile::SSD)
    } else if name == "hdd"@ {
        Some(DatabaseCompactionProfile::HDD)
    } else {
        None
    }
}

impl DatabaseCompactionProfile {
    /// The profile that a name stands for, or what to say where it stands for none.
    pub fn from_str(s: &str) -> (r: Result<Self, String>)
        ensures
            match r {
                Ok(p) => profile_of(s@) == Some(p),
                Err(e) => profile_of(s@) is None && e@
                    == "Invalid compaction profile given. Expected auto/hdd/ssd."@,
            },
    {
        if text_is(s, "auto") {
            Ok(DatabaseCompactionProfile::Auto)
        } else if text_is(s, "ssd") {
            Ok(DatabaseCompactionProfile::SSD)
        } else if text_is(s, "hdd") {
            Ok(DatabaseCompactionProfile::HDD)
        } else {
            Err(String::from_str("Invalid compaction profile given. Expected auto/hdd/ssd."))
        }
    }
}

/// A letter in lower case; other characters as they are.
pub open spec fn lower_case(c: char) -> char {
    if 'A' <= c <= 'Z' {
        (c as u32 + 32) as char
    } else {
        c
    }
}

/// `str::to_ascii_lowercase`: the letters from `A` to `Z` in lower case, everything else as it is.
pub assume_specification[ str::to_ascii_lowercase ](s: &str) -> (r: String)
    ensures
        r@ == s@.map_values(|c: char| lower_case(c)),
;

/// How the values of a database are compressed.
#[derive(Clone, Copy, Debug, PartialEq, Eq, Structural)]
pub enum ParityCompression {
    Snappy,
    Lz4,
}

/// The compression that a name stands for, whatever the case of its letters.
pub open spec fn compression_of(name: Seq<char>) -> Option<ParityCompression> {
    let lower = name.map_values(|c: char| lower_case(c));
    if lower == "snappy"@ {
        Some(ParityCompression::Snappy)
    } else if lower == "lz4"@ {
        Some(ParityCompression::Lz4)
    } else {
        None
    }
}

impl ParityCompression {
    /// The compression that a name stands for, or what to say where it stands for none.
    pub fn from_str(s: &str) -> (r: Result<Self, String>)
        ensures
            match r {
                Ok(c) => compression_of(s@) == Some(c),
                Err(e) => compression_of(s@) is None && e@ == "Invalid paritydb compression '"@
                    + s@.map_values(|c: char| lower_case(c)) + "'. Expected snappy/lz4"@,
            },
    {
        let lower = s.to_ascii_lowercase();
        if text_is(lower.as_str(), "snappy") {
            Ok(ParityCompression::Snappy)
        } else if text_is(lower.as_str(), "lz4") {
            Ok(ParityCompression::Lz4)
        } else {
            Err(
                String::from_str("Invalid paritydb compression '").concat(lower.as_str()).concat(
                    "'. Expected snappy/lz4",
                ),
            )
        }
    }
}

/// What a database is opened with.
#[derive(Clone, Copy, Debug)]
pub struct ParityDbOpenConfig {
    pub columns: u32,
    pub compression: Option<ParityCompression>,
    pub disable_wal: bool,
    pub stats: bool,
}

impl Default for ParityDbOpenConfig {
    fn default() -> (r: Self)
        ensures
            r == (ParityDbOpenConfig {
                columns: 0,
                compression: None,
                disable_wal: false,
                stats: false,
            }),
    {
        ParityDbOpenConfig { columns: 0, compression: None, disable_wal: false, stats: false }
    }
}

/// What a database cannot be asked for.
#[derive(Clone, Copy, Debug, PartialEq, Eq, Structural)]
pub enum ColumnError {
    /// More columns than can be numbered.
    TooMany,
    /// A column that is not there.
    OutOfRange,
}

impl ColumnError {
    /// The error in words.
    pub fn message(&self) -> (r: &'static str)
        ensures
            r@ == match self {
                ColumnError::TooMany => "paritydb columns must fit into u8"@,
                ColumnError::OutOfRange => "column out of range"@,
            },
    {
        match self {
            ColumnError::TooMany => "paritydb columns must fit into u8",
            ColumnError::OutOfRange => "column out of range",
        }
    }
}

/// The options of a database: of the whole, and the same for each column.
#[derive(Clone, Copy, Debug, PartialEq, Eq, Structural)]
pub struct ParityDbSettings {
    pub columns: u8,
    pub sync_wal: bool,
    pub sync_data: bool,
    pub stats: bool,
    pub compression: Option<ParityCompression>,
    /// The keys of a column can be walked in order.
    pub btree_index: bool,
}

/// The options for a configuration: without a write-ahead log nothing is synced, and every column
/// is ordered.
pub fn paritydb_settings(config: &ParityDbOpenConfig) -> (r: Result<ParityDbSettings, ColumnError>)
    ensures
        r == (if config.columns <= u8::MAX {
            Ok(
                ParityDbSettings {
                    columns: config.columns as u8,
                    sync_wal: !config.disable_wal,
                    sync_data: !config.disable_wal,
                    stats: config.stats,
                    compression: config.compression,
                    btree_index: true,
                },
            )
        } else {
            Err(ColumnError::TooMany)
        }),
{
    if config.columns > 255 {
        return Err(ColumnError::TooMany);
    }
    Ok(
        ParityDbSettings {
            columns: config.columns as u8,
            sync_wal: !config.disable_wal,
            sync_data: !config.disable_wal,
            stats: config.stats,
            compression: config.compression,
            btree_index: true,
        },
    )
}

/// The column of a number, in a database of so many columns.
pub fn col_id(columns: u8, col: u32) -> (r: Result<u8, ColumnError>)
    ensures
        r == (if col < columns {
            Ok(col as u8)
        } else {
            Err(ColumnError::OutOfRange)
        }),
{
    if col < columns as u32 {
        Ok(col as u8)
    } else {
        Err(ColumnError::OutOfRange)
    }
}

} // verus!
