//! The names of the databases of snapshots and delta tries.

use crate::hash;
use crate::hash::{EpochId, MerkleHash, H256};
use crate::hex;
use crate::hex::HexError;
use crate::text::text_is;
use vstd::prelude::*;
use vstd::string::{StrSliceExecFns, StringExecFns};

verus! {

/// What the name of every snapshot or delta database begins with.
pub const DB_DIR_PREFIX: &'static str = "paritydb_";

/// What the name of a snapshot begins with while it is being merged.
pub const MERGE_TEMP_PREFIX: &'static str = "paritydb_merge_temp_";

/// What the name of a snapshot begins with while it is being synced.
pub const FULL_SYNC_TEMP_PREFIX: &'static str = "paritydb_full_sync_temp_";

/// What the name of the metrics of a delta trie begins with.
pub const METRICS_GROUP_PREFIX: &'static str = "mdbx_delta_mpt.";

/// Why a name belongs to no epoch.
#[derive(Clone, Copy, Debug, PartialEq, Eq, Structural)]
pub enum DbNameError {
    /// The name begins otherwise.
    MissingPrefix,
    /// What follows is not hexadecimal.
    InvalidHex(HexError),
    /// What follows stands for another number of bytes than an epoch has.
    WrongLength(usize),
    /// What follows is not written as names are: a digit is a capital letter, or there is a blank.
    NotCanonical,
}

/// `text` begins with `prefix`.
pub open spec fn text_begins(text: Seq<char>, prefix: Seq<char>) -> bool {
    prefix.len() <= text.len() && text.subrange(0, prefix.len() as int) == prefix
}

/// What follows a prefix of a given length.
pub open spec fn text_after(text: Seq<char>, n: nat) -> Seq<char> {
    text.subrange(n as int, text.len() as int)
}

/// What follows a prefix of a text, where the text begins with it.
pub fn strip_prefix<'a>(text: &'a str, prefix: &str) -> (r: Option<&'a str>)
    ensures
        r matches Some(rest) ==> text_begins(text@, prefix@) && rest@ == text_after(
            text@,
            prefix@.len(),
        ),
        r is None ==> !text_begins(text@, prefix@),
{
    let n: usize = prefix.unicode_len();
    let len: usize = text.unicode_len();
    if len < n {
        return None;
    }
    let mut i: usize = 0;
    while i < n
        invariant
            i <= n <= len,
            n == prefix@.len(),
            len == text@.len(),
            forall|j: int| 0 <= j < i ==> text@[j] == prefix@[j],
        decreases n - i,
    {
        if text.get_char(i) != prefix.get_char(i) {
            proof {
                if text_begins(text@, prefix@) {
                    assert(text@.subrange(0, prefix@.len() as int)[i as int] == text@[i as int]);
                }
            }
            return None;
        }
        i = i + 1;
    }
    proof {
        assert(text@.subrange(0, prefix@.len() as int) =~= prefix@);
    }
    Some(text.substring_char(n, len))
}

/// The name of the database of an epoch.
pub open spec fn db_name_of(epoch: EpochId) -> Seq<char> {
    DB_DIR_PREFIX@ + hex::hex_of(epoch@)
}

/// The name of the database that holds the snapshot or the delta trie of an epoch.
pub fn db_name(epoch: &EpochId) -> (r: String)
    ensures
        r@ == db_name_of(*epoch),
{
    String::from_str(DB_DIR_PREFIX).concat(epoch.to_hex().as_str())
}

/// The name of the metrics of the delta trie of an epoch.
pub fn metrics_group(epoch: &EpochId) -> (r: String)
    ensures
        r@ == METRICS_GROUP_PREFIX@ + hex::hex_of(epoch@),
{
    String::from_str(METRICS_GROUP_PREFIX).concat(epoch.to_hex().as_str())
}

/// The name belongs to no epoch, for the reason given.
pub open spec fn is_refused(name: Seq<char>, e: DbNameError) -> bool {
    let rest = text_after(name, DB_DIR_PREFIX@.len());
    match e {
        DbNameError::MissingPrefix => !text_begins(name, DB_DIR_PREFIX@),
        DbNameError::InvalidHex(h) => {
            &&& text_begins(name, DB_DIR_PREFIX@)
            &&& hex::is_refused(rest, h)
        },
        DbNameError::WrongLength(n) => {
            &&& text_begins(name, DB_DIR_PREFIX@)
            &&& n != 32
            &&& (hex::decoded(rest) matches Some(bytes) && bytes.len() == n)
        },
        DbNameError::NotCanonical => {
            &&& text_begins(name, DB_DIR_PREFIX@)
            &&& (hex::decoded(rest) matches Some(bytes) && bytes.len() == 32 && rest != hex::hex_of(
                bytes,
            ))
        },
    }
}

/// The epoch whose database has the name. Every name but those that are made for epochs is refused.
pub fn parse_epoch_id(name: &str) -> (r: Result<EpochId, DbNameError>)
    ensures
        match r {
            Ok(epoch) => name@ == db_name_of(epoch),
            Err(e) => is_refused(name@, e),
        },
{
    let rest = match strip_prefix(name, DB_DIR_PREFIX) {
        Some(rest) => rest,
        None => {
            return Err(DbNameError::MissingPrefix);
        },
    };
    match hex::from_hex(rest) {
        Ok(bytes) => if bytes.len() == 32 {
            let epoch = H256::from_slice(bytes.as_slice());
            if text_is(rest, epoch.to_hex().as_str()) {
                proof {
                    assert(name@ =~= name@.subrange(0, DB_DIR_PREFIX@.len() as int) + rest@);
                }
                Ok(epoch)
            } else {
                Err(DbNameError::NotCanonical)
            }
        } else {
            Err(DbNameError::WrongLength(bytes.len()))
        },
        Err(e) => Err(DbNameError::InvalidHex(e)),
    }
}

/// A name that was made for an epoch is the name of that epoch: reading it gives the epoch back.
pub proof fn db_name_round_trip(epoch: EpochId)
    ensures
        text_begins(db_name_of(epoch), DB_DIR_PREFIX@),
        hex::decoded(text_after(db_name_of(epoch), DB_DIR_PREFIX@.len())) == Some(epoch@),
{
    let name = db_name_of(epoch);
    assert(name.subrange(0, DB_DIR_PREFIX@.len() as int) =~= DB_DIR_PREFIX@);
    assert(text_after(name, DB_DIR_PREFIX@.len()) =~= hex::hex_of(epoch@));
    hex::hex_round_trip(epoch@);
}

/// A name that was made for an epoch is never refused.
pub proof fn made_names_are_not_refused(epoch: EpochId, e: DbNameError)
    ensures
        !is_refused(db_name_of(epoch), e),
{
    db_name_round_trip(epoch);
    let rest = text_after(db_name_of(epoch), DB_DIR_PREFIX@.len());
    assert(rest =~= hex::hex_of(epoch@));
    match e {
        DbNameError::InvalidHex(HexError::InvalidHexCharacter(_, i)) => {
            if hex::first_bad_at(rest, i as int) {
                assert(hex::hex_value(rest[i as int]) is Some || hex::is_blank(rest[i as int]));
            }
        },
        _ => {},
    }
}

/// Two epochs have two names.
pub proof fn db_names_are_distinct(a: EpochId, b: EpochId)
    requires
        db_name_of(a) == db_name_of(b),
    ensures
        a == b,
{
    db_name_round_trip(a);
    db_name_round_trip(b);
    hash::h256_determined_by_bytes(a, b);
}

/// What follows the first `n` bytes of a text.
pub open spec fn text_after_bytes(text: Seq<char>, n: int) -> Seq<char> {
    let bytes = vstd::utf8::encode_utf8(text);
    vstd::utf8::decode_utf8(bytes.subrange(n, bytes.len() as int))
}

/// The text can be cut behind its first `n` bytes.
pub open spec fn cuts_after_bytes(text: Seq<char>, n: int) -> bool {
    vstd::utf8::is_char_boundary(vstd::utf8::encode_utf8(text), n)
}

/// The number of bytes of a text.
pub open spec fn byte_len(text: Seq<char>) -> nat {
    vstd::utf8::encode_utf8(text).len()
}

proof fn ascii_text_is_cut_by_chars(text: Seq<char>, n: nat)
    requires
        vstd::utf8::is_ascii_chars(text),
        n <= text.len(),
    ensures
        byte_len(text) == text.len(),
        cuts_after_bytes(text, n as int),
        text_after_bytes(text, n as int) == text_after(text, n),
{
    let bytes = vstd::utf8::encode_utf8(text);
    let rest = text_after(text, n);
    vstd::utf8::is_ascii_chars_encode_utf8(text);
    assert(vstd::utf8::is_ascii_chars(rest)) by {
        assert forall|i: int| 0 <= i < rest.len() implies '\0' <= #[trigger] rest[i] <= '\u{7f}' by {
            assert(rest[i] == text[n + i]);
        }
    }
    vstd::utf8::is_ascii_chars_encode_utf8(rest);
    assert(vstd::utf8::encode_utf8(rest) =~= bytes.subrange(n as int, bytes.len() as int)) by {
        assert forall|i: int| 0 <= i < rest.len() implies vstd::utf8::encode_utf8(rest)[i]
            == bytes[n + i] by {
            assert(rest[i] == text[n + i]);
        }
    }
    vstd::utf8::encode_utf8_decode_utf8(rest);
    ascii_text_cuts(text, n as int);
}

proof fn ascii_text_cuts(text: Seq<char>, n: int)
    requires
        vstd::utf8::is_ascii_chars(text),
        0 <= n <= text.len(),
    ensures
        cuts_after_bytes(text, n),
    decreases text.len(),
{
    vstd::utf8::encode_utf8_valid_utf8(text);
    if n > 0 {
        let bytes = vstd::utf8::encode_utf8(text);
        let rest = text.drop_first();
        vstd::utf8::is_ascii_chars_encode_utf8(text);
        vstd::utf8::encode_utf8_first_scalar(text);
        assert(vstd::utf8::is_ascii_chars(rest)) by {
            assert forall|i: int| 0 <= i < rest.len() implies '\0' <= #[trigger] rest[i]
                <= '\u{7f}' by {
                assert(rest[i] == text[i + 1]);
            }
        }
        ascii_text_cuts(rest, n - 1);
        assert(vstd::utf8::pop_first_scalar(bytes) =~= vstd::utf8::encode_utf8(rest));
        assert(vstd::utf8::length_of_first_scalar(bytes) == 1);
    }
}

/// The epoch of a snapshot database name. What its first nine bytes are is not looked at; a name
/// that is shorter, or does not go on with the digits of an epoch, belongs to none.
pub fn get_epoch_id_from_snapshot_db_name(snapshot_db_name: &str) -> (r: Option<EpochId>)
    requires
        byte_len(snapshot_db_name@) >= 9 ==> cuts_after_bytes(snapshot_db_name@, 9),
    ensures
        match r {
            Some(epoch) => byte_len(snapshot_db_name@) >= 9 && hex::decoded(
                text_after_bytes(snapshot_db_name@, 9),
            ) == Some(epoch@),
            None => byte_len(snapshot_db_name@) < 9 || (hex::decoded(
                text_after_bytes(snapshot_db_name@, 9),
            ) matches Some(b) ==> b.len() != 32),
        },
{
    if snapshot_db_name.as_bytes().len() < 9 {
        return None;
    }
    let (_, rest) = snapshot_db_name.split_at(9);
    proof {
        vstd::utf8::encode_utf8_decode_utf8(rest@);
    }
    match H256::from_hex_str(rest) {
        Ok(epoch) => Some(epoch),
        Err(_) => None,
    }
}

proof fn hex_text_is_ascii(bytes: Seq<u8>)
    ensures
        vstd::utf8::is_ascii_chars(hex::hex_of(bytes)),
{
}

/// The name that was made for an epoch leads back to the epoch, by its position alone.
pub proof fn snapshot_db_name_round_trip(epoch: EpochId)
    ensures
        byte_len(db_name_of(epoch)) == 73,
        cuts_after_bytes(db_name_of(epoch), 9),
        hex::decoded(text_after_bytes(db_name_of(epoch), 9)) == Some(epoch@),
{
    reveal_strlit("paritydb_");
    let name = db_name_of(epoch);
    hex_text_is_ascii(epoch@);
    assert(vstd::utf8::is_ascii_chars(name)) by {
        assert forall|i: int| 0 <= i < name.len() implies '\0' <= #[trigger] name[i] <= '\u{7f}' by {
            if i >= 9 {
                assert(name[i] == hex::hex_of(epoch@)[i - 9]);
            }
        }
    }
    ascii_text_is_cut_by_chars(name, 9);
    db_name_round_trip(epoch);
}

/// The name of the snapshot that is being merged from one epoch to another.
pub open spec fn merge_temp_name_of(old: EpochId, new: EpochId) -> Seq<char> {
    MERGE_TEMP_PREFIX@ + hex::hex_of(old@) + hex::hex_of(new@)
}

/// The name under which the snapshot of `new_snapshot_epoch_id` is merged on top of that of
/// `old_snapshot_epoch_id`.
pub fn get_merge_temp_snapshot_db_name(
    old_snapshot_epoch_id: &EpochId,
    new_snapshot_epoch_id: &EpochId,
) -> (r: String)
    ensures
        r@ == merge_temp_name_of(*old_snapshot_epoch_id, *new_snapshot_epoch_id),
{
    String::from_str(MERGE_TEMP_PREFIX).concat(old_snapshot_epoch_id.to_hex().as_str()).concat(
        new_snapshot_epoch_id.to_hex().as_str(),
    )
}

/// The name under which a snapshot is synced.
pub fn get_full_sync_temp_snapshot_db_name(
    snapshot_epoch_id: &EpochId,
    merkle_root: &MerkleHash,
) -> (r: String)
    ensures
        r@ == FULL_SYNC_TEMP_PREFIX@ + hex::hex_of(snapshot_epoch_id@) + hex::hex_of(merkle_root@),
{
    String::from_str(FULL_SYNC_TEMP_PREFIX).concat(snapshot_epoch_id.to_hex().as_str()).concat(
        merkle_root.to_hex().as_str(),
    )
}

/// The name of the database of the latest trie.
pub fn get_latest_mpt_snapshot_db_name() -> (r: String)
    ensures
        r@ == DB_DIR_PREFIX@ + "latest"@,
{
    String::from_str(DB_DIR_PREFIX).concat("latest")
}

/// The epoch of the snapshot that was being merged under a name; none where the name is not that
/// of a merge, or does not end in the digits of an epoch.
pub fn try_get_new_snapshot_epoch_from_temp_path(dir_name: &str) -> (r: Option<EpochId>)
    requires
        text_begins(dir_name@, MERGE_TEMP_PREFIX@) ==> cuts_after_bytes(dir_name@, 84),
    ensures
        r matches Some(epoch) ==> text_begins(dir_name@, MERGE_TEMP_PREFIX@) && hex::decoded(
            text_after_bytes(dir_name@, 84),
        ) == Some(epoch@),
        r is None ==> !text_begins(dir_name@, MERGE_TEMP_PREFIX@) || (hex::decoded(
            text_after_bytes(dir_name@, 84),
        ) matches Some(b) ==> b.len() != 32),
{
    if strip_prefix(dir_name, MERGE_TEMP_PREFIX).is_none() {
        return None;
    }
    let (_, rest) = dir_name.split_at(84);
    proof {
        vstd::utf8::encode_utf8_decode_utf8(rest@);
    }
    match H256::from_hex_str(rest) {
        Ok(epoch) => Some(epoch),
        Err(_) => None,
    }
}

/// The name of a merge tells the epoch of the snapshot that was being made.
pub proof fn merge_temp_name_tells_new_epoch(old: EpochId, new: EpochId)
    ensures
        text_begins(merge_temp_name_of(old, new), MERGE_TEMP_PREFIX@),
        cuts_after_bytes(merge_temp_name_of(old, new), 84),
        hex::decoded(text_after_bytes(merge_temp_name_of(old, new), 84)) == Some(new@),
{
    reveal_strlit("paritydb_merge_temp_");
    let name = merge_temp_name_of(old, new);
    assert(name.subrange(0, MERGE_TEMP_PREFIX@.len() as int) =~= MERGE_TEMP_PREFIX@);
    hex_text_is_ascii(old@);
    hex_text_is_ascii(new@);
    assert(vstd::utf8::is_ascii_chars(name)) by {
        assert forall|i: int| 0 <= i < name.len() implies '\0' <= #[trigger] name[i] <= '\u{7f}' by {
            if 20 <= i < 84 {
                assert(name[i] == hex::hex_of(old@)[i - 20]);
            } else if i >= 84 {
                assert(name[i] == hex::hex_of(new@)[i - 84]);
            }
        }
    }
    ascii_text_is_cut_by_chars(name, 84);
    assert(text_after(name, 84) =~= hex::hex_of(new@));
    hex::hex_round_trip(new@);
}

} // verus!
