//! What the keystore needs: the authentication code and the derived keys.

use super::outside;
use crate::bytes::{concat, copy_range};
use vstd::prelude::*;
use vstd::string::StringExecFns;

verus! {

/// The length of a derived key.
pub const KEY_LENGTH: usize = 32;

/// How often the derivation of a key is iterated.
pub const KEY_ITERATIONS: usize = 10240;

/// The length of a key for encryption: half of a derived key.
pub const KEY_LENGTH_AES: usize = 16;

/// That something was not encrypted or decrypted, and why.
#[derive(Debug)]
pub struct SymmError(pub String);

/// That scrypt did not derive a key, and why.
#[derive(Debug)]
pub struct ScryptError(pub String);

/// One or the other.
#[derive(Debug)]
pub enum Error {
    Symm(SymmError),
    Scrypt(ScryptError),
}

impl SymmError {
    /// The error in words.
    pub fn message(&self) -> (r: String)
        ensures
            r@ == "symmetric crypto error: "@ + self.0@,
    {
        String::from_str("symmetric crypto error: ").concat(self.0.as_str())
    }
}

impl ScryptError {
    /// The error in words.
    pub fn message(&self) -> (r: String)
        ensures
            r@ == "scrypt error: "@ + self.0@,
    {
        String::from_str("scrypt error: ").concat(self.0.as_str())
    }
}

impl Error {
    /// The error in words.
    pub fn message(&self) -> (r: String)
        ensures
            r@ == match self {
                Error::Symm(e) => "symmetric crypto error: "@ + e.0@,
                Error::Scrypt(e) => "scrypt error: "@ + e.0@,
            },
    {
        match self {
            Error::Symm(e) => e.message(),
            Error::Scrypt(e) => e.message(),
        }
    }
}

impl From<SymmError> for Error {
    fn from(e: SymmError) -> (r: Self) {
        Error::Symm(e)
    }
}

impl vstd::std_specs::convert::FromSpecImpl<SymmError> for Error {
    open spec fn obeys_from_spec() -> bool {
        true
    }

    open spec fn from_spec(e: SymmError) -> Self {
        Error::Symm(e)
    }
}

impl From<ScryptError> for Error {
    fn from(e: ScryptError) -> (r: Self) {
        Error::Scrypt(e)
    }
}

impl vstd::std_specs::convert::FromSpecImpl<ScryptError> for Error {
    open spec fn obeys_from_spec() -> bool {
        true
    }

    open spec fn from_spec(e: ScryptError) -> Self {
        Error::Scrypt(e)
    }
}

/// Whether two byte strings are equal, found in a time that does not depend on where they differ.
pub fn is_equal(a: &[u8], b: &[u8]) -> (r: bool)
    ensures
        r == (a@ == b@),
{
    outside::ct_eq(a, b)
}

/// What the authentication code of a key file is the hash of.
pub fn derive_mac(derived_right_bits: &[u8], ciphertext: &[u8]) -> (r: Vec<u8>)
    ensures
        r@ == derived_right_bits@ + ciphertext@,
{
    concat(derived_right_bits, ciphertext)
}

/// The two halves of a derived key: the first is for encryption, the second for authentication.
pub fn split_key(derived: &[u8]) -> (r: (Vec<u8>, Vec<u8>))
    requires
        derived@.len() == KEY_LENGTH,
    ensures
        r.0@ == derived@.subrange(0, 16),
        r.1@ == derived@.subrange(16, 32),
{
    let left = copy_range(derived, 0, KEY_LENGTH_AES);
    let right = copy_range(derived, KEY_LENGTH_AES, KEY_LENGTH);
    (left, right)
}

/// Derives a key from a password, and gives its two halves.
pub fn derive_key_iterations(password: &[u8], salt: &[u8], iterations: u32) -> (r: (
    Vec<u8>,
    Vec<u8>,
))
    ensures
        r.0@.len() == 16,
        r.1@.len() == 16,
        r.0@ == outside::pbkdf2_sha256_of(password@, salt@, iterations, 32).subrange(0, 16),
        r.1@ == outside::pbkdf2_sha256_of(password@, salt@, iterations, 32).subrange(16, 32),
{
    let mut derived: Vec<u8> = vec![0u8; KEY_LENGTH];
    outside::pbkdf2_sha256(password, salt, iterations, derived.as_mut_slice());
    split_key(derived.as_slice())
}

/// The halves of a key make up the key.
pub proof fn halves_make_up_the_key(derived: Seq<u8>)
    requires
        derived.len() == 32,
    ensures
        derived.subrange(0, 16) + derived.subrange(16, 32) == derived,
{
    assert(derived.subrange(0, 16) + derived.subrange(16, 32) =~= derived);
}

} // verus!
