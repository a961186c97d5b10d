//! Keys derived with PBKDF2.

use super::outside;
use vstd::prelude::*;

verus! {

/// What a password is salted with.
pub struct Salt<'a>(pub &'a [u8]);

/// A password.
pub struct Secret<'a>(pub &'a [u8]);

/// Fills `output` with the key that is derived from a secret. The blocks of 32 bytes are counted in
/// 32 bits.
pub fn sha256(iter: u32, salt: Salt<'_>, secret: Secret<'_>, output: &mut [u8])
    requires
        old(output)@.len() <= 32 * 0xffff_ffff,
    ensures
        final(output)@ == outside::pbkdf2_sha256_of(
            secret.0@,
            salt.0@,
            iter,
            old(output)@.len(),
        ),
        final(output)@.len() == old(output)@.len(),
{
    outside::pbkdf2_sha256(secret.0, salt.0, iter, output);
}

} // verus!
