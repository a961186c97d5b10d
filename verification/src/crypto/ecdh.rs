//! Agreeing on a secret.

use super::keys::{Public, SecpError, Secret};
use super::outside;
use vstd::prelude::*;

verus! {

/// What a secret key and a public key agree on. Neither needs to be valid; and what they come to
/// has to be a valid secret key itself.
pub open spec fn agreed(secret: Seq<u8>, public: Seq<u8>) -> Result<Seq<u8>, SecpError> {
    if !outside::is_public_key(public) {
        Err(SecpError::InvalidPublicKey)
    } else if !outside::is_secret_key(secret) || !outside::is_secret_key(
        outside::shared_secret_of(secret, public),
    ) {
        Err(SecpError::InvalidSecretKey)
    } else {
        Ok(outside::shared_secret_of(secret, public))
    }
}

/// What a secret key and a public key agree on. Whoever has the secret key of that public key agrees
/// on the same with the public key of this secret key.
pub fn agree(secret: &Secret, public: &Public) -> (r: Result<Secret, SecpError>)
    ensures
        match r {
            Ok(z) => agreed(secret@, public@) == Ok::<Seq<u8>, SecpError>(z@),
            Err(e) => agreed(secret@, public@) == Err::<Seq<u8>, SecpError>(e),
        },
        outside::is_secret_key(secret@) && outside::is_public_key(public@) ==> forall|other: Seq<u8>|
            outside::is_secret_key(other) && #[trigger] outside::public_key_of(other) == public@
                ==> outside::shared_secret_of(secret@, public@) == outside::shared_secret_of(
                other,
                outside::public_key_of(secret@),
            ),
{
    if !outside::check_public_key(&public.0) {
        return Err(SecpError::InvalidPublicKey);
    }
    if !outside::check_secret_key(secret.as_bytes().as_slice()) {
        return Err(SecpError::InvalidSecretKey);
    }
    let shared = outside::shared_secret(secret.as_bytes(), &public.0);
    Secret::from_unsafe_slice(shared.as_slice())
}

} // verus!
