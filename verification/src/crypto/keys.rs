//! Secret and public keys.

use super::keccak::Keccak256;
use super::outside;
use crate::bytes;
use crate::hash::H256;
use crate::hex;
use crate::hex::{to_hex, HexError};
use vstd::prelude::*;
use vstd::string::{StrSliceExecFns, StringExecFns};

verus! {

/// A key that is none.
#[derive(Clone, Copy, Debug, PartialEq, Eq, Structural)]
pub enum SecpError {
    InvalidPublicKey,
    InvalidSecretKey,
}

impl SecpError {
    /// The error in words.
    pub fn message(&self) -> (r: &'static str)
        ensures
            r@ == match self {
                SecpError::InvalidPublicKey => "secp: malformed public key"@,
                SecpError::InvalidSecretKey => "secp: malformed or out-of-range secret key"@,
            },
    {
        match self {
            SecpError::InvalidPublicKey => "secp: malformed public key",
            SecpError::InvalidSecretKey => "secp: malformed or out-of-range secret key",
        }
    }
}

/// A public key: the two coordinates of a point, which need not be on the curve.
#[derive(Clone, Copy, Debug)]
pub struct Public(pub [u8; 64]);

impl View for Public {
    type V = Seq<u8>;

    open spec fn view(&self) -> Seq<u8> {
        self.0@
    }
}

impl Public {
    /// The bytes as a public key.
    pub fn from_slice(bytes: &[u8]) -> (r: Public)
        requires
            bytes@.len() == 64,
        ensures
            r@ == bytes@,
    {
        let mut out: [u8; 64] = [0u8; 64];
        let mut i: usize = 0;
        while i < 64
            invariant
                i <= 64,
                bytes@.len() == 64,
                out@.len() == 64,
                forall|j: int| 0 <= j < i ==> out@[j] == bytes@[j],
            decreases 64 - i,
        {
            out[i] = bytes[i];
            i = i + 1;
        }
        proof {
            assert(out@ =~= bytes@);
        }
        Public(out)
    }

    /// The bytes of the key.
    pub fn as_bytes(&self) -> (r: &[u8])
        ensures
            r@ == self@,
    {
        self.0.as_slice()
    }
}

impl Keccak256<[u8; 32]> for Public {
    open spec fn hashed(&self) -> Seq<u8> {
        self@
    }

    open spec fn hash_bytes(hash: [u8; 32]) -> Seq<u8> {
        hash@
    }

    fn keccak256(&self) -> (r: [u8; 32]) {
        outside::keccak256(self.0.as_slice())
    }
}

/// Whether a public key is a point of the curve.
pub fn public_is_valid(public: &Public) -> (r: bool)
    ensures
        r == outside::is_public_key(public@),
{
    outside::check_public_key(&public.0)
}

/// The order of the curve, its bytes from the highest down.
pub fn curve_order() -> (r: H256)
    ensures
        r@ == outside::CURVE_ORDER@,
{
    H256(outside::secp_curve_order())
}

/// A secret key, or 32 bytes that stand for one and need not be valid.
pub struct Secret {
    inner: H256,
}

impl Clone for Secret {
    fn clone(&self) -> (r: Self)
        ensures
            r == *self,
    {
        Secret { inner: self.inner }
    }
}

impl View for Secret {
    type V = Seq<u8>;

    closed spec fn view(&self) -> Seq<u8> {
        self.inner@
    }
}

/// A byte as text, without a leading zero.
pub open spec fn short_hex(b: u8) -> Seq<char> {
    if b < 16 {
        seq![hex::hex_digit(b)]
    } else {
        seq![hex::hex_digit(b / 16), hex::hex_digit(b % 16)]
    }
}

fn append_short_hex(text: String, b: u8) -> (r: String)
    ensures
        r@ == text@ + short_hex(b),
{
    let one: [u8; 1] = [b];
    let digits = to_hex(one.as_slice());
    proof {
        assert(digits@ =~= seq![hex::hex_digit(b / 16), hex::hex_digit(b % 16)]);
    }
    if b < 16 {
        let r = text.concat(digits.as_str().substring_char(1, 2));
        proof {
            assert(digits@.subrange(1, 2) =~= short_hex(b));
        }
        r
    } else {
        text.concat(digits.as_str())
    }
}

impl Secret {
    /// The bytes of the key.
    pub fn as_bytes(&self) -> (r: &[u8; 32])
        ensures
            r@ == self@,
    {
        &self.inner.0
    }

    /// Bytes as a secret, where they are as many as a key has. Whether they are valid is not looked
    /// at.
    pub fn from_slice(key: &[u8]) -> (r: Option<Self>)
        ensures
            match r {
                Some(s) => s@ == key@,
                None => key@.len() != 32,
            },
    {
        if key.len() != 32 {
            return None;
        }
        Some(Secret { inner: H256::from_slice(key) })
    }

    /// The bytes as a secret. Whether they are valid is not looked at.
    pub fn from_bytes(key: [u8; 32]) -> (r: Self)
        ensures
            r@ == key@,
    {
        Secret { inner: H256(key) }
    }

    /// Zero, which is no valid key.
    pub fn zero() -> (r: Self)
        ensures
            r@ == H256::zero()@,
            !outside::is_secret_key(r@),
    {
        let r = Secret { inner: H256::zero() };
        proof {
            zero_is_zero(r@, 32);
        }
        r
    }

    /// Bytes as a valid key.
    pub fn from_unsafe_slice(key: &[u8]) -> (r: Result<Self, SecpError>)
        ensures
            match r {
                Ok(s) => s@ == key@ && outside::is_secret_key(key@),
                Err(e) => !outside::is_secret_key(key@) && e == SecpError::InvalidSecretKey,
            },
    {
        if outside::check_secret_key(key) {
            Ok(Secret { inner: H256::from_slice(key) })
        } else {
            Err(SecpError::InvalidSecretKey)
        }
    }

    /// Whether the key is valid.
    pub fn check_validity(&self) -> (r: Result<(), SecpError>)
        ensures
            match r {
                Ok(_) => outside::is_secret_key(self@),
                Err(e) => !outside::is_secret_key(self@) && e == SecpError::InvalidSecretKey,
            },
    {
        if outside::check_secret_key(self.inner.0.as_slice()) {
            Ok(())
        } else {
            Err(SecpError::InvalidSecretKey)
        }
    }

    /// The key as text.
    pub fn to_hex(&self) -> (r: String)
        ensures
            r@ == hex::hex_of(self@),
    {
        self.inner.to_hex()
    }

    /// The key that a text stands for.
    pub fn from_str(s: &str) -> (r: Result<Self, HexError>)
        ensures
            match r {
                Ok(key) => hex::decoded(s@) == Some(key@),
                Err(e) => H256::refuses(s@, e),
            },
            r is Ok <==> (hex::decoded(s@) matches Some(b) && b.len() == 32),
    {
        match H256::from_hex_str(s) {
            Ok(inner) => Ok(Secret { inner }),
            Err(e) => Err(e),
        }
    }

    /// The first two and the last two bytes, for a log.
    pub fn abridged(&self) -> (r: String)
        ensures
            r@ == "Secret: 0x"@ + short_hex(self@[0]) + short_hex(self@[1]) + ".."@ + short_hex(
                self@[30],
            ) + short_hex(self@[31]),
    {
        let start = append_short_hex(String::from_str("Secret: 0x"), self.inner.0[0]);
        let start = append_short_hex(start, self.inner.0[1]).concat("..");
        append_short_hex(append_short_hex(start, self.inner.0[30]), self.inner.0[31])
    }
}

proof fn zero_is_zero(bytes: Seq<u8>, n: nat)
    requires
        forall|i: int| 0 <= i < bytes.len() ==> bytes[i] == 0,
    ensures
        bytes::as_number(bytes) == 0,
    decreases bytes.len(),
{
    if bytes.len() > 0 {
        zero_is_zero(bytes.drop_last(), n);
    }
}

/// A secret key and its public key.
pub struct KeyPair {
    secret: Secret,
    public: Public,
}

impl Clone for KeyPair {
    fn clone(&self) -> (r: Self)
        ensures
            r == *self,
    {
        KeyPair { secret: self.secret.clone(), public: self.public }
    }
}

impl KeyPair {
    /// The secret key is valid, and the public key is its own.
    pub closed spec fn wf(&self) -> bool {
        &&& outside::is_secret_key(self.secret@)
        &&& self.public@ == outside::public_key_of(self.secret@)
        &&& outside::is_public_key(self.public@)
    }

    /// The bytes of the secret key.
    pub closed spec fn spec_secret(&self) -> Seq<u8> {
        self.secret@
    }

    /// The bytes of the public key.
    pub closed spec fn spec_public(&self) -> Seq<u8> {
        self.public@
    }

    /// A pair has a valid secret key and the public key that belongs to it.
    pub proof fn keys_belong_together(&self)
        requires
            self.wf(),
        ensures
            outside::is_secret_key(self.spec_secret()),
            self.spec_public() == outside::public_key_of(self.spec_secret()),
            outside::is_public_key(self.spec_public()),
    {
    }

    /// The pair of a secret key, where it is valid.
    pub fn from_secret(secret: Secret) -> (r: Result<KeyPair, SecpError>)
        ensures
            match r {
                Ok(pair) => pair.wf() && pair.spec_secret() == secret@ && outside::is_secret_key(
                    secret@,
                ),
                Err(e) => !outside::is_secret_key(secret@) && e == SecpError::InvalidSecretKey,
            },
    {
        match secret.check_validity() {
            Ok(_) => {
                let public = Public(outside::public_key(secret.as_bytes()));
                Ok(KeyPair { secret, public })
            },
            Err(e) => Err(e),
        }
    }

    /// The secret key.
    pub fn secret(&self) -> (r: &Secret)
        ensures
            r@ == self.spec_secret(),
    {
        &self.secret
    }

    /// The public key.
    pub fn public(&self) -> (r: &Public)
        ensures
            r@ == self.spec_public(),
    {
        &self.public
    }
}

/// Makes random keys.
pub struct Random;

/// That no draw gave a valid key.
#[derive(Clone, Copy, Debug, PartialEq, Eq, Structural)]
pub struct NoValidDraw;

/// Random bytes for a secret key.
pub fn draw_key() -> (r: Vec<u8>)
    ensures
        r@.len() == 32,
{
    let mut drawn: Vec<u8> = vec![0u8; 32];
    outside::fill_random(drawn.as_mut_slice());
    drawn
}

/// The bytes are what a draw can come to.
pub open spec fn is_drawn(bytes: Vec<u8>) -> bool {
    call_ensures(draw_key, (), bytes)
}

/// The pair is that of bytes that were drawn.
pub open spec fn pair_is_drawn(pair: KeyPair) -> bool {
    exists|drawn: Vec<u8>| #[trigger] is_drawn(drawn) && pair.spec_secret() == drawn@
}

/// Draws that are no valid secret keys.
pub open spec fn in_vain(draws: Seq<Vec<u8>>) -> bool {
    forall|i: int|
        0 <= i < draws.len() ==> is_drawn(#[trigger] draws[i]) && !outside::is_secret_key(
            draws[i]@,
        )
}

/// The start value is what a draw can come to.
pub open spec fn iv_is_drawn(iv: Vec<u8>) -> bool {
    call_ensures(random_iv, (), iv)
}

impl Random {
    /// A random pair of keys: random bytes are drawn until they are a valid secret key, and the pair
    /// is that of the draw. Nearly all bytes are valid, so that the number of draws, which is
    /// counted, does not run out.
    pub fn generate(&mut self) -> (r: Result<KeyPair, NoValidDraw>)
        ensures
            match r {
                Ok(pair) => pair.wf() && pair_is_drawn(pair),
                Err(_) => exists|draws: Seq<Vec<u8>>|
                    draws.len() == u64::MAX && #[trigger] in_vain(draws),
            },
    {
        let mut draws: u64 = 0;
        let ghost mut made: Seq<Vec<u8>> = seq![];
        while draws < u64::MAX
            invariant
                draws == made.len(),
                in_vain(made),
            decreases u64::MAX - draws,
        {
            let drawn = draw_key();
            assert(is_drawn(drawn));
            match pair_of_draw(drawn.as_slice()) {
                Some(pair) => {
                    return Ok(pair);
                },
                None => {},
            }
            proof {
                made = made.push(drawn);
            }
            draws = draws + 1;
        }
        Err(NoValidDraw)
    }
}

/// The pair that a draw gives, where it is a valid secret key.
pub fn pair_of_draw(drawn: &[u8]) -> (r: Option<KeyPair>)
    requires
        drawn@.len() == 32,
    ensures
        match r {
            Some(pair) => pair.wf() && pair.spec_secret() == drawn@ && outside::is_secret_key(drawn@),
            None => !outside::is_secret_key(drawn@),
        },
{
    match KeyPair::from_secret(Secret { inner: H256::from_slice(drawn) }) {
        Ok(pair) => Some(pair),
        Err(_) => None,
    }
}

/// A random start value for a cipher.
pub fn random_iv() -> (r: Vec<u8>)
    ensures
        r@.len() == 16,
{
    let mut iv: Vec<u8> = vec![0u8; 16];
    outside::fill_random(iv.as_mut_slice());
    iv
}

} // verus!
