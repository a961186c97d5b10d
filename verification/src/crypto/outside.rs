//! The primitives of cryptography, as other crates compute them.

use ::aes::Aes128;
use cbc::cipher::block_padding::{Pkcs7, UnpadError};
use cbc::cipher::{BlockDecryptMut, KeyIvInit, StreamCipher};
use crate::bytes;
use cbc::Decryptor;
use ctr::Ctr64BE;
use hmac::{Hmac, Mac};
use rand::rngs::OsRng;
use rand::RngCore;
use secp256k1::ecdh::SharedSecret;
use secp256k1::{PublicKey, Secp256k1, SecretKey};
use sha2::{Digest, Sha256};
use subtle::ConstantTimeEq;
use tiny_keccak::{Hasher, Keccak};
use vstd::prelude::*;

verus! {

/// The Keccak-256 hash of some bytes.
pub uninterp spec fn keccak256_of(bytes: Seq<u8>) -> Seq<u8>;

/// `tiny_keccak::Keccak::v256` over some bytes.
#[verifier::external_body]
pub(crate) fn keccak256(bytes: &[u8]) -> (r: [u8; 32])
    ensures
        r@ == keccak256_of(bytes@),
{
    let mut keccak = Keccak::v256();
    let mut result = [0u8; 32];
    keccak.update(bytes);
    keccak.finalize(&mut result);
    result
}

/// The SHA-256 hash of some bytes.
pub uninterp spec fn sha256_of(bytes: Seq<u8>) -> Seq<u8>;

/// `sha2::Sha256::digest`.
#[verifier::external_body]
pub(crate) fn sha256(bytes: &[u8]) -> (r: [u8; 32])
    ensures
        r@ == sha256_of(bytes@),
{
    Sha256::digest(bytes).into()
}

/// The HMAC with SHA-256 of a message under a key.
pub uninterp spec fn hmac_sha256_of(key: Seq<u8>, message: Seq<u8>) -> Seq<u8>;

/// `hmac::Hmac` with SHA-256 over a message, under a key of any length.
#[verifier::external_body]
pub(crate) fn hmac_sha256(key: &[u8], message: &[u8]) -> (r: [u8; 32])
    ensures
        r@ == hmac_sha256_of(key@, message@),
{
    let mut hmac = <Hmac<Sha256> as Mac>::new_from_slice(key).expect("any key is long enough");
    hmac.update(message);
    hmac.finalize().into_bytes().into()
}

/// `subtle::ConstantTimeEq::ct_eq` on byte slices: whether they are equal.
#[verifier::external_body]
pub(crate) fn ct_eq(a: &[u8], b: &[u8]) -> (r: bool)
    ensures
        r == (a@ == b@),
{
    a.ct_eq(b).into()
}

/// The key of some length that PBKDF2 with HMAC-SHA-256 derives.
pub uninterp spec fn pbkdf2_sha256_of(
    password: Seq<u8>,
    salt: Seq<u8>,
    rounds: u32,
    len: nat,
) -> Seq<u8>;

/// `pbkdf2::pbkdf2_hmac` with SHA-256: fills the output with the derived key. Its blocks of 32 bytes
/// are counted in 32 bits.
#[verifier::external_body]
pub(crate) fn pbkdf2_sha256(password: &[u8], salt: &[u8], rounds: u32, output: &mut [u8])
    requires
        old(output)@.len() <= 32 * 0xffff_ffff,
    ensures
        final(output)@ == pbkdf2_sha256_of(password@, salt@, rounds, old(output)@.len()),
        final(output)@.len() == old(output)@.len(),
{
    ::pbkdf2::pbkdf2_hmac::<Sha256>(password, salt, rounds, output);
}

/// The bytes of `data` combined with those of `stream` by exclusive or.
pub open spec fn xored(data: Seq<u8>, stream: Seq<u8>) -> Seq<u8> {
    Seq::new(data.len(), |i: int| data[i] ^ stream[i])
}

/// The byte at a position of the key stream of AES-128 in counter mode, with a counter of 64 bits.
pub uninterp spec fn aes128_ctr_byte(key: Seq<u8>, iv: Seq<u8>, position: nat) -> u8;

/// The first bytes of that key stream.
pub open spec fn aes128_ctr_stream(key: Seq<u8>, iv: Seq<u8>, len: nat) -> Seq<u8> {
    Seq::new(len, |i: int| aes128_ctr_byte(key, iv, i as nat))
}

/// `apply_keystream` of `ctr::Ctr64BE` over `aes::Aes128`, on a new cipher: combines each byte of the
/// data with the byte of the key stream at its position by exclusive or. What the stream holds at a
/// position does not depend on the data.
#[verifier::external_body]
pub(crate) fn aes128_ctr_apply(key: &[u8], iv: &[u8], data: &mut [u8])
    requires
        key@.len() == 16,
        iv@.len() == 16,
    ensures
        final(data)@.len() == old(data)@.len(),
        forall|i: int|
            0 <= i < old(data)@.len() ==> #[trigger] final(data)@[i] == old(data)@[i]
                ^ aes128_ctr_byte(key@, iv@, i as nat),
{
    let mut cipher = Ctr64BE::<Aes128>::new(key.into(), iv.into());
    cipher.apply_keystream(data);
}

/// `cbc::cipher::block_padding::UnpadError`, that a message does not end as it should.
#[verifier::external_type_specification]
#[verifier::external_body]
pub struct ExUnpadError(UnpadError);

/// The plaintext of a message in AES-128 with cipher block chaining and padding after PKCS #7; none
/// where the message is not padded so.
pub uninterp spec fn aes128_cbc_plain(key: Seq<u8>, iv: Seq<u8>, message: Seq<u8>) -> Option<
    Seq<u8>,
>;

/// `decrypt_padded_b2b_mut` of `cbc::Decryptor` over `aes::Aes128`: writes the plaintext and its
/// padding to the start of `dest`, and gives the length of the plaintext. Of a message that is not
/// padded nothing is said of what is written; behind the length of the message nothing ever is.
#[verifier::external_body]
pub(crate) fn aes128_cbc_decrypt(key: &[u8], iv: &[u8], message: &[u8], dest: &mut [u8]) -> (r:
    Result<usize, UnpadError>)
    requires
        key@.len() == 16,
        iv@.len() == 16,
        message@.len() <= old(dest)@.len(),
    ensures
        final(dest)@.len() == old(dest)@.len(),
        forall|i: int|
            message@.len() <= i < old(dest)@.len() ==> #[trigger] final(dest)@[i] == old(dest)@[i],
        match r {
            Ok(n) => {
                &&& message@.len() % 16 == 0
                &&& n < message@.len() <= n + 16
                &&& aes128_cbc_plain(key@, iv@, message@) == Some(
                    final(dest)@.subrange(0, n as int),
                )
                &&& forall|i: int|
                    n <= i < message@.len() ==> #[trigger] final(dest)@[i] == message@.len() - n
            },
            Err(_) => aes128_cbc_plain(key@, iv@, message@) is None,
        },
{
    let cipher = Decryptor::<Aes128>::new(key.into(), iv.into());
    let plain = cipher.decrypt_padded_b2b_mut::<Pkcs7>(message, dest)?;
    Ok(plain.len())
}

/// The parameters are such that scrypt is defined and its buffers have a size.
pub open spec fn scrypt_params_valid(log_n: u8, r: u32, p: u32) -> bool {
    &&& r > 0
    &&& p > 0
    &&& log_n < usize::BITS
    &&& r * 128 * vstd::arithmetic::power2::pow2(log_n as nat) <= usize::MAX
    &&& r * 128 * p <= usize::MAX
    &&& log_n < r * 16
    &&& r * p < 0x4000_0000
}

/// The buffers of scrypt are small enough to be had.
pub open spec fn scrypt_buffers_fit(log_n: u8, r: u32, p: u32) -> bool {
    &&& r * 128 * vstd::arithmetic::power2::pow2(log_n as nat) <= isize::MAX
    &&& r * 128 * p <= isize::MAX
}

/// The key of 32 bytes that scrypt derives.
pub uninterp spec fn scrypt_of(password: Seq<u8>, salt: Seq<u8>, log_n: u8, r: u32, p: u32) -> Seq<
    u8,
>;

/// `scrypt::errors::InvalidParams`, that scrypt is not defined for its parameters.
#[verifier::external_type_specification]
#[verifier::external_body]
pub struct ExInvalidParams(::scrypt::errors::InvalidParams);

/// `scrypt::Params::new`, and `scrypt::scrypt` with an output of 32 bytes.
#[verifier::external_body]
pub(crate) fn scrypt32(password: &[u8], salt: &[u8], log_n: u8, r: u32, p: u32) -> (out: Result<
    [u8; 32],
    ::scrypt::errors::InvalidParams,
>)
    requires
        scrypt_params_valid(log_n, r, p) ==> scrypt_buffers_fit(log_n, r, p),
    ensures
        match out {
            Ok(key) => scrypt_params_valid(log_n, r, p) && key@ == scrypt_of(
                password@,
                salt@,
                log_n,
                r,
                p,
            ),
            Err(_) => !scrypt_params_valid(log_n, r, p),
        },
{
    let params = ::scrypt::Params::new(log_n, r, p, 32)?;
    let mut derived = [0u8; 32];
    ::scrypt::scrypt(password, salt, &params, &mut derived).expect("32 bytes can be derived");
    Ok(derived)
}

/// The number of points of the curve secp256k1.
pub const CURVE_ORDER: [u8; 32] = [
    0xff,
    0xff,
    0xff,
    0xff,
    0xff,
    0xff,
    0xff,
    0xff,
    0xff,
    0xff,
    0xff,
    0xff,
    0xff,
    0xff,
    0xff,
    0xfe,
    0xba,
    0xae,
    0xdc,
    0xe6,
    0xaf,
    0x48,
    0xa0,
    0x3b,
    0xbf,
    0xd2,
    0x5e,
    0x8c,
    0xd0,
    0x36,
    0x41,
    0x41,
];

/// The constant `secp256k1::constants::CURVE_ORDER`.
#[verifier::external_body]
pub(crate) fn secp_curve_order() -> (r: [u8; 32])
    ensures
        r@ == CURVE_ORDER@,
{
    secp256k1::constants::CURVE_ORDER
}

/// The bytes are those of a secret key: a number above zero and below the order of the curve.
pub open spec fn is_secret_key(bytes: Seq<u8>) -> bool {
    &&& bytes.len() == 32
    &&& 0 < bytes::as_number(bytes) < bytes::as_number(CURVE_ORDER@)
}

/// `secp256k1::SecretKey::from_slice`, whether it succeeds.
#[verifier::external_body]
pub(crate) fn check_secret_key(bytes: &[u8]) -> (r: bool)
    ensures
        r == is_secret_key(bytes@),
{
    SecretKey::from_slice(bytes).is_ok()
}

/// The prime that the coordinates of the points of secp256k1 are counted by.
pub const FIELD_PRIME: [u8; 32] = [
    0xff,
    0xff,
    0xff,
    0xff,
    0xff,
    0xff,
    0xff,
    0xff,
    0xff,
    0xff,
    0xff,
    0xff,
    0xff,
    0xff,
    0xff,
    0xff,
    0xff,
    0xff,
    0xff,
    0xff,
    0xff,
    0xff,
    0xff,
    0xff,
    0xff,
    0xff,
    0xff,
    0xfe,
    0xff,
    0xff,
    0xfc,
    0x2f,
];

/// The bytes are the two coordinates of a point of secp256k1.
pub open spec fn is_public_key(bytes: Seq<u8>) -> bool {
    let x = bytes::as_number(bytes.subrange(0, 32));
    let y = bytes::as_number(bytes.subrange(32, 64));
    let prime = bytes::as_number(FIELD_PRIME@);
    &&& bytes.len() == 64
    &&& x < prime
    &&& y < prime
    &&& (y * y) % prime == (x * x * x + 7) % prime
}

/// `secp256k1::PublicKey::from_slice` on two coordinates, in the form without compression, whether
/// it succeeds.
#[verifier::external_body]
pub(crate) fn check_public_key(bytes: &[u8; 64]) -> (r: bool)
    ensures
        r == is_public_key(bytes@),
{
    let mut data = [4u8; 65];
    data[1..65].copy_from_slice(bytes);
    PublicKey::from_slice(&data).is_ok()
}

/// The coordinates of the public key that belongs to a secret key.
pub uninterp spec fn public_key_of(secret: Seq<u8>) -> Seq<u8>;

/// `secp256k1::PublicKey::from_secret_key`: the public key of a secret key, as two coordinates.
#[verifier::external_body]
pub(crate) fn public_key(secret: &[u8; 32]) -> (r: [u8; 64])
    requires
        is_secret_key(secret@),
    ensures
        r@ == public_key_of(secret@),
        is_public_key(r@),
{
    let key = SecretKey::from_slice(secret).expect("a secret key");
    let public = PublicKey::from_secret_key(&Secp256k1::signing_only(), &key);
    let mut r = [0u8; 64];
    r.copy_from_slice(&public.serialize_uncompressed()[1..65]);
    r
}

/// The secret that a secret key shares with a public key.
pub uninterp spec fn shared_secret_of(secret: Seq<u8>, public: Seq<u8>) -> Seq<u8>;

/// `secp256k1::ecdh::SharedSecret::new`: the secret that both sides find, whichever of the two
/// secret keys is used with the public key of the other.
#[verifier::external_body]
pub(crate) fn shared_secret(secret: &[u8; 32], public: &[u8; 64]) -> (r: [u8; 32])
    requires
        is_secret_key(secret@),
        is_public_key(public@),
    ensures
        r@ == shared_secret_of(secret@, public@),
        forall|other: Seq<u8>|
            is_secret_key(other) && #[trigger] public_key_of(other) == public@ ==> r@
                == shared_secret_of(other, public_key_of(secret@)),
{
    let mut data = [4u8; 65];
    data[1..65].copy_from_slice(public);
    let point = PublicKey::from_slice(&data).expect("a public key");
    let scalar = SecretKey::from_slice(secret).expect("a secret key");
    let mut r = [0u8; 32];
    r.copy_from_slice(&SharedSecret::new(&point, &scalar)[0..32]);
    r
}

/// `rand::rngs::OsRng::fill_bytes`: fills the buffer with random bytes.
#[verifier::external_body]
pub(crate) fn fill_random(buffer: &mut [u8])
    ensures
        final(buffer)@.len() == old(buffer)@.len(),
{
    OsRng.fill_bytes(buffer);
}

} // verus!
