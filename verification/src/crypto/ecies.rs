//! Messages that only the owner of a key can read.

use super::aes;
use super::ecdh;
use super::keys::{
    in_vain, iv_is_drawn, pair_is_drawn, random_iv, KeyPair, Public, Random, SecpError, Secret,
};
use super::outside;
use super::store::SymmError;
use crate::bytes::{concat, copy_range};
use vstd::prelude::*;
use vstd::string::StringExecFns;

verus! {

/// Why a message is not encrypted or decrypted.
#[derive(Debug)]
pub enum Error {
    /// A key is not valid.
    Secp(SecpError),
    /// No random key was found.
    Io,
    /// What is to be decrypted is no message, or not one for this key and these data.
    InvalidMessage,
    /// The cipher failed.
    Symm(SymmError),
}

impl Error {
    /// The error in words.
    pub fn message(&self) -> (r: String)
        ensures
            r@ == match self {
                Error::Secp(SecpError::InvalidPublicKey) => "secp256k1 error: "@
                    + "secp: malformed public key"@,
                Error::Secp(SecpError::InvalidSecretKey) => "secp256k1 error: "@
                    + "secp: malformed or out-of-range secret key"@,
                Error::Io => "i/o error: no random key"@,
                Error::InvalidMessage => "invalid message"@,
                Error::Symm(e) => "symmetric crypto error: "@ + e.0@,
            },
    {
        match self {
            Error::Secp(e) => String::from_str("secp256k1 error: ").concat(e.message()),
            Error::Io => String::from_str("i/o error: no random key"),
            Error::InvalidMessage => String::from_str("invalid message"),
            Error::Symm(e) => e.message(),
        }
    }
}

/// The four bytes of a number, the highest first.
pub open spec fn be32(n: u32) -> Seq<u8> {
    seq![
        (n / 0x100_0000) as u8,
        (n / 0x1_0000 % 0x100) as u8,
        (n / 0x100 % 0x100) as u8,
        (n % 0x100) as u8,
    ]
}

/// The first `n` blocks of 32 bytes that are derived from a secret: the hashes of a count from one
/// up, the secret and `s1`.
pub open spec fn derived(secret: Seq<u8>, s1: Seq<u8>, n: nat) -> Seq<u8>
    decreases n,
{
    if n == 0 {
        seq![]
    } else {
        derived(secret, s1, (n - 1) as nat) + outside::sha256_of(be32(n as u32) + secret + s1)
    }
}

/// Derives keys of `blocks` times 32 bytes from a secret.
pub fn kdf(secret: &Secret, s1: &[u8], blocks: u32) -> (r: Vec<u8>)
    requires
        32 * blocks <= usize::MAX,
    ensures
        r@ == derived(secret@, s1@, blocks as nat),
        r@.len() == 32 * blocks,
{
    let mut dest: Vec<u8> = Vec::new();
    let mut ctr: u32 = 0;
    proof {
        assert(dest@ =~= derived(secret@, s1@, 0));
    }
    while ctr < blocks
        invariant
            ctr <= blocks,
            dest@ == derived(secret@, s1@, ctr as nat),
            dest@.len() == 32 * ctr,
        decreases blocks - ctr,
    {
        ctr = ctr + 1;
        let ctrs: [u8; 4] = [
            (ctr / 0x100_0000) as u8,
            (ctr / 0x1_0000 % 0x100) as u8,
            (ctr / 0x100 % 0x100) as u8,
            (ctr % 0x100) as u8,
        ];
        proof {
            assert(ctrs@ =~= be32(ctr));
        }
        let counted = concat(ctrs.as_slice(), secret.as_bytes().as_slice());
        let input = concat(counted.as_slice(), s1);
        let block = outside::sha256(input.as_slice());
        dest = concat(dest.as_slice(), block.as_slice());
    }
    dest
}

/// The key for encryption that belongs to an agreed secret.
pub open spec fn encryption_key(z: Seq<u8>) -> Seq<u8> {
    derived(z, seq![], 1).subrange(0, 16)
}

/// The key for authentication that belongs to an agreed secret.
pub open spec fn mac_key(z: Seq<u8>) -> Seq<u8> {
    outside::sha256_of(derived(z, seq![], 1).subrange(16, 32))
}

/// The authentication code of an encrypted text, its start value before it, and of further data.
pub open spec fn mac_of(z: Seq<u8>, iv_and_cipher: Seq<u8>, auth_data: Seq<u8>) -> Seq<u8> {
    outside::hmac_sha256_of(mac_key(z), iv_and_cipher + auth_data)
}

/// The message of a plaintext: a four, the public key of the sender, the start value, the encrypted
/// text, and the authentication code.
pub open spec fn sealed(
    sender: Seq<u8>,
    iv: Seq<u8>,
    z: Seq<u8>,
    auth_data: Seq<u8>,
    plain: Seq<u8>,
) -> Seq<u8> {
    let body = iv + aes::ctr_128(encryption_key(z), iv, plain);
    seq![4u8] + sender + body + mac_of(z, body, auth_data)
}

/// The length of a message without its text.
pub const META_LEN: usize = 113;

/// What a message comes to for the owner of a key: it has to be long enough and begin as a message
/// does, the public key in it has to be valid, and the authentication code has to be right.
pub open spec fn opened(secret: Seq<u8>, auth_data: Seq<u8>, message: Seq<u8>) -> Result<
    Seq<u8>,
    Error,
> {
    if message.len() < META_LEN || message[0] < 2 || message[0] > 4 {
        Err(Error::InvalidMessage)
    } else {
        let n = message.len() as int;
        match ecdh::agreed(secret, message.subrange(1, 65)) {
            Err(e) => Err(Error::Secp(e)),
            Ok(z) => if message.subrange(n - 32, n) != mac_of(
                z,
                message.subrange(65, n - 32),
                auth_data,
            ) {
                Err(Error::InvalidMessage)
            } else {
                Ok(
                    aes::ctr_128(
                        encryption_key(z),
                        message.subrange(65, 81),
                        message.subrange(81, n - 32),
                    ),
                )
            },
        }
    }
}

/// A message can be opened by whoever agrees with its sender on the same secret: it comes to the
/// plaintext that was sealed.
pub proof fn sealed_messages_open(
    secret: Seq<u8>,
    sender: Seq<u8>,
    iv: Seq<u8>,
    z: Seq<u8>,
    auth_data: Seq<u8>,
    plain: Seq<u8>,
)
    requires
        sender.len() == 64,
        iv.len() == 16,
        ecdh::agreed(secret, sender) == Ok::<Seq<u8>, SecpError>(z),
        mac_of(z, iv + aes::ctr_128(encryption_key(z), iv, plain), auth_data).len() == 32,
    ensures
        opened(secret, auth_data, sealed(sender, iv, z, auth_data, plain)) == Ok::<
            Seq<u8>,
            Error,
        >(plain),
{
    let cipher = aes::ctr_128(encryption_key(z), iv, plain);
    let body = iv + cipher;
    let mac = mac_of(z, body, auth_data);
    let message = sealed(sender, iv, z, auth_data, plain);
    let n = message.len() as int;
    assert(n == 113 + plain.len());
    assert(message.subrange(1, 65) =~= sender);
    assert(message.subrange(65, n - 32) =~= body);
    assert(message.subrange(n - 32, n) =~= mac);
    assert(message.subrange(65, 81) =~= iv);
    assert(message.subrange(81, n - 32) =~= cipher);
    aes::ctr_round_trip(encryption_key(z), iv, plain);
}

/// A message whose authentication code does not fit the data is not opened, whatever else it holds.
pub proof fn other_data_do_not_open(
    secret: Seq<u8>,
    other_data: Seq<u8>,
    message: Seq<u8>,
    z: Seq<u8>,
)
    requires
        message.len() >= META_LEN,
    ensures
        ecdh::agreed(secret, message.subrange(1, 65)) == Ok::<Seq<u8>, SecpError>(z)
            && message.subrange(message.len() - 32, message.len() as int) != mac_of(
            z,
            message.subrange(65, message.len() - 32),
            other_data,
        ) ==> opened(secret, other_data, message) == Err::<Seq<u8>, Error>(Error::InvalidMessage),
{
}

fn keys_of(z: &Secret) -> (r: (Vec<u8>, [u8; 32]))
    ensures
        r.0@ == encryption_key(z@),
        r.0@.len() == 16,
        r.1@ == mac_key(z@),
{
    let none: [u8; 0] = [];
    let key = kdf(z, none.as_slice(), 1);
    proof {
        assert(none@ =~= seq![]);
    }
    let ekey = copy_range(key.as_slice(), 0, 16);
    let mkey_seed = copy_range(key.as_slice(), 16, 32);
    let mkey = outside::sha256(mkey_seed.as_slice());
    (ekey, mkey)
}

fn mac_for(mkey: &[u8; 32], iv_and_cipher: &[u8], auth_data: &[u8]) -> (r: [u8; 32])
    ensures
        r@ == outside::hmac_sha256_of(mkey@, iv_and_cipher@ + auth_data@),
{
    let input = concat(iv_and_cipher, auth_data);
    outside::hmac_sha256(mkey.as_slice(), input.as_slice())
}

/// Encrypts a message for the owner of a public key, with a sender's pair and a start value that are
/// used for nothing else. Whoever has the secret key of the public key can open it.
pub fn encrypt_with(
    sender: &KeyPair,
    iv: &[u8],
    public: &Public,
    auth_data: &[u8],
    plain: &[u8],
) -> (r: Result<Vec<u8>, Error>)
    requires
        sender.wf(),
        iv@.len() == 16,
    ensures
        match (r, ecdh::agreed(sender.spec_secret(), public@)) {
            (Ok(message), Ok(z)) => message@ == sealed(
                sender.spec_public(),
                iv@,
                z,
                auth_data@,
                plain@,
            ),
            (Err(e), Err(why)) => e == Error::Secp(why),
            _ => false,
        },
        r matches Ok(message) ==> message@.len() == META_LEN + plain@.len() && message@[0] == 4,
        r matches Ok(message) ==> forall|secret: Seq<u8>|
            outside::is_secret_key(secret) && #[trigger] outside::public_key_of(secret) == public@
                ==> opened(secret, auth_data@, message@) == Ok::<Seq<u8>, Error>(plain@),
{
    let z = match ecdh::agree(sender.secret(), public) {
        Ok(z) => z,
        Err(e) => {
            return Err(Error::Secp(e));
        },
    };
    let (ekey, mkey) = keys_of(&z);
    let mut cipher = copy_range(plain, 0, plain.len());
    proof {
        assert(cipher@ =~= plain@);
    }
    outside::aes128_ctr_apply(ekey.as_slice(), iv, cipher.as_mut_slice());
    proof {
        assert(cipher@ =~= aes::ctr_128(ekey@, iv@, plain@));
    }
    let body = concat(iv, cipher.as_slice());
    let mac = mac_for(&mkey, body.as_slice(), auth_data);
    let four: [u8; 1] = [0x04];
    let start = concat(four.as_slice(), sender.public().as_bytes());
    let text = concat(start.as_slice(), body.as_slice());
    let message = concat(text.as_slice(), mac.as_slice());
    proof {
        assert(four@ =~= seq![4u8]);
        assert(message@ == sealed(sender.spec_public(), iv@, z@, auth_data@, plain@));
        sender.keys_belong_together();
        assert forall|secret: Seq<u8>|
            outside::is_secret_key(secret) && #[trigger] outside::public_key_of(secret)
                == public@ implies opened(secret, auth_data@, message@) == Ok::<Seq<u8>, Error>(
            plain@,
        ) by {
            assert(ecdh::agreed(secret, sender.spec_public()) == Ok::<Seq<u8>, SecpError>(z@));
            sealed_messages_open(secret, sender.spec_public(), iv@, z@, auth_data@, plain@);
        }
    }
    Ok(message)
}

/// The message is that of a sender's pair and a start value which both were drawn for it.
pub open spec fn is_sealed_by(
    sender: KeyPair,
    iv: Vec<u8>,
    public: Seq<u8>,
    auth_data: Seq<u8>,
    plain: Seq<u8>,
    message: Seq<u8>,
) -> bool {
    &&& sender.wf()
    &&& pair_is_drawn(sender)
    &&& iv_is_drawn(iv)
    &&& match ecdh::agreed(sender.spec_secret(), public) {
        Ok(z) => message == sealed(sender.spec_public(), iv@, z, auth_data, plain),
        Err(_) => false,
    }
}

/// A sender's pair was drawn that does not agree with the public key on a secret.
pub open spec fn disagrees(sender: KeyPair, public: Seq<u8>, why: SecpError) -> bool {
    &&& sender.wf()
    &&& pair_is_drawn(sender)
    &&& ecdh::agreed(sender.spec_secret(), public) == Err::<Seq<u8>, SecpError>(why)
}

/// Encrypts a message for the owner of a public key, and authenticates it together with further
/// data, which may be empty. Whoever has the secret key of the public key can open it with the same
/// data.
pub fn encrypt(public: &Public, auth_data: &[u8], plain: &[u8]) -> (r: Result<Vec<u8>, Error>)
    ensures
        !outside::is_public_key(public@) ==> r is Err,
        match r {
            Ok(message) => {
                &&& message@.len() == META_LEN + plain@.len()
                &&& message@[0] == 4
                &&& exists|sender: KeyPair, iv: Vec<u8>| #[trigger]
                    is_sealed_by(sender, iv, public@, auth_data@, plain@, message@)
                &&& forall|secret: Seq<u8>|
                    outside::is_secret_key(secret) && #[trigger] outside::public_key_of(secret)
                        == public@ ==> opened(secret, auth_data@, message@) == Ok::<
                        Seq<u8>,
                        Error,
                    >(plain@)
            },
            Err(e) => match e {
                Error::Secp(why) => {
                    &&& why == SecpError::InvalidPublicKey <==> !outside::is_public_key(public@)
                    &&& exists|sender: KeyPair| #[trigger] disagrees(sender, public@, why)
                },
                Error::Io => exists|draws: Seq<Vec<u8>>|
                    draws.len() == u64::MAX && #[trigger] in_vain(draws),
                _ => false,
            },
        },
{
    let mut random = Random;
    let sender = match random.generate() {
        Ok(pair) => pair,
        Err(_) => {
            return Err(Error::Io);
        },
    };
    let iv = random_iv();
    assert(iv_is_drawn(iv));
    let r = encrypt_with(&sender, iv.as_slice(), public, auth_data, plain);
    proof {
        if let Ok(message) = &r {
            assert(is_sealed_by(sender, iv, public@, auth_data@, plain@, message@));
        }
        if let Err(Error::Secp(why)) = &r {
            assert(disagrees(sender, public@, *why));
        }
    }
    r
}

/// Decrypts a message with a secret key, after checking that it was authenticated with the same
/// data.
pub fn decrypt(secret: &Secret, auth_data: &[u8], encrypted: &[u8]) -> (r: Result<Vec<u8>, Error>)
    ensures
        match r {
            Ok(plain) => opened(secret@, auth_data@, encrypted@) == Ok::<Seq<u8>, Error>(plain@),
            Err(e) => opened(secret@, auth_data@, encrypted@) == Err::<Seq<u8>, Error>(e),
        },
{
    if encrypted.len() < META_LEN || encrypted[0] < 2 || encrypted[0] > 4 {
        return Err(Error::InvalidMessage);
    }
    let n: usize = encrypted.len();
    let sender = Public::from_slice(copy_range(encrypted, 1, 65).as_slice());
    let z = match ecdh::agree(secret, &sender) {
        Ok(z) => z,
        Err(e) => {
            return Err(Error::Secp(e));
        },
    };
    let (ekey, mkey) = keys_of(&z);
    let body = copy_range(encrypted, 65, n - 32);
    let msg_mac = copy_range(encrypted, n - 32, n);
    let mac = mac_for(&mkey, body.as_slice(), auth_data);
    if !outside::ct_eq(mac.as_slice(), msg_mac.as_slice()) {
        return Err(Error::InvalidMessage);
    }
    let iv = copy_range(encrypted, 65, 81);
    let mut msg = copy_range(encrypted, 81, n - 32);
    let ghost cipher = msg@;
    outside::aes128_ctr_apply(ekey.as_slice(), iv.as_slice(), msg.as_mut_slice());
    proof {
        assert(msg@ =~= aes::ctr_128(ekey@, iv@, cipher));
    }
    Ok(msg)
}

/// The keys of a message come from one hash, that of the number one in four bytes and the agreed
/// secret: its first half encrypts, and the hash of its second half authenticates the start value,
/// the encrypted text and the further data, in this order.
pub proof fn message_keys_come_from_one_hash(
    z: Seq<u8>,
    iv_and_cipher: Seq<u8>,
    auth_data: Seq<u8>,
)
    ensures
        ({
            let hash = outside::sha256_of(seq![0u8, 0, 0, 1] + z);
            &&& encryption_key(z) == hash.subrange(0, 16)
            &&& mac_key(z) == outside::sha256_of(hash.subrange(16, 32))
            &&& mac_of(z, iv_and_cipher, auth_data) == outside::hmac_sha256_of(
                outside::sha256_of(hash.subrange(16, 32)),
                iv_and_cipher + auth_data,
            )
        }),
{
    reveal_with_fuel(derived, 2);
    assert(be32(1) =~= seq![0u8, 0, 0, 1]);
    assert(be32(1) + z + Seq::<u8>::empty() =~= seq![0u8, 0, 0, 1] + z);
    let hash = outside::sha256_of(seq![0u8, 0, 0, 1] + z);
    assert(derived(z, seq![], 0) + hash =~= hash);
}

/// The bytes of a count make up the count.
pub proof fn counts_are_written_high_byte_first(n: u32)
    ensures
        be32(n).len() == 4,
        be32(n)[0] * 0x100_0000 + be32(n)[1] * 0x1_0000 + be32(n)[2] * 0x100 + be32(n)[3] == n,
{
    assert(n / 0x100_0000 < 0x100);
    assert(n / 0x1_0000 % 0x100 < 0x100);
    assert(n / 0x100 % 0x100 < 0x100);
    assert(n % 0x100 < 0x100);
    assert((n / 0x100_0000) * 0x100_0000 + (n / 0x1_0000 % 0x100) * 0x1_0000 + (n / 0x100 % 0x100)
        * 0x100 + n % 0x100 == n) by (bit_vector);
}

/// Derived keys grow block by block: a longer one begins with each shorter one, and goes on with
/// the hash of the next count, the secret and the salt.
pub proof fn derived_keys_grow(secret: Seq<u8>, s1: Seq<u8>, n: nat)
    requires
        n < u32::MAX,
    ensures
        derived(secret, s1, 0) == Seq::<u8>::empty(),
        derived(secret, s1, n + 1) == derived(secret, s1, n) + outside::sha256_of(
            be32((n + 1) as u32) + secret + s1,
        ),
{
}

/// Where the parts of a message stand: a four, the public key of the sender, the start value, the
/// encrypted text, and the authentication code of the two before it.
pub proof fn messages_are_laid_out_in_order(
    sender: Seq<u8>,
    iv: Seq<u8>,
    z: Seq<u8>,
    auth_data: Seq<u8>,
    plain: Seq<u8>,
)
    requires
        sender.len() == 64,
        iv.len() == 16,
    ensures
        ({
            let message = sealed(sender, iv, z, auth_data, plain);
            let end = 81 + plain.len() as int;
            &&& message.len() >= end
            &&& message[0] == 4
            &&& message.subrange(1, 65) == sender
            &&& message.subrange(65, 81) == iv
            &&& message.subrange(81, end) == aes::ctr_128(encryption_key(z), iv, plain)
            &&& message.subrange(end, message.len() as int) == mac_of(
                z,
                message.subrange(65, end),
                auth_data,
            )
        }),
{
    let cipher = aes::ctr_128(encryption_key(z), iv, plain);
    let body = iv + cipher;
    let message = sealed(sender, iv, z, auth_data, plain);
    let end = 81 + plain.len() as int;
    assert(message.subrange(1, 65) =~= sender);
    assert(message.subrange(65, 81) =~= iv);
    assert(message.subrange(81, end) =~= cipher);
    assert(message.subrange(65, end) =~= body);
    assert(message.subrange(end, message.len() as int) =~= mac_of(z, body, auth_data));
}

/// A message is opened exactly if it has room for its parts, begins with two, three or four, holds
/// a valid public key with which the secret key agrees on a valid secret, and its last bytes are the
/// authentication code of the rest behind the key and of the data.
pub proof fn only_authentic_messages_open(secret: Seq<u8>, auth_data: Seq<u8>, message: Seq<u8>)
    ensures
        opened(secret, auth_data, message) is Ok <==> {
            let n = message.len() as int;
            let sender = message.subrange(1, 65);
            let z = outside::shared_secret_of(secret, sender);
            &&& n >= 1 + 64 + 16 + 32
            &&& 2 <= message[0] <= 4
            &&& outside::is_public_key(sender)
            &&& outside::is_secret_key(secret)
            &&& outside::is_secret_key(z)
            &&& message.subrange(n - 32, n) == mac_of(z, message.subrange(65, n - 32), auth_data)
        },
        opened(secret, auth_data, message) matches Ok(plain) ==> plain == aes::ctr_128(
            encryption_key(outside::shared_secret_of(secret, message.subrange(1, 65))),
            message.subrange(65, 81),
            message.subrange(81, message.len() - 32),
        ),
{
}

} // verus!
