use aes::Aes128;
use cbc::cipher::block_padding::Pkcs7;
use cbc::cipher::{BlockEncryptMut, KeyIvInit};
use mazze_storage::crypto::aes::{decrypt_128_cbc, decrypt_128_ctr, encrypt_128_ctr};
use mazze_storage::crypto::ecdh::agree;
use mazze_storage::crypto::ecies;
use mazze_storage::crypto::keccak::Keccak256;
use mazze_storage::crypto::keys::{
    curve_order, draw_key, pair_of_draw, public_is_valid, random_iv, KeyPair, Public, Random,
    SecpError, Secret,
};
use mazze_storage::crypto::pbkdf2;
use mazze_storage::crypto::scrypt;
use mazze_storage::crypto::store::{
    derive_key_iterations, derive_mac, is_equal, split_key, Error, ScryptError, SymmError,
    KEY_ITERATIONS, KEY_LENGTH, KEY_LENGTH_AES,
};
use mazze_storage::hash::{merkle_null_node, null_epoch, H256};
use mazze_storage::hex::HexError;
use rustc_hex::{FromHex, ToHex};

fn bytes(hex: &str) -> Vec<u8> {
    hex.from_hex().unwrap()
}

fn secret(n: u8) -> Secret {
    let mut key = [0u8; 32];
    key[31] = n;
    Secret::from_bytes(key)
}

const GENERATOR: &str = "79be667ef9dcbbac55a06295ce870b07029bfcdb2dce28d959f2815b16f81798\
                         483ada7726a3c4655da4fbfc0e1108a8fd17b448a68554199c47d08ffb10d4b8";

#[test]
fn ecies_shared() {
    let kp = Random.generate().unwrap();
    let message = b"So many books, so little time";

    let shared = b"shared";
    let wrong_shared = b"incorrect";
    let encrypted = ecies::encrypt(kp.public(), shared, message).unwrap();
    assert!(encrypted[..] != message[..]);
    assert_eq!(encrypted[0], 0x04);

    assert!(ecies::decrypt(kp.secret(), wrong_shared, &encrypted).is_err());
    let decrypted = ecies::decrypt(kp.secret(), shared, &encrypted).unwrap();
    assert_eq!(decrypted[..message.len()], message[..]);
}

#[test]
fn messages_for_another_key_do_not_open() {
    let kp = KeyPair::from_secret(secret(5)).unwrap();
    let encrypted = ecies::encrypt(kp.public(), b"", b"message").unwrap();
    assert_eq!(encrypted.len(), ecies::META_LEN + 7);
    let e = ecies::decrypt(&secret(6), b"", &encrypted).unwrap_err();
    assert!(matches!(e, ecies::Error::InvalidMessage));
    assert_eq!(e.message(), "invalid message");
    let e = ecies::decrypt(kp.secret(), b"", &encrypted[..ecies::META_LEN - 1]).unwrap_err();
    assert!(matches!(e, ecies::Error::InvalidMessage));
    let mut version = encrypted.clone();
    version[0] = 5;
    assert!(ecies::decrypt(kp.secret(), b"", &version).is_err());
    let mut off_curve = encrypted.clone();
    off_curve[64] ^= 1;
    let e = ecies::decrypt(kp.secret(), b"", &off_curve).unwrap_err();
    assert!(matches!(e, ecies::Error::Secp(SecpError::InvalidPublicKey)));
    assert_eq!(e.message(), "secp256k1 error: secp: malformed public key");
    let e = ecies::encrypt(&Public([7; 64]), b"", b"m").unwrap_err();
    assert!(matches!(e, ecies::Error::Secp(SecpError::InvalidPublicKey)));
}

#[test]
fn messages_are_sealed_from_the_sender_and_the_start_value() {
    let sender = KeyPair::from_secret(secret(1)).unwrap();
    let receiver = KeyPair::from_secret(secret(2)).unwrap();
    let iv = [9u8; 16];
    let one = ecies::encrypt_with(&sender, &iv, receiver.public(), b"a", b"text").unwrap();
    let two = ecies::encrypt_with(&sender, &iv, receiver.public(), b"a", b"text").unwrap();
    assert_eq!(one, two);
    assert_eq!(&one[1..65], sender.public().as_bytes());
    assert_eq!(&one[65..81], &iv[..]);
    assert_eq!(ecies::decrypt(receiver.secret(), b"a", &one).unwrap(), b"text");
}

#[test]
fn keys_are_derived_block_by_block() {
    let derived = ecies::kdf(&secret(1), b"x", 2);
    assert_eq!(
        derived.to_hex::<String>(),
        "951bda1434db55a030a9e195249cbc32dc0774e581ab733f2823dae0bfe513e5\
         16bbd5df82c0babe52e98fce7c978daf7a14c7f52ac47e8b08f60350be7cc43f"
    );
}

#[test]
fn both_sides_agree() {
    let a = KeyPair::from_secret(secret(1)).unwrap();
    let b = KeyPair::from_secret(secret(2)).unwrap();
    let z = agree(a.secret(), b.public()).unwrap();
    assert_eq!(
        z.to_hex(),
        "b1c9938f01121e159887ac2c8d393a22e4476ff8212de13fe1939de2a236f0a7"
    );
    assert_eq!(agree(b.secret(), a.public()).unwrap().to_hex(), z.to_hex());
    assert_eq!(
        agree(&Secret::zero(), a.public()).err(),
        Some(SecpError::InvalidSecretKey)
    );
    assert_eq!(
        agree(a.secret(), &Public([0; 64])).err(),
        Some(SecpError::InvalidPublicKey)
    );
}

#[test]
fn the_key_of_one_is_the_generator() {
    let kp = KeyPair::from_secret(secret(1)).unwrap();
    assert_eq!(kp.public().as_bytes().to_hex::<String>(), GENERATOR);
    assert!(public_is_valid(kp.public()));
    let mut other = kp.public().0;
    other[63] ^= 1;
    assert!(!public_is_valid(&Public(other)));
}

#[test]
fn secrets_lie_below_the_order_of_the_curve() {
    let order = curve_order();
    assert_eq!(
        order.to_hex(),
        "fffffffffffffffffffffffffffffffebaaedce6af48a03bbfd25e8cd0364141"
    );
    assert_eq!(
        Secret::from_unsafe_slice(order.as_bytes()).err(),
        Some(SecpError::InvalidSecretKey)
    );
    let mut below = order.0;
    below[31] = 0x40;
    assert!(Secret::from_unsafe_slice(&below).is_ok());
    assert_eq!(
        Secret::zero().check_validity(),
        Err(SecpError::InvalidSecretKey)
    );
    assert_eq!(secret(1).check_validity(), Ok(()));
    assert!(Secret::from_unsafe_slice(&[1; 31]).is_err());
    assert!(Secret::from_slice(&[1; 31]).is_none());
    assert!(Secret::from_slice(&[0; 32]).is_some());
    assert!(KeyPair::from_secret(Secret::zero()).is_err());
}

#[test]
fn secrets_are_written_and_read_as_text() {
    let s = secret(0xab);
    let text = "00".repeat(31) + "ab";
    assert_eq!(s.to_hex(), text);
    assert_eq!(Secret::from_str(&text).unwrap().as_bytes(), s.as_bytes());
    assert_eq!(Secret::from_str("ab").err(), Some(HexError::InvalidHexLength));
    assert_eq!(
        Secret::from_str("xy").err(),
        Some(HexError::InvalidHexCharacter('x', 0))
    );
    let mut key = [0u8; 32];
    key[0] = 0x12;
    key[1] = 0x03;
    key[30] = 0xff;
    assert_eq!(Secret::from_bytes(key).abridged(), "Secret: 0x123..ff0");
}

#[test]
fn draws_are_secret_keys() {
    assert!(pair_of_draw(&[0; 32]).is_none());
    assert!(pair_of_draw(&[0xff; 32]).is_none());
    assert_eq!(pair_of_draw(&[1; 32]).unwrap().secret().as_bytes(), &[1; 32]);
    let a = Random.generate().unwrap();
    let b = Random.generate().unwrap();
    assert_ne!(a.secret().as_bytes(), b.secret().as_bytes());
    assert!(public_is_valid(a.public()));
    assert_eq!(random_iv().len(), 16);
    assert_ne!(random_iv(), random_iv());
}

#[test]
fn errors_of_keys_have_words() {
    assert_eq!(SecpError::InvalidPublicKey.message(), "secp: malformed public key");
    assert_eq!(
        SecpError::InvalidSecretKey.message(),
        "secp: malformed or out-of-range secret key"
    );
}

#[test]
fn keccak_hashes() {
    let empty: [u8; 32] = Vec::<u8>::new().keccak256();
    assert_eq!(H256(empty), null_epoch());
    assert_eq!(H256(empty), merkle_null_node());
    let abc: [u8; 32] = b"abc"[..].keccak256();
    assert_eq!(
        abc[..].to_hex::<String>(),
        "4e03657aea45a94fc7d47ba826c8d667c0d1e6e33a64a036ec44f58fa12d6c45"
    );
    let zero: [u8; 32] = H256::zero().keccak256();
    assert_eq!(
        zero[..].to_hex::<String>(),
        "290decd9548b62a8d60345a988386fc84ba6bc95484008f6362f93160ef3e563"
    );
    let point: [u8; 32] = KeyPair::from_secret(secret(1)).unwrap().public().keccak256();
    assert_eq!(
        point[12..].to_hex::<String>(),
        "7e5f4552091a69125d5dfcb7b8c2659029395bdf"
    );
}

#[test]
fn counter_mode_vector() {
    let key = bytes("2b7e151628aed2a6abf7158809cf4f3c");
    let iv = bytes("f0f1f2f3f4f5f6f7f8f9fafbfcfdfeff");
    let plain = bytes("6bc1bee22e409f96e93d7e117393172aae2d8a57");
    let mut cipher = vec![0u8; 20];
    encrypt_128_ctr(&key, &iv, &plain, &mut cipher).unwrap();
    assert_eq!(
        cipher.to_hex::<String>(),
        "874d6191b620e3261bef6864990db6ce9806f66b"
    );
    let mut back = vec![0u8; 20];
    decrypt_128_ctr(&key, &iv, &cipher, &mut back).unwrap();
    assert_eq!(back, plain);
}

#[test]
fn counter_mode_lengths() {
    let mut dest = [0u8; 3];
    assert_eq!(
        encrypt_128_ctr(&[0; 16], &[0; 16], &[0; 4], &mut dest).unwrap_err().0,
        "encrypt_128_ctr: plain.len=4 != dest.len=3"
    );
    assert_eq!(
        encrypt_128_ctr(&[0; 15], &[0; 16], &[0; 3], &mut dest).unwrap_err().0,
        "encrypt_128_ctr: bad key/iv length (15/16); expected 16/16"
    );
    assert_eq!(
        decrypt_128_ctr(&[0; 16], &[0; 16], &[0; 4], &mut dest).unwrap_err().0,
        "decrypt_128_ctr: cipher.len=4 != dest.len=3"
    );
    assert_eq!(
        decrypt_128_ctr(&[0; 16], &[0; 12], &[0; 3], &mut dest).unwrap_err().0,
        "decrypt_128_ctr: bad key/iv length (16/12); expected 16/16"
    );
    assert_eq!(dest, [0; 3]);
}

#[test]
fn chained_blocks_are_decrypted() {
    let key = bytes("2b7e151628aed2a6abf7158809cf4f3c");
    let iv = bytes("000102030405060708090a0b0c0d0e0f");
    let plain = bytes("6bc1bee22e409f96e93d7e117393172aae2d8a");
    let mut buffer = vec![0u8; 32];
    buffer[..19].copy_from_slice(&plain);
    let cipher = cbc::Encryptor::<Aes128>::new_from_slices(&key, &iv)
        .unwrap()
        .encrypt_padded_mut::<Pkcs7>(&mut buffer, 19)
        .unwrap()
        .to_vec();
    assert_eq!(cipher.len(), 32);
    assert_eq!(cipher[..16].to_hex::<String>(), "7649abac8119b246cee98e9b12e9197d");
    let mut dest = vec![0x55u8; 34];
    assert_eq!(decrypt_128_cbc(&key, &iv, &cipher, &mut dest).unwrap(), 19);
    assert_eq!(dest[..19], plain[..]);
    assert_eq!(dest[19..32], [13; 13]);
    assert_eq!(dest[32..], [0x55; 2]);

    let mut small = [0u8; 31];
    assert_eq!(
        decrypt_128_cbc(&key, &iv, &cipher, &mut small).unwrap_err().0,
        "decrypt_128_cbc: dest too small (31 < 32)"
    );
    assert_eq!(
        decrypt_128_cbc(&key, &iv, &cipher[..31], &mut dest).unwrap_err().0,
        "decrypt_128_cbc: Unpad Error"
    );
    assert_eq!(
        decrypt_128_cbc(&key, &iv, &cipher[..16], &mut dest).unwrap_err().0,
        "decrypt_128_cbc: Unpad Error"
    );
    assert_eq!(
        decrypt_128_cbc(&key[..1], &iv, &cipher, &mut dest).unwrap_err().0,
        "decrypt_128_cbc: bad key/iv length (1/16); expected 16/16"
    );
}

#[test]
fn password_keys() {
    let mut out = [0u8; 32];
    pbkdf2::sha256(2, pbkdf2::Salt(b"salt"), pbkdf2::Secret(b"password"), &mut out);
    assert_eq!(
        out[..].to_hex::<String>(),
        "ae4d0c95af6b46d32d0adff928f06dd02a303f8ef3c251dfd6e2d85a95474c43"
    );
    let (left, right) = derive_key_iterations(b"password", b"salt", 2);
    assert_eq!(left, &out[..16]);
    assert_eq!(right, &out[16..]);
    assert_eq!(KEY_LENGTH, 32);
    assert_eq!(KEY_LENGTH_AES, 16);
    assert_eq!(KEY_ITERATIONS, 10240);
    assert_eq!(split_key(&out), (left, right));
}

#[test]
fn scrypt_keys() {
    let (left, right) = scrypt::derive_key(b"password", b"NaCl", 1024, 16, 8).unwrap();
    assert_eq!(left.to_hex::<String>(), "fdbabe1c9d3472007856e7190d01e9fe");
    assert_eq!(right.to_hex::<String>(), "7c6ad7cbc8237830e77376634b373162");
    assert_eq!(
        scrypt::derive_key(b"p", b"s", 3, 1, 1).unwrap_err().0,
        "scrypt N must be a power of two \u{2265} 2 (got 3)"
    );
    assert_eq!(
        scrypt::derive_key(b"p", b"s", 1, 1, 1).unwrap_err().0,
        "scrypt N must be a power of two \u{2265} 2 (got 1)"
    );
    assert_eq!(
        scrypt::derive_key(b"p", b"s", 2, 0, 1).unwrap_err().0,
        "invalid scrypt params: invalid scrypt parameters"
    );
    assert_eq!(scrypt::log2_exact(0), None);
    assert_eq!(scrypt::log2_exact(1 << 31), Some(31));
}

#[test]
fn authentication_codes() {
    assert_eq!(derive_mac(&[1, 2], &[3]), vec![1, 2, 3]);
    assert!(is_equal(b"same", b"same"));
    assert!(!is_equal(b"same", b"sane"));
    assert!(!is_equal(b"same", b"sam"));
}

#[test]
fn store_errors_have_words() {
    let symm = SymmError("s".to_string());
    assert_eq!(symm.message(), "symmetric crypto error: s");
    let scrypt = ScryptError("t".to_string());
    assert_eq!(scrypt.message(), "scrypt error: t");
    assert_eq!(Error::from(symm).message(), "symmetric crypto error: s");
    assert_eq!(Error::from(scrypt).message(), "scrypt error: t");
}

#[test]
fn draws_for_keys_are_long_enough_and_differ() {
    let (a, b) = (draw_key(), draw_key());
    assert_eq!((a.len(), b.len()), (32, 32));
    assert_ne!(a, b);
}

#[test]
fn counter_mode_works_byte_by_byte() {
    let key = [7u8; 16];
    let iv = [9u8; 16];
    let long: Vec<u8> = (0..100).collect();
    let short = [0x55u8; 33];
    let mut long_out = vec![0u8; 100];
    let mut short_out = vec![0u8; 33];
    encrypt_128_ctr(&key, &iv, &long, &mut long_out).unwrap();
    encrypt_128_ctr(&key, &iv, &short, &mut short_out).unwrap();
    for i in 0..33 {
        assert_eq!(long_out[i] ^ long[i], short_out[i] ^ short[i]);
    }
}
