//! Encryption with AES-128.

use super::outside;
use super::store::SymmError;
use crate::text;
use crate::text::append_decimal;
use vstd::prelude::*;
use vstd::string::StringExecFns;

verus! {

fn two_numbers(start: &str, a: usize, middle: &str, b: usize, end: &str) -> (r: String)
    ensures
        r@ == start@ + text::decimal(a as nat) + middle@ + text::decimal(b as nat) + end@,
{
    let first = append_decimal(String::from_str(start), a as u64).concat(middle);
    append_decimal(first, b as u64).concat(end)
}

/// What is said of a key or a start value of the wrong length.
pub open spec fn bad_lengths(name: Seq<char>, key: nat, iv: nat) -> Seq<char> {
    name + ": bad key/iv length ("@ + text::decimal(key) + "/"@ + text::decimal(iv)
        + "); expected 16/16"@
}

fn copy_into(from: &[u8], to: &mut [u8])
    requires
        from@.len() == old(to)@.len(),
    ensures
        final(to)@ == from@,
{
    let mut i: usize = 0;
    while i < from.len()
        invariant
            i <= from@.len(),
            from@.len() == to@.len(),
            forall|j: int| 0 <= j < i ==> to@[j] == from@[j],
        decreases from.len() - i,
    {
        to[i] = from[i];
        i = i + 1;
    }
    proof {
        assert(to@ =~= from@);
    }
}

/// What AES-128 in counter mode makes of some bytes, in either direction.
pub open spec fn ctr_128(key: Seq<u8>, iv: Seq<u8>, data: Seq<u8>) -> Seq<u8> {
    outside::xored(data, outside::aes128_ctr_stream(key, iv, data.len()))
}

/// Encrypts `plain` to `dest`, which has to be as long.
pub fn encrypt_128_ctr(key: &[u8], iv: &[u8], plain: &[u8], dest: &mut [u8]) -> (r: Result<
    (),
    SymmError,
>)
    ensures
        match r {
            Ok(_) => {
                &&& plain@.len() == old(dest)@.len()
                &&& key@.len() == 16
                &&& iv@.len() == 16
                &&& final(dest)@ == ctr_128(key@, iv@, plain@)
            },
            Err(e) => {
                &&& final(dest)@ == old(dest)@
                &&& plain@.len() != old(dest)@.len() || key@.len() != 16 || iv@.len() != 16
                &&& e.0@ == if plain@.len() != old(dest)@.len() {
                    "encrypt_128_ctr: plain.len="@ + text::decimal(plain@.len()) + " != dest.len="@
                        + text::decimal(old(dest)@.len()) + ""@
                } else {
                    bad_lengths("encrypt_128_ctr"@, key@.len(), iv@.len())
                }
            },
        },
{
    if plain.len() != dest.len() {
        return Err(
            SymmError(
                two_numbers(
                    "encrypt_128_ctr: plain.len=",
                    plain.len(),
                    " != dest.len=",
                    dest.len(),
                    "",
                ),
            ),
        );
    }
    if key.len() != 16 || iv.len() != 16 {
        return Err(SymmError(bad_lengths_text("encrypt_128_ctr", key.len(), iv.len())));
    }
    copy_into(plain, dest);
    outside::aes128_ctr_apply(key, iv, dest);
    proof {
        assert(dest@ =~= ctr_128(key@, iv@, plain@));
    }
    Ok(())
}

fn bad_lengths_text(name: &str, key: usize, iv: usize) -> (r: String)
    ensures
        r@ == bad_lengths(name@, key as nat, iv as nat),
{
    let start = String::from_str(name).concat(": bad key/iv length (");
    two_numbers(start.as_str(), key, "/", iv, "); expected 16/16")
}

/// Decrypts `cipher_input` to `dest`, which has to be as long.
pub fn decrypt_128_ctr(key: &[u8], iv: &[u8], cipher_input: &[u8], dest: &mut [u8]) -> (r: Result<
    (),
    SymmError,
>)
    ensures
        match r {
            Ok(_) => {
                &&& cipher_input@.len() == old(dest)@.len()
                &&& key@.len() == 16
                &&& iv@.len() == 16
                &&& final(dest)@ == ctr_128(key@, iv@, cipher_input@)
            },
            Err(e) => {
                &&& final(dest)@ == old(dest)@
                &&& cipher_input@.len() != old(dest)@.len() || key@.len() != 16 || iv@.len() != 16
                &&& e.0@ == if cipher_input@.len() != old(dest)@.len() {
                    "decrypt_128_ctr: cipher.len="@ + text::decimal(cipher_input@.len())
                        + " != dest.len="@ + text::decimal(old(dest)@.len()) + ""@
                } else {
                    bad_lengths("decrypt_128_ctr"@, key@.len(), iv@.len())
                }
            },
        },
{
    if cipher_input.len() != dest.len() {
        return Err(
            SymmError(
                two_numbers(
                    "decrypt_128_ctr: cipher.len=",
                    cipher_input.len(),
                    " != dest.len=",
                    dest.len(),
                    "",
                ),
            ),
        );
    }
    if key.len() != 16 || iv.len() != 16 {
        return Err(SymmError(bad_lengths_text("decrypt_128_ctr", key.len(), iv.len())));
    }
    copy_into(cipher_input, dest);
    outside::aes128_ctr_apply(key, iv, dest);
    proof {
        assert(dest@ =~= ctr_128(key@, iv@, cipher_input@));
    }
    Ok(())
}

/// Decrypts `cipher_input`, which is padded, to the start of `dest`, and gives the length of the
/// plaintext. `dest` has to have room for the padding too.
pub fn decrypt_128_cbc(key: &[u8], iv: &[u8], cipher_input: &[u8], dest: &mut [u8]) -> (r: Result<
    usize,
    SymmError,
>)
    ensures
        final(dest)@.len() == old(dest)@.len(),
        match r {
            Ok(n) => {
                &&& key@.len() == 16
                &&& iv@.len() == 16
                &&& cipher_input@.len() % 16 == 0
                &&& n < cipher_input@.len() <= n + 16
                &&& cipher_input@.len() <= old(dest)@.len()
                &&& outside::aes128_cbc_plain(key@, iv@, cipher_input@) == Some(
                    final(dest)@.subrange(0, n as int),
                )
                &&& forall|i: int|
                    n <= i < cipher_input@.len() ==> #[trigger] final(dest)@[i]
                        == cipher_input@.len() - n
                &&& forall|i: int|
                    cipher_input@.len() <= i < old(dest)@.len() ==> #[trigger] final(dest)@[i]
                        == old(dest)@[i]
            },
            Err(e) => if key@.len() != 16 || iv@.len() != 16 {
                &&& final(dest)@ == old(dest)@
                &&& e.0@ == bad_lengths("decrypt_128_cbc"@, key@.len(), iv@.len())
            } else if old(dest)@.len() < cipher_input@.len() {
                &&& final(dest)@ == old(dest)@
                &&& e.0@ == "decrypt_128_cbc: dest too small ("@ + text::decimal(old(dest)@.len())
                    + " < "@ + text::decimal(cipher_input@.len()) + ")"@
            } else {
                &&& outside::aes128_cbc_plain(key@, iv@, cipher_input@) is None
                &&& e.0@ == "decrypt_128_cbc: Unpad Error"@
            },
        },
{
    if key.len() != 16 || iv.len() != 16 {
        return Err(SymmError(bad_lengths_text("decrypt_128_cbc", key.len(), iv.len())));
    }
    if dest.len() < cipher_input.len() {
        return Err(
            SymmError(
                two_numbers(
                    "decrypt_128_cbc: dest too small (",
                    dest.len(),
                    " < ",
                    cipher_input.len(),
                    ")",
                ),
            ),
        );
    }
    match outside::aes128_cbc_decrypt(key, iv, cipher_input, dest) {
        Ok(n) => Ok(n),
        Err(_) => Err(SymmError(String::from_str("decrypt_128_cbc: Unpad Error"))),
    }
}

/// Decrypting in counter mode gives back what was encrypted.
pub proof fn ctr_round_trip(key: Seq<u8>, iv: Seq<u8>, data: Seq<u8>)
    ensures
        ctr_128(key, iv, ctr_128(key, iv, data)) == data,
{
    let stream = outside::aes128_ctr_stream(key, iv, data.len());
    let once = ctr_128(key, iv, data);
    let twice = ctr_128(key, iv, once);
    assert forall|i: int| 0 <= i < data.len() implies twice[i] == data[i] by {
        let a: u8 = data[i];
        let b: u8 = stream[i];
        assert((a ^ b) ^ b == a) by (bit_vector);
        assert(once[i] == a ^ b);
    }
    assert(twice =~= data);
}

/// What counter mode combines a byte with depends on the key, the start value and the position
/// alone, not on the other bytes nor on how many there are.
pub proof fn ctr_works_byte_by_byte(
    key: Seq<u8>,
    iv: Seq<u8>,
    first: Seq<u8>,
    second: Seq<u8>,
    i: int,
)
    requires
        0 <= i < first.len(),
        i < second.len(),
    ensures
        ctr_128(key, iv, first).len() == first.len(),
        ctr_128(key, iv, first)[i] ^ first[i] == ctr_128(key, iv, second)[i] ^ second[i],
        first[i] == second[i] ==> ctr_128(key, iv, first)[i] == ctr_128(key, iv, second)[i],
{
    let a: u8 = first[i];
    let b: u8 = second[i];
    let s: u8 = outside::aes128_ctr_byte(key, iv, i as nat);
    assert((a ^ s) ^ a == s) by (bit_vector);
    assert((b ^ s) ^ b == s) by (bit_vector);
    assert(ctr_128(key, iv, first)[i] == a ^ s);
    assert(ctr_128(key, iv, second)[i] == b ^ s);
}

} // verus!
