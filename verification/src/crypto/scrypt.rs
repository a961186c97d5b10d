//! Keys derived with scrypt.

use super::outside;
use super::store::{split_key, ScryptError};
use crate::text;
use crate::text::append_decimal;
use vstd::arithmetic::power2;
use vstd::prelude::*;
use vstd::string::StringExecFns;

verus! {

/// The number is a power of two, and this is the power.
pub open spec fn is_power(n: u32, log_n: u8) -> bool {
    n == power2::pow2(log_n as nat)
}

/// The power of two that a number is, where it is one.
pub fn log2_exact(n: u32) -> (r: Option<u8>)
    ensures
        match r {
            Some(k) => k < 32 && is_power(n, k),
            None => forall|k: u8| !is_power(n, k),
        },
{
    let mut k: u8 = 0;
    let mut m: u64 = 1;
    proof {
        power2::lemma2_to64();
    }
    while k < 32
        invariant
            k <= 32,
            m == power2::pow2(k as nat),
            m <= 0x1_0000_0000,
            k < 32 ==> m <= 0x8000_0000,
            forall|j: u8| j < k ==> !is_power(n, j),
        decreases 32 - k,
    {
        if m == n as u64 {
            return Some(k);
        }
        proof {
            power2::lemma_pow2_unfold((k + 1) as nat);
            power2::lemma2_to64();
            if k + 1 < 32 {
                power2::lemma_pow2_strictly_increases((k + 1) as nat, 32);
            }
        }
        k = k + 1;
        m = m * 2;
    }
    proof {
        assert forall|j: u8| !is_power(n, j) by {
            power2::lemma2_to64();
            if j > 32 {
                power2::lemma_pow2_strictly_increases(32, j as nat);
            }
        }
    }
    None
}

/// What is said of a cost that is no power of two above one.
pub open spec fn bad_cost(n: u32) -> Seq<char> {
    "scrypt N must be a power of two ≥ 2 (got "@ + text::decimal(n as nat) + ")"@
}

/// Derives a key from a password, and gives its two halves. The cost `n` has to be a power of two,
/// and the buffers must be small enough to be had.
pub fn derive_key(password: &[u8], salt: &[u8], n: u32, p: u32, r: u32) -> (out: Result<
    (Vec<u8>, Vec<u8>),
    ScryptError,
>)
    requires
        forall|k: u8|
            #[trigger] is_power(n, k) && outside::scrypt_params_valid(k, r, p)
                ==> outside::scrypt_buffers_fit(k, r, p),
    ensures
        match out {
            Ok(halves) => {
                &&& n >= 2
                &&& halves.0@.len() == 16
                &&& halves.1@.len() == 16
                &&& exists|k: u8|
                    #[trigger] is_power(n, k) && outside::scrypt_params_valid(k, r, p)
                        && halves.0@ == outside::scrypt_of(password@, salt@, k, r, p).subrange(0, 16)
                        && halves.1@ == outside::scrypt_of(password@, salt@, k, r, p).subrange(
                        16,
                        32,
                    )
            },
            Err(e) => if n < 2 || forall|k: u8| !is_power(n, k) {
                e.0@ == bad_cost(n)
            } else {
                &&& forall|k: u8|
                    #[trigger] is_power(n, k) ==> !outside::scrypt_params_valid(k, r, p)
                &&& e.0@ == "invalid scrypt params: invalid scrypt parameters"@
            },
        },
{
    let log_n: u8 = match log2_exact(n) {
        Some(k) if n >= 2 => k,
        _ => {
            return Err(
                ScryptError(
                    append_decimal(
                        String::from_str("scrypt N must be a power of two ≥ 2 (got "),
                        n as u64,
                    ).concat(")"),
                ),
            );
        },
    };
    proof {
        assert forall|k: u8| #[trigger] is_power(n, k) implies k == log_n by {
            if k < log_n {
                power2::lemma_pow2_strictly_increases(k as nat, log_n as nat);
            } else if k > log_n {
                power2::lemma_pow2_strictly_increases(log_n as nat, k as nat);
            }
        }
    }
    match outside::scrypt32(password, salt, log_n, r, p) {
        Ok(derived) => {
            assert(is_power(n, log_n));
            Ok(split_key(derived.as_slice()))
        },
        Err(_) => Err(
            ScryptError(String::from_str("invalid scrypt params: invalid scrypt parameters")),
        ),
    }
}

} // verus!
