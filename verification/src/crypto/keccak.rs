//! The Keccak-256 hash.

use super::outside;
use crate::hash::H256;
use vstd::prelude::*;

verus! {

/// Has a Keccak-256 hash.
pub trait Keccak256<T> {
    /// The bytes that are hashed.
    spec fn hashed(&self) -> Seq<u8>;

    /// The hash as bytes.
    spec fn hash_bytes(hash: T) -> Seq<u8>;

    /// The hash.
    fn keccak256(&self) -> (r: T) where T: Sized
        ensures
            Self::hash_bytes(r) == outside::keccak256_of(self.hashed()),
    ;
}

impl Keccak256<[u8; 32]> for [u8] {
    open spec fn hashed(&self) -> Seq<u8> {
        self@
    }

    open spec fn hash_bytes(hash: [u8; 32]) -> Seq<u8> {
        hash@
    }

    fn keccak256(&self) -> (r: [u8; 32]) {
        outside::keccak256(self)
    }
}

impl Keccak256<[u8; 32]> for Vec<u8> {
    open spec fn hashed(&self) -> Seq<u8> {
        self@
    }

    open spec fn hash_bytes(hash: [u8; 32]) -> Seq<u8> {
        hash@
    }

    fn keccak256(&self) -> (r: [u8; 32]) {
        outside::keccak256(self.as_slice())
    }
}

impl Keccak256<[u8; 32]> for H256 {
    open spec fn hashed(&self) -> Seq<u8> {
        self@
    }

    open spec fn hash_bytes(hash: [u8; 32]) -> Seq<u8> {
        hash@
    }

    fn keccak256(&self) -> (r: [u8; 32]) {
        outside::keccak256(self.0.as_slice())
    }
}

} // verus!
