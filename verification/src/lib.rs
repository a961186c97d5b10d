//! Verified core of the Mazze node's storage layer and key handling.

pub mod bytes;
pub mod crypto;
pub mod db;
pub mod hash;
pub mod hex;
pub mod rlp_codec;
pub mod storage;
pub mod text;
