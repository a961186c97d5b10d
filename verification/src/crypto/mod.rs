//! Hashing, encryption and keys.

pub mod aes;
pub mod ecdh;
pub mod ecies;
pub mod keccak;
pub mod keys;
pub mod outside;
pub mod pbkdf2;
pub mod scrypt;
pub mod store;
