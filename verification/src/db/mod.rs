//! The key-value databases of the node: how they are set up, and what is written to them.

pub mod settings;
pub mod transaction;
