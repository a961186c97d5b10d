//! Decisions of the storage manager: which snapshots are made, kept, registered and removed.

pub mod background;
pub mod capacity;
pub mod listing;
pub mod maintenance;
pub mod maintenance_laws;
pub mod manager;
pub mod plan_laws;
pub mod registry;
pub mod removal;
pub mod retention;
pub mod retention_laws;
pub mod startup;
pub mod startup_laws;
