//! Incremental synchronisation of a player's activity history into a local
//! store, with the store's rules and the sync engine's decisions verified.
pub mod steam_id;
pub mod store;
pub mod sync;
pub mod guarantees;
