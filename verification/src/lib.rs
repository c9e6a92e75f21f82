//! Archival storage and federation synchronisation engine.
//!
//! The crate holds the append-only record codec and log, the snapshot
//! catalog with its payload index, the replay resolver, the peer directory,
//! and the decisions of the manifest synchronisation and of the federated
//! search. Every executable function carries a contract that Verus proves.

pub mod capture;
pub mod catalog;
pub mod federation;
pub mod layout;
pub mod log;
pub mod outside;
pub mod peers;
pub mod record;
pub mod resolver;
pub mod snapshot;
pub mod sync;
pub mod text;
