//! Durable-state adapters for a replicated document store.
//!
//! A persister keeps three categories of state: a log of changes keyed by
//! `(actor, sequence)`, one document snapshot, and one sync state per peer.
//! It also keeps the byte totals of each category, which the owning runtime
//! reads to decide when to compact the log.
//!
//! The modules below hold the rules every backend follows, the in-memory
//! backend that serves as the semantic baseline, and the storage-independent
//! part of the file, embedded-store and browser-storage backends: naming and
//! key schemes, text encodings, size accounting and the decisions taken on
//! what the storage medium reports.

pub mod sizes;
pub mod keyed;
pub mod encoding;
pub mod actor;
pub mod model;
pub mod persister;
pub mod mem;
pub mod fs;
pub mod json;
pub mod localstorage;
pub mod embedded;
pub mod laws;
