//! Snapshot database manager for a blockchain state-storage layer.
//!
//! The manager owns the on-disk lifecycle of epoch snapshots: point-in-time,
//! read-mostly copies of the world state keyed by a 32-byte epoch identifier,
//! together with the single writable `latest` MPT database that backs the most
//! recent snapshot.
//!
//! Everything that the manager decides — admission of readers and writers,
//! bounded-concurrency gating, merge staging, atomic publication by rename,
//! teardown — is modelled here over an explicit state: an open-state registry
//! per database pool, counting semaphores, and a directory map standing for
//! the snapshot store on disk.  Filesystem work, subprocesses and thread
//! parking are performed by an unverified driver around this crate; the
//! functions here are the decision core, and every suspension point of the
//! threaded system surfaces as a distinguished result that tells the driver
//! to wait and retry.

pub mod db;
pub mod epoch;
pub mod errors;
pub mod gas;
pub mod hexchars;
pub mod laws;
pub mod manager;
pub mod names;
pub mod pathmap;
pub mod semaphore;
pub mod validator_config;
