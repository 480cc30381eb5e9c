//! Verified core of a batch migration of per-user storage records between two stores.
//!
//! A run moves the storage objects of the users of a sharded source store, with the
//! collections that group them, to a destination store, where each user goes by a federated
//! identity in place of the legacy id. This library decides and computes; it neither reads
//! files nor speaks to a store. What is read is handed to it as plain values, and what is to
//! be written it hands back as statements and as the next request of a transaction.
//!
//! - [`settings`] reads the options of a run, and cuts the users of a shard into buckets.
//! - [`fxa`] derives identities and keeps the table of them.
//! - [`collections`] keeps the table of collections and reconciles it with the stores.
//! - [`mysql`] holds the queries for the source, [`spanner`] the statements for the
//!   destination, and [`dsn`] the locations of both.
//! - [`transaction`] and [`session`] say what to ask of the destination next.
//! - [`copier`] copies one user in batches, and [`driver`] leads a run through its shards.
//! - [`report`] notes what became of each user.

pub mod collections;
pub mod copier;
pub mod db;
pub mod driver;
pub mod dsn;
pub mod error;
pub mod fxa;
pub mod mysql;
pub mod report;
pub mod session;
pub mod settings;
pub mod spanner;
pub mod text;
pub mod transaction;
