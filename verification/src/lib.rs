//! A secondary index over a node's transaction inputs.
//!
//! Each transaction input is content-addressed by a deterministic
//! fingerprint of its consensus encoding; the index maps fingerprints to
//! the transaction that spent the input, so that a caller who knows a
//! fingerprint prefix can recover the spending transaction.

pub mod client;
pub mod codec;
pub mod db;
pub mod errors;
pub mod hashing;
pub mod scraper;
pub mod server;
pub mod settings;
pub mod streams;
