//! Core of a single-process ledger node: an append-only, hash-linked chain of
//! blocks, a pool of pending transactions, a brute-force proof-of-work search,
//! and a binary snapshot format for durable storage.
//!
//! The modules build on each other leaves first: hashing and numerals render
//! the byte strings that identify transactions and blocks, `amount` models the
//! fixed-point values a transaction carries, `block` seals and mines blocks,
//! `blockchain` owns the chain and pool invariants, `codec` round-trips whole
//! ledgers through bytes, and `query` answers paginated chain reads.

pub mod amount;
pub mod block;
pub mod blockchain;
pub mod clock;
pub mod codec;
pub mod errors;
pub mod hashing;
pub mod numerals;
pub mod query;
pub mod transaction;
