//! A proof-of-history sequencer with block commitment.
//!
//! The library keeps an append-only, hash-linked timeline of entries
//! (ticks carrying zero or more validated transactions), lets a block
//! bind its content hash to a verified point in that timeline, and
//! commits sets of digests into a Merkle tree for compact inclusion
//! proofs.

pub mod errors;
pub mod hashing;
pub mod transaction;
pub mod poh;
pub mod block;
pub mod merkle;
