//! An on-chain voting program, modelled and verified.
//!
//! An authority creates a poll with a bounded lifetime, signers register
//! named candidates under it and cast votes for them, and the poll can later
//! be deleted, resetting its candidates' vote counters in bulk.
//!
//! The library is organised around the ledger model in [`program`]: a set of
//! addressable records, each located by a key that the address derivation in
//! [`address`] maps to a storage address, holding bytes in the fixed layout
//! of [`codec`].

pub mod address;
pub mod codec;
pub mod errors;
pub mod laws;
pub mod program;
pub mod records;
