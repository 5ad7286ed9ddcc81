//! A verified ledger of attestation records ("ATOMs") with derived
//! aggregate views: per-repository running averages kept from exact sums,
//! a global running average kept from the previously rounded average,
//! per-contributor trails of record tags, and a cumulative counter of
//! threshold-crossing ("snap-in") events.

pub mod atom;
pub mod state;
pub mod store;
pub mod receipt;
pub mod engine;
pub mod laws;
