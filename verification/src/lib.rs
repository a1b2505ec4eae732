//! Proof-gated consensus core for the Cubiq network.
//!
//! A block proposal is voted on only after the succinct proof it references
//! has been located, fetched, and verified against the proposal's public
//! commitments. This crate holds the verified core: the zkURL address
//! scheme and its resolver plan, the proof-bundle freshness rules, the
//! succinct-proof codec and verifier, the stake-weighted validator set,
//! the vote ledger with its finality rule, and the per-proposal decision
//! pipeline. Network and clock access live outside the crate and hand in
//! plain values.

pub mod engine;
pub mod ledger;
pub mod networking;
pub mod prover;
pub mod resolver;
pub mod strutil;
pub mod validators;
pub mod zkurl;
