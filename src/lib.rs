//! Payments-to-ledger posting engine: balanced journals, rule-derived lines,
//! period locks, a hash-linked audit seal chain, idempotent admission,
//! reconciliation and multi-entity close.

pub mod adapters;
pub mod audit;
pub mod close;
pub mod cutover;
pub mod date;
pub mod digest;
pub mod engine;
pub mod idempotency;
pub mod ingest;
pub mod json;
pub mod ledger;
pub mod period;
pub mod posting;
pub mod recon;
pub mod revrec;
pub mod rule_engine;
pub mod text;
