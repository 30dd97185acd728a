//! Content-policy validation engine.
//!
//! Candidate text is screened against a fixed set of axioms, rewritten where
//! the transparency mandate asks for it, and accepted or rejected with a typed
//! reason. The axioms in force are fingerprinted by a Merkle ledger whose root
//! digest can be audited at any time.

pub mod canonical;
pub mod digest;
pub mod lambda_core;
pub mod pattern;
pub mod phi_layer;
pub mod text;
