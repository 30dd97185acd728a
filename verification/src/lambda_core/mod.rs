//! The validating core: rule sets, the pipeline over them, and the ledger
//! that fingerprints the rules in force.

pub mod axiom_validator;
pub mod constitutional_engine;
pub mod merkle_state;
pub mod pipeline_laws;
pub mod z3_solver;
