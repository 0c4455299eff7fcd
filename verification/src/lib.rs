//! Core data structures of a SQL query equivalence prover: evaluation
//! environments, U-semiring expressions and the decision procedures that
//! compare normalized terms.

pub mod evaluate;
pub mod pipeline;
