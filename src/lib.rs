//! Step-circuit core of a phrase-sharing attestation chain: a field codec,
//! the private-input marshaler, and the native and constrained step
//! evaluators, each proved against a mathematical model.

pub mod circom;
pub mod errors;
pub mod field;
pub mod wrapper;
