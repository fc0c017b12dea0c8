//! Gadgets: parts of circuits with a meaning.

pub mod bn254;
pub mod input;
pub mod groth16;
pub mod laws;
