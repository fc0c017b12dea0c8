//! Garbled verification of Groth16 proofs over BN254.

pub mod bits;
pub mod bytes;
pub mod circuit;
pub mod cut_and_choose;
pub mod gadgets;
pub mod hashers;
pub mod label;
pub mod math;
pub mod native;
pub mod order;
pub mod program;
pub mod soldering;
pub mod test_utils;
