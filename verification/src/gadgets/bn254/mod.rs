//! Gadgets for the BN254 curve.

pub mod final_exponentiation;
pub mod fq;
pub mod fq12;
pub mod fq2;
pub mod fq6;
pub mod g1;
pub mod g2;
pub mod pairing;
pub mod wires;
