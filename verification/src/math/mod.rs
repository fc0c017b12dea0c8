//! Mathematical models: the prime field, its extension tower, the curve and
//! the pairing, with what holds of them.

pub mod prime;
pub mod prime_modulus;
pub mod field;
pub mod tower;
pub mod curve;
pub mod addition;
pub mod residues;
pub mod ring;
pub mod roots;
pub mod automorphism;
pub mod frobenius_constants;
pub mod inverse;
pub mod cyclotomic;
pub mod exponent;
pub mod lines;
pub mod mixture;
pub mod product;
pub mod origin;
pub mod negation;
pub mod twist;
pub mod twist_addition;
pub mod laws;
