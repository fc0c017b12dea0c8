//! Values outside circuits: field elements by their limbs, points by their
//! coordinates, and the arithmetic on them.

pub mod fq;
pub mod tower;
pub mod constants;
pub mod points;
