//! Arithmetic in prime fields and the group law on short Weierstrass curves
//! `y² = x³ + a·x + b` over the integers.
pub mod chord;
pub mod decimal;
pub mod field;
pub mod point;

pub use field::FieldElement;
pub use point::Point;
