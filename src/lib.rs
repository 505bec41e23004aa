//! Roots of quadratic expressions `a·x² + b·x + c` over exact integer
//! coefficients. The discriminant is computed exactly, the three cases are
//! told apart by its sign, and each root is kept in radical form
//! `(offset ± √radicand) / divisor`; a negative discriminant hands back the
//! expression over `num::Complex` coefficients, whose roots are complex.
pub mod complex;
pub mod expression;
pub mod laws;
pub mod text;
pub mod value;
