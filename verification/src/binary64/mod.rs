//! IEEE 754 binary64 numbers, held as their bit patterns.

pub mod arith;
pub mod closest;
pub mod decimal;
mod eq;
pub mod error;
pub mod literal;
pub mod model;
mod round;
pub mod whole;

pub use model::Binary64;
