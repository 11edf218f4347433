//! A linear-program solver built on the simplex tableau method.
//!
//! All coefficients are exact rational numbers, so every pivot step is an
//! exact row reduction and the invariants of the method can be stated and
//! checked precisely.

pub mod construct;
pub mod rat;
pub mod simplex;

pub use construct::Constraint;
pub use construct::from_parts;
pub use rat::Rat;
pub use simplex::Simplex;
pub use simplex::SimplexError;
pub use simplex::SimplexMethod;
