//! The two gadgets: coefficient-wise addition and polynomial multiplication.

pub mod add;
pub mod mul;
