//! The tax statement and the income that is declared in it.

pub mod interest;
pub mod laws;
pub mod statement;
