//! Taxable income from interest that a broker pays on idle cash.
//!
//! Every interest payment of the selected tax year is rounded, converted into
//! the currency of the tax country at the rate of its date, taxed and
//! summed up. The outcome is an itemized report with a totals row and, where a
//! tax statement is supplied, one foreign-income entry per payment.

pub mod broker_statement;
pub mod config;
pub mod currency;
pub mod decimal;
pub mod error;
pub mod tax_statement;
pub mod types;
