//! The errors of the library.

use vstd::prelude::*;
use crate::types::Date;

verus! {

/// Why a tax statement refuses an entry.
#[derive(Clone, Copy, Debug, PartialEq, Eq, Structural)]
pub enum FilingError {
    /// The income is not of the year of the statement.
    OutsideTaxYear,
}

/// Why the processing of interest income stopped.
#[derive(Clone, Copy, Debug, PartialEq, Eq, Structural)]
pub enum Error {
    /// The converter knows no rate for the date and the pair of currencies.
    RateUnavailable,
    /// A converted or rounded amount cannot be represented.
    ConversionFailure,
    /// The tax rule of the country cannot be applied.
    TaxComputationFailure,
    /// The tax statement refused the entry for the payment of this date.
    FilingRejected { date: Date, reason: FilingError },
}

} // verus!
