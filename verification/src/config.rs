//! The tax rules of a country.

use vstd::prelude::*;
use crate::currency::{Cash, Currency};
use crate::decimal::{nearest, round_half_away};
use crate::error::Error;

verus! {

/// The number of basis points in a whole: a tax rate cannot be higher.
pub const FULL_RATE: u32 = 10000;

/// The tax in minor units on an income of `income` minor units at a rate of
/// `rate` basis points: none on what is no gain, else the share, rounded to
/// a whole unit with a tie going up.
pub open spec fn tax_on(income: int, rate: int) -> int {
    if income <= 0 {
        0
    } else {
        round_half_away(income * rate, FULL_RATE as int)
    }
}

/// With a rate of at most the whole, the tax on a gain lies between nothing
/// and the gain.
pub proof fn lemma_tax_within_income(income: int, rate: int)
    requires
        0 <= rate <= FULL_RATE,
    ensures
        0 <= tax_on(income, rate),
        income > 0 ==> tax_on(income, rate) <= income,
        income <= 0 ==> tax_on(income, rate) == 0,
{
    if income > 0 {
        let n = income * rate;
        let d = FULL_RATE as int;
        assert(0 <= n <= income * d) by (nonlinear_arith)
            requires
                n == income * rate,
                income > 0,
                0 <= rate <= d,
        ;
        assert(0 <= n / d <= income && (n / d == income ==> n % d == 0)) by (nonlinear_arith)
            requires
                0 <= n <= income * d,
                d == 10000,
        ;
        assert(0 <= n % d);
        assert(tax_on(income, rate) == nearest(n, d));
    }
}

/// What the tax rule returns on success: a tax in the country's currency
/// that is the rounded share of the income and not more than a gain.
pub proof fn lemma_tax_owed(country: Country, income: Cash)
    ensures
        country.tax_owed(income) matches Ok(tax) ==> {
            &&& tax.currency == country.currency
            &&& income.currency == country.currency
            &&& tax.units == tax_on(income.units as int, country.tax_rate as int)
            &&& 0 <= tax.units
            &&& income.units > 0 ==> tax.units <= income.units
            &&& income.units <= 0 ==> tax.units == 0
        },
{
    if country.tax_owed(income) is Ok {
        lemma_tax_within_income(income.units as int, country.tax_rate as int);
    }
}

/// A country in which taxes are paid.
#[derive(Clone, Copy, Debug, PartialEq, Eq, Structural)]
pub struct Country {
    /// The currency in which income is declared and tax is paid.
    pub currency: Currency,
    /// The tax rate on income in basis points.
    pub tax_rate: u32,
}

impl Country {
    /// What `tax_to_pay` returns: the tax on `income`, or
    /// `TaxComputationFailure` where the income is not in the country's
    /// currency or the rate is above the whole.
    pub open spec fn tax_owed(&self, income: Cash) -> Result<Cash, Error> {
        if income.currency != self.currency || self.tax_rate > FULL_RATE {
            Err(Error::TaxComputationFailure)
        } else {
            Ok(
                Cash {
                    currency: self.currency,
                    units: tax_on(income.units as int, self.tax_rate as int) as i64,
                },
            )
        }
    }

    /// A country with the given currency and tax rate in basis points.
    pub fn new(currency: Currency, tax_rate: u32) -> (country: Country)
        ensures
            country == (Country { currency, tax_rate }),
    {
        Country { currency, tax_rate }
    }

    /// The tax that the country takes of `income`.
    pub fn tax_to_pay(&self, income: Cash) -> (result: Result<Cash, Error>)
        ensures
            result == self.tax_owed(income),
    {
        if income.currency != self.currency || self.tax_rate > FULL_RATE {
            return Err(Error::TaxComputationFailure);
        }
        proof {
            lemma_tax_within_income(income.units as int, self.tax_rate as int);
        }
        if income.units <= 0 {
            return Ok(Cash { currency: self.currency, units: 0 });
        }
        let n: i128 = (income.units as i128) * (self.tax_rate as i128);
        let d: i128 = 10000;
        let q: i128 = n / d;
        let r: i128 = n % d;
        let tax: i128 = if r >= d - r { q + 1 } else { q };
        Ok(Cash { currency: self.currency, units: tax as i64 })
    }
}

} // verus!
