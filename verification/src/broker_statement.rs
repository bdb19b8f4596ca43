//! What a broker reports: the interest that it paid on idle cash.

use vstd::prelude::*;
use crate::config::Country;
use crate::currency::converter::{converted_rounded, CurrencyConverter, RateRecord};
use crate::currency::{Cash, Currency};
use crate::decimal::Decimal;
use crate::error::Error;
use crate::types::Date;

verus! {

/// Interest that was credited to the account: the exact `amount` of
/// `currency`, paid at `date`.
#[derive(Clone, Copy, Debug, PartialEq, Eq, Structural)]
pub struct InterestPayment {
    pub date: Date,
    pub currency: Currency,
    pub amount: Decimal,
}

impl InterestPayment {
    /// What `tax_to_pay` returns: the tax of the country on the payment's
    /// worth in the country's currency, or the error of the conversion or
    /// of the tax rule.
    pub open spec fn tax_owed(&self, country: Country, rates: Seq<RateRecord>) -> Result<
        Cash,
        Error,
    > {
        match converted_rounded(rates, self.date, self.currency, self.amount, country.currency) {
            Err(e) => Err(e),
            Ok(income) => country.tax_owed(income),
        }
    }

    /// An interest payment.
    pub fn new(date: Date, currency: Currency, amount: Decimal) -> (payment: InterestPayment)
        ensures
            payment == (InterestPayment { date, currency, amount }),
    {
        InterestPayment { date, currency, amount }
    }

    /// The tax that `country` takes of the payment, in the country's
    /// currency.
    pub fn tax_to_pay(&self, country: &Country, converter: &CurrencyConverter) -> (result: Result<
        Cash,
        Error,
    >)
        ensures
            result == self.tax_owed(*country, converter@),
    {
        match converter.convert_to_rounding(
            self.date,
            self.currency,
            &self.amount,
            country.currency,
        ) {
            Err(e) => Err(e),
            Ok(income) => country.tax_to_pay(income),
        }
    }
}

/// Who keeps the account.
pub struct BrokerInfo {
    pub name: String,
}

/// The part of a broker's statement that interest income is computed from.
pub struct BrokerStatement {
    pub broker: BrokerInfo,
    /// The interest payments in the order in which they were credited.
    pub idle_cash_interest: Vec<InterestPayment>,
}

impl BrokerStatement {
    /// A statement of the broker `name` without payments.
    pub fn new(name: &str) -> (statement: BrokerStatement)
        ensures
            statement.broker.name@ == name@,
            statement.idle_cash_interest@ == Seq::<InterestPayment>::empty(),
    {
        BrokerStatement {
            broker: BrokerInfo { name: name.to_owned() },
            idle_cash_interest: Vec::new(),
        }
    }
}

} // verus!
