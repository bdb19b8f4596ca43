//! Conversion between currencies at the rate of a date.

use vstd::prelude::*;
use crate::currency::{Cash, Currency};
use crate::decimal::Decimal;
use crate::error::Error;
use crate::types::Date;

verus! {

/// The rate of one date: one unit of `from` is worth `rate` units of `to`.
#[derive(Clone, Copy, Debug, PartialEq, Eq, Structural)]
pub struct RateRecord {
    pub date: Date,
    pub from: Currency,
    pub to: Currency,
    pub rate: Decimal,
}

impl RateRecord {
    /// Whether the record gives the rate that is asked for.
    pub open spec fn answers(&self, date: Date, from: Currency, to: Currency) -> bool {
        self.date == date && self.from == from && self.to == to
    }
}

/// The rate that the records give for the date and the pair of currencies:
/// that of the record added last, if there is one.
pub open spec fn recorded_rate(
    records: Seq<RateRecord>,
    date: Date,
    from: Currency,
    to: Currency,
) -> Option<Decimal>
    decreases records.len(),
{
    if records.len() == 0 {
        None
    } else if records.last().answers(date, from, to) {
        Some(records.last().rate)
    } else {
        recorded_rate(records.drop_last(), date, from, to)
    }
}

/// The unrounded rate from `from` to `to` at `date`: one between a currency
/// and itself, else the recorded one, else `RateUnavailable`.
pub open spec fn precise_rate(
    records: Seq<RateRecord>,
    date: Date,
    from: Currency,
    to: Currency,
) -> Result<Decimal, Error> {
    if from == to {
        Ok(Decimal { mantissa: 1, scale: 0 })
    } else {
        match recorded_rate(records, date, from, to) {
            Some(rate) => Ok(rate),
            None => Err(Error::RateUnavailable),
        }
    }
}

/// The exact worth in `to` of `amount` of `from` at `date`: the product of the
/// amount and the precise rate, `ConversionFailure` where it cannot be held.
pub open spec fn converted(
    records: Seq<RateRecord>,
    date: Date,
    from: Currency,
    amount: Decimal,
    to: Currency,
) -> Result<Decimal, Error> {
    match precise_rate(records, date, from, to) {
        Err(e) => Err(e),
        Ok(rate) => match amount.product(rate) {
            Some(worth) => Ok(worth),
            None => Err(Error::ConversionFailure),
        },
    }
}

/// The worth of `converted` rounded to the precision of `to`,
/// `ConversionFailure` where its minor units do not fit.
pub open spec fn converted_rounded(
    records: Seq<RateRecord>,
    date: Date,
    from: Currency,
    amount: Decimal,
    to: Currency,
) -> Result<Cash, Error> {
    match converted(records, date, from, amount, to) {
        Err(e) => Err(e),
        Ok(worth) => match Cash::rounded(to, worth) {
            Some(cash) => Ok(cash),
            None => Err(Error::ConversionFailure),
        },
    }
}

/// The historical exchange rates that are known.
pub struct CurrencyConverter {
    records: Vec<RateRecord>,
}

impl View for CurrencyConverter {
    type V = Seq<RateRecord>;

    /// The records in the order in which they were added.
    closed spec fn view(&self) -> Seq<RateRecord> {
        self.records@
    }
}

impl CurrencyConverter {
    /// A converter that knows no rate.
    pub fn new() -> (converter: CurrencyConverter)
        ensures
            converter@ == Seq::<RateRecord>::empty(),
    {
        CurrencyConverter { records: Vec::new() }
    }

    /// Records a rate; it replaces an earlier one for the same date and pair.
    pub fn add_rate(&mut self, date: Date, from: Currency, to: Currency, rate: Decimal)
        ensures
            final(self)@ == old(self)@.push(RateRecord { date, from, to, rate }),
    {
        self.records.push(RateRecord { date, from, to, rate });
    }

    /// The unrounded rate from `from` to `to` at `date`.
    pub fn precise_currency_rate(&self, date: Date, from: Currency, to: Currency) -> (result:
        Result<Decimal, Error>)
        ensures
            result == precise_rate(self@, date, from, to),
    {
        if from == to {
            return Ok(Decimal { mantissa: 1, scale: 0 });
        }
        let mut i: usize = self.records.len();
        assert(self.records@.take(i as int) =~= self.records@);
        while i > 0
            invariant
                i <= self.records.len(),
                from != to,
                recorded_rate(self.records@, date, from, to) == recorded_rate(
                    self.records@.take(i as int),
                    date,
                    from,
                    to,
                ),
            decreases i,
        {
            let record = self.records[i - 1];
            assert(self.records@.take(i as int).last() == record);
            assert(self.records@.take(i as int).drop_last() =~= self.records@.take(i - 1));
            if record.date == date && record.from == from && record.to == to {
                return Ok(record.rate);
            }
            i = i - 1;
        }
        Err(Error::RateUnavailable)
    }

    /// The exact worth in `to` of `amount` of `from` at `date`.
    pub fn convert_to(&self, date: Date, from: Currency, amount: &Decimal, to: Currency) -> (result:
        Result<Decimal, Error>)
        ensures
            result == converted(self@, date, from, *amount, to),
    {
        match self.precise_currency_rate(date, from, to) {
            Err(e) => Err(e),
            Ok(rate) => match amount.checked_mul(&rate) {
                Some(worth) => Ok(worth),
                None => Err(Error::ConversionFailure),
            },
        }
    }

    /// The worth in `to` of `amount` of `from` at `date`, rounded to the
    /// precision of `to` after the conversion.
    pub fn convert_to_rounding(
        &self,
        date: Date,
        from: Currency,
        amount: &Decimal,
        to: Currency,
    ) -> (result: Result<Cash, Error>)
        ensures
            result == converted_rounded(self@, date, from, *amount, to),
    {
        match self.convert_to(date, from, amount, to) {
            Err(e) => Err(e),
            Ok(worth) => match Cash::round(to, &worth) {
                Some(cash) => Ok(cash),
                None => Err(Error::ConversionFailure),
            },
        }
    }
}

} // verus!
