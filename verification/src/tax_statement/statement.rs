//! The tax statement of one year, which collects entries of foreign income.

use vstd::prelude::*;
use crate::currency::Cash;
use crate::decimal::Decimal;
use crate::error::FilingError;
use crate::types::Date;

verus! {

/// One entry of foreign income.
pub struct FilingEntry {
    pub description: String,
    pub date: Date,
    /// The unrounded rate at which the income was converted.
    pub currency_rate: Decimal,
    /// The income in its own currency.
    pub amount: Cash,
    /// The income in the currency of the statement's country.
    pub local_amount: Cash,
}

/// What an entry holds, its description as a sequence of characters.
pub struct FilingEntryView {
    pub description: Seq<char>,
    pub date: Date,
    pub currency_rate: Decimal,
    pub amount: Cash,
    pub local_amount: Cash,
}

impl View for FilingEntry {
    type V = FilingEntryView;

    open spec fn view(&self) -> FilingEntryView {
        FilingEntryView {
            description: self.description@,
            date: self.date,
            currency_rate: self.currency_rate,
            amount: self.amount,
            local_amount: self.local_amount,
        }
    }
}

/// The tax statement of one year.
pub struct TaxStatement {
    pub year: i32,
    pub entries: Vec<FilingEntry>,
}

impl TaxStatement {
    /// The entries of the statement in the order in which they were added.
    pub open spec fn filed(&self) -> Seq<FilingEntryView> {
        Seq::new(self.entries@.len(), |i: int| self.entries@[i]@)
    }

    /// Whether the statement takes an entry of income of `date`.
    pub open spec fn accepts(year: i32, date: Date) -> bool {
        date.year == year
    }

    /// An empty statement for `year`.
    pub fn new(year: i32) -> (statement: TaxStatement)
        ensures
            statement.year == year,
            statement.filed() == Seq::<FilingEntryView>::empty(),
    {
        let statement = TaxStatement { year, entries: Vec::new() };
        assert(statement.filed() =~= Seq::<FilingEntryView>::empty());
        statement
    }

    /// Adds an entry of interest income, unless the income is of another
    /// year than the statement: then nothing changes.
    pub fn add_interest_income(
        &mut self,
        description: &str,
        date: Date,
        currency_rate: Decimal,
        amount: Cash,
        local_amount: Cash,
    ) -> (result: Result<(), FilingError>)
        ensures
            final(self).year == old(self).year,
            result == (if TaxStatement::accepts(old(self).year, date) {
                Ok::<(), FilingError>(())
            } else {
                Err(FilingError::OutsideTaxYear)
            }),
            result is Ok ==> final(self).filed() == old(self).filed().push(
                FilingEntryView {
                    description: description@,
                    date,
                    currency_rate,
                    amount,
                    local_amount,
                },
            ),
            result is Err ==> final(self).filed() == old(self).filed(),
            result is Err ==> final(self).entries@ == old(self).entries@,
    {
        if date.year != self.year {
            return Err(FilingError::OutsideTaxYear);
        }
        self.entries.push(
            FilingEntry {
                description: description.to_owned(),
                date,
                currency_rate,
                amount,
                local_amount,
            },
        );
        assert(self.filed() =~= old(self).filed().push(
            FilingEntryView { description: description@, date, currency_rate, amount, local_amount },
        ));
        Ok(())
    }
}

} // verus!
