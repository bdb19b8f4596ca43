//! Income from interest on idle cash.

use vstd::prelude::*;
use vstd::string::StringExecFns;
use crate::broker_statement::{BrokerStatement, InterestPayment};
use crate::config::{lemma_tax_owed, Country};
use crate::currency::converter::{converted_rounded, precise_rate, CurrencyConverter, RateRecord};
use crate::currency::{Balance, Cash, Currency, MultiCurrencyCashAccount};
use crate::decimal::Decimal;
use crate::error::{Error, FilingError};
use crate::tax_statement::statement::{FilingEntryView, TaxStatement};
use crate::types::Date;

verus! {

/// One row of the report: an interest payment, its worth in the currency of
/// the tax country, the tax on it and what is left.
#[derive(Clone, Copy, Debug, PartialEq, Eq, Structural)]
pub struct Row {
    pub date: Date,
    pub currency: Currency,
    /// The payment, rounded to the precision of its currency.
    pub foreign_amount: Cash,
    /// The unrounded rate of the payment's date.
    pub currency_rate: Decimal,
    /// The payment's worth in the country's currency, rounded after the
    /// conversion.
    pub amount: Cash,
    pub tax_to_pay: Cash,
    /// `amount` less `tax_to_pay`.
    pub income: Cash,
}

impl Row {
    /// Whether the income of the row is its amount less its tax, exactly and
    /// in one currency.
    pub open spec fn is_consistent(&self) -> bool {
        &&& self.income.units == self.amount.units - self.tax_to_pay.units
        &&& self.income.currency == self.amount.currency
        &&& self.tax_to_pay.currency == self.amount.currency
        &&& self.foreign_amount.currency == self.currency
    }
}

/// The row of a payment. The amount is rounded once for each side: the
/// foreign one from the exact payment, the domestic one from the exact
/// product of the payment and the rate. The income is the difference of the
/// rounded amount and the rounded tax.
pub open spec fn row_for(country: Country, rates: Seq<RateRecord>, payment: InterestPayment)
    -> Result<Row, Error> {
    match Cash::rounded(payment.currency, payment.amount) {
        None => Err(Error::ConversionFailure),
        Some(foreign_amount) => match precise_rate(
            rates,
            payment.date,
            payment.currency,
            country.currency,
        ) {
            Err(e) => Err(e),
            Ok(currency_rate) => match converted_rounded(
                rates,
                payment.date,
                payment.currency,
                payment.amount,
                country.currency,
            ) {
                Err(e) => Err(e),
                Ok(amount) => match country.tax_owed(amount) {
                    Err(e) => Err(e),
                    Ok(tax_to_pay) => Ok(
                        Row {
                            date: payment.date,
                            currency: payment.currency,
                            foreign_amount,
                            currency_rate,
                            amount,
                            tax_to_pay,
                            income: Cash {
                                currency: country.currency,
                                units: (amount.units - tax_to_pay.units) as i64,
                            },
                        },
                    ),
                },
            },
        },
    }
}

/// Whether a payment is of the year that is asked for; without a year every
/// payment is.
pub open spec fn is_selected(payment: InterestPayment, year: Option<i32>) -> bool {
    match year {
        Some(year) => payment.date.year == year,
        None => true,
    }
}

/// How far the processing of a sequence of payments gets.
pub struct Outcome {
    /// The rows that were made, in the order of their payments.
    pub rows: Seq<Row>,
    /// The error at which the processing stopped, if it did.
    pub failure: Option<Error>,
}

/// The outcome of processing `payments` in order. A payment that is not
/// selected leaves no trace. The first error ends the processing: a payment
/// without a row adds nothing, and one whose entry the tax statement of the
/// year `filing` refuses adds its row and no more.
pub open spec fn outcome(
    country: Country,
    rates: Seq<RateRecord>,
    payments: Seq<InterestPayment>,
    year: Option<i32>,
    filing: Option<i32>,
) -> Outcome
    decreases payments.len(),
{
    if payments.len() == 0 {
        Outcome { rows: Seq::empty(), failure: None }
    } else {
        let before = outcome(country, rates, payments.drop_last(), year, filing);
        let payment = payments.last();
        if before.failure is Some || !is_selected(payment, year) {
            before
        } else {
            match row_for(country, rates, payment) {
                Err(e) => Outcome { rows: before.rows, failure: Some(e) },
                Ok(row) => Outcome {
                    rows: before.rows.push(row),
                    failure: if filing matches Some(filing_year) && !TaxStatement::accepts(
                        filing_year,
                        row.date,
                    ) {
                        Some(
                            Error::FilingRejected {
                                date: row.date,
                                reason: FilingError::OutsideTaxYear,
                            },
                        )
                    } else {
                        None
                    },
                },
            }
        }
    }
}

/// The rows whose entries reached the tax statement, where there is one: all
/// but a last one that the statement refused.
pub open spec fn filed_rows(outcome: Outcome) -> Seq<Row> {
    if outcome.failure matches Some(Error::FilingRejected { .. }) {
        outcome.rows.drop_last()
    } else {
        outcome.rows
    }
}

/// The description of an entry of interest income.
pub open spec fn description_for(broker: Seq<char>) -> Seq<char> {
    broker + ": interest on brokerage account balance"@
}

/// The caption of the report.
pub open spec fn caption_for(broker: Seq<char>) -> Seq<char> {
    "Interest income on brokerage account balance received through "@ + broker
}

/// The entry that is filed for a row.
pub open spec fn entry_for(row: Row, broker: Seq<char>) -> FilingEntryView {
    FilingEntryView {
        description: description_for(broker),
        date: row.date,
        currency_rate: row.currency_rate,
        amount: row.foreign_amount,
        local_amount: row.amount,
    }
}

/// The entries that are filed for `rows`, in their order.
pub open spec fn entries_for(rows: Seq<Row>, broker: Seq<char>) -> Seq<FilingEntryView> {
    Seq::new(rows.len(), |i: int| entry_for(rows[i], broker))
}

/// The sum of a column over the rows.
pub open spec fn column_total(rows: Seq<Row>, column: spec_fn(Row) -> int) -> int
    decreases rows.len(),
{
    if rows.len() == 0 {
        0
    } else {
        column_total(rows.drop_last(), column) + column(rows.last())
    }
}

/// The column of amounts in the country's currency.
pub open spec fn amount_column() -> spec_fn(Row) -> int {
    |row: Row| row.amount.units as int
}

/// The column of taxes.
pub open spec fn tax_column() -> spec_fn(Row) -> int {
    |row: Row| row.tax_to_pay.units as int
}

/// The column of incomes.
pub open spec fn income_column() -> spec_fn(Row) -> int {
    |row: Row| row.income.units as int
}

/// The column of foreign amounts of one currency: a row of another
/// currency counts as nothing.
pub open spec fn foreign_column(currency: Currency) -> spec_fn(Row) -> int {
    |row: Row|
        if row.foreign_amount.currency == currency {
            row.foreign_amount.units as int
        } else {
            0
        }
}

/// Whether one of the rows is a payment of `currency`.
pub open spec fn has_currency(rows: Seq<Row>, currency: Currency) -> bool {
    exists|i: int| #![trigger rows[i]] 0 <= i < rows.len() && rows[i].foreign_amount.currency == currency
}

/// For each currency that occurs in the rows, the sum of the foreign amounts
/// of that currency.
pub open spec fn foreign_summary(rows: Seq<Row>) -> Map<Currency, int> {
    Map::new(
        |currency: Currency| has_currency(rows, currency),
        |currency: Currency| column_total(rows, foreign_column(currency)),
    )
}

/// The totals row of a report.
pub struct Totals {
    /// The foreign amounts, summed up by currency.
    pub foreign_amount: MultiCurrencyCashAccount,
    pub amount: Balance,
    pub tax_to_pay: Balance,
    pub income: Balance,
}

impl Totals {
    /// Whether these are the totals of `rows` in `currency`: each of the
    /// three domestic fields is the sum of its column, and the foreign side
    /// is the summary by currency.
    pub open spec fn sums_up(&self, rows: Seq<Row>, currency: Currency) -> bool {
        &&& self.foreign_amount@ == foreign_summary(rows)
        &&& self.amount.currency == currency
        &&& self.amount.units == column_total(rows, amount_column())
        &&& self.tax_to_pay.currency == currency
        &&& self.tax_to_pay.units == column_total(rows, tax_column())
        &&& self.income.currency == currency
        &&& self.income.units == column_total(rows, income_column())
    }
}

/// The report on interest income: the rows in the order of their payments
/// and the totals over them.
pub struct Report {
    pub caption: String,
    pub rows: Vec<Row>,
    pub totals: Totals,
}

/// Adding a row adds its value to the total of a column.
pub proof fn lemma_column_push(rows: Seq<Row>, row: Row, column: spec_fn(Row) -> int)
    ensures
        column_total(rows.push(row), column) == column_total(rows, column) + column(row),
{
    assert(rows.push(row).drop_last() =~= rows);
}

/// A column of values that each fit in an `i64` sums up to at most as many
/// times the largest of them as there are rows, in both directions.
pub proof fn lemma_column_bound(rows: Seq<Row>, column: spec_fn(Row) -> int)
    requires
        forall|row: Row| i64::MIN <= #[trigger] column(row) <= i64::MAX,
    ensures
        -rows.len() * 0x8000_0000_0000_0000 <= column_total(rows, column) <= rows.len()
            * 0x8000_0000_0000_0000,
    decreases rows.len(),
{
    if rows.len() > 0 {
        lemma_column_bound(rows.drop_last(), column);
        assert(i64::MIN <= column(rows.last()) <= i64::MAX);
    }
}

/// Rows without a payment of a currency sum up to nothing of it.
proof fn lemma_absent_currency(rows: Seq<Row>, currency: Currency)
    requires
        !has_currency(rows, currency),
    ensures
        column_total(rows, foreign_column(currency)) == 0,
    decreases rows.len(),
{
    if rows.len() > 0 {
        let front = rows.drop_last();
        assert(rows[rows.len() - 1].foreign_amount.currency != currency);
        assert(!has_currency(front, currency)) by {
            if has_currency(front, currency) {
                let i = choose|i: int|
                    #![trigger front[i]]
                    0 <= i < front.len() && front[i].foreign_amount.currency == currency;
                assert(rows[i].foreign_amount.currency == currency);
            }
        }
        lemma_absent_currency(front, currency);
    }
}

/// Adding a row changes the foreign summary as a deposit of the row's
/// foreign amount changes an account.
proof fn lemma_summary_push(rows: Seq<Row>, row: Row)
    ensures
        foreign_summary(rows.push(row)) == foreign_summary(rows).insert(
            row.foreign_amount.currency,
            (if foreign_summary(rows).dom().contains(row.foreign_amount.currency) {
                foreign_summary(rows)[row.foreign_amount.currency]
            } else {
                0
            }) + row.foreign_amount.units,
        ),
{
    let added = row.foreign_amount.currency;
    let after = rows.push(row);
    let units = (if foreign_summary(rows).dom().contains(added) {
        foreign_summary(rows)[added]
    } else {
        0
    }) + row.foreign_amount.units;
    let expected = foreign_summary(rows).insert(added, units);
    assert forall|c: Currency| foreign_summary(after).dom().contains(c) <==> expected.dom().contains(
        c,
    ) by {
        if has_currency(after, c) && c != added {
            let i = choose|i: int|
                #![trigger after[i]]
                0 <= i < after.len() && after[i].foreign_amount.currency == c;
            assert(rows[i].foreign_amount.currency == c);
        }
        if has_currency(rows, c) {
            let i = choose|i: int|
                #![trigger rows[i]]
                0 <= i < rows.len() && rows[i].foreign_amount.currency == c;
            assert(after[i].foreign_amount.currency == c);
        }
        if c == added {
            assert(after[rows.len() as int].foreign_amount.currency == c);
        }
    }
    assert forall|c: Currency| foreign_summary(after).dom().contains(c) implies foreign_summary(
        after,
    )[c] == expected[c] by {
        lemma_column_push(rows, row, foreign_column(c));
        if c == added && !has_currency(rows, c) {
            lemma_absent_currency(rows, c);
        }
    }
    assert(foreign_summary(after) =~= expected);
}

/// The entries for rows and one more are the entries for the rows and the
/// entry for that one.
proof fn lemma_entries_push(rows: Seq<Row>, row: Row, broker: Seq<char>)
    ensures
        entries_for(rows.push(row), broker) == entries_for(rows, broker).push(
            entry_for(row, broker),
        ),
{
    assert(entries_for(rows.push(row), broker) =~= entries_for(rows, broker).push(
        entry_for(row, broker),
    ));
}

/// Once the processing has failed, further payments change nothing: the
/// outcome of all payments is the outcome of the payments up to the failure.
pub proof fn lemma_failure_is_final(
    country: Country,
    rates: Seq<RateRecord>,
    payments: Seq<InterestPayment>,
    year: Option<i32>,
    filing: Option<i32>,
    count: int,
)
    requires
        0 <= count <= payments.len(),
        outcome(country, rates, payments.take(count), year, filing).failure is Some,
    ensures
        outcome(country, rates, payments, year, filing) == outcome(
            country,
            rates,
            payments.take(count),
            year,
            filing,
        ),
    decreases payments.len() - count,
{
    if count == payments.len() {
        assert(payments.take(count) =~= payments);
    } else {
        assert(payments.drop_last().take(count) =~= payments.take(count));
        lemma_failure_is_final(country, rates, payments.drop_last(), year, filing, count);
    }
}

/// The row of one payment: its rounded foreign amount, the unrounded rate of
/// its date, its worth in the country's currency rounded after the
/// conversion, the tax on that, and what is left.
pub fn interest_row(
    country: &Country,
    interest: &InterestPayment,
    converter: &CurrencyConverter,
) -> (result: Result<Row, Error>)
    ensures
        result == row_for(*country, converter@, *interest),
        result matches Ok(row) ==> row.is_consistent(),
{
    let foreign_amount = match Cash::round(interest.currency, &interest.amount) {
        Some(cash) => cash,
        None => {
            return Err(Error::ConversionFailure);
        },
    };
    let precise_currency_rate = match converter.precise_currency_rate(
        interest.date,
        foreign_amount.currency,
        country.currency,
    ) {
        Ok(rate) => rate,
        Err(e) => {
            return Err(e);
        },
    };
    let worth = match converter.convert_to(
        interest.date,
        interest.currency,
        &interest.amount,
        country.currency,
    ) {
        Ok(worth) => worth,
        Err(e) => {
            return Err(e);
        },
    };
    let amount = match Cash::round(country.currency, &worth) {
        Some(amount) => amount,
        None => {
            return Err(Error::ConversionFailure);
        },
    };
    let tax_to_pay = match interest.tax_to_pay(country, converter) {
        Ok(tax) => tax,
        Err(e) => {
            return Err(e);
        },
    };
    proof {
        lemma_tax_owed(*country, amount);
    }
    let income = amount.sub(tax_to_pay);
    Ok(
        Row {
            date: interest.date,
            currency: foreign_amount.currency,
            foreign_amount,
            currency_rate: precise_currency_rate,
            amount,
            tax_to_pay,
            income,
        },
    )
}

/// Computes the income from the interest payments of `broker_statement`.
///
/// The payments of `year`, or all of them where no year is given, are taken
/// in their order. Each becomes a row of the report, and an entry of
/// `tax_statement` where one is given. The report holds the rows and their
/// totals; without a row there is no report. The first error ends the
/// processing: the entries of the rows before it stay in the tax statement.
#[verifier::loop_isolation(false)]
pub fn process_income(
    country: &Country,
    broker_statement: &BrokerStatement,
    year: Option<i32>,
    mut tax_statement: Option<&mut TaxStatement>,
    converter: &CurrencyConverter,
) -> (result: Result<Option<Report>, Error>)
    ensures
        ({
            let filing = match tax_statement {
                Some(statement) => Some(statement.year),
                None => None,
            };
            let broker = broker_statement.broker.name@;
            let reached = outcome(
                *country,
                converter@,
                broker_statement.idle_cash_interest@,
                year,
                filing,
            );
            &&& match result {
                Ok(None) => reached.failure is None && reached.rows.len() == 0,
                Ok(Some(report)) => {
                    &&& reached.failure is None
                    &&& reached.rows.len() > 0
                    &&& report.rows@ == reached.rows
                    &&& report.totals.sums_up(reached.rows, country.currency)
                    &&& report.caption@ == caption_for(broker)
                },
                Err(e) => reached.failure == Some(e),
            }
            &&& match tax_statement {
                Some(statement) => {
                    &&& final(statement).year == statement.year
                    &&& final(statement).filed() == statement.filed() + entries_for(
                        filed_rows(reached),
                        broker,
                    )
                },
                None => true,
            }
        }),
{
    let ghost broker = broker_statement.broker.name@;
    let ghost payments = broker_statement.idle_cash_interest@;
    let ghost rates = converter@;
    let ghost filing = match tax_statement {
        Some(ref statement) => Some(statement.year),
        None => None,
    };
    let ghost filed_before = match tax_statement {
        Some(ref statement) => statement.filed(),
        None => Seq::empty(),
    };
    let ghost closing = match tax_statement {
        Some(ref statement) => Some(*final(*statement)),
        None => None,
    };

    let mut rows: Vec<Row> = Vec::new();
    let mut total_foreign_amount = MultiCurrencyCashAccount::new();
    let mut total_amount: i128 = 0;
    let mut total_tax_to_pay: i128 = 0;
    let mut total_income: i128 = 0;

    let count: usize = broker_statement.idle_cash_interest.len();
    let mut index: usize = 0;
    proof {
        assert(payments.take(0) =~= Seq::<InterestPayment>::empty());
        assert(foreign_summary(rows@) =~= Map::<Currency, int>::empty());
        assert(entries_for(rows@, broker) =~= Seq::<FilingEntryView>::empty());
        assert(filed_before =~= filed_before + Seq::<FilingEntryView>::empty());
    }
    while index < count
        invariant
            index <= count,
            match tax_statement {
                Some(ref statement) => {
                    &&& filing == Some(statement.year)
                    &&& closing == Some(*final(*statement))
                    &&& statement.filed() == filed_before + entries_for(rows@, broker)
                },
                None => filing is None && closing is None,
            },
            outcome(*country, rates, payments.take(index as int), year, filing) == (Outcome {
                rows: rows@,
                failure: None,
            }),
            rows@.len() <= index,
            total_foreign_amount@ == foreign_summary(rows@),
            total_amount == column_total(rows@, amount_column()),
            total_tax_to_pay == column_total(rows@, tax_column()),
            total_income == column_total(rows@, income_column()),
        decreases count - index,
    {
        let interest = broker_statement.idle_cash_interest[index];
        let ghost before = outcome(*country, rates, payments.take(index as int), year, filing);
        let ghost prefix = payments.take(index + 1);
        proof {
            assert(prefix.drop_last() =~= payments.take(index as int));
            assert(prefix.last() == interest);
        }
        let selected = match year {
            Some(year) => interest.date.year() == year,
            None => true,
        };
        if selected {
            let row = match interest_row(country, &interest, converter) {
                Ok(row) => row,
                Err(e) => {
                    proof {
                        lemma_failure_is_final(
                            *country,
                            rates,
                            payments,
                            year,
                            filing,
                            index + 1,
                        );
                    }
                    return Err(e);
                },
            };
            proof {
                lemma_column_bound(rows@, foreign_column(row.foreign_amount.currency));
                lemma_column_bound(rows@, amount_column());
                lemma_column_bound(rows@, tax_column());
                lemma_column_bound(rows@, income_column());
                assert(rows@.len() * 0x8000_0000_0000_0000 <= 0xffff_ffff_ffff_fffe
                    * 0x8000_0000_0000_0000) by (nonlinear_arith)
                    requires
                        rows@.len() <= 0xffff_ffff_ffff_fffe,
                ;
                lemma_column_push(rows@, row, amount_column());
                lemma_column_push(rows@, row, tax_column());
                lemma_column_push(rows@, row, income_column());
                lemma_summary_push(rows@, row);
                lemma_entries_push(rows@, row, broker);
            }
            total_foreign_amount.deposit(row.foreign_amount);
            total_amount = total_amount + row.amount.units as i128;
            total_tax_to_pay = total_tax_to_pay + row.tax_to_pay.units as i128;
            total_income = total_income + row.income.units as i128;
            rows.push(row);

            if let Some(ref mut statement) = tax_statement {
                let description = broker_statement.broker.name.clone().concat(
                    ": interest on brokerage account balance",
                );
                match statement.add_interest_income(
                    description.as_str(),
                    row.date,
                    row.currency_rate,
                    row.foreign_amount,
                    row.amount,
                ) {
                    Ok(()) => {},
                    Err(reason) => {
                        proof {
                            lemma_failure_is_final(
                                *country,
                                rates,
                                payments,
                                year,
                                filing,
                                index + 1,
                            );
                            assert(rows@.drop_last() =~= before.rows);
                        }
                        return Err(Error::FilingRejected { date: row.date, reason });
                    },
                }
            }
        }
        index = index + 1;
    }
    proof {
        assert(payments.take(index as int) =~= payments);
    }
    if rows.len() == 0 {
        return Ok(None);
    }
    let mut caption = String::from_str(
        "Interest income on brokerage account balance received through ",
    );
    caption.append(broker_statement.broker.name.as_str());
    Ok(
        Some(
            Report {
                caption,
                rows,
                totals: Totals {
                    foreign_amount: total_foreign_amount,
                    amount: Balance { currency: country.currency, units: total_amount },
                    tax_to_pay: Balance { currency: country.currency, units: total_tax_to_pay },
                    income: Balance { currency: country.currency, units: total_income },
                },
            },
        ),
    )
}

} // verus!
