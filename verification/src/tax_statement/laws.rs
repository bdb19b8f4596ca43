//! What holds of every run of the interest income processing.

use vstd::prelude::*;
use vstd::seq_lib::{to_multiset_remove, group_to_multiset_ensures};
use crate::broker_statement::InterestPayment;
use crate::config::{lemma_tax_owed, Country};
use crate::currency::converter::{converted_rounded, RateRecord};
use crate::currency::Currency;
use crate::error::Error;
use crate::tax_statement::interest::{
    column_total, foreign_column, foreign_summary, has_currency, is_selected,
    lemma_failure_is_final, outcome, row_for, Outcome, Row,
};

verus! {

/// The income of a row is exactly its amount less its tax, both already
/// rounded, and all three are in the country's currency.
pub proof fn lemma_row_is_consistent(
    country: Country,
    rates: Seq<RateRecord>,
    payment: InterestPayment,
)
    ensures
        row_for(country, rates, payment) matches Ok(row) ==> {
            &&& row.is_consistent()
            &&& row.amount.currency == country.currency
            &&& row.date == payment.date
            &&& row.foreign_amount.currency == payment.currency
        },
{
    if let Ok(amount) = converted_rounded(
        rates,
        payment.date,
        payment.currency,
        payment.amount,
        country.currency,
    ) {
        lemma_tax_owed(country, amount);
    }
}

/// In every row that the processing makes, the income is exactly the
/// amount less the tax.
pub proof fn lemma_rows_are_consistent(
    country: Country,
    rates: Seq<RateRecord>,
    payments: Seq<InterestPayment>,
    year: Option<i32>,
    filing: Option<i32>,
)
    ensures
        forall|i: int|
            #![trigger outcome(country, rates, payments, year, filing).rows[i]]
            0 <= i < outcome(country, rates, payments, year, filing).rows.len() ==> outcome(
                country,
                rates,
                payments,
                year,
                filing,
            ).rows[i].is_consistent(),
    decreases payments.len(),
{
    if payments.len() > 0 {
        lemma_rows_are_consistent(country, rates, payments.drop_last(), year, filing);
        lemma_row_is_consistent(country, rates, payments.last());
    }
}

/// A payment of another year than the one asked for leaves no trace: no
/// row, nothing in the totals, no entry.
pub proof fn lemma_skipped_payment(
    country: Country,
    rates: Seq<RateRecord>,
    payments: Seq<InterestPayment>,
    payment: InterestPayment,
    year: Option<i32>,
    filing: Option<i32>,
)
    requires
        !is_selected(payment, year),
    ensures
        outcome(country, rates, payments.push(payment), year, filing) == outcome(
            country,
            rates,
            payments,
            year,
            filing,
        ),
{
    assert(payments.push(payment).drop_last() =~= payments);
}

/// A payment of the year asked for, or any payment where no year is asked
/// for, adds exactly one row where the processing has not failed before it
/// and the payment has a row.
pub proof fn lemma_selected_payment(
    country: Country,
    rates: Seq<RateRecord>,
    payments: Seq<InterestPayment>,
    payment: InterestPayment,
    year: Option<i32>,
    filing: Option<i32>,
)
    requires
        is_selected(payment, year),
        outcome(country, rates, payments, year, filing).failure is None,
        row_for(country, rates, payment) is Ok,
    ensures
        outcome(country, rates, payments.push(payment), year, filing).rows == outcome(
            country,
            rates,
            payments,
            year,
            filing,
        ).rows.push(row_for(country, rates, payment)->Ok_0),
{
    assert(payments.push(payment).drop_last() =~= payments);
}

/// Where no payment is selected there is no row and no failure: no report
/// and no entry.
pub proof fn lemma_nothing_selected(
    country: Country,
    rates: Seq<RateRecord>,
    payments: Seq<InterestPayment>,
    year: Option<i32>,
    filing: Option<i32>,
)
    requires
        forall|i: int| 0 <= i < payments.len() ==> !is_selected(#[trigger] payments[i], year),
    ensures
        outcome(country, rates, payments, year, filing) == (Outcome {
            rows: Seq::empty(),
            failure: None,
        }),
    decreases payments.len(),
{
    if payments.len() > 0 {
        let front = payments.drop_last();
        assert forall|i: int| 0 <= i < front.len() implies !is_selected(
            #[trigger] front[i],
            year,
        ) by {
            assert(front[i] == payments[i]);
        }
        lemma_nothing_selected(country, rates, front, year, filing);
        assert(!is_selected(payments[payments.len() - 1], year));
    }
}

/// The payments that are processed: those of the year asked for, in their
/// order.
pub open spec fn selected(payments: Seq<InterestPayment>, year: Option<i32>) -> Seq<
    InterestPayment,
> {
    payments.filter(|payment: InterestPayment| is_selected(payment, year))
}

/// Where the processing does not fail, the rows are those of the selected
/// payments, one for each and in the order of the payments.
pub proof fn lemma_rows_follow_payments(
    country: Country,
    rates: Seq<RateRecord>,
    payments: Seq<InterestPayment>,
    year: Option<i32>,
    filing: Option<i32>,
)
    requires
        outcome(country, rates, payments, year, filing).failure is None,
    ensures
        outcome(country, rates, payments, year, filing).rows.len() == selected(
            payments,
            year,
        ).len(),
        forall|i: int|
            #![trigger selected(payments, year)[i]]
            0 <= i < selected(payments, year).len() ==> row_for(
                country,
                rates,
                selected(payments, year)[i],
            ) == Ok::<Row, Error>(outcome(country, rates, payments, year, filing).rows[i]),
    decreases payments.len(),
{
    reveal(Seq::filter);
    if payments.len() > 0 {
        let front = payments.drop_last();
        lemma_rows_follow_payments(country, rates, front, year, filing);
    }
}

/// A payment that is selected and has no row ends the processing with its
/// error: the rows are those of the payments before it, so no entry of a
/// later payment is filed.
pub proof fn lemma_failed_payment_stops(
    country: Country,
    rates: Seq<RateRecord>,
    payments: Seq<InterestPayment>,
    year: Option<i32>,
    filing: Option<i32>,
    index: int,
)
    requires
        0 <= index < payments.len(),
        is_selected(payments[index], year),
        outcome(country, rates, payments.take(index), year, filing).failure is None,
        row_for(country, rates, payments[index]) is Err,
    ensures
        outcome(country, rates, payments, year, filing) == (Outcome {
            rows: outcome(country, rates, payments.take(index), year, filing).rows,
            failure: Some(row_for(country, rates, payments[index])->Err_0),
        }),
{
    let upto = payments.take(index + 1);
    assert(upto.drop_last() =~= payments.take(index));
    assert(upto.last() == payments[index]);
    lemma_failure_is_final(country, rates, payments, year, filing, index + 1);
}

/// Taking a row out lowers the total of a column by the row's value.
proof fn lemma_column_remove(rows: Seq<Row>, index: int, column: spec_fn(Row) -> int)
    requires
        0 <= index < rows.len(),
    ensures
        column_total(rows, column) == column_total(rows.remove(index), column) + column(
            rows[index],
        ),
    decreases rows.len(),
{
    if index == rows.len() - 1 {
        assert(rows.remove(index) =~= rows.drop_last());
    } else {
        assert(rows.remove(index).drop_last() =~= rows.drop_last().remove(index));
        assert(rows.remove(index).last() == rows.last());
        lemma_column_remove(rows.drop_last(), index, column);
    }
}

/// The total of a column does not depend on the order of the rows.
pub proof fn lemma_total_any_order(first: Seq<Row>, second: Seq<Row>, column: spec_fn(Row) -> int)
    requires
        first.to_multiset() == second.to_multiset(),
    ensures
        column_total(first, column) == column_total(second, column),
    decreases first.len(),
{
    broadcast use group_to_multiset_ensures;

    first.to_multiset_ensures();
    second.to_multiset_ensures();
    assert(first.len() == second.len());
    if first.len() > 0 {
        let last = first.last();
        assert(first.contains(last)) by {
            assert(first[first.len() - 1] == last);
        }
        assert(second.to_multiset().count(last) > 0);
        assert(second.contains(last));
        let index = choose|index: int| 0 <= index < second.len() && second[index] == last;
        assert(first.drop_last() =~= first.remove(first.len() - 1));
        to_multiset_remove(first, first.len() - 1);
        to_multiset_remove(second, index);
        lemma_total_any_order(first.drop_last(), second.remove(index), column);
        lemma_column_remove(second, index, column);
    }
}

/// The foreign side of the totals does not depend on the order of the rows:
/// it holds, for each currency that occurs, the sum of the rounded foreign
/// amounts of that currency.
pub proof fn lemma_foreign_summary_any_order(first: Seq<Row>, second: Seq<Row>)
    requires
        first.to_multiset() == second.to_multiset(),
    ensures
        foreign_summary(first) == foreign_summary(second),
{
    broadcast use group_to_multiset_ensures;

    assert forall|currency: Currency| has_currency(first, currency) == has_currency(
        second,
        currency,
    ) by {
        if has_currency(first, currency) {
            let i = choose|i: int|
                #![trigger first[i]]
                0 <= i < first.len() && first[i].foreign_amount.currency == currency;
            assert(first.contains(first[i]));
            assert(second.to_multiset().count(first[i]) > 0);
            assert(second.contains(first[i]));
            let j = choose|j: int| 0 <= j < second.len() && second[j] == first[i];
            assert(second[j].foreign_amount.currency == currency);
        }
        if has_currency(second, currency) {
            let i = choose|i: int|
                #![trigger second[i]]
                0 <= i < second.len() && second[i].foreign_amount.currency == currency;
            assert(second.contains(second[i]));
            assert(first.to_multiset().count(second[i]) > 0);
            assert(first.contains(second[i]));
            let j = choose|j: int| 0 <= j < first.len() && first[j] == second[i];
            assert(first[j].foreign_amount.currency == currency);
        }
    }
    assert forall|currency: Currency|
        column_total(first, foreign_column(currency)) == column_total(
            second,
            foreign_column(currency),
        ) by {
        lemma_total_any_order(first, second, foreign_column(currency));
    }
    assert(foreign_summary(first) =~= foreign_summary(second));
}

} // verus!
