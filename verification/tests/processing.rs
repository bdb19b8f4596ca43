use interest_income::broker_statement::{BrokerStatement, InterestPayment};
use interest_income::config::Country;
use interest_income::currency::converter::CurrencyConverter;
use interest_income::currency::{Balance, Cash, Currency};
use interest_income::decimal::Decimal;
use interest_income::error::{Error, FilingError};
use interest_income::tax_statement::interest::{interest_row, process_income, Report, Row};
use interest_income::tax_statement::statement::TaxStatement;
use interest_income::types::Date;

fn usd() -> Currency {
    Currency::new("USD", 2).unwrap()
}

fn eur() -> Currency {
    Currency::new("EUR", 2).unwrap()
}

fn rub() -> Currency {
    Currency::new("RUB", 2).unwrap()
}

fn russia() -> Country {
    Country::new(rub(), 1300)
}

fn day(year: i32, month: u32, day: u32) -> Date {
    Date::from_ymd(year, month, day).unwrap()
}

fn whole(units: i64) -> Decimal {
    Decimal::from_units(units)
}

fn statement_of(payments: Vec<InterestPayment>) -> BrokerStatement {
    let mut statement = BrokerStatement::new("Interactive Brokers");
    statement.idle_cash_interest = payments;
    statement
}

fn five_payments() -> Vec<InterestPayment> {
    vec![
        InterestPayment::new(day(2023, 1, 10), usd(), whole(10)),
        InterestPayment::new(day(2023, 2, 10), usd(), whole(20)),
        InterestPayment::new(day(2023, 3, 10), usd(), whole(30)),
        InterestPayment::new(day(2023, 4, 10), usd(), whole(40)),
        InterestPayment::new(day(2023, 5, 10), usd(), whole(50)),
    ]
}

fn rates_for(dates: &[Date]) -> CurrencyConverter {
    let mut converter = CurrencyConverter::new();
    for date in dates {
        converter.add_rate(*date, usd(), rub(), whole(90));
    }
    converter
}

fn report_of(result: Result<Option<Report>, Error>) -> Report {
    result.unwrap().unwrap()
}

#[test]
fn hundred_dollars_at_ninety() {
    let broker = statement_of(vec![InterestPayment::new(day(2023, 6, 1), usd(), whole(100))]);
    let mut converter = CurrencyConverter::new();
    converter.add_rate(day(2023, 6, 1), usd(), rub(), Decimal { mantissa: 900, scale: 1 });
    let mut filing = TaxStatement::new(2023);

    let report =
        report_of(process_income(&russia(), &broker, Some(2023), Some(&mut filing), &converter));

    assert_eq!(
        report.rows,
        vec![Row {
            date: day(2023, 6, 1),
            currency: usd(),
            foreign_amount: Cash { currency: usd(), units: 10000 },
            currency_rate: Decimal { mantissa: 900, scale: 1 },
            amount: Cash { currency: rub(), units: 900000 },
            tax_to_pay: Cash { currency: rub(), units: 117000 },
            income: Cash { currency: rub(), units: 783000 },
        }]
    );
    assert_eq!(report.totals.amount, Balance { currency: rub(), units: 900000 });
    assert_eq!(report.totals.tax_to_pay, Balance { currency: rub(), units: 117000 });
    assert_eq!(report.totals.income, Balance { currency: rub(), units: 783000 });
    assert_eq!(
        report.totals.foreign_amount.to_display(),
        vec![Balance { currency: usd(), units: 10000 }]
    );
    assert_eq!(
        report.caption,
        "Interest income on brokerage account balance received through Interactive Brokers"
    );

    assert_eq!(filing.entries.len(), 1);
    let entry = &filing.entries[0];
    assert_eq!(entry.description, "Interactive Brokers: interest on brokerage account balance");
    assert_eq!(entry.date, day(2023, 6, 1));
    assert_eq!(entry.currency_rate, Decimal { mantissa: 900, scale: 1 });
    assert_eq!(entry.amount, Cash { currency: usd(), units: 10000 });
    assert_eq!(entry.local_amount, Cash { currency: rub(), units: 900000 });
}

#[test]
fn hundred_dollars_in_another_year() {
    let broker = statement_of(vec![InterestPayment::new(day(2023, 6, 1), usd(), whole(100))]);
    let mut converter = CurrencyConverter::new();
    converter.add_rate(day(2023, 6, 1), usd(), rub(), Decimal { mantissa: 900, scale: 1 });
    let mut filing = TaxStatement::new(2022);

    let result = process_income(&russia(), &broker, Some(2022), Some(&mut filing), &converter);

    assert!(matches!(result, Ok(None)));
    assert!(filing.entries.is_empty());
}

#[test]
fn no_payments_no_report() {
    let broker = statement_of(Vec::new());
    let converter = CurrencyConverter::new();
    let mut filing = TaxStatement::new(2023);
    assert!(matches!(
        process_income(&russia(), &broker, None, Some(&mut filing), &converter),
        Ok(None)
    ));
    assert!(filing.entries.is_empty());
    assert!(matches!(process_income(&russia(), &broker, Some(2023), None, &converter), Ok(None)));
}

#[test]
fn skipped_payments_need_no_rate() {
    let broker = statement_of(five_payments());
    let converter = CurrencyConverter::new();
    assert!(matches!(process_income(&russia(), &broker, Some(2022), None, &converter), Ok(None)));
}

#[test]
fn income_is_amount_less_tax_in_every_row() {
    let payments = vec![
        InterestPayment::new(day(2023, 1, 10), usd(), Decimal { mantissa: 1005, scale: 3 }),
        InterestPayment::new(day(2023, 2, 10), eur(), Decimal { mantissa: 33333, scale: 4 }),
        InterestPayment::new(day(2023, 3, 10), usd(), Decimal { mantissa: -250, scale: 2 }),
        InterestPayment::new(day(2023, 4, 10), rub(), Decimal { mantissa: 77777, scale: 3 }),
    ];
    let broker = statement_of(payments);
    let mut converter = CurrencyConverter::new();
    converter.add_rate(day(2023, 1, 10), usd(), rub(), Decimal { mantissa: 905, scale: 1 });
    converter.add_rate(day(2023, 2, 10), eur(), rub(), Decimal { mantissa: 1001234, scale: 4 });
    converter.add_rate(day(2023, 3, 10), usd(), rub(), Decimal { mantissa: 75, scale: 0 });

    let report = report_of(process_income(&russia(), &broker, None, None, &converter));

    assert_eq!(report.rows.len(), 4);
    for row in report.rows.iter() {
        assert_eq!(row.income.units, row.amount.units - row.tax_to_pay.units);
        assert_eq!(row.income.currency, rub());
        assert_eq!(row.amount.currency, rub());
        assert_eq!(row.tax_to_pay.currency, rub());
    }
    let amounts: Vec<i64> = report.rows.iter().map(|row| row.amount.units).collect();
    let taxes: Vec<i64> = report.rows.iter().map(|row| row.tax_to_pay.units).collect();
    let incomes: Vec<i64> = report.rows.iter().map(|row| row.income.units).collect();
    assert_eq!(amounts, vec![9095, 33374, -18750, 7778]);
    assert_eq!(taxes, vec![1182, 4339, 0, 1011]);
    assert_eq!(incomes, vec![7913, 29035, -18750, 6767]);
}

#[test]
fn totals_are_the_sums_of_the_rows() {
    let payments = vec![
        InterestPayment::new(day(2023, 1, 10), usd(), Decimal { mantissa: 1005, scale: 3 }),
        InterestPayment::new(day(2023, 2, 10), eur(), Decimal { mantissa: 33333, scale: 4 }),
        InterestPayment::new(day(2023, 3, 10), usd(), Decimal { mantissa: -250, scale: 2 }),
        InterestPayment::new(day(2023, 4, 10), rub(), Decimal { mantissa: 77777, scale: 3 }),
    ];
    let broker = statement_of(payments);
    let mut converter = CurrencyConverter::new();
    converter.add_rate(day(2023, 1, 10), usd(), rub(), Decimal { mantissa: 905, scale: 1 });
    converter.add_rate(day(2023, 2, 10), eur(), rub(), Decimal { mantissa: 1001234, scale: 4 });
    converter.add_rate(day(2023, 3, 10), usd(), rub(), Decimal { mantissa: 75, scale: 0 });

    let report = report_of(process_income(&russia(), &broker, None, None, &converter));

    assert_eq!(report.totals.amount, Balance { currency: rub(), units: 31497 });
    assert_eq!(report.totals.tax_to_pay, Balance { currency: rub(), units: 6532 });
    assert_eq!(report.totals.income, Balance { currency: rub(), units: 24965 });
    assert_eq!(
        report.totals.foreign_amount.to_display(),
        vec![
            Balance { currency: usd(), units: -149 },
            Balance { currency: eur(), units: 333 },
            Balance { currency: rub(), units: 7778 },
        ]
    );
}

#[test]
fn foreign_totals_do_not_depend_on_the_order() {
    let mut payments = vec![
        InterestPayment::new(day(2023, 1, 10), usd(), Decimal { mantissa: 1005, scale: 3 }),
        InterestPayment::new(day(2023, 1, 10), eur(), Decimal { mantissa: 33333, scale: 4 }),
        InterestPayment::new(day(2023, 1, 10), usd(), Decimal { mantissa: -250, scale: 2 }),
        InterestPayment::new(day(2023, 1, 10), eur(), Decimal { mantissa: 1, scale: 0 }),
    ];
    let mut converter = CurrencyConverter::new();
    converter.add_rate(day(2023, 1, 10), usd(), rub(), whole(90));
    converter.add_rate(day(2023, 1, 10), eur(), rub(), whole(100));

    let forward =
        report_of(process_income(&russia(), &statement_of(payments.clone()), None, None, &converter));
    payments.reverse();
    let backward =
        report_of(process_income(&russia(), &statement_of(payments), None, None, &converter));

    for currency in [usd(), eur(), rub()] {
        assert_eq!(
            forward.totals.foreign_amount.get(currency),
            backward.totals.foreign_amount.get(currency)
        );
    }
    assert_eq!(forward.totals.foreign_amount.get(usd()), Some(-149));
    assert_eq!(forward.totals.foreign_amount.get(eur()), Some(433));
    assert_eq!(forward.totals.foreign_amount.get(rub()), None);
    assert_eq!(forward.totals.amount, backward.totals.amount);
    assert_eq!(forward.totals.tax_to_pay, backward.totals.tax_to_pay);
    assert_eq!(forward.totals.income, backward.totals.income);
}

#[test]
fn year_filter_takes_the_payments_of_the_year_only() {
    let payments = vec![
        InterestPayment::new(day(2022, 12, 31), usd(), whole(1)),
        InterestPayment::new(day(2023, 1, 1), usd(), whole(2)),
        InterestPayment::new(day(2024, 1, 1), usd(), whole(3)),
        InterestPayment::new(day(2023, 12, 31), usd(), whole(4)),
    ];
    let converter =
        rates_for(&[day(2022, 12, 31), day(2023, 1, 1), day(2024, 1, 1), day(2023, 12, 31)]);
    let broker = statement_of(payments);
    let mut filing = TaxStatement::new(2023);

    let report =
        report_of(process_income(&russia(), &broker, Some(2023), Some(&mut filing), &converter));

    let dates: Vec<Date> = report.rows.iter().map(|row| row.date).collect();
    assert_eq!(dates, vec![day(2023, 1, 1), day(2023, 12, 31)]);
    assert_eq!(report.totals.amount.units, 54000);
    assert_eq!(report.totals.foreign_amount.get(usd()), Some(600));
    let filed: Vec<Date> = filing.entries.iter().map(|entry| entry.date).collect();
    assert_eq!(filed, vec![day(2023, 1, 1), day(2023, 12, 31)]);
}

#[test]
fn without_a_year_every_payment_has_a_row() {
    let payments = vec![
        InterestPayment::new(day(2022, 12, 31), usd(), whole(1)),
        InterestPayment::new(day(2023, 1, 1), usd(), whole(2)),
        InterestPayment::new(day(2024, 1, 1), usd(), whole(3)),
    ];
    let converter = rates_for(&[day(2022, 12, 31), day(2023, 1, 1), day(2024, 1, 1)]);
    let report = report_of(process_income(&russia(), &statement_of(payments), None, None, &converter));
    assert_eq!(report.rows.len(), 3);
    assert_eq!(report.totals.amount.units, 54000);
}

#[test]
fn rows_keep_the_order_of_the_payments() {
    let payments = vec![
        InterestPayment::new(day(2023, 5, 10), usd(), whole(50)),
        InterestPayment::new(day(2023, 1, 10), usd(), whole(10)),
        InterestPayment::new(day(2023, 3, 10), usd(), whole(30)),
    ];
    let converter = rates_for(&[day(2023, 5, 10), day(2023, 1, 10), day(2023, 3, 10)]);
    let broker = statement_of(payments);
    let mut filing = TaxStatement::new(2023);

    let report =
        report_of(process_income(&russia(), &broker, Some(2023), Some(&mut filing), &converter));

    let dates: Vec<Date> = report.rows.iter().map(|row| row.date).collect();
    assert_eq!(dates, vec![day(2023, 5, 10), day(2023, 1, 10), day(2023, 3, 10)]);
    let filed: Vec<Date> = filing.entries.iter().map(|entry| entry.date).collect();
    assert_eq!(filed, dates);
}

#[test]
fn same_input_gives_the_same_report() {
    let broker = statement_of(five_payments());
    let dates: Vec<Date> = five_payments().iter().map(|payment| payment.date).collect();
    let converter = rates_for(&dates);
    let first = report_of(process_income(&russia(), &broker, Some(2023), None, &converter));
    let second = report_of(process_income(&russia(), &broker, Some(2023), None, &converter));
    assert_eq!(first.rows, second.rows);
    assert_eq!(first.caption, second.caption);
    assert_eq!(first.totals.amount, second.totals.amount);
    assert_eq!(first.totals.tax_to_pay, second.totals.tax_to_pay);
    assert_eq!(first.totals.income, second.totals.income);
    assert_eq!(
        first.totals.foreign_amount.to_display(),
        second.totals.foreign_amount.to_display()
    );
    assert_eq!(first.totals.amount.units, 1350000);
}

#[test]
fn missing_rate_of_the_third_payment_stops_the_filing() {
    let broker = statement_of(five_payments());
    let converter =
        rates_for(&[day(2023, 1, 10), day(2023, 2, 10), day(2023, 4, 10), day(2023, 5, 10)]);
    let mut filing = TaxStatement::new(2023);

    let result = process_income(&russia(), &broker, Some(2023), Some(&mut filing), &converter);

    assert!(matches!(result, Err(Error::RateUnavailable)));
    let filed: Vec<Date> = filing.entries.iter().map(|entry| entry.date).collect();
    assert_eq!(filed, vec![day(2023, 1, 10), day(2023, 2, 10)]);
}

#[test]
fn entries_are_added_behind_those_of_the_statement() {
    let mut filing = TaxStatement::new(2023);
    let added = filing.add_interest_income(
        "earlier",
        day(2023, 1, 1),
        whole(1),
        Cash::new(rub(), 1),
        Cash::new(rub(), 1),
    );
    assert_eq!(added, Ok(()));
    let broker = statement_of(five_payments());
    let dates: Vec<Date> = five_payments().iter().map(|payment| payment.date).collect();
    let converter = rates_for(&dates);

    let result = process_income(&russia(), &broker, None, Some(&mut filing), &converter);

    assert!(matches!(result, Ok(Some(_))));
    assert_eq!(filing.year, 2023);
    assert_eq!(filing.entries.len(), 6);
    assert_eq!(filing.entries[0].description, "earlier");
    assert_eq!(filing.entries[5].date, day(2023, 5, 10));
    assert_eq!(filing.entries[5].local_amount, Cash { currency: rub(), units: 450000 });
}

#[test]
fn statement_refuses_income_of_another_year() {
    let mut filing = TaxStatement::new(2023);
    let refused = filing.add_interest_income(
        "late",
        day(2024, 1, 1),
        whole(1),
        Cash::new(usd(), 1),
        Cash::new(rub(), 90),
    );
    assert_eq!(refused, Err(FilingError::OutsideTaxYear));
    assert!(filing.entries.is_empty());
    assert_eq!(filing.year, 2023);
}

#[test]
fn refused_entry_stops_the_processing_with_its_date() {
    let payments = vec![
        InterestPayment::new(day(2023, 1, 1), usd(), whole(1)),
        InterestPayment::new(day(2024, 1, 1), usd(), whole(2)),
        InterestPayment::new(day(2023, 2, 1), usd(), whole(3)),
    ];
    let converter = rates_for(&[day(2023, 1, 1), day(2024, 1, 1), day(2023, 2, 1)]);
    let broker = statement_of(payments);
    let mut filing = TaxStatement::new(2023);

    let result = process_income(&russia(), &broker, None, Some(&mut filing), &converter);

    match result {
        Err(error) => assert_eq!(
            error,
            Error::FilingRejected { date: day(2024, 1, 1), reason: FilingError::OutsideTaxYear }
        ),
        Ok(_) => panic!("the entry of 2024 was accepted"),
    }
    let filed: Vec<Date> = filing.entries.iter().map(|entry| entry.date).collect();
    assert_eq!(filed, vec![day(2023, 1, 1)]);
}

#[test]
fn payment_too_large_to_convert_stops_the_processing() {
    let payments = vec![
        InterestPayment::new(day(2023, 1, 10), usd(), whole(10)),
        InterestPayment::new(day(2023, 2, 10), usd(), whole(i64::MAX / 100)),
    ];
    let converter = rates_for(&[day(2023, 1, 10), day(2023, 2, 10)]);
    let mut filing = TaxStatement::new(2023);
    let result =
        process_income(&russia(), &statement_of(payments), None, Some(&mut filing), &converter);
    assert!(matches!(result, Err(Error::ConversionFailure)));
    assert_eq!(filing.entries.len(), 1);
}

#[test]
fn payment_too_large_to_round_stops_the_processing() {
    let payments =
        vec![InterestPayment::new(day(2023, 1, 10), usd(), Decimal { mantissa: i128::MAX, scale: 0 })];
    let converter = CurrencyConverter::new();
    let result = process_income(&russia(), &statement_of(payments), None, None, &converter);
    assert!(matches!(result, Err(Error::ConversionFailure)));
}

#[test]
fn tax_rate_above_the_whole_stops_the_processing() {
    let broker = statement_of(five_payments());
    let dates: Vec<Date> = five_payments().iter().map(|payment| payment.date).collect();
    let converter = rates_for(&dates);
    let country = Country::new(rub(), 10001);
    let mut filing = TaxStatement::new(2023);
    let result = process_income(&country, &broker, None, Some(&mut filing), &converter);
    assert!(matches!(result, Err(Error::TaxComputationFailure)));
    assert!(filing.entries.is_empty());
}

#[test]
fn payment_tax_goes_through_the_conversion() {
    let payment = InterestPayment::new(day(2023, 6, 1), usd(), whole(100));
    let mut converter = CurrencyConverter::new();
    assert_eq!(payment.tax_to_pay(&russia(), &converter), Err(Error::RateUnavailable));
    converter.add_rate(day(2023, 6, 1), usd(), rub(), whole(90));
    assert_eq!(
        payment.tax_to_pay(&russia(), &converter),
        Ok(Cash { currency: rub(), units: 117000 })
    );
    assert_eq!(
        payment.tax_to_pay(&Country::new(rub(), 20000), &converter),
        Err(Error::TaxComputationFailure)
    );
}

#[test]
fn domestic_interest_needs_no_rate() {
    let payments =
        vec![InterestPayment::new(day(2023, 6, 1), rub(), Decimal { mantissa: 100005, scale: 3 })];
    let converter = CurrencyConverter::new();
    let report = report_of(process_income(&russia(), &statement_of(payments), None, None, &converter));
    assert_eq!(report.rows[0].currency_rate, Decimal { mantissa: 1, scale: 0 });
    assert_eq!(report.rows[0].foreign_amount, Cash { currency: rub(), units: 10001 });
    assert_eq!(report.rows[0].amount, Cash { currency: rub(), units: 10001 });
    assert_eq!(report.rows[0].tax_to_pay, Cash { currency: rub(), units: 1300 });
    assert_eq!(report.rows[0].income, Cash { currency: rub(), units: 8701 });
}

#[test]
fn row_of_one_payment() {
    let payment = InterestPayment::new(day(2023, 1, 10), usd(), Decimal { mantissa: 1005, scale: 3 });
    let mut converter = CurrencyConverter::new();
    assert_eq!(interest_row(&russia(), &payment, &converter), Err(Error::RateUnavailable));
    converter.add_rate(day(2023, 1, 10), usd(), rub(), Decimal { mantissa: 905, scale: 1 });
    assert_eq!(
        interest_row(&russia(), &payment, &converter),
        Ok(Row {
            date: day(2023, 1, 10),
            currency: usd(),
            foreign_amount: Cash { currency: usd(), units: 101 },
            currency_rate: Decimal { mantissa: 905, scale: 1 },
            amount: Cash { currency: rub(), units: 9095 },
            tax_to_pay: Cash { currency: rub(), units: 1182 },
            income: Cash { currency: rub(), units: 7913 },
        })
    );
}
