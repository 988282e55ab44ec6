use statement_ledger::aggregate::{
    active_months, calculate_max_amount, calculate_monthly_spending, calculate_total_amount,
    compare_month, monthly_amount, AggregationError, MonthComparison, MonthlyTotal,
};
use statement_ledger::amount::{amount_less_than, parse_amount, pow10_exec, Amount};
use statement_ledger::calendar::{parse_date, Date, DateLayout};
use statement_ledger::ingest::{ingest_statement, IngestError, RowFailure};
use statement_ledger::statement::{
    expected_header, normalize, ChaseRecord, DiscoverRecord, RawRecord, RowErrorKind,
    StatementFormat, StatementSource, Transaction,
};

fn amt(mantissa: i128, scale: u32) -> Amount {
    Amount { mantissa, scale }
}

fn date(year: i32, month: u32, day: u32) -> Date {
    Date { year, month, day }
}

fn tx(d: Date, amount: Amount, description: &str) -> Transaction {
    Transaction {
        amount,
        category: "Misc".to_string(),
        date: d,
        description: description.to_string(),
        memo: None,
        post_date: None,
        source: StatementSource::Discover,
        transaction_type: None,
    }
}

fn discover_row(d: &str, description: &str, amount: &str, category: &str) -> RawRecord {
    RawRecord::Discover(DiscoverRecord {
        trans_date: d.to_string(),
        description: description.to_string(),
        amount: amount.to_string(),
        category: category.to_string(),
    })
}

fn chase_row(d: &str, post: &str, amount: &str) -> RawRecord {
    RawRecord::Chase(ChaseRecord {
        trans_date: d.to_string(),
        post_date: post.to_string(),
        description: "Grocery".to_string(),
        category: "Groceries".to_string(),
        trans_type: "Sale".to_string(),
        amount: amount.to_string(),
        memo: "".to_string(),
    })
}

#[test]
fn discover_row_normalizes() {
    let rec = discover_row("2023-05-01", "Coffee Shop", "4.50", "Dining");
    let t = normalize(rec, DateLayout::YearMonthDay).unwrap();
    assert_eq!(t.date, date(2023, 5, 1));
    assert_eq!(t.amount, amt(450, 2));
    assert_eq!(t.category, "Dining");
    assert_eq!(t.description, "Coffee Shop");
    assert_eq!(t.source, StatementSource::Discover);
    assert_eq!(t.post_date, None);
    assert_eq!(t.transaction_type, None);
    assert_eq!(t.memo, None);
}

#[test]
fn discover_row_in_slashed_layout() {
    let rec = discover_row("05/01/2023", "Coffee Shop", "4.50", "Dining");
    let t = normalize(rec, DateLayout::MonthDayYear).unwrap();
    assert_eq!(t.date, date(2023, 5, 1));
    let rec = discover_row("05/01/2023", "Coffee Shop", "4.50", "Dining");
    assert_eq!(normalize(rec, DateLayout::YearMonthDay).unwrap_err(), RowErrorKind::InvalidDate);
}

#[test]
fn chase_row_normalizes_with_sign_kept() {
    let rec = chase_row("05/01/2023", "05/03/2023", "-52.13");
    let t = normalize(rec, DateLayout::MonthDayYear).unwrap();
    assert_eq!(t.date, date(2023, 5, 1));
    assert_eq!(t.post_date, Some(date(2023, 5, 3)));
    assert_eq!(t.amount, amt(-5213, 2));
    assert_eq!(t.transaction_type, Some("Sale".to_string()));
    assert_eq!(t.memo, Some("".to_string()));
    assert_eq!(t.description, "Grocery");
    assert_eq!(t.category, "Groceries");
    assert_eq!(t.source, StatementSource::Chase);
}

#[test]
fn normalize_reports_the_failing_field() {
    let bad_date = chase_row("13/45/2023", "05/03/2023", "1.00");
    assert_eq!(normalize(bad_date, DateLayout::MonthDayYear).unwrap_err(), RowErrorKind::InvalidDate);
    let bad_post = chase_row("05/01/2023", "never", "1.00");
    assert_eq!(normalize(bad_post, DateLayout::MonthDayYear).unwrap_err(), RowErrorKind::InvalidPostDate);
    let bad_amount = discover_row("2023-05-01", "x", "four", "y");
    assert_eq!(normalize(bad_amount, DateLayout::YearMonthDay).unwrap_err(), RowErrorKind::InvalidAmount);
}

#[test]
fn round_trip_keeps_date_description_and_amount() {
    let rec = discover_row("2024-02-29", "Book store", "-12.345", "Shopping");
    let t = normalize(rec, DateLayout::YearMonthDay).unwrap();
    assert_eq!(Some(t.date), parse_date("2024-02-29", DateLayout::YearMonthDay));
    assert_eq!(t.description, "Book store");
    assert_eq!(Some(t.amount), parse_amount("-12.345"));
    assert_eq!(t.amount, amt(-12345, 3));
}

#[test]
fn parsers_read_values() {
    assert_eq!(parse_amount("4.50"), Some(amt(450, 2)));
    assert_eq!(parse_amount("-0.07"), Some(amt(-7, 2)));
    assert_eq!(parse_amount("abc"), None);
    assert_eq!(parse_date("2023-12-31", DateLayout::YearMonthDay), Some(date(2023, 12, 31)));
    assert_eq!(parse_date("12/31/2023", DateLayout::MonthDayYear), Some(date(2023, 12, 31)));
    assert_eq!(parse_date("2023-02-30", DateLayout::YearMonthDay), None);
    assert!(amount_less_than(amt(15, 1), amt(151, 2)));
    assert!(!amount_less_than(amt(150, 2), amt(15, 1)));
    assert_eq!(pow10_exec(0), 1);
    assert_eq!(pow10_exec(3), 1000);
}

fn discover_file(rows: &[&str]) -> Vec<u8> {
    let mut text = String::from("Trans. Date,Description,Amount,Category\n");
    for r in rows {
        text.push_str(r);
        text.push('\n');
    }
    text.into_bytes()
}

#[test]
fn ingest_skips_a_bad_row_and_reports_it() {
    let mut rows: Vec<String> = Vec::new();
    for i in 1..=10 {
        if i == 4 {
            rows.push("01/04/2023,Row four,not-a-number,Misc".to_string());
        } else {
            rows.push(format!("01/{:02}/2023,Row {},{}.25,Misc", i, i, i));
        }
    }
    let refs: Vec<&str> = rows.iter().map(|s| s.as_str()).collect();
    let bytes = discover_file(&refs);
    let out = ingest_statement(&bytes, StatementFormat::discover(DateLayout::MonthDayYear)).unwrap();
    assert_eq!(out.transactions.len(), 9);
    assert_eq!(out.rows_normalized(), 9);
    assert_eq!(out.rows_attempted, 10);
    assert_eq!(
        out.failures,
        vec![RowFailure { row: 4, source: StatementSource::Discover, kind: RowErrorKind::InvalidAmount }]
    );
    assert_eq!(out.transactions[3].description, "Row 5");
    assert_eq!(out.transactions[3].amount, amt(525, 2));
}

#[test]
fn ingest_chase_statement() {
    let text = "Transaction Date,Post Date,Description,Category,Type,Amount,Memo\n\
                05/01/2023,05/03/2023,Grocery,Groceries,Sale,-52.13,\n\
                05/02/2023,05/04/2023,Refund,Shopping,Return,10.00,note\n\
                05/02/2023,05/04/2023,Short row\n";
    let out = ingest_statement(text.as_bytes(), StatementFormat::chase()).unwrap();
    assert_eq!(out.transactions.len(), 2);
    assert_eq!(out.transactions[0].amount, amt(-5213, 2));
    assert_eq!(out.transactions[1].memo, Some("note".to_string()));
    assert_eq!(
        out.failures,
        vec![RowFailure { row: 3, source: StatementSource::Chase, kind: RowErrorKind::MissingField }]
    );
}

#[test]
fn ingest_refuses_wrong_header_and_empty_input() {
    let bytes = discover_file(&["01/01/2023,A,1.00,Misc"]);
    assert_eq!(ingest_statement(&bytes, StatementFormat::chase()).unwrap_err(), IngestError::SchemaMismatch);
    assert_eq!(
        ingest_statement(b"", StatementFormat::discover(DateLayout::MonthDayYear)).unwrap_err(),
        IngestError::MissingHeader
    );
}

#[test]
fn ingest_records_unreadable_rows() {
    let mut bytes = discover_file(&[]);
    bytes.extend_from_slice(b"01/01/2023,\xff\xfe,1.00,Misc\n01/02/2023,Ok,2.00,Misc\n");
    let out = ingest_statement(&bytes, StatementFormat::discover(DateLayout::MonthDayYear)).unwrap();
    assert_eq!(out.transactions.len(), 1);
    assert_eq!(out.failures[0].row, 1);
    assert_eq!(out.failures[0].kind, RowErrorKind::Unreadable);
}

#[test]
fn expected_headers_match_sources() {
    assert_eq!(expected_header(StatementSource::Discover), vec!["Trans. Date", "Description", "Amount", "Category"]);
    assert_eq!(expected_header(StatementSource::Chase).len(), 7);
}

#[test]
fn total_is_exact_decimal_sum() {
    let ts = vec![
        tx(date(2023, 1, 1), amt(1, 1), "a"),
        tx(date(2023, 1, 2), amt(2, 1), "b"),
        tx(date(2023, 1, 3), amt(225, 2), "c"),
        tx(date(2023, 1, 4), amt(-5, 0), "d"),
    ];
    // 0.1 + 0.2 + 2.25 - 5 = -2.45
    assert_eq!(calculate_total_amount(&ts), Ok(amt(-245, 2)));
}

#[test]
fn total_of_nothing_is_zero() {
    assert_eq!(calculate_total_amount(&Vec::new()), Ok(amt(0, 0)));
}

#[test]
fn total_reports_overflow() {
    let big = amt(79_228_162_514_264_337_593_543_950_335, 0);
    let fine = amt(1, 28);
    let ts = vec![tx(date(2023, 1, 1), big, "a"), tx(date(2023, 1, 2), fine, "b")];
    assert_eq!(calculate_total_amount(&ts), Err(AggregationError::Overflow));
}

#[test]
fn max_of_nothing_is_an_error() {
    assert_eq!(calculate_max_amount(&Vec::new()), Err(AggregationError::EmptyCollection));
}

#[test]
fn max_finds_greatest_amount() {
    let ts = vec![
        tx(date(2023, 1, 1), amt(-100, 2), "a"),
        tx(date(2023, 1, 2), amt(-3, 0), "b"),
        tx(date(2023, 1, 3), amt(-2, 1), "c"),
    ];
    assert_eq!(calculate_max_amount(&ts), Ok((amt(-2, 1), 2)));
}

#[test]
fn max_breaks_ties_by_date_then_order() {
    let ts = vec![
        tx(date(2023, 3, 1), amt(5, 0), "late"),
        tx(date(2023, 1, 9), amt(500, 2), "early"),
        tx(date(2023, 1, 9), amt(50, 1), "early again"),
        tx(date(2023, 2, 1), amt(4, 0), "small"),
    ];
    assert_eq!(calculate_max_amount(&ts), Ok((amt(500, 2), 1)));
}

#[test]
fn monthly_spending_groups_by_year_and_month() {
    let ts = vec![
        tx(date(2023, 1, 15), amt(10, 0), "a"),
        tx(date(2023, 1, 20), amt(5, 0), "b"),
        tx(date(2023, 2, 1), amt(3, 0), "c"),
    ];
    let b = calculate_monthly_spending(&ts).unwrap();
    assert_eq!(
        b,
        vec![
            MonthlyTotal { year: 2023, month: 1, total: amt(15, 0) },
            MonthlyTotal { year: 2023, month: 2, total: amt(3, 0) },
        ]
    );
}

#[test]
fn monthly_spending_keeps_fractions_and_years_apart() {
    let ts = vec![
        tx(date(2022, 1, 5), amt(150, 2), "a"),
        tx(date(2023, 1, 5), amt(25, 1), "b"),
        tx(date(2022, 1, 6), amt(75, 2), "c"),
        tx(date(2023, 3, 5), amt(-1, 2), "d"),
    ];
    let b = calculate_monthly_spending(&ts).unwrap();
    assert_eq!(b.len(), 3);
    assert_eq!(b[0], MonthlyTotal { year: 2022, month: 1, total: amt(225, 2) });
    assert_eq!(b[1], MonthlyTotal { year: 2023, month: 1, total: amt(25, 1) });
    assert_eq!(b[2], MonthlyTotal { year: 2023, month: 3, total: amt(-1, 2) });
    // every transaction sits in exactly one bucket
    for t in &ts {
        let n = b.iter().filter(|m| m.year == t.date.year && m.month == t.date.month).count();
        assert_eq!(n, 1);
    }
    assert!(calculate_monthly_spending(&Vec::new()).unwrap().is_empty());
}

#[test]
fn monthly_spending_reports_overflow() {
    let big = amt(79_228_162_514_264_337_593_543_950_335, 0);
    let ts = vec![tx(date(2023, 1, 1), big, "a"), tx(date(2023, 1, 2), amt(1, 28), "b")];
    assert_eq!(calculate_monthly_spending(&ts), Err(AggregationError::Overflow));
}

#[test]
fn comparison_treats_absent_month_as_zero() {
    let first = vec![MonthlyTotal { year: 2023, month: 1, total: amt(15, 0) }];
    let second = vec![
        MonthlyTotal { year: 2023, month: 2, total: amt(7, 0) },
        MonthlyTotal { year: 2023, month: 1, total: amt(-250, 2) },
    ];
    let c = compare_month(&first, &second, 2023, 1);
    assert_eq!((c.year, c.month, c.first, c.second), (2023, 1, amt(15, 0), amt(-250, 2)));
    assert!(c.both_active());
    let c = compare_month(&first, &second, 2023, 2);
    assert_eq!(c.first, amt(0, 0));
    assert_eq!(c.second, amt(7, 0));
    assert!(!c.both_active());
    assert_eq!(monthly_amount(&first, 2024, 1), Amount::zero());
    assert!(amt(0, 3).is_zero());
}

#[test]
fn total_keeps_small_digits_beside_large_ones() {
    let ts = vec![
        tx(date(2023, 1, 1), amt(1_000_000_000_000_000_000, 28), "tiny"),
        tx(date(2023, 1, 2), amt(100_000_000_000, 0), "large"),
    ];
    // 0.0000000001000000000000000000 + 100000000000 = 100000000000.0000000001
    let expected = amt(1_000_000_000_000_000_000_001, 10);
    assert_eq!(calculate_total_amount(&ts), Ok(expected));
    let months = calculate_monthly_spending(&ts).unwrap();
    assert_eq!(months, vec![MonthlyTotal { year: 2023, month: 1, total: expected }]);
}

#[test]
fn total_does_not_depend_on_order() {
    let x = amt(10_000_000_000, 0);
    let neg = amt(-10_000_000_000, 0);
    let one = amt(10_000_000_000_000_000_000_000_000_000, 28);
    let d = date(2023, 1, 1);
    let first = vec![tx(d, x, "a"), tx(d, x, "b"), tx(d, neg, "c"), tx(d, neg, "d"), tx(d, one, "e")];
    let second = vec![tx(d, x, "a"), tx(d, neg, "c"), tx(d, x, "b"), tx(d, neg, "d"), tx(d, one, "e")];
    assert_eq!(calculate_total_amount(&first), Ok(amt(1, 0)));
    assert_eq!(calculate_total_amount(&second), Ok(amt(1, 0)));
}

#[test]
fn total_is_given_in_shortest_form() {
    let d = date(2023, 1, 1);
    let ts = vec![tx(d, amt(150, 2), "a"), tx(d, amt(150, 2), "b")];
    assert_eq!(calculate_total_amount(&ts), Ok(amt(3, 0)));
}

#[test]
fn active_months_lists_months_where_both_spent() {
    let first = vec![
        MonthlyTotal { year: 2023, month: 1, total: amt(15, 0) },
        MonthlyTotal { year: 2023, month: 3, total: amt(4, 0) },
        MonthlyTotal { year: 2021, month: 5, total: amt(9, 0) },
    ];
    let second = vec![
        MonthlyTotal { year: 2023, month: 3, total: amt(-250, 2) },
        MonthlyTotal { year: 2023, month: 1, total: amt(0, 0) },
        MonthlyTotal { year: 2021, month: 5, total: amt(1, 0) },
    ];
    let r = active_months(&first, &second, &vec![2022, 2023, 2024]);
    assert_eq!(
        r,
        vec![MonthComparison { year: 2023, month: 3, first: amt(4, 0), second: amt(-250, 2) }]
    );
    assert!(active_months(&first, &second, &vec![]).is_empty());
}

#[test]
fn month_totals_add_up_to_the_total() {
    let ts = vec![
        tx(date(2023, 1, 5), amt(125, 2), "a"),
        tx(date(2023, 2, 5), amt(-3, 1), "b"),
        tx(date(2023, 1, 9), amt(7, 0), "c"),
    ];
    let months = calculate_monthly_spending(&ts).unwrap();
    assert_eq!(months[0].total, amt(825, 2));
    assert_eq!(months[1].total, amt(-3, 1));
    // 8.25 - 0.3 = 7.95
    assert_eq!(calculate_total_amount(&ts), Ok(amt(795, 2)));
}
