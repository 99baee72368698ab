use imports_api::amount::{parse_amount, Amount};
use imports_api::date::{parse_date, Date};
use imports_api::normalize::normalize_csv;

fn v(s: &str) -> Vec<u8> {
    s.as_bytes().to_vec()
}

#[test]
fn date_parsing_accepts_valid_days_only() {
    assert_eq!(parse_date(&v("2026-02-01")), Some(Date { year: 2026, month: 2, day: 1 }));
    assert_eq!(parse_date(&v("0000-01-01")), Some(Date { year: 0, month: 1, day: 1 }));
    assert_eq!(parse_date(&v("9999-12-31")), Some(Date { year: 9999, month: 12, day: 31 }));
    // Leap years: divisible by four, except centuries off the quadricentennial.
    assert_eq!(parse_date(&v("2024-02-29")), Some(Date { year: 2024, month: 2, day: 29 }));
    assert_eq!(parse_date(&v("2023-02-29")), None);
    assert_eq!(parse_date(&v("1900-02-29")), None);
    assert_eq!(parse_date(&v("2000-02-29")), Some(Date { year: 2000, month: 2, day: 29 }));
    assert_eq!(parse_date(&v("2026-04-31")), None);
    assert_eq!(parse_date(&v("2026-00-10")), None);
    assert_eq!(parse_date(&v("2026-13-10")), None);
    assert_eq!(parse_date(&v("2026-01-00")), None);
    assert_eq!(parse_date(&v("2026-1-01")), None);
    assert_eq!(parse_date(&v("26-01-01")), None);
    assert_eq!(parse_date(&v("2026/01/01")), None);
    assert_eq!(parse_date(&v("2026-01-011")), None);
    assert_eq!(parse_date(&v("")), None);
}

#[test]
fn amount_parsing_is_fixed_point_with_sign() {
    assert_eq!(parse_amount(&v("100")), Some(Amount { cents: 10000 }));
    assert_eq!(parse_amount(&v("0")), Some(Amount { cents: 0 }));
    assert_eq!(parse_amount(&v("+5")), Some(Amount { cents: 500 }));
    assert_eq!(parse_amount(&v("-3.5")), Some(Amount { cents: -350 }));
    assert_eq!(parse_amount(&v("0.05")), Some(Amount { cents: 5 }));
    assert_eq!(parse_amount(&v("12.34")), Some(Amount { cents: 1234 }));
    assert_eq!(parse_amount(&v("007")), Some(Amount { cents: 700 }));
    // Sixteen integer digits fit; a seventeenth is refused.
    assert_eq!(
        parse_amount(&v("9999999999999999")),
        Some(Amount { cents: 999_999_999_999_999_900 })
    );
    assert_eq!(parse_amount(&v("99999999999999999")), None);
    assert_eq!(parse_amount(&v("1.234")), None);
    assert_eq!(parse_amount(&v("1.")), None);
    assert_eq!(parse_amount(&v(".5")), None);
    assert_eq!(parse_amount(&v("-")), None);
    assert_eq!(parse_amount(&v("")), None);
    assert_eq!(parse_amount(&v("1,5")), None);
    assert_eq!(parse_amount(&v("1e5")), None);
    assert_eq!(parse_amount(&v("1.2.3")), None);
    assert_eq!(parse_amount(&v(" 5")), None);
}

#[test]
fn normalization_skips_header_and_blank_lines() {
    let csv = "date,supplier,amount\n\n  \n2026-02-01,ACME,100\n\n";
    let rows = normalize_csv(&v(csv)).expect("blank lines are skipped");
    assert_eq!(rows.len(), 1);
    assert_eq!(rows[0].date, Date { year: 2026, month: 2, day: 1 });
    assert_eq!(rows[0].supplier_name, b"ACME".to_vec());
    assert_eq!(rows[0].amount, Amount { cents: 10000 });
}

#[test]
fn normalization_handles_crlf_and_field_trimming() {
    let csv = "date,supplier,amount\r\n 2026-02-01 , ACME Corp ,\t100 \r\n";
    let rows = normalize_csv(&v(csv)).expect("windows line endings and padding");
    assert_eq!(rows.len(), 1);
    assert_eq!(rows[0].supplier_name, b"ACME Corp".to_vec());
    assert_eq!(rows[0].amount, Amount { cents: 10000 });
}

#[test]
fn normalization_of_empty_and_header_only_input() {
    let rows = normalize_csv(&v("")).expect("empty input has no rows");
    assert_eq!(rows.len(), 0);
    let rows = normalize_csv(&v("date,supplier,amount")).expect("header only");
    assert_eq!(rows.len(), 0);
    // The header line is skipped unconditionally, even when it looks like data.
    let rows = normalize_csv(&v("2026-02-01,ACME,100")).expect("first line is the header");
    assert_eq!(rows.len(), 0);
}

#[test]
fn normalization_keeps_source_order() {
    let csv = "date,supplier,amount\n2026-02-03,C,3\n2026-02-01,A,1\n2026-02-02,B,2";
    let rows = normalize_csv(&v(csv)).expect("parses");
    assert_eq!(rows.len(), 3);
    assert_eq!(rows[0].supplier_name, b"C".to_vec());
    assert_eq!(rows[1].supplier_name, b"A".to_vec());
    assert_eq!(rows[2].supplier_name, b"B".to_vec());
    // Aggregation reorders by date ascending regardless of input order.
    let daily = imports_api::aggregate::aggregate_daily(&rows);
    assert_eq!(daily[0].date, Date { year: 2026, month: 2, day: 1 });
    assert_eq!(daily[1].date, Date { year: 2026, month: 2, day: 2 });
    assert_eq!(daily[2].date, Date { year: 2026, month: 2, day: 3 });
}

#[test]
fn aggregation_is_order_insensitive_over_row_multisets() {
    let a = normalize_csv(&v("h\n2026-02-01,A,10\n2026-02-02,B,5\n2026-02-01,C,2")).unwrap();
    let b = normalize_csv(&v("h\n2026-02-01,C,2\n2026-02-01,A,10\n2026-02-02,B,5")).unwrap();
    let da = imports_api::aggregate::aggregate_daily(&a);
    let db = imports_api::aggregate::aggregate_daily(&b);
    assert_eq!(da, db);
    assert_eq!(da[0].total_cents, 1200);
    assert_eq!(da[1].total_cents, 500);
}

#[test]
fn negative_amounts_accumulate() {
    let csv = "date,supplier,amount\n2026-02-01,A,10\n2026-02-01,B,-4.25";
    let rows = normalize_csv(&v(csv)).expect("parses");
    let daily = imports_api::aggregate::aggregate_daily(&rows);
    assert_eq!(daily.len(), 1);
    assert_eq!(daily[0].total_cents, 575);
}
