use ledger_core::date::CalendarDate;
use ledger_core::ingest::{minor_units, parse_bank_statement_csv, parse_date, parse_stripe_settlement_csv, required, IngestError};

#[test]
fn parses_stripe_settlement_csv_rows() {
    let csv = "payout_id,balance_transaction_id,source_id,available_on,currency,gross,fee,net,type\npo_1,txn_1,ch_1,2026-02-20,usd,100.50,-3.25,97.25,charge\n";
    let rows = parse_stripe_settlement_csv(csv).unwrap();
    assert_eq!(rows.len(), 1);
    assert_eq!(rows[0].payout_id, "po_1");
    assert_eq!(rows[0].balance_transaction_id, "txn_1");
    assert_eq!(rows[0].gateway_transaction_id, "ch_1");
    assert_eq!(rows[0].available_on, CalendarDate { year: 2026, month: 2, day: 20 });
    assert_eq!(rows[0].currency, "USD");
    assert_eq!(rows[0].gross_minor, 10050);
    assert_eq!(rows[0].fee_minor, -325);
    assert_eq!(rows[0].net_minor, 9725);
    assert_eq!(rows[0].transaction_type, "charge");
}

#[test]
fn stripe_parser_rejects_invalid_amount() {
    let csv = "payout_id,balance_transaction_id,source_id,available_on,currency,gross,fee,net,type\npo_1,txn_1,ch_1,2026-02-20,USD,10.001,-3.25,6.75,charge\n";
    let err = parse_stripe_settlement_csv(csv).unwrap_err();
    assert_eq!(err, IngestError::InvalidAmount { line: 2, field: "gross", value: "10.001".to_string() });
}

#[test]
fn parses_bank_statement_csv_rows() {
    let csv = "statement_id,value_date,bank_reference,description,currency,amount\nst_1,2026-02-21,bank_ref_1,Payout transfer,usd,97.25\n";
    let rows = parse_bank_statement_csv(csv).unwrap();
    assert_eq!(rows.len(), 1);
    assert_eq!(rows[0].statement_id, "st_1");
    assert_eq!(rows[0].value_date, CalendarDate { year: 2026, month: 2, day: 21 });
    assert_eq!(rows[0].bank_reference, "bank_ref_1");
    assert_eq!(rows[0].description, "Payout transfer");
    assert_eq!(rows[0].currency, "USD");
    assert_eq!(rows[0].amount_minor, 9725);
}

#[test]
fn bank_parser_rejects_missing_required_field() {
    let csv = "statement_id,value_date,bank_reference,description,currency,amount\nst_1,2026-02-21,,Payout transfer,USD,97.25\n";
    let err = parse_bank_statement_csv(csv).unwrap_err();
    assert_eq!(err, IngestError::MissingField { line: 2, field: "bank_reference" });
}

#[test]
fn us_style_dates_and_bad_dates() {
    assert_eq!(parse_date("02/20/2026", "available_on", 2), Ok(CalendarDate { year: 2026, month: 2, day: 20 }));
    assert_eq!(
        parse_date("2026-02-30", "available_on", 3),
        Err(IngestError::InvalidDate { line: 3, field: "available_on", value: "2026-02-30".to_string() })
    );
}

#[test]
fn amount_grammar_is_strict() {
    assert_eq!(minor_units("97.25"), Some(9725));
    assert_eq!(minor_units(" +5 "), Some(500));
    assert_eq!(minor_units("-0.5"), Some(-50));
    assert_eq!(minor_units("7."), Some(700));
    assert_eq!(minor_units(".5"), None);
    assert_eq!(minor_units("1.2.3"), None);
    assert_eq!(minor_units("--1"), None);
    assert_eq!(minor_units("1e3"), None);
    assert_eq!(minor_units(""), None);
    assert_eq!(minor_units("92233720368547758.07"), Some(i64::MAX));
    assert_eq!(minor_units("92233720368547758.08"), None);
    assert_eq!(minor_units("-92233720368547758.08"), Some(i64::MIN));
    assert_eq!(minor_units("-92233720368547758.09"), None);
}

#[test]
fn required_fields_are_trimmed() {
    assert_eq!(required(Some("  x ".to_string()), "f", 4), Ok("x".to_string()));
    assert_eq!(required(Some("   ".to_string()), "f", 4), Err(IngestError::MissingField { line: 4, field: "f" }));
    assert_eq!(required(None, "f", 4), Err(IngestError::MissingField { line: 4, field: "f" }));
}

#[test]
fn ragged_csv_is_a_reader_error() {
    let csv = "statement_id,value_date\nst_1\n";
    match parse_bank_statement_csv(csv) {
        Err(IngestError::Csv { .. }) => {}
        other => panic!("expected a csv error, got {other:?}"),
    }
}
