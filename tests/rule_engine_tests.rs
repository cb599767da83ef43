use ledger_core::json::JsonValue;
use ledger_core::ledger::EntrySide;
use ledger_core::rule_engine::{derive_lines_v1, DerivedPostingLine, RuleEngineError};

fn obj(members: Vec<(&str, JsonValue)>) -> JsonValue {
    JsonValue::Object(members.into_iter().map(|(k, v)| (k.to_string(), v)).collect())
}

fn num(n: i64) -> JsonValue {
    JsonValue::Int(n)
}

fn text(s: &str) -> JsonValue {
    JsonValue::Str(s.to_string())
}

fn assert_balanced(lines: &[DerivedPostingLine]) {
    let debit: i64 = lines.iter().filter(|l| l.entry_side == EntrySide::Debit).map(|l| l.amount_minor).sum();
    let credit: i64 = lines.iter().filter(|l| l.entry_side == EntrySide::Credit).map(|l| l.amount_minor).sum();
    assert_eq!(debit, credit);
    let base_debit: i64 = lines.iter().filter(|l| l.entry_side == EntrySide::Debit).map(|l| l.base_amount_minor).sum();
    let base_credit: i64 = lines.iter().filter(|l| l.entry_side == EntrySide::Credit).map(|l| l.base_amount_minor).sum();
    assert_eq!(base_debit, base_credit);
}

#[test]
fn order_captured_maps_to_revenue_and_cash_clearing() {
    let lines = derive_lines_v1("order.captured.v1", &obj(vec![("amount_minor", num(10000)), ("currency", text("USD"))])).unwrap();
    assert_eq!(lines.len(), 2);
    assert_balanced(&lines);
    assert_eq!(lines[0].entry_side, EntrySide::Debit);
    assert_eq!(lines[1].entry_side, EntrySide::Credit);
}

#[test]
fn payment_settled_maps_to_cash_fee_and_clearing() {
    let lines = derive_lines_v1(
        "payment.settled.v1",
        &obj(vec![
            ("gross_amount_minor", num(10000)),
            ("fee_amount_minor", num(250)),
            ("net_amount_minor", num(9750)),
            ("currency", text("USD")),
        ]),
    )
    .unwrap();
    assert_eq!(lines.len(), 3);
    assert_balanced(&lines);
    assert_eq!(lines[2].account_id, "1105-CASH-CLEARING");
}

#[test]
fn refund_maps_to_contra_revenue() {
    let lines = derive_lines_v1("refund.v1", &obj(vec![("refund_amount_minor", num(1500)), ("currency", text("USD"))])).unwrap();
    assert_eq!(lines.len(), 2);
    assert_balanced(&lines);
    assert_eq!(lines[0].account_id, "4050-REFUNDS");
}

#[test]
fn inntopia_reservation_maps_to_deferred_revenue() {
    let lines = derive_lines_v1(
        "inntopia.reservation.captured.v1",
        &obj(vec![("total_amount_minor", num(41250)), ("currency", text("USD"))]),
    )
    .unwrap();
    assert_eq!(lines.len(), 2);
    assert_balanced(&lines);
    assert_eq!(lines[1].account_id, "2200-DEFERRED-REVENUE-RESERVATIONS");
}

#[test]
fn fee_assessed_maps_to_fee_expense_and_cash_clearing() {
    let lines = derive_lines_v1("fee.assessed.v1", &obj(vec![("fee_amount_minor", num(325)), ("currency", text("USD"))])).unwrap();
    assert_eq!(lines.len(), 2);
    assert_balanced(&lines);
    assert_eq!(lines[0].account_id, "6100-PAYMENT-FEES");
    assert_eq!(lines[1].account_id, "1105-CASH-CLEARING");
}

#[test]
fn chargeback_created_maps_to_losses_and_clearing() {
    let lines = derive_lines_v1(
        "chargeback.created.v1",
        &obj(vec![("chargeback_amount_minor", num(10000)), ("currency", text("USD"))]),
    )
    .unwrap();
    assert_eq!(lines.len(), 2);
    assert_balanced(&lines);
    assert_eq!(lines[0].account_id, "6150-CHARGEBACK-LOSSES");
    assert_eq!(lines[1].account_id, "1105-CASH-CLEARING");
}

#[test]
fn payout_cleared_maps_to_bank_and_clearing() {
    let lines = derive_lines_v1("payout.cleared.v1", &obj(vec![("amount_minor", num(9750)), ("currency", text("USD"))])).unwrap();
    assert_eq!(lines.len(), 2);
    assert_balanced(&lines);
    assert_eq!(lines[0].account_id, "1010-BANK-OPERATING");
    assert_eq!(lines[1].account_id, "1105-CASH-CLEARING");
}

#[test]
fn dispute_lifecycle_states_map_with_balanced_lines() {
    let payload = obj(vec![("amount_minor", num(5000)), ("currency", text("USD"))]);
    let opened = derive_lines_v1("dispute.opened.v1", &payload).unwrap();
    assert_balanced(&opened);
    assert_eq!(opened[0].account_id, "1205-DISPUTE-RECEIVABLE");
    assert_eq!(opened[1].account_id, "6150-CHARGEBACK-LOSSES");

    let won = derive_lines_v1("dispute.won.v1", &payload).unwrap();
    assert_balanced(&won);
    assert_eq!(won[0].account_id, "1105-CASH-CLEARING");
    assert_eq!(won[1].account_id, "1205-DISPUTE-RECEIVABLE");

    let lost = derive_lines_v1("dispute.lost.v1", &payload).unwrap();
    assert_balanced(&lost);
    assert_eq!(lost[0].account_id, "6150-CHARGEBACK-LOSSES");
    assert_eq!(lost[1].account_id, "1205-DISPUTE-RECEIVABLE");
}

#[test]
fn unsupported_type_is_rejected() {
    let error = derive_lines_v1("unknown.event.v1", &obj(vec![])).unwrap_err();
    assert_eq!(error, RuleEngineError::UnsupportedEventType("unknown.event.v1".to_string()));
}

#[test]
fn invalid_settlement_math_is_rejected() {
    let error = derive_lines_v1(
        "payment.settled.v1",
        &obj(vec![
            ("gross_amount_minor", num(10000)),
            ("fee_amount_minor", num(300)),
            ("net_amount_minor", num(9800)),
        ]),
    )
    .unwrap_err();
    assert_eq!(error, RuleEngineError::InvalidSettlementMath);
}

#[test]
fn dispute_opened_requires_positive_amount() {
    let error = derive_lines_v1("dispute.opened.v1", &obj(vec![("amount_minor", num(0))])).unwrap_err();
    assert_eq!(error, RuleEngineError::InvalidNumber("amount_minor"));
}

#[test]
fn intercompany_due_to_due_from_maps_to_intercompany_accounts() {
    let lines = derive_lines_v1(
        "intercompany.due_to_due_from.v1",
        &obj(vec![("amount_minor", num(15000)), ("currency", text("USD"))]),
    )
    .unwrap();
    assert_eq!(lines.len(), 2);
    assert_balanced(&lines);
    assert_eq!(lines[0].account_id, "1305-DUE-FROM-AFFILIATES");
    assert_eq!(lines[1].account_id, "2305-DUE-TO-AFFILIATES");
}

#[test]
fn consolidation_elimination_maps_to_elimination_accounts() {
    let lines = derive_lines_v1(
        "consolidation.elimination.v1",
        &obj(vec![("elimination_amount_minor", num(7750)), ("currency", text("USD"))]),
    )
    .unwrap();
    assert_eq!(lines.len(), 2);
    assert_balanced(&lines);
    assert_eq!(lines[0].account_id, "4999-INTERCOMPANY-ELIMINATION");
    assert_eq!(lines[1].account_id, "5999-INTERCOMPANY-ELIMINATION");
}

#[test]
fn fx_translation_positive_and_negative_both_balance() {
    let positive =
        derive_lines_v1("fx.translation.v1", &obj(vec![("translation_amount_minor", num(1234)), ("base_currency", text("USD"))])).unwrap();
    assert_balanced(&positive);
    assert_eq!(positive[0].account_id, "3100-CUMULATIVE-TRANSLATION-ADJUSTMENT");
    assert_eq!(positive[1].account_id, "7300-FX-TRANSLATION-GAIN-LOSS");

    let negative =
        derive_lines_v1("fx.translation.v1", &obj(vec![("translation_amount_minor", num(-1234)), ("base_currency", text("USD"))])).unwrap();
    assert_balanced(&negative);
    assert_eq!(negative[0].account_id, "7300-FX-TRANSLATION-GAIN-LOSS");
    assert_eq!(negative[1].account_id, "3100-CUMULATIVE-TRANSLATION-ADJUSTMENT");
    assert_eq!(negative[0].amount_minor, 1234);
}

#[test]
fn stripe_settlement_math_scenario_gives_exact_lines() {
    let lines = derive_lines_v1(
        "payment.settled.v1",
        &obj(vec![("gross_amount_minor", num(10000)), ("fee_amount_minor", num(250)), ("net_amount_minor", num(9750)), ("currency", text("USD"))]),
    )
    .unwrap();
    let got: Vec<(String, EntrySide, i64)> = lines.iter().map(|l| (l.account_id.clone(), l.entry_side, l.amount_minor)).collect();
    assert_eq!(
        got,
        vec![
            ("1000-CASH".to_string(), EntrySide::Debit, 9750),
            ("6100-PAYMENT-FEES".to_string(), EntrySide::Debit, 250),
            ("1105-CASH-CLEARING".to_string(), EntrySide::Credit, 10000),
        ]
    );
}

#[test]
fn zero_fee_settlement_has_two_lines_and_net_defaults() {
    let lines = derive_lines_v1("payment.settled.v1", &obj(vec![("amount_minor", num(5000))])).unwrap();
    assert_eq!(lines.len(), 2);
    assert_eq!(lines[0].amount_minor, 5000);
    assert_eq!(lines[0].currency, "USD");
    assert_balanced(&lines);
}

#[test]
fn negative_fee_and_missing_amount_are_rejected() {
    let fee = derive_lines_v1("payment.settled.v1", &obj(vec![("gross_amount_minor", num(100)), ("fee_amount_minor", num(-1))])).unwrap_err();
    assert_eq!(fee, RuleEngineError::InvalidNumber("fee_amount_minor"));
    let missing = derive_lines_v1("refund.v1", &obj(vec![("currency", text("USD"))])).unwrap_err();
    assert_eq!(missing, RuleEngineError::MissingField("amount_minor"));
    let zero_fx = derive_lines_v1("fx.translation.v1", &obj(vec![("amount_minor", num(0))])).unwrap_err();
    assert_eq!(zero_fx, RuleEngineError::InvalidNumber("translation_amount_minor"));
}

#[test]
fn string_amounts_and_nested_pointers_are_read() {
    let payload = obj(vec![
        ("totals", obj(vec![("grand_total", obj(vec![("amount_minor", text("4200")), ("currency", text("CAD"))]))])),
        ("base_amount_minor", num(3100)),
        ("base_currency", text("USD")),
    ]);
    let lines = derive_lines_v1("order.captured.v1", &payload).unwrap();
    assert_eq!(lines[0].amount_minor, 4200);
    assert_eq!(lines[0].currency, "CAD");
    assert_eq!(lines[0].base_amount_minor, 3100);
    assert_eq!(lines[1].base_currency, "USD");
    assert_balanced(&lines);
}

#[test]
fn intercompany_accounts_can_be_overridden() {
    let payload = obj(vec![
        ("amount_minor", num(700)),
        ("due_from_account_id", text("1306-DUE-FROM-CA")),
        ("due_to_account_id", text("2306-DUE-TO-US")),
    ]);
    let lines = derive_lines_v1("intercompany.due_to_due_from.v1", &payload).unwrap();
    assert_eq!(lines[0].account_id, "1306-DUE-FROM-CA");
    assert_eq!(lines[1].account_id, "2306-DUE-TO-US");
}

#[test]
fn every_vocabulary_type_balances() {
    let payload = obj(vec![
        ("amount_minor", num(1200)),
        ("gross_amount_minor", num(1200)),
        ("fee_amount_minor", num(200)),
        ("net_amount_minor", num(1000)),
        ("total_amount_minor", num(1200)),
        ("translation_amount_minor", num(-50)),
    ]);
    for event_type in [
        "order.captured.v1",
        "payment.settled.v1",
        "refund.v1",
        "fee.assessed.v1",
        "chargeback.created.v1",
        "payout.cleared.v1",
        "dispute.opened.v1",
        "dispute.won.v1",
        "dispute.lost.v1",
        "inntopia.reservation.captured.v1",
        "intercompany.due_to_due_from.v1",
        "consolidation.elimination.v1",
        "fx.translation.v1",
    ] {
        let lines = derive_lines_v1(event_type, &payload).unwrap();
        assert_balanced(&lines);
    }
}
