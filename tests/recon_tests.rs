use ledger_core::recon::{
    normalize, normalize_run_id, ratio_to_bps, reconcile_v1, route_exception, route_owner_queue, validate_exception,
    MatchOutcome, ReconException, ReconOrder, ReconPayment, ReconPayout, ReconReasonCode, ReconRunInput,
    ReconValidationError,
};

const FIXED_TS: i64 = 1_771_632_000;
const HOUR: i64 = 3600;

fn sample_exception(exception_type: &str, severity: &str) -> ReconException {
    ReconException {
        exception_id: "e1".into(),
        exception_type: exception_type.into(),
        severity: severity.into(),
        opened_at: FIXED_TS,
        owner: "recon_ops".into(),
        sla_due_at: FIXED_TS,
        resolution_code: None,
    }
}

fn order(order_id: &str, payment_id: &str, payout_id: &str, currency: &str, amount_minor: i64) -> ReconOrder {
    ReconOrder {
        order_id: order_id.into(),
        payment_id: payment_id.into(),
        payout_id: payout_id.into(),
        currency: currency.into(),
        amount_minor,
        captured_at: FIXED_TS,
    }
}

fn payment(payment_id: &str, order_id: &str, payout_id: &str, currency: &str, amount_minor: i64) -> ReconPayment {
    ReconPayment {
        payment_id: payment_id.into(),
        order_id: order_id.into(),
        payout_id: payout_id.into(),
        currency: currency.into(),
        amount_minor,
        settled_at: FIXED_TS,
    }
}

fn payout(payout_id: &str, payment_id: &str, bank_reference: &str, currency: &str, amount_minor: i64) -> ReconPayout {
    ReconPayout {
        payout_id: payout_id.into(),
        payment_id: payment_id.into(),
        bank_reference: bank_reference.into(),
        currency: currency.into(),
        amount_minor,
        settled_at: FIXED_TS,
    }
}

fn seeded_fixture() -> ReconRunInput {
    ReconRunInput {
        run_id: "sprint3_fixture".into(),
        run_started_at: FIXED_TS,
        tolerance_minor: 100,
        orders: vec![
            order("O-001", "P-001", "PO-001", "USD", 10_000),
            order("O-002", "P-002", "PO-002", "USD", 2_500),
            order("O-003", "P-003", "PO-003", "USD", 3_000),
            order("O-004", "P-004", "PO-004", "USD", 1_500),
            order("O-005", "P-005", "PO-005", "USD", 6_000),
            order("O-006", "P-006", "PO-006", "USD", 4_200),
            order("O-007", "P-007", "PO-007", "USD", 3_300),
            order("O-008", "P-008", "PO-008", "USD", 2_000),
            order("O-009", "P-009", "PO-009", "USD", 5_000),
            order("O-010", "P-010", "PO-010", "USD", 7_500),
            order("O-011", "P-011", "PO-011", "USD", 9_000),
        ],
        payments: vec![
            payment("P-001", "O-001", "PO-001", "USD", 10_000),
            payment("P-002", "O-002", "PO-002", "USD", 2_500),
            payment("P-003", "O-003", "PO-003", "USD", 3_000),
            payment("P-004", "O-004", "PO-004", "USD", 1_500),
            payment("P-005", "O-005", "PO-005", "USD", 6_000),
            payment("P-006", "O-006", "PO-006", "USD", 4_200),
            payment("P-007", "O-007", "PO-007", "USD", 3_300),
            payment("P-008", "O-008", "PO-008", "USD", 2_080),
            payment("P-009", "O-009", "PO-009", "CAD", 5_000),
            payment("P-010", "O-010", "PO-010", "USD", 7_500),
            payment("P-011", "O-011", "PO-011", "USD", 9_000),
            payment("P-011", "O-011", "PO-011", "USD", 9_000),
        ],
        payouts: vec![
            payout("PO-001", "P-001", "BANK-001", "USD", 10_000),
            payout("PO-002", "P-002", "BANK-002", "USD", 2_500),
            payout("PO-003", "P-003", "BANK-003", "USD", 3_000),
            payout("PO-004", "P-004", "BANK-004", "USD", 1_500),
            payout("PO-005", "P-005", "BANK-005", "USD", 6_000),
            payout("PO-006", "P-006", "BANK-006", "USD", 4_200),
            payout("PO-007", "P-007", "BANK-007", "USD", 3_300),
            payout("PO-008", "P-008", "BANK-008", "USD", 2_080),
            payout("PO-009", "P-009", "BANK-009", "CAD", 5_000),
            payout("PO-011", "P-011", "BANK-011", "USD", 9_000),
        ],
    }
}

#[test]
fn owner_is_required() {
    let mut ex = sample_exception("AMOUNT_MISMATCH", "HIGH");
    ex.owner = " ".into();
    assert_eq!(validate_exception(&ex), Err(ReconValidationError::MissingOwner));
}

#[test]
fn severity_is_required() {
    let mut ex = sample_exception("AMOUNT_MISMATCH", "\t");
    ex.owner = "ops".into();
    assert_eq!(validate_exception(&ex), Err(ReconValidationError::MissingSeverity));
    assert_eq!(validate_exception(&sample_exception("x", "LOW")), Ok(()));
}

#[test]
fn duplicate_outcome_takes_precedence_over_exception_type() {
    let route = route_exception(&sample_exception("AMOUNT_MISMATCH", "LOW"), MatchOutcome::Duplicate);
    assert_eq!(route.reason_code, ReconReasonCode::DuplicateCandidate);
    assert_eq!(route.owner_queue, "DATA_QUALITY");
}

#[test]
fn routes_case_insensitive_bank_reference_exceptions() {
    let route = route_exception(&sample_exception("bank reference missing", "MEDIUM"), MatchOutcome::Unmatched);
    assert_eq!(route.reason_code, ReconReasonCode::MissingBankReference);
    assert_eq!(route.owner_queue, "TREASURY_OPS");
}

#[test]
fn high_risk_investigate_routes_to_risk_control() {
    let route = route_exception(&sample_exception("investigate_manual", "CRITICAL"), MatchOutcome::Investigate);
    assert_eq!(route.reason_code, ReconReasonCode::HighRiskInvestigate);
    assert_eq!(route.owner_queue, "RISK_CONTROL");
}

#[test]
fn tolerance_match_routes_to_auto_clear_review() {
    let route = route_exception(&sample_exception("amount mismatch", "LOW"), MatchOutcome::MatchedTolerance);
    assert_eq!(route.reason_code, ReconReasonCode::ToleranceMatchReview);
    assert_eq!(route.owner_queue, "AUTO_CLEAR_REVIEW");
}

#[test]
fn unknown_route_defaults_to_recon_analyst() {
    let route = route_exception(&sample_exception("vendor_note", "LOW"), MatchOutcome::Unmatched);
    assert_eq!(route.reason_code, ReconReasonCode::Unclassified);
    assert_eq!(route.owner_queue, "RECON_ANALYST");
}

#[test]
fn fx_and_stripe_words_route_by_substring() {
    assert_eq!(route_exception(&sample_exception("fx-drift", "LOW"), MatchOutcome::Unmatched).reason_code, ReconReasonCode::CurrencyMismatch);
    assert_eq!(route_exception(&sample_exception(" stripe gap ", "LOW"), MatchOutcome::Unmatched).reason_code, ReconReasonCode::MissingGatewayReference);
    assert_eq!(route_exception(&sample_exception("x", "high"), MatchOutcome::Investigate).reason_code, ReconReasonCode::HighRiskInvestigate);
    assert_eq!(route_exception(&sample_exception("x", "high"), MatchOutcome::PartialMatch).reason_code, ReconReasonCode::PartialAllocationRequired);
    assert_eq!(route_owner_queue(ReconReasonCode::AmountMismatch), "PAYMENTS_OPS");
}

#[test]
fn reconcile_v1_is_deterministic_for_seeded_fixture() {
    let fixture = seeded_fixture();
    let first = reconcile_v1(&fixture);
    let second = reconcile_v1(&fixture);
    assert_eq!(first, second);
}

#[test]
fn reconcile_v1_routes_seeded_mismatches_to_exception_queue() {
    let fixture = seeded_fixture();
    let result = reconcile_v1(&fixture);

    assert_eq!(result.exception_queue.len(), 3);
    assert_eq!(result.metrics.routed_exception_rate_bps, 10_000);

    let currency = result.exception_queue.iter().find(|item| item.order_id == "O-009").expect("currency mismatch should be present");
    assert_eq!(currency.reason_code, ReconReasonCode::CurrencyMismatch);
    assert_eq!(currency.owner_queue, "PAYMENTS_OPS");
    assert_eq!(currency.sla_due_at, fixture.run_started_at + 4 * HOUR);

    let missing_payout = result.exception_queue.iter().find(|item| item.order_id == "O-010").expect("missing payout should be present");
    assert_eq!(missing_payout.reason_code, ReconReasonCode::MissingBankReference);
    assert_eq!(missing_payout.owner_queue, "TREASURY_OPS");
    assert_eq!(missing_payout.sla_due_at, fixture.run_started_at + 8 * HOUR);

    let duplicate = result.exception_queue.iter().find(|item| item.order_id == "O-011").expect("duplicate should be present");
    assert_eq!(duplicate.reason_code, ReconReasonCode::DuplicateCandidate);
    assert_eq!(duplicate.owner_queue, "DATA_QUALITY");
    assert_eq!(duplicate.sla_due_at, fixture.run_started_at + 24 * HOUR);
}

#[test]
fn reconcile_v1_fixture_auto_match_rate_meets_gate() {
    let result = reconcile_v1(&seeded_fixture());
    assert_eq!(result.metrics.total_candidates, 11);
    assert_eq!(result.metrics.auto_matched, 8);
    assert!(result.metrics.auto_match_rate_bps as f64 / 100.0 >= 70.0);
}

#[test]
fn fixture_metrics_and_exception_ids_are_exact() {
    let result = reconcile_v1(&seeded_fixture());
    assert_eq!(result.metrics.auto_match_rate_bps, 7272);
    assert_eq!(result.metrics.routed_exceptions, 3);
    assert_eq!(result.metrics.non_auto_candidates, 3);
    let ids: Vec<&str> = result.exception_queue.iter().map(|e| e.exception_id.as_str()).collect();
    assert_eq!(ids, vec!["SPRINT3_FIXTURE-EX-0001", "SPRINT3_FIXTURE-EX-0002", "SPRINT3_FIXTURE-EX-0003"]);
    assert_eq!(result.matches[7].outcome, MatchOutcome::MatchedTolerance);
    assert_eq!(result.matches[0].outcome, MatchOutcome::MatchedExact);
    assert_eq!(result.matches[10].matched_payment_id, None);
}

#[test]
fn orders_are_matched_in_ascending_id_order() {
    let mut input = seeded_fixture();
    input.orders.reverse();
    let result = reconcile_v1(&input);
    let ids: Vec<&str> = result.matches.iter().map(|m| m.order_id.as_str()).collect();
    assert_eq!(ids[0], "O-001");
    assert_eq!(ids[10], "O-011");
}

#[test]
fn amount_outside_tolerance_on_one_side_is_partial() {
    let input = ReconRunInput {
        run_id: " ".into(),
        run_started_at: FIXED_TS,
        tolerance_minor: -1,
        orders: vec![order("A", "P", "Q", "usd", 1000), order("B", "P2", "Q2", "USD", 1000)],
        payments: vec![payment("P", "A", "Q", "USD ", 1000), payment("P2", "B", "Q2", "USD", 1300)],
        payouts: vec![payout("Q", "P", "R", "USD", 1500), payout("Q2", "P2", "R", "USD", 1700)],
    };
    let result = reconcile_v1(&input);
    assert_eq!(result.matches[0].outcome, MatchOutcome::PartialMatch);
    assert_eq!(result.matches[0].reason_code, Some(ReconReasonCode::PartialAllocationRequired));
    assert_eq!(result.matches[1].outcome, MatchOutcome::Unmatched);
    assert_eq!(result.matches[1].reason_code, Some(ReconReasonCode::AmountMismatch));
    assert_eq!(result.exception_queue[0].exception_id, "RECON_RUN-EX-0001");
    assert_eq!(result.metrics.auto_match_rate_bps, 0);
}

#[test]
fn empty_run_has_full_routed_rate() {
    let input = ReconRunInput { run_id: "r".into(), run_started_at: 0, tolerance_minor: 0, orders: vec![], payments: vec![], payouts: vec![] };
    let result = reconcile_v1(&input);
    assert_eq!(result.metrics.total_candidates, 0);
    assert_eq!(result.metrics.auto_match_rate_bps, 10_000);
    assert_eq!(result.metrics.routed_exception_rate_bps, 10_000);
}

#[test]
fn normalization_helpers() {
    assert_eq!(normalize(" bank-ref missing "), "BANK_REF_MISSING");
    assert_eq!(normalize_run_id("  "), "RECON_RUN");
    assert_eq!(ratio_to_bps(8, 11), 7272);
    assert_eq!(ratio_to_bps(0, 0), 10_000);
}
