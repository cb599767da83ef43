use ledger_core::adapters::{canonical_event_id, default_idempotency_key, SquareEventKind, StripeAdapter, StripeEventKind};
use ledger_core::cutover::{evaluate_cutover_rehearsal, CutoverCheckpoint, ReplayBackfillResult, ReplayBackfillTelemetry};

fn replay(objective_met: bool) -> ReplayBackfillResult {
    ReplayBackfillResult {
        hashes: vec!["h1".to_string()],
        telemetry: ReplayBackfillTelemetry {
            total_events: 1,
            total_attempts: 1,
            first_attempt_failures: 0,
            recovered_events: 0,
            failed_events: 0,
            simulated_recovery_time_ms: 100,
            recovery_target_ms: 1000,
            objective_met,
        },
    }
}

#[test]
fn cutover_rehearsal_fails_when_checkpoint_fails() {
    let result = evaluate_cutover_rehearsal(
        &replay(true),
        true,
        &[CutoverCheckpoint { name: "stripe_cutover_dry_run".to_string(), passed: false }],
    );
    assert!(!result.passed);
}

#[test]
fn cutover_rehearsal_passes_when_all_checkpoints_pass() {
    let result = evaluate_cutover_rehearsal(
        &replay(true),
        true,
        &[CutoverCheckpoint { name: "square_cutover_dry_run".to_string(), passed: true }],
    );
    assert!(result.passed);
}

#[test]
fn rehearsal_lists_builtin_checkpoints_first() {
    let result = evaluate_cutover_rehearsal(&replay(false), true, &[]);
    assert!(!result.passed);
    assert!(!result.replay_objective_met);
    assert_eq!(result.checkpoint_results.len(), 2);
    assert_eq!(result.checkpoint_results[0].name, "replay_recovery_objective");
    assert_eq!(result.checkpoint_results[1].name, "rollback_checkpoint");
    let no_rollback = evaluate_cutover_rehearsal(&replay(true), false, &[]);
    assert!(!no_rollback.passed);
}

#[test]
fn adapter_kinds_map_to_canonical_types() {
    assert_eq!(StripeEventKind::Settlement.event_type(), "payment.settled.v1");
    assert_eq!(StripeEventKind::ChargeCaptured.idempotency_suffix(), "charge_captured");
    assert_eq!(SquareEventKind::Payout.event_type(), "payout.cleared.v1");
    assert_eq!(SquareEventKind::Tender.idempotency_suffix(), "tender");
    assert_eq!(StripeAdapter.source_system(), "stripe");
}

#[test]
fn canonical_event_identity_is_deterministic() {
    let id = canonical_event_id("stripe", "evt_1", "abc");
    assert_eq!(id, "stripe-evt_1-ba7816bf8f01");
    assert_eq!(default_idempotency_key("square", "evt_9", "sale"), "square:evt_9:sale");
}
