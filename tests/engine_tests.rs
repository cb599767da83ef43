use ledger_core::audit::{AuditSealError, InMemoryAuditSealStore};
use ledger_core::date::CalendarDate;
use ledger_core::engine::{PostEventRequest, PostRejection, PostingEngine};
use ledger_core::json::JsonValue;
use ledger_core::posting::{BoundaryError, LegalHoldRule, Provenance};

fn order_request(amount: i64) -> PostEventRequest {
    PostEventRequest {
        event_type: "order.captured.v1".to_string(),
        tenant_id: "tenant_1".to_string(),
        legal_entity_id: "US_CO_01".to_string(),
        location_id: Some("BRECK_BASE_AREA".to_string()),
        ledger_book: "US_GAAP".to_string(),
        accounting_date: "2026-02-21".to_string(),
        source_event_id: "evt_1".to_string(),
        posting_run_id: "run_1".to_string(),
        payload: JsonValue::Object(vec![
            ("amount_minor".to_string(), JsonValue::Int(amount)),
            ("currency".to_string(), JsonValue::Str("USD".to_string())),
        ]),
        lines: vec![],
        provenance: Provenance {
            book_policy_id: "policy_dual_book".to_string(),
            policy_version: "1.0.0".to_string(),
            fx_rate_set_id: "fx_2026_02_21".to_string(),
            ruleset_version: "v1".to_string(),
            workflow_id: Some("wf_1".to_string()),
        },
    }
}

fn request_json(amount: i64) -> String {
    format!("{{\"accounting_date\":\"2026-02-21\",\"amount_minor\":{amount},\"event_type\":\"order.captured.v1\"}}")
}

#[test]
fn happy_path_post_then_replay() {
    let mut engine = PostingEngine::new();
    let first = engine.post_event(Some("same-key"), &order_request(10000), &request_json(10000), 1).unwrap();
    assert!(!first.1);
    let second = engine.post_event(Some("same-key"), &order_request(10000), &request_json(10000), 2).unwrap();
    assert!(second.1);
    assert_eq!(first.0, second.0);
    assert_eq!(engine.journals().len(), 1);
    assert!(engine.journals()[0].header.journal_number.starts_with("S2-"));
}

#[test]
fn payload_mismatch_is_conflict_without_new_journal() {
    let mut engine = PostingEngine::new();
    engine.post_event(Some("same-key"), &order_request(10000), &request_json(10000), 1).unwrap();
    let conflict = engine.post_event(Some("same-key"), &order_request(9000), &request_json(9000), 2);
    assert_eq!(conflict, Err(PostRejection::IdempotencyPayloadMismatch));
    assert_eq!(engine.journals().len(), 1);
}

#[test]
fn closed_period_refusal_replays_identically() {
    let mut engine = PostingEngine::new();
    engine.lock_period("tenant_1", "US_CO_01", "US_GAAP", "2026-02").unwrap();
    let first = engine.post_event(Some("new-key"), &order_request(10000), &request_json(10000), 1);
    assert_eq!(first, Err(PostRejection::PeriodClosed("2026-02".to_string())));
    let again = engine.post_event(Some("new-key"), &order_request(10000), &request_json(10000), 2);
    assert_eq!(again, first);
    assert_eq!(engine.journals().len(), 0);
}

#[test]
fn audit_tampering_after_two_posts_is_detected() {
    let mut engine = PostingEngine::new();
    engine.post_event(Some("k1"), &order_request(10000), &request_json(10000), 1).unwrap();
    let mut second = order_request(500);
    second.source_event_id = "evt_2".to_string();
    engine.post_event(Some("k2"), &second, &request_json(500), 2).unwrap();
    assert_eq!(engine.verify_seals(), Ok(()));
    let mut entries = engine.seals();
    assert_eq!(entries.len(), 2);
    entries[1].payload_hash = "overwritten".to_string();
    assert_eq!(InMemoryAuditSealStore::from_entries(entries).verify_chain(), Err(AuditSealError::Tampered { sequence: 2 }));
}

#[test]
fn unsupported_type_and_missing_key_are_refused_first() {
    let mut engine = PostingEngine::new();
    let mut req = order_request(100);
    req.event_type = "mystery.v1".to_string();
    assert_eq!(engine.post_event(Some("k"), &req, "{}", 1), Err(PostRejection::UnsupportedEventType));
    assert_eq!(engine.post_event(None, &order_request(100), "{}", 1), Err(PostRejection::MissingIdempotencyKey));
}

#[test]
fn location_and_hold_checks_apply() {
    let mut engine = PostingEngine::new();
    let mut req = order_request(100);
    req.location_id = Some("WHISTLER_VILLAGE".to_string());
    assert_eq!(
        engine.post_event(Some("k1"), &req, "{\"a\":1}", 1),
        Err(PostRejection::Boundary(BoundaryError::LocationNotAllowedForLegalEntity))
    );
    engine
        .upsert_legal_hold(LegalHoldRule {
            hold_id: "hold_1".to_string(),
            tenant_id: "tenant_1".to_string(),
            legal_entity_id: "US_CO_01".to_string(),
            ledger_book: "US_GAAP".to_string(),
            start_date: CalendarDate { year: 2026, month: 2, day: 1 },
            end_date: None,
            reason: "litigation".to_string(),
            retention_days: 2555,
        }, 5)
        .unwrap();
    assert_eq!(engine.seals().last().unwrap().event_type, "legal_hold.upserted");
    assert_eq!(engine.seals().last().unwrap().entity_scope, vec!["US_CO_01".to_string()]);
    let held = engine.post_event(Some("k2"), &order_request(100), "{\"a\":2}", 1);
    assert_eq!(
        held,
        Err(PostRejection::LegalHoldActive { hold_id: "hold_1".to_string(), reason: "litigation".to_string(), retention_days: 2555 })
    );
    let mut bad_date = order_request(100);
    bad_date.accounting_date = "2026/02/21".to_string();
    assert_eq!(engine.post_event(Some("k3"), &bad_date, "{\"a\":3}", 1), Err(PostRejection::InvalidAccountingDate));
}

fn adjustment(source_event_id: &str, amount: i64) -> ledger_core::posting::AdjustJournalRequest {
    ledger_core::posting::AdjustJournalRequest {
        tenant_id: "tenant_1".to_string(),
        legal_entity_id: "US_CO_01".to_string(),
        ledger_book: "US_GAAP".to_string(),
        accounting_date: "2026-02-22".to_string(),
        source_event_id: source_event_id.to_string(),
        posting_run_id: "run_2".to_string(),
        reason_code: "PRICE_CORRECTION".to_string(),
        location_id: Some("BRECK_BASE_AREA".to_string()),
        lines: vec![
            ledger_core::posting::PostLine { account_id: "1105-CASH-CLEARING".into(), entry_side: "debit".into(), amount_minor: amount, currency: "USD".into(), base_amount_minor: amount, base_currency: "USD".into() },
            ledger_core::posting::PostLine { account_id: "4000-REVENUE".into(), entry_side: "credit".into(), amount_minor: amount, currency: "USD".into(), base_amount_minor: amount, base_currency: "USD".into() },
        ],
        provenance: Provenance {
            book_policy_id: "policy_dual_book".to_string(),
            policy_version: "1.0.0".to_string(),
            fx_rate_set_id: "fx_2026_02_22".to_string(),
            ruleset_version: "v1".to_string(),
            workflow_id: None,
        },
    }
}

#[test]
fn reversal_happens_once() {
    let mut engine = PostingEngine::new();
    let (id, _) = engine.post_event(Some("k1"), &order_request(10000), &request_json(10000), 1).unwrap();
    let reversed = engine.reverse_journal(id, 2).unwrap();
    assert_eq!(reversed.status, "REVERSED");
    assert_eq!(reversed.journal_id.len(), 36);
    assert_eq!(engine.reverse_journal(id, 3), Err(PostRejection::Ledger(ledger_core::ledger::LedgerError::AlreadyReversed)));
    assert_eq!(engine.reverse_journal(42, 3), Err(PostRejection::Ledger(ledger_core::ledger::LedgerError::NotFound)));
    assert_eq!(engine.seals().len(), 2);
    assert_eq!(engine.verify_seals(), Ok(()));
}

#[test]
fn adjustment_reverses_original_and_posts_replacement() {
    let mut engine = PostingEngine::new();
    let (id, _) = engine.post_event(Some("k1"), &order_request(10000), &request_json(10000), 1).unwrap();
    let response = engine.adjust_journal(id, &adjustment("evt_adj_1", 9500), 2).unwrap();
    assert_eq!(response.status, "ADJUSTED");
    assert_eq!(response.audit_seal.len(), 64);
    let journals = engine.journals();
    assert_eq!(journals.len(), 2);
    assert_eq!(journals[0].header.status, ledger_core::ledger::JournalStatus::Reversed);
    assert!(journals[1].header.journal_number.starts_with("ADJ-"));
    assert_eq!(journals[1].header.source_event_ids[1], format!("adjusts:{}", response.reversed_journal_id));
    assert_eq!(engine.verify_seals(), Ok(()));
}

#[test]
fn failed_adjustments_change_nothing() {
    let mut engine = PostingEngine::new();
    let (id, _) = engine.post_event(Some("k1"), &order_request(10000), &request_json(10000), 1).unwrap();
    let mut empty = adjustment("evt_adj_2", 100);
    empty.lines.clear();
    assert_eq!(engine.adjust_journal(id, &empty, 2), Err(PostRejection::MissingAdjustmentLines));
    let mut other_scope = adjustment("evt_adj_3", 100);
    other_scope.ledger_book = "IFRS".to_string();
    assert_eq!(engine.adjust_journal(id, &other_scope, 2), Err(PostRejection::AdjustmentScopeMismatch));
    let mut unbalanced = adjustment("evt_adj_4", 100);
    unbalanced.lines[1].amount_minor = 99;
    assert_eq!(engine.adjust_journal(id, &unbalanced, 2), Err(PostRejection::Ledger(ledger_core::ledger::LedgerError::Unbalanced)));
    assert_eq!(engine.journals()[0].header.status, ledger_core::ledger::JournalStatus::Posted);
    assert_eq!(engine.journals().len(), 1);
}

#[test]
fn posting_and_reversal_seals_name_their_events() {
    let mut engine = PostingEngine::new();
    let (id, _) = engine.post_event(Some("k1"), &order_request(10000), &request_json(10000), 1).unwrap();
    let journal = &engine.journals()[0];
    assert_eq!(journal.header.source_event_ids, vec!["evt_1".to_string()]);
    assert_eq!(journal.header.status, ledger_core::ledger::JournalStatus::Posted);
    assert_eq!(engine.seals()[0].event_type, "posting.posted");
    engine.reverse_journal(id, 2).unwrap();
    assert_eq!(engine.seals()[1].event_type, "journal.reversed");
    let seals_before = engine.seals().len();
    assert!(engine.reverse_journal(id, 3).is_err());
    assert_eq!(engine.seals().len(), seals_before);
}

#[test]
fn intercompany_post_seals_both_entities() {
    let mut engine = PostingEngine::new();
    let mut req = order_request(500);
    req.event_type = "intercompany.due_to_due_from.v1".to_string();
    req.payload = JsonValue::Object(vec![
        ("amount_minor".to_string(), JsonValue::Int(500)),
        ("counterparty_legal_entity_id".to_string(), JsonValue::Str("CA_BC_01".to_string())),
    ]);
    engine.post_event(Some("ic"), &req, "{\"ic\":1}", 1).unwrap();
    assert_eq!(engine.seals()[0].entity_scope, vec!["CA_BC_01".to_string(), "US_CO_01".to_string()]);
}

#[test]
fn failed_adjustment_adds_no_seal() {
    let mut engine = PostingEngine::new();
    let (id, _) = engine.post_event(Some("k1"), &order_request(10000), &request_json(10000), 1).unwrap();
    let mut unbalanced = adjustment("evt_adj_9", 100);
    unbalanced.lines[1].amount_minor = 1;
    assert!(engine.adjust_journal(id, &unbalanced, 2).is_err());
    assert_eq!(engine.seals().len(), 1);
    let response = engine.adjust_journal(id, &adjustment("evt_adj_10", 100), 3).unwrap();
    assert_eq!(engine.seals().last().unwrap().event_type, "journal.adjusted");
    assert_eq!(engine.seals().last().unwrap().seal, response.audit_seal);
}

#[test]
fn journal_numbers_use_the_leading_uuid_bytes() {
    assert_eq!(ledger_core::engine::journal_number_for(0x1234_5678_9abc_def0_0000_0000_0000_0001), "S2-12345678");
    assert_eq!(ledger_core::engine::journal_number_for(0x0000_00ff_0000_0000_0000_0000_0000_0000), "S2-000000ff");
}

#[test]
fn revrec_rollforward_is_book_scoped() {
    let mut engine = PostingEngine::new();
    engine.post_event(Some("k1"), &order_request(10000), &request_json(10000), 1).unwrap();
    let mut refund = order_request(1500);
    refund.event_type = "refund.v1".to_string();
    refund.source_event_id = "evt_r".to_string();
    engine.post_event(Some("k2"), &refund, "{\"r\":1}", 2).unwrap();
    let mut deferred = order_request(4000);
    deferred.event_type = "inntopia.reservation.captured.v1".to_string();
    deferred.payload = JsonValue::Object(vec![("total_amount_minor".to_string(), JsonValue::Int(4000))]);
    engine.post_event(Some("k3"), &deferred, "{\"d\":1}", 3).unwrap();
    let mut other_book = order_request(777);
    other_book.ledger_book = "IFRS".to_string();
    engine.post_event(Some("k4"), &other_book, "{\"o\":1}", 4).unwrap();

    let journals = engine.journals();
    let roll = ledger_core::revrec::revrec_rollforward(&journals, "US_GAAP").unwrap();
    assert_eq!(roll.journal_count, 3);
    assert_eq!(roll.recognized_revenue_minor, 10000);
    assert_eq!(roll.deferred_revenue_ending_minor, 4000);
    let disclosures = ledger_core::revrec::revrec_disclosures(&journals, "US_GAAP").unwrap();
    assert_eq!(disclosures.refund_contra_revenue_minor, -1500);
    assert_eq!(disclosures.policy_versions, vec!["1.0.0".to_string()]);
    assert_eq!(disclosures.fx_rate_sets, vec!["fx_2026_02_21".to_string()]);
    let ifrs = ledger_core::revrec::revrec_rollforward(&journals, "IFRS").unwrap();
    assert_eq!(ifrs.journal_count, 1);
    assert_eq!(ifrs.recognized_revenue_minor, 777);
}

#[test]
fn reversed_journals_leave_the_rollforward() {
    let mut engine = PostingEngine::new();
    let (id, _) = engine.post_event(Some("k1"), &order_request(10000), &request_json(10000), 1).unwrap();
    engine.reverse_journal(id, 2).unwrap();
    let roll = ledger_core::revrec::revrec_rollforward(&engine.journals(), "US_GAAP").unwrap();
    assert_eq!(roll.journal_count, 0);
    assert_eq!(roll.recognized_revenue_minor, 0);
}
