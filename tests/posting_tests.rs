use ledger_core::date::CalendarDate;
use ledger_core::json::JsonValue;
use ledger_core::ledger::{validate_balanced, EntrySide};
use ledger_core::posting::{
    default_location_allowlist, derive_lines_from_post_lines, deterministic_journal_id, legal_hold_key, number_derived_lines,
    parse_entry_side, resolve_location_id, signed_amount, validate_intercompany_counterparty, BoundaryError, LegalHoldError,
    LegalHoldRegistry, LegalHoldRule, PostLine,
};
use ledger_core::rule_engine::{derive_lines_v1, RuleEngineError};

fn obj(members: Vec<(&str, JsonValue)>) -> JsonValue {
    JsonValue::Object(members.into_iter().map(|(k, v)| (k.to_string(), v)).collect())
}

fn date(year: i32, month: u32, day: u32) -> CalendarDate {
    CalendarDate { year, month, day }
}

fn hold(start: CalendarDate, end: Option<CalendarDate>) -> LegalHoldRule {
    LegalHoldRule {
        hold_id: "hold_1".to_string(),
        tenant_id: "tenant_1".to_string(),
        legal_entity_id: "US_CO_01".to_string(),
        ledger_book: "US_GAAP".to_string(),
        start_date: start,
        end_date: end,
        reason: "litigation".to_string(),
        retention_days: 2555,
    }
}

#[test]
fn legal_hold_blocks_dates_in_range_only() {
    let mut holds = LegalHoldRegistry::new();
    holds.upsert(hold(date(2026, 2, 1), Some(date(2026, 2, 28)))).unwrap();
    let blocked = holds.validate("tenant_1", "US_CO_01", "US_GAAP", date(2026, 2, 21));
    assert_eq!(
        blocked,
        Err(LegalHoldError::LegalHoldActive { hold_id: "hold_1".to_string(), reason: "litigation".to_string(), retention_days: 2555 })
    );
    assert_eq!(holds.validate("tenant_1", "US_CO_01", "US_GAAP", date(2026, 3, 1)), Ok(()));
    assert_eq!(holds.validate("tenant_1", "US_CO_01", "IFRS", date(2026, 2, 21)), Ok(()));
}

#[test]
fn legal_hold_range_must_not_end_before_start() {
    let mut holds = LegalHoldRegistry::new();
    assert_eq!(holds.upsert(hold(date(2026, 2, 10), Some(date(2026, 2, 9)))), Err(LegalHoldError::InvalidLegalHoldRange));
    assert_eq!(holds.validate("tenant_1", "US_CO_01", "US_GAAP", date(2026, 2, 10)), Ok(()));
}

#[test]
fn last_written_hold_wins() {
    let mut holds = LegalHoldRegistry::new();
    holds.upsert(hold(date(2026, 1, 1), None)).unwrap();
    holds.upsert(hold(date(2027, 1, 1), None)).unwrap();
    assert_eq!(holds.validate("tenant_1", "US_CO_01", "US_GAAP", date(2026, 6, 1)), Ok(()));
    assert!(holds.validate("tenant_1", "US_CO_01", "US_GAAP", date(2027, 6, 1)).is_err());
    assert_eq!(legal_hold_key("t", "e", "b"), "t::e::b");
}

#[test]
fn entry_sides_parse_case_insensitively() {
    assert_eq!(parse_entry_side("Debit"), Ok(EntrySide::Debit));
    assert_eq!(parse_entry_side("CREDIT"), Ok(EntrySide::Credit));
    assert_eq!(parse_entry_side("sideways"), Err(RuleEngineError::InvalidEntrySide("sideways".to_string())));
    assert_eq!(signed_amount(EntrySide::Debit, 250), -250);
    assert_eq!(signed_amount(EntrySide::Credit, 250), 250);
}

#[test]
fn explicit_lines_are_numbered() {
    let lines = vec![
        PostLine { account_id: "A".into(), entry_side: "debit".into(), amount_minor: 5, currency: "USD".into(), base_amount_minor: 5, base_currency: "USD".into() },
        PostLine { account_id: "B".into(), entry_side: "credit".into(), amount_minor: 5, currency: "USD".into(), base_amount_minor: 5, base_currency: "USD".into() },
    ];
    let journal = derive_lines_from_post_lines(&lines).unwrap();
    assert_eq!(journal[0].line_number, 1);
    assert_eq!(journal[1].line_number, 2);
    assert_eq!(journal[1].entry_side, EntrySide::Credit);
    let mut bad = lines.clone();
    bad[1].entry_side = "both".into();
    assert_eq!(derive_lines_from_post_lines(&bad), Err(RuleEngineError::InvalidEntrySide("both".to_string())));
}

#[test]
fn derived_lines_become_balanced_journal_lines() {
    let derived = derive_lines_v1("order.captured.v1", &obj(vec![("amount_minor", JsonValue::Int(10000))])).unwrap();
    let journal = number_derived_lines(derived);
    assert_eq!(journal.len(), 2);
    assert_eq!(journal[0].line_number, 1);
    assert_eq!(validate_balanced(&journal), Ok(()));
}

#[test]
fn journal_ids_are_deterministic() {
    let a = deterministic_journal_id("same-key", "abc");
    let b = deterministic_journal_id("same-key", "abc");
    let c = deterministic_journal_id("other-key", "abc");
    assert_eq!(a, b);
    assert_ne!(a, c);
}

#[test]
fn location_resolution_and_boundaries() {
    let payload = obj(vec![("routing", obj(vec![("location_id", JsonValue::Str("VAIL_BASE_LODGE".into()))]))]);
    assert_eq!(resolve_location_id(&Some("  BRECK_BASE_AREA ".to_string()), &payload), Ok("BRECK_BASE_AREA".to_string()));
    assert_eq!(resolve_location_id(&Some(" ".to_string()), &payload), Ok("VAIL_BASE_LODGE".to_string()));
    assert_eq!(resolve_location_id(&None, &obj(vec![])), Err(BoundaryError::MissingLocationId));

    let allow = default_location_allowlist();
    assert_eq!(allow.validate_location_boundary("US_CO_01", "BRECK_BASE_AREA"), Ok(()));
    assert_eq!(allow.validate_location_boundary("US_CO_01", "WHISTLER_VILLAGE"), Err(BoundaryError::LocationNotAllowedForLegalEntity));
    assert_eq!(allow.validate_location_boundary("XX", "BRECK_BASE_AREA"), Err(BoundaryError::UnknownLegalEntityBoundary));
}

#[test]
fn intercompany_counterparty_rules() {
    let allow = default_location_allowlist();
    let ic = "intercompany.due_to_due_from.v1";
    assert_eq!(validate_intercompany_counterparty(&allow, "order.captured.v1", "US_CO_01", &obj(vec![])), Ok(()));
    assert_eq!(validate_intercompany_counterparty(&allow, ic, "US_CO_01", &obj(vec![])), Err(BoundaryError::MissingCounterpartyLegalEntityId));
    let same = obj(vec![("counterparty_legal_entity_id", JsonValue::Str("US_CO_01".into()))]);
    assert_eq!(validate_intercompany_counterparty(&allow, ic, "US_CO_01", &same), Err(BoundaryError::InvalidCounterpartyLegalEntity));
    let unknown = obj(vec![("counterparty_legal_entity_id", JsonValue::Str("MX_01".into()))]);
    assert_eq!(validate_intercompany_counterparty(&allow, "consolidation.elimination.v1", "US_CO_01", &unknown), Err(BoundaryError::UnknownCounterpartyLegalEntity));
    let ok = obj(vec![("intercompany", obj(vec![("counterparty_legal_entity_id", JsonValue::Str("CA_BC_01".into()))]))]);
    assert_eq!(validate_intercompany_counterparty(&allow, ic, "US_CO_01", &ok), Ok(()));
}
