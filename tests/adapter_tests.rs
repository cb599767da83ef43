use ledger_core::adapters::{
    detect_square_event_kind, detect_stripe_event_kind, tender_settlement, InntopiaAdapter, RawEvent, SquareEventKind, StripeEventKind,
};
use ledger_core::json::{get_member, write_json, JsonValue};

fn obj(members: Vec<(&str, JsonValue)>) -> JsonValue {
    JsonValue::Object(members.into_iter().map(|(k, v)| (k.to_string(), v)).collect())
}

fn text(s: &str) -> JsonValue {
    JsonValue::Str(s.to_string())
}

fn reservation_payload() -> JsonValue {
    obj(vec![
        ("business_date", text("2026-02-21")),
        ("correlation_id", text("corr_456")),
        ("currency", text("USD")),
        ("idempotency_key", text("inntopia:evt_123")),
        ("legal_entity_id", text("US_CO_01")),
        ("reservation_id", text("resv_001")),
        ("tenant_id", text("tenant_1")),
        ("total_amount_minor", JsonValue::Int(41250)),
        ("trace", obj(vec![("traceparent", text("00-4bf92f3577b34da6a3ce929d0e0e4736-1111111111111111-01"))])),
    ])
}

#[test]
fn normalizes_inntopia_reservation_with_trace_context() {
    let adapter = InntopiaAdapter;
    let raw = RawEvent { source_event_id: "evt_123".to_string(), occurred_at: 1_771_632_000, payload: reservation_payload() };

    let canonical = adapter.normalize(raw).unwrap();
    assert_eq!(canonical.event_type, "inntopia.reservation.captured.v1");
    assert_eq!(canonical.trace_context.idempotency_key, "inntopia:evt_123");
    assert_eq!(canonical.trace_context.correlation_id, "corr_456");
    assert_eq!(get_member(&canonical.payload, "total_amount_minor"), Some(&JsonValue::Int(41250)));
    assert_eq!(
        canonical.trace_context.traceparent.as_deref(),
        Some("00-4bf92f3577b34da6a3ce929d0e0e4736-1111111111111111-01")
    );
}

#[test]
fn normalize_fails_when_required_fields_missing() {
    let adapter = InntopiaAdapter;
    let raw = RawEvent {
        source_event_id: "evt_123".to_string(),
        occurred_at: 1_771_632_000,
        payload: obj(vec![("legal_entity_id", text("US_CO_01")), ("tenant_id", text("tenant_1"))]),
    };
    let error = adapter.normalize(raw).unwrap_err();
    assert_eq!(error.message(), "normalization failed: missing field `reservation_id`");
}

#[test]
fn inntopia_identity_defaults_and_business_date_fallback() {
    let payload = obj(vec![
        ("legal_entity_id", text("US_CO_01")),
        ("reservation_id", text("resv_9")),
        ("tenant_id", text("tenant_1")),
        ("amount_minor", text("1200")),
    ]);
    let first = InntopiaAdapter.normalize(RawEvent { source_event_id: "evt_9".into(), occurred_at: 1_771_632_000, payload }).unwrap();
    assert_eq!(first.business_date, "2026-02-21");
    assert_eq!(first.idempotency_key, "inntopia:evt_9:reservation.captured");
    assert_eq!(first.trace_context.correlation_id, "resv_9");
    assert!(first.event_id.starts_with("inntopia-evt_9-"));
    assert_eq!(first.event_id.len(), "inntopia-evt_9-".len() + 12);
    let payload = obj(vec![
        ("legal_entity_id", text("US_CO_01")),
        ("reservation_id", text("resv_9")),
        ("tenant_id", text("tenant_1")),
        ("amount_minor", text("1200")),
    ]);
    let again = InntopiaAdapter.normalize(RawEvent { source_event_id: "evt_9".into(), occurred_at: 1_771_632_000, payload }).unwrap();
    assert_eq!(first.event_id, again.event_id);
}

#[test]
fn json_text_is_compact_and_escaped() {
    let v = obj(vec![
        ("a", JsonValue::Array(vec![JsonValue::Int(-3), JsonValue::Bool(true), JsonValue::Null])),
        ("b", text("x\"y\n")),
        ("c", JsonValue::OtherNumber("1.5".to_string())),
    ]);
    let mut out = String::new();
    write_json(&v, &mut out);
    assert_eq!(out, "{\"a\":[-3,true,null],\"b\":\"x\\\"y\\n\",\"c\":1.5}");
}

#[test]
fn missing_total_amount_is_reported() {
    let payload = obj(vec![
        ("legal_entity_id", text("US_CO_01")),
        ("reservation_id", text("resv_9")),
        ("tenant_id", text("tenant_1")),
    ]);
    let error = InntopiaAdapter.normalize(RawEvent { source_event_id: "e".into(), occurred_at: 0, payload }).unwrap_err();
    assert_eq!(error.message(), "normalization failed: missing total amount");
}

#[test]
fn zero_total_is_rejected_and_negative_total_is_made_positive() {
    let zero = obj(vec![
        ("legal_entity_id", text("US_CO_01")),
        ("reservation_id", text("resv_9")),
        ("tenant_id", text("tenant_1")),
        ("total_amount_minor", JsonValue::Int(0)),
    ]);
    assert_eq!(
        InntopiaAdapter.normalize(RawEvent { source_event_id: "e".into(), occurred_at: 0, payload: zero }).unwrap_err().message(),
        "normalization failed: invalid total amount"
    );
    let negative = obj(vec![
        ("legal_entity_id", text("US_CO_01")),
        ("reservation_id", text("resv_9")),
        ("tenant_id", text("tenant_1")),
        ("total_amount_minor", JsonValue::Int(-700)),
    ]);
    let event = InntopiaAdapter.normalize(RawEvent { source_event_id: "e".into(), occurred_at: 0, payload: negative }).unwrap();
    assert_eq!(get_member(&event.payload, "total_amount_minor"), Some(&JsonValue::Int(700)));
    let extensions = get_member(&event.payload, "extensions").unwrap();
    assert_eq!(get_member(get_member(extensions, "source_payload").unwrap(), "reservation_id"), Some(&text("resv_9")));
}

#[test]
fn stripe_and_square_kinds_are_detected() {
    assert_eq!(detect_stripe_event_kind(&obj(vec![("type", text("Charge.Succeeded"))])).unwrap(), StripeEventKind::ChargeCaptured);
    assert_eq!(detect_stripe_event_kind(&obj(vec![("type", text("payout.paid"))])).unwrap(), StripeEventKind::Settlement);
    assert_eq!(detect_stripe_event_kind(&obj(vec![("type", text("x")), ("refund_id", text("re_1"))])).unwrap(), StripeEventKind::Refund);
    assert_eq!(
        detect_stripe_event_kind(&obj(vec![("data", obj(vec![("object", obj(vec![("balance_transaction_id", text("txn"))]))]))])).unwrap(),
        StripeEventKind::Settlement
    );
    assert_eq!(detect_stripe_event_kind(&obj(vec![])).unwrap_err().message(), "normalization failed: unsupported stripe event kind");
    assert_eq!(detect_square_event_kind(&obj(vec![("entity", text("TENDER"))])).unwrap(), SquareEventKind::Tender);
    assert_eq!(detect_square_event_kind(&obj(vec![("order_id", text("o1"))])).unwrap(), SquareEventKind::Sale);
    assert_eq!(detect_square_event_kind(&obj(vec![("kind", text("refund.created"))])).unwrap(), SquareEventKind::Refund);
    assert!(detect_square_event_kind(&obj(vec![("kind", text("mystery"))])).is_err());
}

#[test]
fn tender_fee_math() {
    assert_eq!(tender_settlement(&obj(vec![("gross_amount_minor", JsonValue::Int(10000)), ("fee_amount_minor", JsonValue::Int(-250))])).unwrap(), (10000, 250, 9750));
    assert_eq!(
        tender_settlement(&obj(vec![("amount_minor", JsonValue::Int(500)), ("net_amount_minor", JsonValue::Int(480))])).unwrap(),
        (500, 0, 480)
    );
    assert!(tender_settlement(&obj(vec![("gross_amount_minor", JsonValue::Int(100)), ("fee_amount_minor", JsonValue::Int(300))])).is_err());
    assert!(tender_settlement(&obj(vec![("gross_amount_minor", JsonValue::Int(0))])).is_err());
}

#[test]
fn each_refusal_has_its_message() {
    let no_tenant = obj(vec![("legal_entity_id", text("US_CO_01")), ("reservation_id", text("r"))]);
    assert_eq!(
        InntopiaAdapter.normalize(RawEvent { source_event_id: "e".into(), occurred_at: 0, payload: no_tenant }).unwrap_err().message(),
        "normalization failed: missing field `tenant_id`"
    );
    let far_future = obj(vec![
        ("legal_entity_id", text("US_CO_01")),
        ("reservation_id", text("r")),
        ("tenant_id", text("t")),
        ("amount_minor", JsonValue::Int(5)),
    ]);
    assert_eq!(
        InntopiaAdapter.normalize(RawEvent { source_event_id: "e".into(), occurred_at: i64::MAX, payload: far_future }).unwrap_err().message(),
        "normalization failed: invalid occurred_at"
    );
}
