use vstd::prelude::*;

use crate::cutover::{CanonicalTraceContext, ConnectorError};
use crate::digest::{hex_text, payload_hash, sha256_of_text};
use crate::json::{any_present, has_any, copy_json, first_string, first_text, get_member, member, optional_i64, str_views, write_json, JsonValue};
use crate::text::{ascii_lower_text, owned, str_contains, text_contains, to_ascii_lowercase};

verus! {

/// The Stripe connector's identity.
#[derive(Debug, Clone, Copy, PartialEq, Eq, Default)]
pub struct StripeAdapter;

/// The Square connector's identity.
#[derive(Debug, Clone, Copy, PartialEq, Eq, Default)]
pub struct SquareAdapter;

/// Normalizes reservation-system events.
#[derive(Debug, Clone, Copy, PartialEq, Eq, Default)]
pub struct InntopiaAdapter;

impl StripeAdapter {
    pub fn source_system(&self) -> (r: &'static str)
        ensures
            r@ == "stripe"@,
    {
        "stripe"
    }
}

impl SquareAdapter {
    pub fn source_system(&self) -> (r: &'static str)
        ensures
            r@ == "square"@,
    {
        "square"
    }
}

impl InntopiaAdapter {
    pub fn source_system(&self) -> (r: &'static str)
        ensures
            r@ == "inntopia"@,
    {
        "inntopia"
    }
}

#[derive(Debug, Clone, Copy, PartialEq, Eq, Structural)]
pub enum StripeEventKind {
    ChargeCaptured,
    Refund,
    Settlement,
}

impl StripeEventKind {
    pub open spec fn event_type_text(self) -> Seq<char> {
        match self {
            StripeEventKind::ChargeCaptured => "order.captured.v1"@,
            StripeEventKind::Refund => "refund.v1"@,
            StripeEventKind::Settlement => "payment.settled.v1"@,
        }
    }

    /// The canonical event type of the kind.
    pub fn event_type(self) -> (r: &'static str)
        ensures
            r@ == self.event_type_text(),
    {
        match self {
            StripeEventKind::ChargeCaptured => "order.captured.v1",
            StripeEventKind::Refund => "refund.v1",
            StripeEventKind::Settlement => "payment.settled.v1",
        }
    }

    pub open spec fn suffix_text(self) -> Seq<char> {
        match self {
            StripeEventKind::ChargeCaptured => "charge_captured"@,
            StripeEventKind::Refund => "refund"@,
            StripeEventKind::Settlement => "settlement"@,
        }
    }

    /// The suffix of default idempotency keys for the kind.
    pub fn idempotency_suffix(self) -> (r: &'static str)
        ensures
            r@ == self.suffix_text(),
    {
        match self {
            StripeEventKind::ChargeCaptured => "charge_captured",
            StripeEventKind::Refund => "refund",
            StripeEventKind::Settlement => "settlement",
        }
    }
}

#[derive(Debug, Clone, Copy, PartialEq, Eq, Structural)]
pub enum SquareEventKind {
    Sale,
    Refund,
    Tender,
    Payout,
}

impl SquareEventKind {
    pub open spec fn event_type_text(self) -> Seq<char> {
        match self {
            SquareEventKind::Sale => "order.captured.v1"@,
            SquareEventKind::Refund => "refund.v1"@,
            SquareEventKind::Tender => "payment.settled.v1"@,
            SquareEventKind::Payout => "payout.cleared.v1"@,
        }
    }

    /// The canonical event type of the kind.
    pub fn event_type(self) -> (r: &'static str)
        ensures
            r@ == self.event_type_text(),
    {
        match self {
            SquareEventKind::Sale => "order.captured.v1",
            SquareEventKind::Refund => "refund.v1",
            SquareEventKind::Tender => "payment.settled.v1",
            SquareEventKind::Payout => "payout.cleared.v1",
        }
    }

    pub open spec fn suffix_text(self) -> Seq<char> {
        match self {
            SquareEventKind::Sale => "sale"@,
            SquareEventKind::Refund => "refund"@,
            SquareEventKind::Tender => "tender"@,
            SquareEventKind::Payout => "payout"@,
        }
    }

    /// The suffix of default idempotency keys for the kind.
    pub fn idempotency_suffix(self) -> (r: &'static str)
        ensures
            r@ == self.suffix_text(),
    {
        match self {
            SquareEventKind::Sale => "sale",
            SquareEventKind::Refund => "refund",
            SquareEventKind::Tender => "tender",
            SquareEventKind::Payout => "payout",
        }
    }
}

/// The kind a Stripe payload's type hint names, if it names one.
pub open spec fn stripe_kind_by_hint(payload: JsonValue) -> Option<StripeEventKind> {
    match first_text(payload, seq!["/type"@, "/event_type"@, "/record_type"@, "/data/object/type"@]) {
        None => None,
        Some(h) => {
            let n = ascii_lower_text(h);
            if text_contains(n, "refund"@) {
                Some(StripeEventKind::Refund)
            } else if text_contains(n, "payout"@) || text_contains(n, "balance"@) || text_contains(n, "settlement"@) {
                Some(StripeEventKind::Settlement)
            } else if text_contains(n, "charge"@) || text_contains(n, "payment_intent"@) || text_contains(n, "payment"@) {
                Some(StripeEventKind::ChargeCaptured)
            } else {
                None
            }
        },
    }
}

/// The kind of a Stripe payload: by its type hint, else by which ids it
/// carries.
pub open spec fn stripe_kind_of(payload: JsonValue) -> Option<StripeEventKind> {
    if stripe_kind_by_hint(payload) is Some {
        stripe_kind_by_hint(payload)
    } else if any_present(payload, seq!["/refund_id"@, "/data/object/refund_id"@]) {
        Some(StripeEventKind::Refund)
    } else if any_present(
        payload,
        seq!["/payout_id"@, "/balance_transaction_id"@, "/data/object/payout_id"@, "/data/object/balance_transaction_id"@],
    ) {
        Some(StripeEventKind::Settlement)
    } else if any_present(payload, seq!["/charge_id"@, "/payment_intent_id"@, "/data/object/charge_id"@]) {
        Some(StripeEventKind::ChargeCaptured)
    } else {
        None
    }
}

/// Detects the kind of a Stripe event.
pub fn detect_stripe_event_kind(payload: &JsonValue) -> (r: Result<StripeEventKind, ConnectorError>)
    ensures
        match stripe_kind_of(*payload) {
            Some(k) => r == Ok::<StripeEventKind, ConnectorError>(k),
            None => r matches Err(ConnectorError::Normalize(m)) && m@ == "unsupported stripe event kind"@,
        },
{
    let hint_ptrs: &[&str] = &["/type", "/event_type", "/record_type", "/data/object/type"];
    assert(str_views(hint_ptrs@) =~= seq!["/type"@, "/event_type"@, "/record_type"@, "/data/object/type"@]);
    match first_string(payload, hint_ptrs) {
        Some(h) => {
            let n = to_ascii_lowercase(h.as_str());
            let t = n.as_str();
            if str_contains(t, "refund") {
                return Ok(StripeEventKind::Refund);
            }
            if str_contains(t, "payout") || str_contains(t, "balance") || str_contains(t, "settlement") {
                return Ok(StripeEventKind::Settlement);
            }
            if str_contains(t, "charge") || str_contains(t, "payment_intent") || str_contains(t, "payment") {
                return Ok(StripeEventKind::ChargeCaptured);
            }
        },
        None => {},
    }
    let refund_ptrs: &[&str] = &["/refund_id", "/data/object/refund_id"];
    assert(str_views(refund_ptrs@) =~= seq!["/refund_id"@, "/data/object/refund_id"@]);
    if has_any(payload, refund_ptrs) {
        return Ok(StripeEventKind::Refund);
    }
    let settle_ptrs: &[&str] = &["/payout_id", "/balance_transaction_id", "/data/object/payout_id", "/data/object/balance_transaction_id"];
    assert(str_views(settle_ptrs@) =~= seq!["/payout_id"@, "/balance_transaction_id"@, "/data/object/payout_id"@, "/data/object/balance_transaction_id"@]);
    if has_any(payload, settle_ptrs) {
        return Ok(StripeEventKind::Settlement);
    }
    let charge_ptrs: &[&str] = &["/charge_id", "/payment_intent_id", "/data/object/charge_id"];
    assert(str_views(charge_ptrs@) =~= seq!["/charge_id"@, "/payment_intent_id"@, "/data/object/charge_id"@]);
    if has_any(payload, charge_ptrs) {
        return Ok(StripeEventKind::ChargeCaptured);
    }
    Err(ConnectorError::Normalize(owned("unsupported stripe event kind")))
}

/// The kind a Square payload's type hint names, if it names one.
pub open spec fn square_kind_by_hint(payload: JsonValue) -> Option<SquareEventKind> {
    match first_text(
        payload,
        seq!["/entity"@, "/record_type"@, "/kind"@, "/event_type"@, "/type"@, "/data/type"@, "/data/object/type"@],
    ) {
        None => None,
        Some(h) => {
            let n = ascii_lower_text(h);
            if text_contains(n, "refund"@) {
                Some(SquareEventKind::Refund)
            } else if text_contains(n, "payout"@) {
                Some(SquareEventKind::Payout)
            } else if text_contains(n, "tender"@) {
                Some(SquareEventKind::Tender)
            } else if text_contains(n, "sale"@) || text_contains(n, "payment"@) || text_contains(n, "order"@) {
                Some(SquareEventKind::Sale)
            } else {
                None
            }
        },
    }
}

/// The kind of a Square payload: by its type hint, else by which ids it
/// carries.
pub open spec fn square_kind_of(payload: JsonValue) -> Option<SquareEventKind> {
    if square_kind_by_hint(payload) is Some {
        square_kind_by_hint(payload)
    } else if any_present(payload, seq!["/payout_id"@, "/data/object/payout_id"@, "/data/object/arrival_date"@]) {
        Some(SquareEventKind::Payout)
    } else if any_present(payload, seq!["/refund_id"@, "/data/object/refund_id"@]) {
        Some(SquareEventKind::Refund)
    } else if any_present(payload, seq!["/tender_id"@, "/data/object/tender_id"@]) {
        Some(SquareEventKind::Tender)
    } else if any_present(payload, seq!["/order_id"@, "/data/object/order_id"@]) {
        Some(SquareEventKind::Sale)
    } else {
        None
    }
}

/// Detects the kind of a Square event.
pub fn detect_square_event_kind(payload: &JsonValue) -> (r: Result<SquareEventKind, ConnectorError>)
    ensures
        match square_kind_of(*payload) {
            Some(k) => r == Ok::<SquareEventKind, ConnectorError>(k),
            None => r matches Err(ConnectorError::Normalize(m)) && m@ == "unsupported square event kind"@,
        },
{
    let hint_ptrs: &[&str] = &["/entity", "/record_type", "/kind", "/event_type", "/type", "/data/type", "/data/object/type"];
    assert(str_views(hint_ptrs@) =~= seq!["/entity"@, "/record_type"@, "/kind"@, "/event_type"@, "/type"@, "/data/type"@, "/data/object/type"@]);
    match first_string(payload, hint_ptrs) {
        Some(h) => {
            let n = to_ascii_lowercase(h.as_str());
            let t = n.as_str();
            if str_contains(t, "refund") {
                return Ok(SquareEventKind::Refund);
            }
            if str_contains(t, "payout") {
                return Ok(SquareEventKind::Payout);
            }
            if str_contains(t, "tender") {
                return Ok(SquareEventKind::Tender);
            }
            if str_contains(t, "sale") || str_contains(t, "payment") || str_contains(t, "order") {
                return Ok(SquareEventKind::Sale);
            }
        },
        None => {},
    }
    let payout_ptrs: &[&str] = &["/payout_id", "/data/object/payout_id", "/data/object/arrival_date"];
    assert(str_views(payout_ptrs@) =~= seq!["/payout_id"@, "/data/object/payout_id"@, "/data/object/arrival_date"@]);
    if has_any(payload, payout_ptrs) {
        return Ok(SquareEventKind::Payout);
    }
    let refund_ptrs: &[&str] = &["/refund_id", "/data/object/refund_id"];
    assert(str_views(refund_ptrs@) =~= seq!["/refund_id"@, "/data/object/refund_id"@]);
    if has_any(payload, refund_ptrs) {
        return Ok(SquareEventKind::Refund);
    }
    let tender_ptrs: &[&str] = &["/tender_id", "/data/object/tender_id"];
    assert(str_views(tender_ptrs@) =~= seq!["/tender_id"@, "/data/object/tender_id"@]);
    if has_any(payload, tender_ptrs) {
        return Ok(SquareEventKind::Tender);
    }
    let order_ptrs: &[&str] = &["/order_id", "/data/object/order_id"];
    assert(str_views(order_ptrs@) =~= seq!["/order_id"@, "/data/object/order_id"@]);
    if has_any(payload, order_ptrs) {
        return Ok(SquareEventKind::Sale);
    }
    Err(ConnectorError::Normalize(owned("unsupported square event kind")))
}

pub open spec fn abs_int(a: int) -> int {
    if a < 0 {
        -a
    } else {
        a
    }
}

/// The amounts of a Square tender: gross (absolute, non-zero), fee
/// (absolute, default zero) and net (explicit, else gross minus fee), or
/// why there are none.
pub open spec fn tender_amounts(payload: JsonValue) -> Option<(int, int, int)> {
    let g = crate::json::first_integer(
        payload,
        seq![
            "/gross_amount_minor"@,
            "/amount_minor"@,
            "/amount_money/amount"@,
            "/data/object/gross_amount_minor"@,
            "/data/object/amount_minor"@,
            "/data/object/amount_money/amount"@,
        ],
    );
    let f = crate::json::first_integer(
        payload,
        seq![
            "/fee_amount_minor"@,
            "/processing_fee_minor"@,
            "/data/object/fee_amount_minor"@,
            "/data/object/processing_fee_minor"@,
            "/processing_fee_money/amount"@,
            "/data/object/processing_fee_money/amount"@,
        ],
    );
    let n = crate::json::first_integer(
        payload,
        seq!["/net_amount_minor"@, "/net_money/amount"@, "/data/object/net_amount_minor"@, "/data/object/net_money/amount"@],
    );
    if g is None || g->0 == 0 || g->0 == i64::MIN {
        None
    } else {
        let fee = match f {
            Some(x) => x,
            None => 0,
        };
        if fee == i64::MIN {
            None
        } else {
            let gross = abs_int(g->0);
            let fee_abs = abs_int(fee);
            let net = match n {
                Some(x) => x,
                None => gross - fee_abs,
            };
            if net < 0 {
                None
            } else {
                Some((gross, fee_abs, net))
            }
        }
    }
}

/// Tender settlement math: `net = explicit net ∨ (gross − |fee|)`, refused
/// when net is negative; the fee is kept non-negative.
pub fn tender_settlement(payload: &JsonValue) -> (r: Result<(i64, i64, i64), ConnectorError>)
    ensures
        match tender_amounts(*payload) {
            Some(t) => r is Ok && r->Ok_0.0 as int == t.0 && r->Ok_0.1 as int == t.1 && r->Ok_0.2 as int == t.2,
            None => r is Err,
        },
{
    let gross_ptrs: &[&str] = &[
        "/gross_amount_minor",
        "/amount_minor",
        "/amount_money/amount",
        "/data/object/gross_amount_minor",
        "/data/object/amount_minor",
        "/data/object/amount_money/amount",
    ];
    assert(str_views(gross_ptrs@) =~= seq![
        "/gross_amount_minor"@,
        "/amount_minor"@,
        "/amount_money/amount"@,
        "/data/object/gross_amount_minor"@,
        "/data/object/amount_minor"@,
        "/data/object/amount_money/amount"@,
    ]);
    let fee_ptrs: &[&str] = &[
        "/fee_amount_minor",
        "/processing_fee_minor",
        "/data/object/fee_amount_minor",
        "/data/object/processing_fee_minor",
        "/processing_fee_money/amount",
        "/data/object/processing_fee_money/amount",
    ];
    assert(str_views(fee_ptrs@) =~= seq![
        "/fee_amount_minor"@,
        "/processing_fee_minor"@,
        "/data/object/fee_amount_minor"@,
        "/data/object/processing_fee_minor"@,
        "/processing_fee_money/amount"@,
        "/data/object/processing_fee_money/amount"@,
    ]);
    let net_ptrs: &[&str] = &["/net_amount_minor", "/net_money/amount", "/data/object/net_amount_minor", "/data/object/net_money/amount"];
    assert(str_views(net_ptrs@) =~= seq!["/net_amount_minor"@, "/net_money/amount"@, "/data/object/net_amount_minor"@, "/data/object/net_money/amount"@]);
    let g = match optional_i64(payload, gross_ptrs) {
        Some(g) => g,
        None => {
            return Err(ConnectorError::Normalize(owned("missing field `gross_amount_minor`")));
        },
    };
    if g == 0 || g == i64::MIN {
        return Err(ConnectorError::Normalize(owned("invalid amount for `gross_amount_minor`")));
    }
    let fee_raw = match optional_i64(payload, fee_ptrs) {
        Some(f) => f,
        None => 0,
    };
    if fee_raw == i64::MIN {
        return Err(ConnectorError::Normalize(owned("invalid amount for `fee_amount_minor`")));
    }
    let gross = if g < 0 {
        -g
    } else {
        g
    };
    let fee = if fee_raw < 0 {
        -fee_raw
    } else {
        fee_raw
    };
    let net = match optional_i64(payload, net_ptrs) {
        Some(n) => n,
        None => gross - fee,
    };
    if net < 0 {
        return Err(ConnectorError::Normalize(owned("invalid net amount for tender")));
    }
    Ok((gross, fee, net))
}

/// `{source}-{source_event_id}-{first 12 hex digits of the payload digest}`.
pub open spec fn event_id_text(source: Seq<char>, source_event_id: Seq<char>, payload_json: Seq<char>) -> Seq<char> {
    source + "-"@ + source_event_id + "-"@ + hex_text(sha256_of_text(payload_json)).subrange(0, 12)
}

/// The deterministic identity of a canonical event, from its source, its
/// source event id and the JSON text of its canonical payload.
pub fn canonical_event_id(source: &str, source_event_id: &str, payload_json: &str) -> (r: String)
    ensures
        r@ == event_id_text(source@, source_event_id@, payload_json@),
{
    let digest = payload_hash(payload_json);
    let mut id = owned(source);
    id.append("-");
    id.append(source_event_id);
    id.append("-");
    id.append(digest.as_str().substring_char(0, 12));
    assert(id@ =~= event_id_text(source@, source_event_id@, payload_json@));
    id
}

/// `{source}:{source_event_id}:{suffix}`: the idempotency key of an event
/// whose payload names none.
pub fn default_idempotency_key(source: &str, source_event_id: &str, suffix: &str) -> (r: String)
    ensures
        r@ == source@ + ":"@ + source_event_id@ + ":"@ + suffix@,
{
    let mut key = owned(source);
    key.append(":");
    key.append(source_event_id);
    key.append(":");
    key.append(suffix);
    key
}


/// An event as a provider delivered it. `occurred_at` is seconds since the
/// Unix epoch (UTC).
#[derive(Debug, PartialEq, Eq)]
pub struct RawEvent {
    pub source_event_id: String,
    pub occurred_at: i64,
    pub payload: JsonValue,
}

/// An event in the one shape the ledger consumes.
#[derive(Debug, PartialEq, Eq)]
pub struct CanonicalEvent {
    pub event_id: String,
    pub event_type: String,
    pub schema_version: String,
    pub source_system: String,
    pub source_event_id: String,
    pub occurred_at: i64,
    pub business_date: String,
    pub tenant_id: String,
    pub legal_entity_id: String,
    pub idempotency_key: String,
    pub payload: JsonValue,
    pub trace_context: CanonicalTraceContext,
}

/// The UTC calendar day of a Unix time, as `YYYY-MM-DD`, when chrono can
/// represent that time.
pub uninterp spec fn utc_date_text_of(seconds: i64) -> Option<Seq<char>>;

/// Relies on `chrono::DateTime::from_timestamp` and its `%Y-%m-%d` format:
/// the UTC day of the instant, or `None` when chrono cannot represent it.
#[verifier::external_body]
fn utc_date_text(seconds: i64) -> (r: Option<String>)
    ensures
        match r {
            Some(t) => utc_date_text_of(seconds) == Some(t@),
            None => utc_date_text_of(seconds) is None,
        },
{
    chrono::DateTime::from_timestamp(seconds, 0).map(|d| d.format("%Y-%m-%d").to_string())
}

/// The top-level string member `key` of the payload.
pub open spec fn top_level_text(payload: JsonValue, key: Seq<char>) -> Option<Seq<char>> {
    match payload {
        JsonValue::Object(m) => match member(m@, key) {
            Some(JsonValue::Str(s)) => Some(s@),
            _ => None,
        },
        _ => None,
    }
}

fn required_string(payload: &JsonValue, key: &str) -> (r: Result<String, ConnectorError>)
    ensures
        match top_level_text(*payload, key@) {
            Some(t) => r is Ok && r->Ok_0@ == t,
            None => r matches Err(ConnectorError::Normalize(m)) && m@ == "missing field `"@ + key@ + "`"@,
        },
{
    match get_member(payload, key) {
        Some(JsonValue::Str(s)) => Ok(s.clone()),
        _ => {
            let mut message = owned("missing field `");
            message.append(key);
            message.append("`");
            Err(ConnectorError::Normalize(message))
        },
    }
}

fn text_or(o: Option<String>, default: &str) -> (r: String)
    ensures
        match o {
            Some(s) => r == s,
            None => r@ == default@,
        },
{
    match o {
        Some(s) => s,
        None => owned(default),
    }
}

/// The member `key` of an object value.
pub open spec fn payload_member(v: JsonValue, key: Seq<char>) -> Option<JsonValue> {
    match v {
        JsonValue::Object(m) => member(m@, key),
        _ => None,
    }
}

/// The reservation's total: the first integer among the amount pointers.
pub open spec fn inntopia_signed_total(payload: JsonValue) -> Option<int> {
    crate::json::first_integer(payload, seq!["/total_amount_minor"@, "/amount_minor"@, "/totals/grand_total_minor"@])
}

/// The absolute value of the reservation's total.
pub open spec fn inntopia_total(payload: JsonValue) -> int {
    let a = inntopia_signed_total(payload)->0;
    if a < 0 {
        -a
    } else {
        a
    }
}

/// The message of the first check a reservation fails: a missing
/// reservation, tenant or legal entity, a missing total, a total of zero or
/// one without an absolute value, or a business day that cannot be had.
pub open spec fn inntopia_refusal(payload: JsonValue, occurred_at: i64) -> Seq<char> {
    if top_level_text(payload, "reservation_id"@) is None {
        "missing field `"@ + "reservation_id"@ + "`"@
    } else if top_level_text(payload, "tenant_id"@) is None {
        "missing field `"@ + "tenant_id"@ + "`"@
    } else if top_level_text(payload, "legal_entity_id"@) is None {
        "missing field `"@ + "legal_entity_id"@ + "`"@
    } else if inntopia_signed_total(payload) is None {
        "missing total amount"@
    } else if inntopia_signed_total(payload)->0 == 0 || inntopia_signed_total(payload)->0 == i64::MIN {
        "invalid total amount"@
    } else {
        "invalid occurred_at"@
    }
}

/// A reservation can be normalized: reservation, tenant and legal entity are
/// top-level strings and the total is a non-zero amount that fits.
pub open spec fn inntopia_normalizable(payload: JsonValue, occurred_at: i64) -> bool {
    &&& top_level_text(payload, "reservation_id"@) is Some
    &&& top_level_text(payload, "tenant_id"@) is Some
    &&& top_level_text(payload, "legal_entity_id"@) is Some
    &&& inntopia_signed_total(payload) is Some
    &&& inntopia_signed_total(payload)->0 != 0
    &&& inntopia_signed_total(payload)->0 != i64::MIN
    &&& (first_text(payload, seq!["/business_date"@]) is Some || utc_date_text_of(occurred_at) is Some)
}

impl InntopiaAdapter {
    /// Normalizes a captured reservation: reservation, tenant and legal
    /// entity are required top-level strings and a total amount is required;
    /// the canonical payload carries the raw one under
    /// `extensions.source_payload`, and the event id ends with the first
    /// twelve hex digits of the canonical payload's digest.
    pub fn normalize(&self, raw: RawEvent) -> (r: Result<CanonicalEvent, ConnectorError>)
        ensures
            inntopia_normalizable(raw.payload, raw.occurred_at) <==> r is Ok,
            r is Err ==> r->Err_0->Normalize_0@ == inntopia_refusal(raw.payload, raw.occurred_at),
            r is Ok ==> ({
                let e = r->Ok_0;
                &&& e.event_type@ == "inntopia.reservation.captured.v1"@
                &&& e.schema_version@ == "1.0.0"@
                &&& e.source_system@ == "inntopia"@
                &&& e.source_event_id@ == raw.source_event_id@
                &&& e.occurred_at == raw.occurred_at
                &&& e.tenant_id@ == top_level_text(raw.payload, "tenant_id"@)->0
                &&& e.legal_entity_id@ == top_level_text(raw.payload, "legal_entity_id"@)->0
                &&& e.business_date@ == match first_text(raw.payload, seq!["/business_date"@]) {
                    Some(d) => d,
                    None => utc_date_text_of(raw.occurred_at)->0,
                }
                &&& e.idempotency_key == e.trace_context.idempotency_key
                &&& e.trace_context.idempotency_key@ == match first_text(raw.payload, seq!["/idempotency_key"@]) {
                    Some(k) => k,
                    None => "inntopia:"@ + raw.source_event_id@ + ":reservation.captured"@,
                }
                &&& e.trace_context.correlation_id@ == match first_text(raw.payload, seq!["/correlation_id"@]) {
                    Some(c) => c,
                    None => top_level_text(raw.payload, "reservation_id"@)->0,
                }
                &&& payload_member(e.payload, "total_amount_minor"@) == Some(JsonValue::Int(inntopia_total(raw.payload) as i64))
                &&& payload_member(e.payload, "extensions"@) matches Some(JsonValue::Object(x)) && member(x@, "source_payload"@) == Some(raw.payload)
                &&& e.event_id@ == "inntopia-"@ + raw.source_event_id@ + "-"@ + hex_text(sha256_of_text(crate::json::json_text(e.payload))).subrange(0, 12)
            }),
    {
        let RawEvent { source_event_id, occurred_at, payload } = raw;
        let reservation_id = match required_string(&payload, "reservation_id") {
            Ok(s) => s,
            Err(e) => {
                return Err(e);
            },
        };
        let tenant_id = match required_string(&payload, "tenant_id") {
            Ok(s) => s,
            Err(e) => {
                return Err(e);
            },
        };
        let legal_entity_id = match required_string(&payload, "legal_entity_id") {
            Ok(s) => s,
            Err(e) => {
                return Err(e);
            },
        };
        let amount_ptrs: &[&str] = &["/total_amount_minor", "/amount_minor", "/totals/grand_total_minor"];
        assert(str_views(amount_ptrs@) =~= seq!["/total_amount_minor"@, "/amount_minor"@, "/totals/grand_total_minor"@]);
        let signed_total = match optional_i64(&payload, amount_ptrs) {
            Some(n) => n,
            None => {
                return Err(ConnectorError::Normalize(owned("missing total amount")));
            },
        };
        if signed_total == 0 || signed_total == i64::MIN {
            return Err(ConnectorError::Normalize(owned("invalid total amount")));
        }
        let total_amount_minor = if signed_total < 0 {
            -signed_total
        } else {
            signed_total
        };
        let currency = text_or(first_string(&payload, &["/currency", "/totals/currency", "/totals/grand_total/currency"]), "USD");
        let bd_ptrs: &[&str] = &["/business_date"];
        assert(str_views(bd_ptrs@) =~= seq!["/business_date"@]);
        let business_date = match first_string(&payload, bd_ptrs) {
            Some(d) => d,
            None => match utc_date_text(occurred_at) {
                Some(d) => d,
                None => {
                    return Err(ConnectorError::Normalize(owned("invalid occurred_at")));
                },
            },
        };
        let status = text_or(first_string(&payload, &["/reservation_status"]), "CAPTURED");
        let arrival = match get_member(&payload, "arrival_date") {
            Some(v) => copy_json(v),
            None => JsonValue::Null,
        };
        let departure = match get_member(&payload, "departure_date") {
            Some(v) => copy_json(v),
            None => JsonValue::Null,
        };
        let key_ptrs: &[&str] = &["/idempotency_key"];
        assert(str_views(key_ptrs@) =~= seq!["/idempotency_key"@]);
        let idempotency_key = match first_string(&payload, key_ptrs) {
            Some(k) => k,
            None => {
                let mut k = owned("inntopia:");
                k.append(source_event_id.as_str());
                k.append(":reservation.captured");
                k
            },
        };
        let corr_ptrs: &[&str] = &["/correlation_id"];
        assert(str_views(corr_ptrs@) =~= seq!["/correlation_id"@]);
        let correlation_id = text_or(first_string(&payload, corr_ptrs), reservation_id.as_str());
        let causation_id = first_string(&payload, &["/causation_id"]);
        let traceparent = first_string(&payload, &["/trace/traceparent", "/traceparent"]);
        let tracestate = first_string(&payload, &["/trace/tracestate", "/tracestate"]);
        let mut members: Vec<(String, JsonValue)> = Vec::new();
        members.push((owned("arrival_date"), arrival));
        members.push((owned("business_date"), JsonValue::Str(business_date.clone())));
        members.push((owned("currency"), JsonValue::Str(currency)));
        members.push((owned("departure_date"), departure));
        let ghost raw_payload = payload;
        let mut extensions: Vec<(String, JsonValue)> = Vec::new();
        extensions.push((owned("source_payload"), payload));
        assert(member(extensions@, "source_payload"@) == Some(raw_payload));
        let ghost ext = extensions;
        members.push((owned("extensions"), JsonValue::Object(extensions)));
        members.push((owned("reservation_id"), JsonValue::Str(reservation_id)));
        members.push((owned("reservation_status"), JsonValue::Str(status)));
        members.push((owned("total_amount_minor"), JsonValue::Int(total_amount_minor)));
        let canonical_payload = JsonValue::Object(members);
        proof {
            reveal_strlit("arrival_date");
            reveal_strlit("business_date");
            reveal_strlit("currency");
            reveal_strlit("departure_date");
            reveal_strlit("extensions");
            reveal_strlit("reservation_id");
            reveal_strlit("reservation_status");
            reveal_strlit("total_amount_minor");
            reveal_strlit("source_payload");
            let m = canonical_payload->Object_0@;
            assert(m.len() == 8);
            assert(m[0].0@ == "arrival_date"@ && m[1].0@ == "business_date"@ && m[2].0@ == "currency"@ && m[3].0@ == "departure_date"@);
            assert(m[4].0@ == "extensions"@ && m[5].0@ == "reservation_id"@ && m[6].0@ == "reservation_status"@ && m[7].0@ == "total_amount_minor"@);
            assert("reservation_status"@[0] != "total_amount_minor"@[0]);
            assert("reservation_id"@.len() != "total_amount_minor"@.len());
            assert forall|j: int| 0 <= j < 7 implies m[j].0@ != "total_amount_minor"@ by {
                if j == 6 {
                    assert(m[j].0@[0] != "total_amount_minor"@[0]);
                }
            }
            crate::json::lemma_member_at(m, 7, "total_amount_minor"@);
            crate::json::lemma_member_at(m, 4, "extensions"@);
            assert(payload_member(canonical_payload, "total_amount_minor"@) == Some(JsonValue::Int(total_amount_minor)));
            assert(payload_member(canonical_payload, "extensions"@) == Some(JsonValue::Object(ext)));
        }
        let mut text = String::new();
        write_json(&canonical_payload, &mut text);
        let digest = payload_hash(text.as_str());
        let mut event_id = owned("inntopia-");
        event_id.append(source_event_id.as_str());
        event_id.append("-");
        event_id.append(digest.as_str().substring_char(0, 12));
        assert(event_id@ == "inntopia-"@ + source_event_id@ + "-"@ + hex_text(sha256_of_text(text@)).subrange(0, 12));
        Ok(CanonicalEvent {
            event_id,
            event_type: owned("inntopia.reservation.captured.v1"),
            schema_version: owned("1.0.0"),
            source_system: owned("inntopia"),
            source_event_id,
            occurred_at,
            business_date,
            tenant_id,
            legal_entity_id,
            idempotency_key: idempotency_key.clone(),
            payload: canonical_payload,
            trace_context: CanonicalTraceContext { idempotency_key, correlation_id, causation_id, traceparent, tracestate },
        })
    }
}

} // verus!
