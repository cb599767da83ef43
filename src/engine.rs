use vstd::prelude::*;

use crate::audit::{canonical_scope, chain_outcome, string_views, AuditSealEntry, InMemoryAuditSealStore};
use crate::date::CalendarDate;
use crate::digest::payload_hash;
use crate::idempotency::{IdempotencyStatus, InMemoryIdempotencyStore};
use crate::ingest::parse_naive_date;
use crate::json::{first_string, first_text, str_views, JsonValue};
use crate::ledger::{
    is_balanced, journals_wf, InMemoryJournalRepository, JournalHeader, JournalLine, JournalRecord, JournalStatus,
    LedgerError,
};
use crate::period::{InMemoryPeriodRepository, PeriodError};
use crate::posting::{
    AdjustJournalRequest, AdjustJournalResponse, ReverseJournalResponse,
    default_location_allowlist, derive_lines_from_post_lines, deterministic_journal_id, number_derived_lines,
    resolve_location_id, validate_intercompany_counterparty, BoundaryError, LegalHoldError, LegalHoldRegistry,
    LocationAllowlist, PostLine, Provenance,
};
use crate::rule_engine::{derive_lines_v1, derive_model, RuleEngineError, RuleFault};
use crate::text::{owned, push_json_string, push_padded_decimal, str_equals};
use crate::ledger::{index_of_journal, side_total};
use crate::period::{period_text, PeriodScope};
use crate::posting::{
    boundary_verdict, built_from, first_bad_side, hold_applies, hold_scope, is_cross_entity, numbered_from, post_lines_balanced,
    resolved_location, HoldScope, LegalHoldRule,
};

verus! {

/// A request to post one event.
#[derive(Debug, PartialEq, Eq)]
pub struct PostEventRequest {
    pub event_type: String,
    pub tenant_id: String,
    pub legal_entity_id: String,
    pub location_id: Option<String>,
    pub ledger_book: String,
    pub accounting_date: String,
    pub source_event_id: String,
    pub posting_run_id: String,
    pub payload: JsonValue,
    pub lines: Vec<PostLine>,
    pub provenance: Provenance,
}

/// Why a post was refused.
#[derive(Debug, Clone, PartialEq, Eq)]
pub enum PostRejection {
    UnsupportedEventType,
    MissingIdempotencyKey,
    IdempotencyPayloadMismatch,
    InvalidAccountingDate,
    LegalHoldActive { hold_id: String, reason: String, retention_days: u32 },
    Boundary(BoundaryError),
    PeriodClosed(String),
    Rule(RuleEngineError),
    Ledger(LedgerError),
    MissingAdjustmentLines,
    AdjustmentScopeMismatch,
}

/// The journal id of an accepted post and whether it answered a replay, or
/// the reason the post was refused.
pub type PostResult = Result<(u128, bool), PostRejection>;

/// Outcomes recorded for idempotency keys.
pub open spec fn outcome_map(s: Seq<(String, Result<u128, PostRejection>)>) -> Map<Seq<char>, Result<u128, PostRejection>>
    decreases s.len(),
{
    if s.len() == 0 {
        Map::empty()
    } else {
        outcome_map(s.drop_last()).insert(s.last().0@, s.last().1)
    }
}

/// An accounting date in strict `YYYY-MM-DD`.
pub fn parse_accounting_date(s: &str) -> (r: Option<CalendarDate>)
    ensures
        r == crate::ingest::as_calendar_date(crate::ingest::date_parse_of(s@, "%Y-%m-%d"@)),
        r matches Some(d) ==> d.wf(),
{
    match parse_naive_date(s, "%Y-%m-%d") {
        Some((y, m, d)) => if 0 <= y && y <= 9999 {
            Some(CalendarDate { year: y, month: m, day: d })
        } else {
            None
        },
        None => None,
    }
}


/// What a refusal holds, as plain values.
pub enum RejectionView {
    UnsupportedEventType,
    MissingIdempotencyKey,
    IdempotencyPayloadMismatch,
    InvalidAccountingDate,
    LegalHoldActive(Seq<char>, Seq<char>, u32),
    Boundary(BoundaryError),
    PeriodClosed(Seq<char>),
    Rule(RuleFault),
    Ledger(LedgerError),
    MissingAdjustmentLines,
    AdjustmentScopeMismatch,
}

pub open spec fn rejection_view(e: PostRejection) -> RejectionView {
    match e {
        PostRejection::UnsupportedEventType => RejectionView::UnsupportedEventType,
        PostRejection::MissingIdempotencyKey => RejectionView::MissingIdempotencyKey,
        PostRejection::IdempotencyPayloadMismatch => RejectionView::IdempotencyPayloadMismatch,
        PostRejection::InvalidAccountingDate => RejectionView::InvalidAccountingDate,
        PostRejection::LegalHoldActive { hold_id, reason, retention_days } => RejectionView::LegalHoldActive(
            hold_id@,
            reason@,
            retention_days,
        ),
        PostRejection::Boundary(b) => RejectionView::Boundary(b),
        PostRejection::PeriodClosed(p) => RejectionView::PeriodClosed(p@),
        PostRejection::Rule(r) => RejectionView::Rule(r.fault()),
        PostRejection::Ledger(l) => RejectionView::Ledger(l),
        PostRejection::MissingAdjustmentLines => RejectionView::MissingAdjustmentLines,
        PostRejection::AdjustmentScopeMismatch => RejectionView::AdjustmentScopeMismatch,
    }
}

/// An accounting date in strict `YYYY-MM-DD`, as a `CalendarDate`.
pub open spec fn accounting_date_of(s: Seq<char>) -> Option<CalendarDate> {
    crate::ingest::as_calendar_date(crate::ingest::date_parse_of(s, "%Y-%m-%d"@))
}

pub open spec fn opt_view(o: Option<String>) -> Option<Seq<char>> {
    match o {
        Some(s) => Some(s@),
        None => None,
    }
}

/// The counterparty entity a cross-entity payload names.
pub open spec fn counterparty_of(payload: JsonValue) -> Option<Seq<char>> {
    first_text(
        payload,
        seq![
            "/counterparty_legal_entity_id"@,
            "/intercompany/counterparty_legal_entity_id"@,
            "/consolidation/counterparty_legal_entity_id"@,
        ],
    )
}

/// What the counterparty check decides.
pub open spec fn counterparty_verdict(allow: Seq<(String, Vec<String>)>, event_type: Seq<char>, entity: Seq<char>, payload: JsonValue) -> Option<BoundaryError> {
    let c = counterparty_of(payload);
    if !is_cross_entity(event_type) {
        None
    } else if c is None {
        Some(BoundaryError::MissingCounterpartyLegalEntityId)
    } else if c->0 == entity {
        Some(BoundaryError::InvalidCounterpartyLegalEntity)
    } else if !exists|k: int| 0 <= k < allow.len() && allow[k].0@ == c->0 {
        Some(BoundaryError::UnknownCounterpartyLegalEntity)
    } else {
        None
    }
}

/// The refusal an active hold for the scope causes on `d`, if any.
pub open spec fn hold_verdict(holds: Map<HoldScope, LegalHoldRule>, scope: HoldScope, d: CalendarDate) -> Option<RejectionView> {
    if holds.contains_key(scope) && hold_applies(holds[scope], d) {
        Some(RejectionView::LegalHoldActive(holds[scope].hold_id@, holds[scope].reason@, holds[scope].retention_days))
    } else {
        None
    }
}

/// The refusal deriving the journal lines causes, if any: the rule engine
/// for an object payload, else the explicit lines.
pub open spec fn lines_verdict(req: PostEventRequest) -> Option<RejectionView> {
    match req.payload {
        JsonValue::Object(_) => match derive_model(req.event_type@, req.payload) {
            Err(f) => Some(RejectionView::Rule(f)),
            Ok(_) => None,
        },
        _ => if req.lines@.len() == 0 {
            Some(RejectionView::Rule(RuleFault::MissingField("payload"@)))
        } else if first_bad_side(req.lines@) < req.lines@.len() {
            Some(RejectionView::Rule(RuleFault::InvalidEntrySide(req.lines@[first_bad_side(req.lines@)].entry_side@)))
        } else {
            None
        },
    }
}

pub open spec fn id_taken(journals: Seq<JournalRecord>, id: u128) -> bool {
    exists|i: int| 0 <= i < journals.len() && journals[i].header.journal_id == id
}

/// The outcome of a first admission, by the checks in order: date, legal
/// hold, location, boundary, counterparty, period, lines, id, balance.
pub open spec fn admission_verdict(
    holds: Map<HoldScope, LegalHoldRule>,
    allow: Seq<(String, Vec<String>)>,
    locks: Set<PeriodScope>,
    journals: Seq<JournalRecord>,
    req: PostEventRequest,
    journal_id: u128,
) -> Option<RejectionView> {
    match accounting_date_of(req.accounting_date@) {
        None => Some(RejectionView::InvalidAccountingDate),
        Some(d) => if hold_verdict(holds, (req.tenant_id@, req.legal_entity_id@, req.ledger_book@), d) is Some {
            hold_verdict(holds, (req.tenant_id@, req.legal_entity_id@, req.ledger_book@), d)
        } else {
            match resolved_location(opt_view(req.location_id), req.payload) {
                None => Some(RejectionView::Boundary(BoundaryError::MissingLocationId)),
                Some(loc) => if boundary_verdict(allow, req.legal_entity_id@, loc) is Some {
                    Some(RejectionView::Boundary(boundary_verdict(allow, req.legal_entity_id@, loc)->0))
                } else if counterparty_verdict(allow, req.event_type@, req.legal_entity_id@, req.payload) is Some {
                    Some(RejectionView::Boundary(counterparty_verdict(allow, req.event_type@, req.legal_entity_id@, req.payload)->0))
                } else if locks.contains((req.tenant_id@, req.legal_entity_id@, req.ledger_book@, period_text(d))) {
                    Some(RejectionView::PeriodClosed(period_text(d)))
                } else if lines_verdict(req) is Some {
                    lines_verdict(req)
                } else if id_taken(journals, journal_id) {
                    Some(RejectionView::Ledger(LedgerError::JournalExists))
                } else if !(req.payload is Object) && !post_lines_balanced(req.lines@) {
                    Some(RejectionView::Ledger(LedgerError::Unbalanced))
                } else {
                    None
                },
            }
        },
    }
}

/// The journal a first admission stores.
pub open spec fn posted_record_fits(rec: JournalRecord, req: PostEventRequest, journal_id: u128, now_ns: i64) -> bool {
    &&& rec.header.journal_id == journal_id
    &&& rec.header.journal_number@ == "S2-"@ + uuid_text_of(journal_id).subrange(0, 8)
    &&& rec.header.status == JournalStatus::Posted
    &&& rec.header.tenant_id@ == req.tenant_id@
    &&& rec.header.legal_entity_id@ == req.legal_entity_id@
    &&& rec.header.ledger_book@ == req.ledger_book@
    &&& Some(rec.header.accounting_date) == accounting_date_of(req.accounting_date@)
    &&& rec.header.posted_at_ns == now_ns
    &&& string_views(rec.header.source_event_ids@) == seq![req.source_event_id@]
    &&& rec.header.posting_run_id@ == req.posting_run_id@
    &&& rec.header.policy_version@ == req.provenance.policy_version@
    &&& rec.header.fx_rate_set_id@ == req.provenance.fx_rate_set_id@
    &&& match req.payload {
        JsonValue::Object(_) => {
            &&& rec.lines@.len() == derive_model(req.event_type@, req.payload)->Ok_0.len()
            &&& forall|i: int| 0 <= i < rec.lines@.len() ==> numbered_from(#[trigger] rec.lines@[i], derive_model(req.event_type@, req.payload)->Ok_0[i], i)
        },
        _ => {
            &&& rec.lines@.len() == req.lines@.len()
            &&& forall|i: int| 0 <= i < rec.lines@.len() ==> built_from(#[trigger] rec.lines@[i], req.lines@[i], i)
        },
    }
}

/// The entities a posting seal covers: the poster, and the counterparty of
/// a cross-entity event.
pub open spec fn posting_seal_scope(req: PostEventRequest) -> Seq<Seq<char>> {
    if is_cross_entity(req.event_type@) && counterparty_of(req.payload) is Some {
        seq![req.legal_entity_id@, counterparty_of(req.payload)->0]
    } else {
        seq![req.legal_entity_id@]
    }
}

/// A seal of `event_type` over the canonical form of `scope` was appended.
pub open spec fn sealed(old_seals: Seq<AuditSealEntry>, new_seals: Seq<AuditSealEntry>, event_type: Seq<char>, scope: Seq<Seq<char>>) -> bool {
    &&& new_seals.len() == old_seals.len() + 1
    &&& new_seals.drop_last() == old_seals
    &&& new_seals.last().event_type@ == event_type
    &&& string_views(new_seals.last().entity_scope@) == canonical_scope(scope)
}

/// What a first admission does: on a refusal nothing is stored and no seal
/// is added; otherwise one journal and one `posting.posted` seal are.
pub open spec fn first_admission(old_e: PostingEngine, new_e: PostingEngine, req: PostEventRequest, journal_id: u128, now_ns: i64, r: Result<u128, PostRejection>) -> bool {
    match admission_verdict(old_e.hold_rules(), old_e.allowlist(), old_e.locks(), old_e.journal_records(), req, journal_id) {
        Some(v) => {
            &&& r is Err
            &&& rejection_view(r->Err_0) == v
            &&& new_e.journal_records() == old_e.journal_records()
            &&& new_e.seal_entries() == old_e.seal_entries()
        },
        None => {
            &&& r == Ok::<u128, PostRejection>(journal_id)
            &&& new_e.journal_records().len() == old_e.journal_records().len() + 1
            &&& new_e.journal_records().drop_last() == old_e.journal_records()
            &&& posted_record_fits(new_e.journal_records().last(), req, journal_id, now_ns)
            &&& sealed(old_e.seal_entries(), new_e.seal_entries(), "posting.posted"@, posting_seal_scope(req))
        },
    }
}

/// The journal id of a key and payload hash, as `deterministic_journal_id`
/// computes it.
pub open spec fn journal_id_for(key: Seq<char>, hash: Seq<char>) -> u128 {
    crate::posting::be_u128(crate::digest::sha256_of_text(crate::posting::journal_id_material(key, hash)).subrange(0, 16)) as u128
}

/// The configuration a post reads and does not change.
pub open spec fn same_configuration(a: PostingEngine, b: PostingEngine) -> bool {
    &&& a.hold_rules() == b.hold_rules()
    &&& a.allowlist() == b.allowlist()
    &&& a.locks() == b.locks()
}


/// The idempotency-style key an adjustment's replacement id is derived from.
pub open spec fn adjustment_key(target: u128, source_event_id: Seq<char>) -> Seq<char> {
    "adjust:"@ + uuid_text_of(target) + ":"@ + source_event_id
}

/// The outcome of an adjustment, by the checks in order: lines present,
/// date, location, hold, period, entry sides, target, scope, balance,
/// replacement id, target still posted.
pub open spec fn adjustment_verdict(
    holds: Map<HoldScope, LegalHoldRule>,
    allow: Seq<(String, Vec<String>)>,
    locks: Set<PeriodScope>,
    journals: Seq<JournalRecord>,
    target: u128,
    req: AdjustJournalRequest,
    replacement_id: u128,
) -> Option<RejectionView> {
    if req.lines@.len() == 0 {
        Some(RejectionView::MissingAdjustmentLines)
    } else {
        match accounting_date_of(req.accounting_date@) {
            None => Some(RejectionView::InvalidAccountingDate),
            Some(d) => if req.location_id is Some && boundary_verdict(allow, req.legal_entity_id@, req.location_id->0@) is Some {
                Some(RejectionView::Boundary(boundary_verdict(allow, req.legal_entity_id@, req.location_id->0@)->0))
            } else if hold_verdict(holds, (req.tenant_id@, req.legal_entity_id@, req.ledger_book@), d) is Some {
                hold_verdict(holds, (req.tenant_id@, req.legal_entity_id@, req.ledger_book@), d)
            } else if locks.contains((req.tenant_id@, req.legal_entity_id@, req.ledger_book@, period_text(d))) {
                Some(RejectionView::PeriodClosed(period_text(d)))
            } else if first_bad_side(req.lines@) < req.lines@.len() {
                Some(RejectionView::Rule(RuleFault::InvalidEntrySide(req.lines@[first_bad_side(req.lines@)].entry_side@)))
            } else {
                match index_of_journal(journals, target) {
                    None => Some(RejectionView::Ledger(LedgerError::NotFound)),
                    Some(i) => if journals[i].header.tenant_id@ != req.tenant_id@ || journals[i].header.legal_entity_id@
                        != req.legal_entity_id@ || journals[i].header.ledger_book@ != req.ledger_book@ {
                        Some(RejectionView::AdjustmentScopeMismatch)
                    } else if !post_lines_balanced(req.lines@) {
                        Some(RejectionView::Ledger(LedgerError::Unbalanced))
                    } else if id_taken(journals, replacement_id) {
                        Some(RejectionView::Ledger(LedgerError::JournalExists))
                    } else if journals[i].header.status == JournalStatus::Reversed {
                        Some(RejectionView::Ledger(LedgerError::AlreadyReversed))
                    } else {
                        None
                    },
                }
            },
        }
    }
}

/// The replacement journal an adjustment stores.
pub open spec fn replacement_fits(rec: JournalRecord, req: AdjustJournalRequest, target: u128, replacement_id: u128, now_ns: i64) -> bool {
    &&& rec.header.journal_id == replacement_id
    &&& rec.header.journal_number@ == "ADJ-"@ + uuid_text_of(replacement_id).subrange(0, 8)
    &&& rec.header.status == JournalStatus::Posted
    &&& rec.header.tenant_id@ == req.tenant_id@
    &&& rec.header.legal_entity_id@ == req.legal_entity_id@
    &&& rec.header.ledger_book@ == req.ledger_book@
    &&& Some(rec.header.accounting_date) == accounting_date_of(req.accounting_date@)
    &&& rec.header.posted_at_ns == now_ns
    &&& string_views(rec.header.source_event_ids@) == seq![req.source_event_id@, "adjusts:"@ + uuid_text_of(target)]
    &&& rec.lines@.len() == req.lines@.len()
    &&& forall|i: int| 0 <= i < rec.lines@.len() ==> built_from(#[trigger] rec.lines@[i], req.lines@[i], i)
}

/// What an adjustment does: on a refusal nothing changes; otherwise the
/// target is reversed, the replacement is appended, and one
/// `journal.adjusted` seal is added.
pub open spec fn adjusts(old_e: PostingEngine, new_e: PostingEngine, target: u128, req: AdjustJournalRequest, replacement_id: u128, now_ns: i64, r: Result<AdjustJournalResponse, PostRejection>) -> bool {
    let js = old_e.journal_records();
    match adjustment_verdict(old_e.hold_rules(), old_e.allowlist(), old_e.locks(), js, target, req, replacement_id) {
        Some(v) => {
            &&& r is Err
            &&& rejection_view(r->Err_0) == v
            &&& new_e.journal_records() == js
            &&& new_e.seal_entries() == old_e.seal_entries()
        },
        None => {
            let i = index_of_journal(js, target)->0;
            let nj = new_e.journal_records();
            &&& r is Ok
            &&& r->Ok_0.reversed_journal_id@ == uuid_text_of(target)
            &&& r->Ok_0.replacement_journal_id@ == uuid_text_of(replacement_id)
            &&& r->Ok_0.status@ == "ADJUSTED"@
            &&& nj.len() == js.len() + 1
            &&& nj[i].header == (JournalHeader { status: JournalStatus::Reversed, ..js[i].header })
            &&& nj[i].lines == js[i].lines
            &&& (forall|k: int| 0 <= k < js.len() && k != i ==> nj[k] == js[k])
            &&& replacement_fits(nj.last(), req, target, replacement_id, now_ns)
            &&& sealed(old_e.seal_entries(), new_e.seal_entries(), "journal.adjusted"@, seq![req.legal_entity_id@])
            &&& r->Ok_0.audit_seal@ == new_e.seal_entries().last().seal@
        },
    }
}

/// The closed vocabulary of event types.
pub open spec fn supported_event_type(t: Seq<char>) -> bool {
    t == "order.captured.v1"@ || t == "payment.settled.v1"@ || t == "refund.v1"@ || t == "fee.assessed.v1"@
        || t == "chargeback.created.v1"@ || t == "payout.cleared.v1"@ || t == "dispute.opened.v1"@ || t
        == "dispute.won.v1"@ || t == "dispute.lost.v1"@ || t == "inntopia.reservation.captured.v1"@ || t
        == "intercompany.due_to_due_from.v1"@ || t == "consolidation.elimination.v1"@ || t == "fx.translation.v1"@
}

pub fn is_supported_event_type(t: &str) -> (r: bool)
    ensures
        r == supported_event_type(t@),
{
    str_equals(t, "order.captured.v1") || str_equals(t, "payment.settled.v1") || str_equals(t, "refund.v1")
        || str_equals(t, "fee.assessed.v1") || str_equals(t, "chargeback.created.v1") || str_equals(t, "payout.cleared.v1")
        || str_equals(t, "dispute.opened.v1") || str_equals(t, "dispute.won.v1") || str_equals(t, "dispute.lost.v1")
        || str_equals(t, "inntopia.reservation.captured.v1") || str_equals(t, "intercompany.due_to_due_from.v1")
        || str_equals(t, "consolidation.elimination.v1") || str_equals(t, "fx.translation.v1")
}

/// How a replay answers for a recorded outcome: the same journal, marked
/// as a replay, or the same refusal.
pub open spec fn replay_of(o: Result<u128, PostRejection>) -> PostResult {
    match o {
        Ok(id) => Ok((id, true)),
        Err(e) => Err(e),
    }
}

fn copy_rejection(e: &PostRejection) -> (r: PostRejection)
    ensures
        r == *e,
{
    match e {
        PostRejection::UnsupportedEventType => PostRejection::UnsupportedEventType,
        PostRejection::MissingIdempotencyKey => PostRejection::MissingIdempotencyKey,
        PostRejection::IdempotencyPayloadMismatch => PostRejection::IdempotencyPayloadMismatch,
        PostRejection::InvalidAccountingDate => PostRejection::InvalidAccountingDate,
        PostRejection::LegalHoldActive { hold_id, reason, retention_days } => PostRejection::LegalHoldActive {
            hold_id: hold_id.clone(),
            reason: reason.clone(),
            retention_days: *retention_days,
        },
        PostRejection::Boundary(b) => PostRejection::Boundary(*b),
        PostRejection::PeriodClosed(p) => PostRejection::PeriodClosed(p.clone()),
        PostRejection::Rule(r) => PostRejection::Rule(copy_rule_error(r)),
        PostRejection::Ledger(l) => PostRejection::Ledger(*l),
        PostRejection::MissingAdjustmentLines => PostRejection::MissingAdjustmentLines,
        PostRejection::AdjustmentScopeMismatch => PostRejection::AdjustmentScopeMismatch,
    }
}

fn copy_rule_error(e: &RuleEngineError) -> (r: RuleEngineError)
    ensures
        r == *e,
{
    match e {
        RuleEngineError::UnsupportedEventType(s) => RuleEngineError::UnsupportedEventType(s.clone()),
        RuleEngineError::MissingField(f) => RuleEngineError::MissingField(f),
        RuleEngineError::InvalidNumber(f) => RuleEngineError::InvalidNumber(f),
        RuleEngineError::InvalidSettlementMath => RuleEngineError::InvalidSettlementMath,
        RuleEngineError::InvalidEntrySide(s) => RuleEngineError::InvalidEntrySide(s.clone()),
    }
}

/// The stores a posting touches, sequenced as one admission.
pub struct PostingEngine {
    idempotency: InMemoryIdempotencyStore,
    journals: InMemoryJournalRepository,
    periods: InMemoryPeriodRepository,
    holds: LegalHoldRegistry,
    seals: InMemoryAuditSealStore,
    allowlist: LocationAllowlist,
    outcomes: Vec<(String, Result<u128, PostRejection>)>,
}

impl PostingEngine {
    pub closed spec fn wf(&self) -> bool {
        &&& self.idempotency.wf()
        &&& journals_wf(self.journals@)
        &&& self.holds.wf()
    }

    /// Payload hash recorded for each idempotency key.
    pub closed spec fn admitted(&self) -> Map<Seq<char>, Seq<char>> {
        self.idempotency@
    }

    /// Outcome recorded for each idempotency key.
    pub closed spec fn recorded(&self) -> Map<Seq<char>, Result<u128, PostRejection>> {
        outcome_map(self.outcomes@)
    }

    /// The stored journals.
    pub closed spec fn journal_records(&self) -> Seq<JournalRecord> {
        self.journals@
    }

    /// The audit seals.
    pub closed spec fn seal_entries(&self) -> Seq<AuditSealEntry> {
        self.seals@
    }

    pub closed spec fn locks(&self) -> Set<crate::period::PeriodScope> {
        self.periods@
    }

    /// The legal hold in force per scope.
    pub closed spec fn hold_rules(&self) -> Map<HoldScope, LegalHoldRule> {
        self.holds@
    }

    /// The location allowlist.
    pub closed spec fn allowlist(&self) -> Seq<(String, Vec<String>)> {
        self.allowlist.entries@
    }

    pub fn new() -> (r: Self)
        ensures
            r.wf(),
            r.admitted() == Map::<Seq<char>, Seq<char>>::empty(),
            r.recorded() == Map::<Seq<char>, Result<u128, PostRejection>>::empty(),
            r.journal_records() == Seq::<JournalRecord>::empty(),
            r.seal_entries() == Seq::<AuditSealEntry>::empty(),
    {
        PostingEngine {
            idempotency: InMemoryIdempotencyStore::new(),
            journals: InMemoryJournalRepository::new(),
            periods: InMemoryPeriodRepository::new(),
            holds: LegalHoldRegistry::new(),
            seals: InMemoryAuditSealStore::new(),
            allowlist: default_location_allowlist(),
            outcomes: Vec::new(),
        }
    }

    /// Closes a period for new posts.
    pub fn lock_period(&mut self, tenant_id: &str, legal_entity_id: &str, ledger_book: &str, period_id: &str) -> (r: Result<(), PeriodError>)
        requires
            old(self).wf(),
        ensures
            final(self).wf(),
            final(self).admitted() == old(self).admitted(),
            final(self).recorded() == old(self).recorded(),
            final(self).journal_records() == old(self).journal_records(),
            final(self).seal_entries() == old(self).seal_entries(),
            final(self).hold_rules() == old(self).hold_rules(),
            final(self).allowlist() == old(self).allowlist(),
            r is Ok <==> crate::period::is_period_id(period_id@),
            r is Ok ==> final(self).locks() == old(self).locks().insert((tenant_id@, legal_entity_id@, ledger_book@, period_id@)),
            r is Err ==> final(self).locks() == old(self).locks(),
    {
        self.periods.lock_period(tenant_id, legal_entity_id, ledger_book, period_id)
    }

    /// Records a legal hold for its scope (last writer wins) and seals it;
    /// an end date before the start date is refused and changes nothing.
    pub fn upsert_legal_hold(&mut self, rule: LegalHoldRule, now_ns: i64) -> (r: Result<(), LegalHoldError>)
        requires
            old(self).wf(),
            crate::posting::rule_wf(rule),
            old(self).seal_entries().len() < u64::MAX,
        ensures
            final(self).wf(),
            final(self).admitted() == old(self).admitted(),
            final(self).recorded() == old(self).recorded(),
            final(self).journal_records() == old(self).journal_records(),
            final(self).locks() == old(self).locks(),
            final(self).allowlist() == old(self).allowlist(),
            (match rule.end_date {
                Some(end) => crate::date::date_key(end) < crate::date::date_key(rule.start_date),
                None => false,
            }) ==> r == Err::<(), LegalHoldError>(LegalHoldError::InvalidLegalHoldRange) && final(self).hold_rules()
                == old(self).hold_rules() && final(self).seal_entries() == old(self).seal_entries(),
            !(match rule.end_date {
                Some(end) => crate::date::date_key(end) < crate::date::date_key(rule.start_date),
                None => false,
            }) ==> r is Ok && final(self).hold_rules() == old(self).hold_rules().insert(hold_scope(rule), rule)
                && sealed(old(self).seal_entries(), final(self).seal_entries(), "legal_hold.upserted"@, seq![rule.legal_entity_id@]),
            chain_outcome(old(self).seal_entries()) is Ok ==> chain_outcome(final(self).seal_entries()) is Ok,
    {
        let mut scope: Vec<String> = Vec::new();
        scope.push(rule.legal_entity_id.clone());
        let payload = hold_seal_payload(&rule);
        let r = self.holds.upsert(rule);
        if r.is_ok() {
            let _ = self.seals.append("legal_hold.upserted", scope.as_slice(), payload.as_str(), now_ns);
            assert(string_views(scope@) =~= seq![rule.legal_entity_id@]);
        }
        r
    }

    /// Verifies the audit chain.
    pub fn verify_seals(&self) -> (r: Result<(), crate::audit::AuditSealError>)
        ensures
            r == chain_outcome(self.seal_entries()),
    {
        self.seals.verify_chain()
    }

    /// A copy of the audit entries.
    pub fn seals(&self) -> (r: Vec<AuditSealEntry>)
        ensures
            r@.len() == self.seal_entries().len(),
            forall|i: int| 0 <= i < r@.len() ==> crate::audit::same_entry(#[trigger] r@[i], self.seal_entries()[i]),
    {
        self.seals.entries()
    }

    /// Number of audit seals.
    pub fn seal_count(&self) -> (r: usize)
        ensures
            r == self.seal_entries().len(),
    {
        match self.seals.len() {
            Ok(n) => n,
            Err(_) => 0,
        }
    }

    /// A copy of the journals.
    pub fn journals(&self) -> (r: Vec<JournalRecord>)
        ensures
            r@.len() == self.journal_records().len(),
            forall|i: int| 0 <= i < r@.len() ==> crate::ledger::same_record(#[trigger] r@[i], self.journal_records()[i]),
    {
        self.journals.all()
    }

    fn recorded_outcome(&self, key: &str) -> (r: Option<Result<u128, PostRejection>>)
        ensures
            match r {
                Some(o) => self.recorded().contains_key(key@) && self.recorded()[key@] == o,
                None => !self.recorded().contains_key(key@),
            },
    {
        let mut k: usize = self.outcomes.len();
        while k > 0 && !str_equals(self.outcomes[k - 1].0.as_str(), key)
            invariant
                k <= self.outcomes@.len(),
                forall|j: int| k <= j < self.outcomes@.len() ==> (#[trigger] self.outcomes@[j]).0@ != key@,
            decreases k,
        {
            k = k - 1;
        }
        proof {
            lemma_outcome_map_last(self.outcomes@, k - 1, key@);
        }
        if k == 0 {
            return None;
        }
        match &self.outcomes[k - 1].1 {
            Ok(id) => Some(Ok(*id)),
            Err(e) => Some(Err(copy_rejection(e))),
        }
    }

    /// The checks and writes of a first admission: date, legal hold,
    /// location and counterparty, period, lines, journal insert, seal.
    fn process_first_seen_post(&mut self, req: &PostEventRequest, journal_id: u128, now_ns: i64) -> (r: Result<u128, PostRejection>)
        requires
            old(self).wf(),
            old(self).seal_entries().len() < u64::MAX,
            req.lines@.len() < u32::MAX,
        ensures
            final(self).wf(),
            final(self).admitted() == old(self).admitted(),
            final(self).recorded() == old(self).recorded(),
            same_configuration(*old(self), *final(self)),
            first_admission(*old(self), *final(self), *req, journal_id, now_ns, r),
            chain_outcome(old(self).seal_entries()) is Ok ==> chain_outcome(final(self).seal_entries()) is Ok,
    {
        let ghost e0 = *self;
        let date = match parse_naive_date(req.accounting_date.as_str(), "%Y-%m-%d") {
            Some((y, m, d)) => if 0 <= y && y <= 9999 {
                CalendarDate { year: y, month: m, day: d }
            } else {
                return Err(PostRejection::InvalidAccountingDate);
            },
            None => {
                return Err(PostRejection::InvalidAccountingDate);
            },
        };
        assert(accounting_date_of(req.accounting_date@) == Some(date));
        match self.holds.validate(req.tenant_id.as_str(), req.legal_entity_id.as_str(), req.ledger_book.as_str(), date) {
            Ok(()) => {},
            Err(LegalHoldError::LegalHoldActive { hold_id, reason, retention_days }) => {
                return Err(PostRejection::LegalHoldActive { hold_id, reason, retention_days });
            },
            Err(LegalHoldError::InvalidLegalHoldRange) => {
                return Err(PostRejection::InvalidAccountingDate);
            },
        }
        let location_id = match resolve_location_id(&req.location_id, &req.payload) {
            Ok(l) => l,
            Err(e) => {
                return Err(PostRejection::Boundary(e));
            },
        };
        match self.allowlist.validate_location_boundary(req.legal_entity_id.as_str(), location_id.as_str()) {
            Ok(()) => {},
            Err(e) => {
                return Err(PostRejection::Boundary(e));
            },
        }
        match validate_intercompany_counterparty(&self.allowlist, req.event_type.as_str(), req.legal_entity_id.as_str(), &req.payload) {
            Ok(()) => {},
            Err(e) => {
                return Err(PostRejection::Boundary(e));
            },
        }
        match self.periods.ensure_open(req.tenant_id.as_str(), req.legal_entity_id.as_str(), req.ledger_book.as_str(), date) {
            Ok(()) => {},
            Err(PeriodError::PeriodClosed(p)) => {
                return Err(PostRejection::PeriodClosed(p));
            },
            Err(PeriodError::InvalidPeriodId(p)) => {
                return Err(PostRejection::PeriodClosed(p));
            },
        }
        proof {
            crate::rule_engine::lemma_derived_lines_count(req.event_type@, req.payload);
            crate::rule_engine::lemma_derived_lines_balance(req.event_type@, req.payload);
        }
        let lines: Vec<JournalLine> = match &req.payload {
            JsonValue::Object(_) => match derive_lines_v1(req.event_type.as_str(), &req.payload) {
                Ok(derived) => {
                    if derived.len() >= u32::MAX as usize {
                        return Err(PostRejection::Ledger(LedgerError::Unbalanced));
                    }
                    let ghost models = crate::rule_engine::lines_model(derived@);
                    let numbered = number_derived_lines(derived);
                    proof {
                        crate::posting::lemma_numbered_lines_balance(numbered@, models);
                    }
                    numbered
                },
                Err(e) => {
                    return Err(PostRejection::Rule(e));
                },
            },
            _ => {
                if req.lines.len() == 0 {
                    return Err(PostRejection::Rule(RuleEngineError::MissingField("payload")));
                }
                match derive_lines_from_post_lines(req.lines.as_slice()) {
                    Ok(l) => {
                        proof {
                            crate::posting::lemma_built_lines_balance(l@, req.lines@);
                            crate::posting::lemma_first_bad_side(req.lines@, req.lines@.len() as int);
                        }
                        l
                    },
                    Err(e) => {
                        return Err(PostRejection::Rule(e));
                    },
                }
            },
        };
        let mut source_event_ids: Vec<String> = Vec::new();
        source_event_ids.push(req.source_event_id.clone());
        assert(string_views(source_event_ids@) =~= seq![req.source_event_id@]);
        let record = JournalRecord {
            header: JournalHeader {
                journal_id,
                journal_number: journal_number_for(journal_id),
                status: JournalStatus::Posted,
                tenant_id: req.tenant_id.clone(),
                legal_entity_id: req.legal_entity_id.clone(),
                ledger_book: req.ledger_book.clone(),
                accounting_date: date,
                posted_at_ns: now_ns,
                source_event_ids,
                posting_run_id: req.posting_run_id.clone(),
                book_policy_id: req.provenance.book_policy_id.clone(),
                policy_version: req.provenance.policy_version.clone(),
                fx_rate_set_id: req.provenance.fx_rate_set_id.clone(),
                ruleset_version: req.provenance.ruleset_version.clone(),
                workflow_id: match &req.provenance.workflow_id {
                    Some(w) => Some(w.clone()),
                    None => None,
                },
            },
            lines,
        };
        proof {
            let d = date;
            let scope = (req.tenant_id@, req.legal_entity_id@, req.ledger_book@);
            assert(hold_verdict(e0.hold_rules(), scope, d) is None);
            assert(resolved_location(opt_view(req.location_id), req.payload) == Some(location_id@));
            assert(boundary_verdict(e0.allowlist(), req.legal_entity_id@, location_id@) is None);
            assert(counterparty_verdict(e0.allowlist(), req.event_type@, req.legal_entity_id@, req.payload) is None);
            assert(!e0.locks().contains((req.tenant_id@, req.legal_entity_id@, req.ledger_book@, period_text(d))));
            assert(lines_verdict(*req) is None);
            assert(is_balanced(record.lines@) <==> (req.payload is Object || post_lines_balanced(req.lines@)));
        }
        match self.journals.insert_posted(record) {
            Ok(()) => {},
            Err(e) => {
                return Err(PostRejection::Ledger(e));
            },
        }
        let mut scope: Vec<String> = Vec::new();
        scope.push(req.legal_entity_id.clone());
        if str_equals(req.event_type.as_str(), "intercompany.due_to_due_from.v1") || str_equals(req.event_type.as_str(), "consolidation.elimination.v1") {
            let cp_ptrs: &[&str] = &["/counterparty_legal_entity_id", "/intercompany/counterparty_legal_entity_id", "/consolidation/counterparty_legal_entity_id"];
            assert(str_views(cp_ptrs@) =~= seq![
                "/counterparty_legal_entity_id"@,
                "/intercompany/counterparty_legal_entity_id"@,
                "/consolidation/counterparty_legal_entity_id"@,
            ]);
            match first_string(&req.payload, cp_ptrs) {
                Some(c) => scope.push(c),
                None => {},
            }
        }
        assert(string_views(scope@) =~= posting_seal_scope(*req));
        assert(posted_record_fits(self.journals@.last(), *req, journal_id, now_ns));
        assert(self.journals@.drop_last() =~= e0.journal_records());
        let seal_payload = posted_seal_payload(req, journal_id, location_id.as_str());
        let _ = self.seals.append("posting.posted", scope.as_slice(), seal_payload.as_str(), now_ns);
        assert(sealed(e0.seal_entries(), self.seals@, "posting.posted"@, posting_seal_scope(*req)));
        assert(!id_taken(e0.journal_records(), journal_id));
        assert(req.payload is Object || post_lines_balanced(req.lines@));
        assert(admission_verdict(e0.hold_rules(), e0.allowlist(), e0.locks(), e0.journal_records(), *req, journal_id) is None);
        Ok(journal_id)
    }

    /// Admits a post under an idempotency key. Unknown event types and a
    /// missing key are refused before anything is recorded. A key seen with
    /// another request hash is refused and changes nothing. A key seen with
    /// the same hash answers with the outcome recorded at its first
    /// admission. A new key runs the admission and records its outcome,
    /// success or refusal.
    pub fn post_event(&mut self, key: Option<&str>, req: &PostEventRequest, request_json: &str, now_ns: i64) -> (r: PostResult)
        requires
            old(self).wf(),
            old(self).seal_entries().len() < u64::MAX,
            req.lines@.len() < u32::MAX,
        ensures
            final(self).wf(),
            posts(*old(self), *final(self), key, *req, crate::digest::hex_text(crate::digest::sha256_of_text(request_json@)), now_ns, r),
            same_configuration(*old(self), *final(self)),
            final(self).seal_entries().len() <= old(self).seal_entries().len() + 1,
            chain_outcome(old(self).seal_entries()) is Ok ==> chain_outcome(final(self).seal_entries()) is Ok,
    {
        if !is_supported_event_type(req.event_type.as_str()) {
            return Err(PostRejection::UnsupportedEventType);
        }
        let key = match key {
            Some(k) => k,
            None => {
                return Err(PostRejection::MissingIdempotencyKey);
            },
        };
        let hash = payload_hash(request_json);
        match self.idempotency.check_or_insert_hash(key, hash.as_str()) {
            Err(_) => {
                return Err(PostRejection::IdempotencyPayloadMismatch);
            },
            Ok(IdempotencyStatus::Replay) => {
                let journal_id = deterministic_journal_id(key, hash.as_str());
                return match self.recorded_outcome(key) {
                    Some(Ok(id)) => Ok((id, true)),
                    Some(Err(e)) => Err(e),
                    None => Ok((journal_id, true)),
                };
            },
            Ok(IdempotencyStatus::FirstSeen) => {},
        }
        let journal_id = deterministic_journal_id(key, hash.as_str());
        let outcome = self.process_first_seen_post(req, journal_id, now_ns);
        let recorded = match &outcome {
            Ok(id) => Ok(*id),
            Err(e) => Err(copy_rejection(e)),
        };
        let ghost before = self.outcomes@;
        self.outcomes.push((owned(key), recorded));
        assert(self.outcomes@.drop_last() =~= before);
        match outcome {
            Ok(id) => Ok((id, false)),
            Err(e) => Err(e),
        }
    }
}

impl PostingEngine {
    /// Reverses a posted journal once and seals the reversal: an unknown id
    /// is `NotFound`, a reversed journal `AlreadyReversed`, and neither
    /// changes anything.
    pub fn reverse_journal(&mut self, journal_id: u128, now_ns: i64) -> (r: Result<ReverseJournalResponse, PostRejection>)
        requires
            old(self).wf(),
            old(self).seal_entries().len() < u64::MAX,
        ensures
            final(self).wf(),
            final(self).admitted() == old(self).admitted(),
            final(self).recorded() == old(self).recorded(),
            same_configuration(*old(self), *final(self)),
            match index_of_journal(old(self).journal_records(), journal_id) {
                None => r == Err::<ReverseJournalResponse, PostRejection>(PostRejection::Ledger(LedgerError::NotFound))
                    && final(self).journal_records() == old(self).journal_records() && final(self).seal_entries() == old(self).seal_entries(),
                Some(i) => if old(self).journal_records()[i].header.status == JournalStatus::Reversed {
                    r == Err::<ReverseJournalResponse, PostRejection>(PostRejection::Ledger(LedgerError::AlreadyReversed))
                        && final(self).journal_records() == old(self).journal_records() && final(self).seal_entries() == old(self).seal_entries()
                } else {
                    &&& r is Ok
                    &&& r->Ok_0.journal_id@ == uuid_text_of(journal_id)
                    &&& r->Ok_0.status@ == "REVERSED"@
                    &&& final(self).journal_records().len() == old(self).journal_records().len()
                    &&& final(self).journal_records()[i].header == (JournalHeader { status: JournalStatus::Reversed, ..old(self).journal_records()[i].header })
                    &&& final(self).journal_records()[i].lines == old(self).journal_records()[i].lines
                    &&& forall|k: int| 0 <= k < final(self).journal_records().len() && k != i ==> final(self).journal_records()[k] == old(self).journal_records()[k]
                    &&& sealed(old(self).seal_entries(), final(self).seal_entries(), "journal.reversed"@, seq![old(self).journal_records()[i].header.legal_entity_id@])
                },
            },
            chain_outcome(old(self).seal_entries()) is Ok ==> chain_outcome(final(self).seal_entries()) is Ok,
    {
        let ghost before = self.journals@;
        match self.journals.reverse(journal_id) {
            Ok(()) => {},
            Err(e) => {
                return Err(PostRejection::Ledger(e));
            },
        }
        let id_text = uuid_text(journal_id);
        let ghost i = index_of_journal(before, journal_id)->0;
        assert(self.journals@[i].header.journal_id == journal_id);
        assert(index_of_journal(self.journals@, journal_id) == Some(i)) by {
            assert(self.journals@[i].header.journal_id == journal_id);
        }
        let record = match self.journals.get(journal_id) {
            Some(record) => record,
            None => {
                return Err(PostRejection::Ledger(LedgerError::NotFound));
            },
        };
        let mut scope: Vec<String> = Vec::new();
        scope.push(record.header.legal_entity_id.clone());
        assert(string_views(scope@) =~= seq![before[i].header.legal_entity_id@]);
        let mut payload = owned("{\"journal_id\":");
        push_json_string(&mut payload, id_text.as_str());
        payload.append("}");
        let _ = self.seals.append("journal.reversed", scope.as_slice(), payload.as_str(), now_ns);
        Ok(ReverseJournalResponse { journal_id: id_text, status: owned("REVERSED") })
    }

    /// Replaces a posted journal: checks the adjustment's own date, location,
    /// hold and period, requires the same scope as the target, reverses the
    /// target and posts the replacement under an id derived from the
    /// adjustment, then seals it.
    pub fn adjust_journal(&mut self, target_journal_id: u128, req: &AdjustJournalRequest, now_ns: i64) -> (r: Result<AdjustJournalResponse, PostRejection>)
        requires
            old(self).wf(),
            old(self).seal_entries().len() < u64::MAX,
            req.lines@.len() < u32::MAX,
        ensures
            final(self).wf(),
            final(self).admitted() == old(self).admitted(),
            final(self).recorded() == old(self).recorded(),
            same_configuration(*old(self), *final(self)),
            adjusts(*old(self), *final(self), target_journal_id, *req, replacement_id_for(target_journal_id, *req), now_ns, r),
            chain_outcome(old(self).seal_entries()) is Ok ==> chain_outcome(final(self).seal_entries()) is Ok,
    {
        let target_text = uuid_text(target_journal_id);
        let mut key = owned("adjust:");
        key.append(target_text.as_str());
        key.append(":");
        key.append(req.source_event_id.as_str());
        assert(key@ =~= adjustment_key(target_journal_id, req.source_event_id@));
        let material = adjustment_material(req);
        let material_hash = payload_hash(material.as_str());
        let replacement_id = deterministic_journal_id(key.as_str(), material_hash.as_str());
        let ghost e0 = *self;
        let r = self.adjust_with_id(target_journal_id, &target_text, replacement_id, req, now_ns);
        r
    }

    fn adjust_with_id(&mut self, target_journal_id: u128, target_text: &String, replacement_id: u128, req: &AdjustJournalRequest, now_ns: i64) -> (r: Result<AdjustJournalResponse, PostRejection>)
        requires
            old(self).wf(),
            old(self).seal_entries().len() < u64::MAX,
            req.lines@.len() < u32::MAX,
            target_text@ == uuid_text_of(target_journal_id),
        ensures
            final(self).wf(),
            final(self).admitted() == old(self).admitted(),
            final(self).recorded() == old(self).recorded(),
            same_configuration(*old(self), *final(self)),
            adjusts(*old(self), *final(self), target_journal_id, *req, replacement_id, now_ns, r),
            chain_outcome(old(self).seal_entries()) is Ok ==> chain_outcome(final(self).seal_entries()) is Ok,
    {
        let ghost e0 = *self;
        if req.lines.len() == 0 {
            return Err(PostRejection::MissingAdjustmentLines);
        }
        let date = match parse_naive_date(req.accounting_date.as_str(), "%Y-%m-%d") {
            Some((y, m, d)) => if 0 <= y && y <= 9999 {
                CalendarDate { year: y, month: m, day: d }
            } else {
                return Err(PostRejection::InvalidAccountingDate);
            },
            None => {
                return Err(PostRejection::InvalidAccountingDate);
            },
        };
        assert(accounting_date_of(req.accounting_date@) == Some(date));
        match &req.location_id {
            Some(l) => match self.allowlist.validate_location_boundary(req.legal_entity_id.as_str(), l.as_str()) {
                Ok(()) => {},
                Err(e) => {
                    return Err(PostRejection::Boundary(e));
                },
            },
            None => {},
        }
        match self.holds.validate(req.tenant_id.as_str(), req.legal_entity_id.as_str(), req.ledger_book.as_str(), date) {
            Ok(()) => {},
            Err(LegalHoldError::LegalHoldActive { hold_id, reason, retention_days }) => {
                return Err(PostRejection::LegalHoldActive { hold_id, reason, retention_days });
            },
            Err(LegalHoldError::InvalidLegalHoldRange) => {
                return Err(PostRejection::InvalidAccountingDate);
            },
        }
        match self.periods.ensure_open(req.tenant_id.as_str(), req.legal_entity_id.as_str(), req.ledger_book.as_str(), date) {
            Ok(()) => {},
            Err(PeriodError::PeriodClosed(p)) => {
                return Err(PostRejection::PeriodClosed(p));
            },
            Err(PeriodError::InvalidPeriodId(p)) => {
                return Err(PostRejection::PeriodClosed(p));
            },
        }
        let lines = match derive_lines_from_post_lines(req.lines.as_slice()) {
            Ok(l) => {
                proof {
                    crate::posting::lemma_built_lines_balance(l@, req.lines@);
                    crate::posting::lemma_first_bad_side(req.lines@, req.lines@.len() as int);
                }
                l
            },
            Err(e) => {
                return Err(PostRejection::Rule(e));
            },
        };
        match self.journals.get(target_journal_id) {
            None => {
                return Err(PostRejection::Ledger(LedgerError::NotFound));
            },
            Some(existing) => {
                if existing.header.tenant_id != req.tenant_id || existing.header.legal_entity_id != req.legal_entity_id
                    || existing.header.ledger_book != req.ledger_book {
                    return Err(PostRejection::AdjustmentScopeMismatch);
                }
            },
        }
        match crate::ledger::validate_balanced(lines.as_slice()) {
            Ok(()) => {},
            Err(e) => {
                return Err(PostRejection::Ledger(e));
            },
        }
        if self.journals.get(replacement_id).is_some() {
            return Err(PostRejection::Ledger(LedgerError::JournalExists));
        }
        assert(!id_taken(e0.journal_records(), replacement_id));
        let ghost before_reverse = self.journals@;
        match self.journals.reverse(target_journal_id) {
            Ok(()) => {},
            Err(e) => {
                return Err(PostRejection::Ledger(e));
            },
        }
        assert(forall|k: int| 0 <= k < self.journals@.len() ==> self.journals@[k].header.journal_id != replacement_id) by {
            assert forall|k: int| 0 <= k < self.journals@.len() implies self.journals@[k].header.journal_id != replacement_id by {
                assert(self.journals@[k].header.journal_id == before_reverse[k].header.journal_id);
            }
        }
        let ghost after_reverse = self.journals@;
        let replacement_text = uuid_text(replacement_id);
        let mut number = owned("ADJ-");
        number.append(replacement_text.as_str().substring_char(0, 8));
        let mut adjusts_id = owned("adjusts:");
        adjusts_id.append(target_text.as_str());
        let mut source_event_ids: Vec<String> = Vec::new();
        source_event_ids.push(req.source_event_id.clone());
        source_event_ids.push(adjusts_id);
        assert(string_views(source_event_ids@) =~= seq![req.source_event_id@, "adjusts:"@ + uuid_text_of(target_journal_id)]);
        let replacement = JournalRecord {
            header: JournalHeader {
                journal_id: replacement_id,
                journal_number: number,
                status: JournalStatus::Posted,
                tenant_id: req.tenant_id.clone(),
                legal_entity_id: req.legal_entity_id.clone(),
                ledger_book: req.ledger_book.clone(),
                accounting_date: date,
                posted_at_ns: now_ns,
                source_event_ids,
                posting_run_id: req.posting_run_id.clone(),
                book_policy_id: req.provenance.book_policy_id.clone(),
                policy_version: req.provenance.policy_version.clone(),
                fx_rate_set_id: req.provenance.fx_rate_set_id.clone(),
                ruleset_version: req.provenance.ruleset_version.clone(),
                workflow_id: match &req.provenance.workflow_id {
                    Some(w) => Some(w.clone()),
                    None => None,
                },
            },
            lines,
        };
        let inserted = self.journals.insert_posted(replacement);
        assert(inserted is Ok);
        assert(self.journals@.drop_last() =~= after_reverse);
        let mut scope: Vec<String> = Vec::new();
        scope.push(req.legal_entity_id.clone());
        assert(string_views(scope@) =~= seq![req.legal_entity_id@]);
        let mut payload = owned("{\"reason_code\":");
        push_json_string(&mut payload, req.reason_code.as_str());
        payload.append(",\"replacement_journal_id\":");
        push_json_string(&mut payload, replacement_text.as_str());
        payload.append(",\"reversed_journal_id\":");
        push_json_string(&mut payload, target_text.as_str());
        payload.append("}");
        let seal = match self.seals.append("journal.adjusted", scope.as_slice(), payload.as_str(), now_ns) {
            Ok(entry) => entry.seal,
            Err(_) => String::new(),
        };
        Ok(AdjustJournalResponse {
            reversed_journal_id: target_text.clone(),
            replacement_journal_id: replacement_text,
            status: owned("ADJUSTED"),
            audit_seal: seal,
        })
    }
}

/// The JSON text of one explicit line, keys in order.
pub open spec fn post_line_text(l: PostLine) -> Seq<char> {
    "{\"account_id\":"@ + crate::text::json_string_text(l.account_id@) + ",\"amount_minor\":"@
        + crate::text::signed_decimal_text(l.amount_minor as int) + ",\"base_amount_minor\":"@
        + crate::text::signed_decimal_text(l.base_amount_minor as int) + ",\"base_currency\":"@
        + crate::text::json_string_text(l.base_currency@) + ",\"currency\":"@ + crate::text::json_string_text(l.currency@)
        + ",\"entry_side\":"@ + crate::text::json_string_text(l.entry_side@) + "}"@
}

/// The comma-separated texts of explicit lines.
pub open spec fn post_lines_text(ls: Seq<PostLine>) -> Seq<char>
    decreases ls.len(),
{
    if ls.len() == 0 {
        Seq::empty()
    } else if ls.len() == 1 {
        post_line_text(ls[0])
    } else {
        post_lines_text(ls.drop_last()) + ","@ + post_line_text(ls.last())
    }
}

/// The JSON text the replacement id of an adjustment hashes: its date,
/// lines, run and reason, keys in order.
pub open spec fn adjustment_material_text(req: AdjustJournalRequest) -> Seq<char> {
    "{\"accounting_date\":"@ + crate::text::json_string_text(req.accounting_date@) + ",\"lines\":["@ + post_lines_text(req.lines@)
        + "],\"posting_run_id\":"@ + crate::text::json_string_text(req.posting_run_id@) + ",\"reason_code\":"@
        + crate::text::json_string_text(req.reason_code@) + "}"@
}

/// The id of the journal that replaces `target` under an adjustment.
pub open spec fn replacement_id_for(target: u128, req: AdjustJournalRequest) -> u128 {
    journal_id_for(
        adjustment_key(target, req.source_event_id@),
        crate::digest::hex_text(crate::digest::sha256_of_text(adjustment_material_text(req))),
    )
}

fn push_post_line(s: &mut String, l: &PostLine)
    ensures
        final(s)@ == old(s)@ + post_line_text(*l),
{
    s.append("{\"account_id\":");
    push_json_string(s, l.account_id.as_str());
    s.append(",\"amount_minor\":");
    crate::text::push_i64(s, l.amount_minor);
    s.append(",\"base_amount_minor\":");
    crate::text::push_i64(s, l.base_amount_minor);
    s.append(",\"base_currency\":");
    push_json_string(s, l.base_currency.as_str());
    s.append(",\"currency\":");
    push_json_string(s, l.currency.as_str());
    s.append(",\"entry_side\":");
    push_json_string(s, l.entry_side.as_str());
    s.append("}");
    assert(final(s)@ =~= old(s)@ + post_line_text(*l));
}

fn adjustment_material(req: &AdjustJournalRequest) -> (r: String)
    ensures
        r@ == adjustment_material_text(*req),
{
    let mut s = owned("{\"accounting_date\":");
    push_json_string(&mut s, req.accounting_date.as_str());
    s.append(",\"lines\":[");
    let ghost prefix = s@;
    let mut i: usize = 0;
    assert(req.lines@.subrange(0, 0) =~= Seq::<PostLine>::empty());
    assert(s@ =~= prefix + post_lines_text(req.lines@.subrange(0, 0)));
    while i < req.lines.len()
        invariant
            i <= req.lines@.len(),
            s@ == prefix + post_lines_text(req.lines@.subrange(0, i as int)),
        decreases req.lines.len() - i,
    {
        let l = &req.lines[i];
        let ghost before = s@;
        if i > 0 {
            s.append(",");
        }
        push_post_line(&mut s, l);
        let ghost next = req.lines@.subrange(0, i as int + 1);
        assert(next.drop_last() =~= req.lines@.subrange(0, i as int));
        assert(next.last() == req.lines@[i as int]);
        if i == 0 {
            assert(s@ =~= before + post_line_text(req.lines@[i as int]));
        } else {
            assert(s@ =~= before + ","@ + post_line_text(req.lines@[i as int]));
        }
        i = i + 1;
        assert(s@ =~= prefix + post_lines_text(req.lines@.subrange(0, i as int)));
    }
    assert(req.lines@.subrange(0, req.lines@.len() as int) =~= req.lines@);
    s.append("],\"posting_run_id\":");
    push_json_string(&mut s, req.posting_run_id.as_str());
    s.append(",\"reason_code\":");
    push_json_string(&mut s, req.reason_code.as_str());
    s.append("}");
    assert(s@ =~= adjustment_material_text(*req));
    s
}

/// What one post does to the engine's state and what it answers.
pub open spec fn posts(old_e: PostingEngine, new_e: PostingEngine, key: Option<&str>, req: PostEventRequest, hash: Seq<char>, now_ns: i64, r: PostResult) -> bool {
    if !supported_event_type(req.event_type@) {
        r == Err::<(u128, bool), PostRejection>(PostRejection::UnsupportedEventType) && unchanged(old_e, new_e)
    } else if key is None {
        r == Err::<(u128, bool), PostRejection>(PostRejection::MissingIdempotencyKey) && unchanged(old_e, new_e)
    } else {
        let k = key->0@;
        if old_e.admitted().contains_key(k) && old_e.admitted()[k] != hash {
            r == Err::<(u128, bool), PostRejection>(PostRejection::IdempotencyPayloadMismatch) && unchanged(old_e, new_e)
        } else if old_e.admitted().contains_key(k) {
            &&& unchanged(old_e, new_e)
            &&& old_e.recorded().contains_key(k) ==> r == replay_of(old_e.recorded()[k])
            &&& !old_e.recorded().contains_key(k) ==> r == Ok::<(u128, bool), PostRejection>((journal_id_for(k, hash), true))
        } else {
            &&& new_e.admitted() == old_e.admitted().insert(k, hash)
            &&& new_e.recorded().contains_key(k)
            &&& r == match new_e.recorded()[k] {
                Ok(id) => Ok::<(u128, bool), PostRejection>((id, false)),
                Err(e) => Err::<(u128, bool), PostRejection>(e),
            }
            &&& new_e.recorded() == old_e.recorded().insert(k, new_e.recorded()[k])
            &&& first_admission(old_e, new_e, req, journal_id_for(k, hash), now_ns, match r {
                Ok((id, _)) => Ok::<u128, PostRejection>(id),
                Err(e) => Err::<u128, PostRejection>(e),
            })
        }
    }
}

/// Nothing an observer of posts can see has changed.
pub open spec fn unchanged(a: PostingEngine, b: PostingEngine) -> bool {
    &&& a.admitted() == b.admitted()
    &&& a.recorded() == b.recorded()
    &&& a.journal_records() == b.journal_records()
    &&& a.seal_entries() == b.seal_entries()
}

proof fn lemma_outcome_map_last(s: Seq<(String, Result<u128, PostRejection>)>, k: int, key: Seq<char>)
    requires
        -1 <= k < s.len(),
        forall|j: int| k < j < s.len() ==> (#[trigger] s[j]).0@ != key,
        k >= 0 ==> s[k].0@ == key,
    ensures
        k >= 0 ==> outcome_map(s).contains_key(key) && outcome_map(s)[key] == s[k].1,
        k < 0 ==> !outcome_map(s).contains_key(key),
    decreases s.len(),
{
    if s.len() > 0 && k < s.len() - 1 {
        let t = s.drop_last();
        assert forall|j: int| k < j < t.len() implies (#[trigger] t[j]).0@ != key by {
            assert(t[j] == s[j]);
        }
        if k >= 0 {
            assert(t[k] == s[k]);
        }
        lemma_outcome_map_last(t, k, key);
        assert(s[s.len() - 1].0@ != key);
    }
}

/// Replaying a request answers as its first admission did: two posts of the
/// same request under the same key, the second right after the first, give
/// the same journal (marked as a replay) or the same refusal, and the
/// second changes nothing.
pub proof fn lemma_replay_returns_first_outcome(
    e0: PostingEngine,
    e1: PostingEngine,
    e2: PostingEngine,
    key: &str,
    req: PostEventRequest,
    hash: Seq<char>,
    n1: i64,
    n2: i64,
    r1: PostResult,
    r2: PostResult,
)
    requires
        posts(e0, e1, Some(key), req, hash, n1, r1),
        posts(e1, e2, Some(key), req, hash, n2, r2),
        supported_event_type(req.event_type@),
        !e0.admitted().contains_key(key@),
    ensures
        r2 == match r1 {
            Ok((id, _)) => Ok::<(u128, bool), PostRejection>((id, true)),
            Err(e) => Err::<(u128, bool), PostRejection>(e),
        },
        unchanged(e1, e2),
{
    assert(e1.admitted().contains_key(key@));
    assert(e1.admitted()[key@] == hash);
}

/// A request whose hash differs from the one first admitted under its key
/// is refused and creates no journal.
pub proof fn lemma_mismatch_creates_no_journal(
    e0: PostingEngine,
    e1: PostingEngine,
    key: &str,
    req: PostEventRequest,
    hash: Seq<char>,
    now_ns: i64,
    r: PostResult,
)
    requires
        posts(e0, e1, Some(key), req, hash, now_ns, r),
        supported_event_type(req.event_type@),
        e0.admitted().contains_key(key@),
        e0.admitted()[key@] != hash,
    ensures
        r == Err::<(u128, bool), PostRejection>(PostRejection::IdempotencyPayloadMismatch),
        e1.journal_records() == e0.journal_records(),
{
}

/// `S2-` and the first eight characters of the journal id's UUID text.
pub fn journal_number_for(journal_id: u128) -> (r: String)
    ensures
        r@ == "S2-"@ + uuid_text_of(journal_id).subrange(0, 8),
{
    let id_text = uuid_text(journal_id);
    let mut s = owned("S2-");
    s.append(id_text.as_str().substring_char(0, 8));
    s
}

fn date_text(d: CalendarDate) -> (r: String)
    requires
        d.wf(),
{
    let mut s = String::new();
    push_padded_decimal(&mut s, d.year as u64, 4);
    s.append("-");
    push_padded_decimal(&mut s, d.month as u64, 2);
    s.append("-");
    push_padded_decimal(&mut s, d.day as u64, 2);
    s
}

/// The JSON text sealed for a legal hold, keys in order.
fn hold_seal_payload(rule: &LegalHoldRule) -> (r: String)
    requires
        crate::posting::rule_wf(*rule),
{
    let mut s = owned("{\"end_date\":");
    match rule.end_date {
        Some(end) => push_json_string(&mut s, date_text(end).as_str()),
        None => s.append("null"),
    }
    s.append(",\"hold_id\":");
    push_json_string(&mut s, rule.hold_id.as_str());
    s.append(",\"ledger_book\":");
    push_json_string(&mut s, rule.ledger_book.as_str());
    s.append(",\"legal_entity_id\":");
    push_json_string(&mut s, rule.legal_entity_id.as_str());
    s.append(",\"reason\":");
    push_json_string(&mut s, rule.reason.as_str());
    s.append(",\"retention_days\":");
    crate::text::push_decimal(&mut s, rule.retention_days as u64);
    s.append(",\"start_date\":");
    push_json_string(&mut s, date_text(rule.start_date).as_str());
    s.append(",\"tenant_id\":");
    push_json_string(&mut s, rule.tenant_id.as_str());
    s.append("}");
    s
}

/// The JSON text sealed for a posted journal, keys in order.
fn posted_seal_payload(req: &PostEventRequest, journal_id: u128, location_id: &str) -> (r: String) {
    let id_text = uuid_text(journal_id);
    let mut s = owned("{\"event_type\":");
    push_json_string(&mut s, req.event_type.as_str());
    s.append(",\"journal_id\":");
    push_json_string(&mut s, id_text.as_str());
    s.append(",\"ledger_book\":");
    push_json_string(&mut s, req.ledger_book.as_str());
    s.append(",\"location_id\":");
    push_json_string(&mut s, location_id);
    s.append(",\"source_event_id\":");
    push_json_string(&mut s, req.source_event_id.as_str());
    s.append(",\"tenant_id\":");
    push_json_string(&mut s, req.tenant_id.as_str());
    s.append("}");
    s
}

/// The sixteen bytes of an id, most significant first.
pub open spec fn be_bytes(id: u128) -> Seq<u8> {
    Seq::new(16, |k: int| ((id as int / crate::posting::pow256((15 - k) as nat)) % 256) as u8)
}

/// The hyphenated lowercase form of a UUID: the hex digits of its bytes,
/// grouped 8-4-4-4-12.
pub open spec fn uuid_text_of(id: u128) -> Seq<char> {
    let h = crate::digest::hex_text(be_bytes(id));
    h.subrange(0, 8) + "-"@ + h.subrange(8, 12) + "-"@ + h.subrange(12, 16) + "-"@ + h.subrange(16, 20) + "-"@ + h.subrange(20, 32)
}

/// Relies on `uuid::Uuid::from_u128` (big-endian bytes) and its `Display`:
/// the hyphenated lowercase hex text of the 128-bit id.
#[verifier::external_body]
pub(crate) fn uuid_text(id: u128) -> (r: String)
    ensures
        r@ == uuid_text_of(id),
        r@.len() == 36,
{
    uuid::Uuid::from_u128(id).to_string()
}

} // verus!
