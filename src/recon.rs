use vstd::prelude::*;

use crate::text::{
    padded_decimal, push_padded_decimal, text_less, str_less,
    ascii_upper_text, owned, push_char, str_contains, str_equals, text_contains, to_ascii_uppercase,
    trim, trim_text,
};

verus! {

#[derive(Debug, Clone, Copy, PartialEq, Eq, Structural)]
pub enum MatchOutcome {
    MatchedExact,
    MatchedTolerance,
    PartialMatch,
    Unmatched,
    Duplicate,
    Investigate,
}

#[derive(Debug, Clone, Copy, PartialEq, Eq, Structural)]
pub enum ReconReasonCode {
    AmountMismatch,
    CurrencyMismatch,
    MissingGatewayReference,
    MissingBankReference,
    DuplicateCandidate,
    PartialAllocationRequired,
    ToleranceMatchReview,
    HighRiskInvestigate,
    Unclassified,
}

#[derive(Debug, Clone, PartialEq, Eq)]
pub struct ReconRoutingDecision {
    pub reason_code: ReconReasonCode,
    pub owner_queue: String,
}

/// A manually raised exception. Times are seconds since the Unix epoch (UTC).
#[derive(Debug, Clone, PartialEq, Eq)]
pub struct ReconException {
    pub exception_id: String,
    pub exception_type: String,
    pub severity: String,
    pub opened_at: i64,
    pub owner: String,
    pub sla_due_at: i64,
    pub resolution_code: Option<String>,
}

#[derive(Debug, Clone, Copy, PartialEq, Eq, Structural)]
pub enum ReconValidationError {
    MissingOwner,
    MissingSeverity,
}

/// Basis points in one hundred percent.
pub const ONE_HUNDRED_PERCENT_BPS: u32 = 10_000;

/// Tolerance used when a run asks for a negative one.
pub const DEFAULT_MATCH_TOLERANCE_MINOR: i64 = 100;

/// Spaces and dashes become underscores.
pub open spec fn underscore_char(c: char) -> char {
    if c == ' ' || c == '-' {
        '_'
    } else {
        c
    }
}

/// Trimmed, ASCII upper case, spaces and dashes as underscores.
pub open spec fn normalized_text(s: Seq<char>) -> Seq<char> {
    ascii_upper_text(trim_text(s)).map_values(|c: char| underscore_char(c))
}

/// Normalizes a free-form code: trims it, raises ASCII letters to upper case
/// and turns spaces and dashes into underscores.
pub fn normalize(input: &str) -> (r: String)
    ensures
        r@ == normalized_text(input@),
{
    let trimmed = trim(input);
    let upper = to_ascii_uppercase(trimmed.as_str());
    let n = upper.as_str().unicode_len();
    let mut out = String::new();
    let mut i: usize = 0;
    while i < n
        invariant
            i <= n,
            n == upper@.len(),
            upper@ == ascii_upper_text(trim_text(input@)),
            out@ == upper@.subrange(0, i as int).map_values(|c: char| underscore_char(c)),
        decreases n - i,
    {
        let c = upper.as_str().get_char(i);
        let u = if c == ' ' || c == '-' {
            '_'
        } else {
            c
        };
        push_char(&mut out, u);
        i = i + 1;
        assert(out@ =~= upper@.subrange(0, i as int).map_values(|c: char| underscore_char(c)));
    }
    assert(upper@.subrange(0, n as int) =~= upper@);
    out
}

/// Trimmed and ASCII upper case.
pub open spec fn currency_text(s: Seq<char>) -> Seq<char> {
    ascii_upper_text(trim_text(s))
}

/// A currency code trimmed and in ASCII upper case.
pub fn normalize_currency(input: &str) -> (r: String)
    ensures
        r@ == currency_text(input@),
{
    let trimmed = trim(input);
    to_ascii_uppercase(trimmed.as_str())
}

/// The normalized run id, or `RECON_RUN` when that is empty.
pub open spec fn run_id_text(s: Seq<char>) -> Seq<char> {
    if normalized_text(s).len() == 0 {
        "RECON_RUN"@
    } else {
        normalized_text(s)
    }
}

pub fn normalize_run_id(input: &str) -> (r: String)
    ensures
        r@ == run_id_text(input@),
{
    let normalized = normalize(input);
    if normalized.as_str().unicode_len() == 0 {
        owned("RECON_RUN")
    } else {
        normalized
    }
}

/// `numerator / denominator` in basis points, rounded down; a zero
/// denominator counts as one hundred percent.
pub open spec fn bps(numerator: int, denominator: int) -> int {
    if denominator == 0 {
        10000
    } else {
        (numerator * 10000) / denominator
    }
}

pub fn ratio_to_bps(numerator: u32, denominator: u32) -> (r: u32)
    requires
        numerator <= denominator,
    ensures
        r == bps(numerator as int, denominator as int),
{
    if denominator == 0 {
        ONE_HUNDRED_PERCENT_BPS
    } else {
        let scaled = numerator as u64 * 10000u64;
        let q = scaled / denominator as u64;
        assert(q <= 10000) by (nonlinear_arith)
            requires
                scaled as int == (numerator as int) * 10000,
                q as int == (scaled as int) / (denominator as int),
                numerator <= denominator,
                denominator > 0,
        ;
        q as u32
    }
}

pub open spec fn auto_match(outcome: MatchOutcome) -> bool {
    outcome == MatchOutcome::MatchedExact || outcome == MatchOutcome::MatchedTolerance
}

/// An exact or tolerance match clears without review.
pub fn is_auto_match(outcome: &MatchOutcome) -> (r: bool)
    ensures
        r == auto_match(*outcome),
{
    *outcome == MatchOutcome::MatchedExact || *outcome == MatchOutcome::MatchedTolerance
}

/// The queue that owns each reason.
pub open spec fn owner_queue_text(reason_code: ReconReasonCode) -> Seq<char> {
    match reason_code {
        ReconReasonCode::AmountMismatch => "PAYMENTS_OPS"@,
        ReconReasonCode::CurrencyMismatch => "PAYMENTS_OPS"@,
        ReconReasonCode::MissingGatewayReference => "PAYMENTS_OPS"@,
        ReconReasonCode::MissingBankReference => "TREASURY_OPS"@,
        ReconReasonCode::DuplicateCandidate => "DATA_QUALITY"@,
        ReconReasonCode::PartialAllocationRequired => "PAYMENTS_OPS"@,
        ReconReasonCode::ToleranceMatchReview => "AUTO_CLEAR_REVIEW"@,
        ReconReasonCode::HighRiskInvestigate => "RISK_CONTROL"@,
        ReconReasonCode::Unclassified => "RECON_ANALYST"@,
    }
}

pub fn route_owner_queue(reason_code: ReconReasonCode) -> (r: &'static str)
    ensures
        r@ == owner_queue_text(reason_code),
{
    match reason_code {
        ReconReasonCode::AmountMismatch => "PAYMENTS_OPS",
        ReconReasonCode::CurrencyMismatch => "PAYMENTS_OPS",
        ReconReasonCode::MissingGatewayReference => "PAYMENTS_OPS",
        ReconReasonCode::MissingBankReference => "TREASURY_OPS",
        ReconReasonCode::DuplicateCandidate => "DATA_QUALITY",
        ReconReasonCode::PartialAllocationRequired => "PAYMENTS_OPS",
        ReconReasonCode::ToleranceMatchReview => "AUTO_CLEAR_REVIEW",
        ReconReasonCode::HighRiskInvestigate => "RISK_CONTROL",
        ReconReasonCode::Unclassified => "RECON_ANALYST",
    }
}

/// Hours from the start of a run until an exception of each reason is due.
pub open spec fn sla_hours(reason_code: ReconReasonCode) -> int {
    match reason_code {
        ReconReasonCode::HighRiskInvestigate => 2,
        ReconReasonCode::AmountMismatch => 4,
        ReconReasonCode::CurrencyMismatch => 4,
        ReconReasonCode::PartialAllocationRequired => 4,
        ReconReasonCode::MissingGatewayReference => 8,
        ReconReasonCode::MissingBankReference => 8,
        ReconReasonCode::ToleranceMatchReview => 12,
        ReconReasonCode::DuplicateCandidate => 24,
        ReconReasonCode::Unclassified => 24,
    }
}

/// The SLA offset of a reason, in seconds.
pub fn sla_offset(reason_code: ReconReasonCode) -> (r: i64)
    ensures
        r == sla_hours(reason_code) * 3600,
{
    let hours: i64 = match reason_code {
        ReconReasonCode::HighRiskInvestigate => 2,
        ReconReasonCode::AmountMismatch => 4,
        ReconReasonCode::CurrencyMismatch => 4,
        ReconReasonCode::PartialAllocationRequired => 4,
        ReconReasonCode::MissingGatewayReference => 8,
        ReconReasonCode::MissingBankReference => 8,
        ReconReasonCode::ToleranceMatchReview => 12,
        ReconReasonCode::DuplicateCandidate => 24,
        ReconReasonCode::Unclassified => 24,
    };
    hours * 3600
}

/// The reason a manual exception routes to: the outcome decides first
/// (duplicate, tolerance, partial), then a high-risk investigation, then
/// words in the normalized exception type.
pub open spec fn routed_reason(exception_type: Seq<char>, outcome: MatchOutcome, severity: Seq<char>) -> ReconReasonCode {
    let t = normalized_text(exception_type);
    let s = normalized_text(severity);
    if outcome == MatchOutcome::Duplicate {
        ReconReasonCode::DuplicateCandidate
    } else if outcome == MatchOutcome::MatchedTolerance {
        ReconReasonCode::ToleranceMatchReview
    } else if outcome == MatchOutcome::PartialMatch {
        ReconReasonCode::PartialAllocationRequired
    } else if outcome == MatchOutcome::Investigate && (s == "HIGH"@ || s == "CRITICAL"@) {
        ReconReasonCode::HighRiskInvestigate
    } else if text_contains(t, "AMOUNT"@) {
        ReconReasonCode::AmountMismatch
    } else if text_contains(t, "CURRENCY"@) || text_contains(t, "FX"@) {
        ReconReasonCode::CurrencyMismatch
    } else if text_contains(t, "BANK"@) {
        ReconReasonCode::MissingBankReference
    } else if text_contains(t, "GATEWAY"@) || text_contains(t, "STRIPE"@) {
        ReconReasonCode::MissingGatewayReference
    } else {
        ReconReasonCode::Unclassified
    }
}

pub fn route_reason_code(exception_type: &str, outcome: MatchOutcome, severity: &str) -> (r: ReconReasonCode)
    ensures
        r == routed_reason(exception_type@, outcome, severity@),
{
    if outcome == MatchOutcome::Duplicate {
        return ReconReasonCode::DuplicateCandidate;
    }
    if outcome == MatchOutcome::MatchedTolerance {
        return ReconReasonCode::ToleranceMatchReview;
    }
    if outcome == MatchOutcome::PartialMatch {
        return ReconReasonCode::PartialAllocationRequired;
    }
    let t = normalize(exception_type);
    let s = normalize(severity);
    if outcome == MatchOutcome::Investigate && (str_equals(s.as_str(), "HIGH") || str_equals(s.as_str(), "CRITICAL")) {
        return ReconReasonCode::HighRiskInvestigate;
    }
    if str_contains(t.as_str(), "AMOUNT") {
        return ReconReasonCode::AmountMismatch;
    }
    if str_contains(t.as_str(), "CURRENCY") || str_contains(t.as_str(), "FX") {
        return ReconReasonCode::CurrencyMismatch;
    }
    if str_contains(t.as_str(), "BANK") {
        return ReconReasonCode::MissingBankReference;
    }
    if str_contains(t.as_str(), "GATEWAY") || str_contains(t.as_str(), "STRIPE") {
        return ReconReasonCode::MissingGatewayReference;
    }
    ReconReasonCode::Unclassified
}

/// Routes a manual exception to a reason and its owner queue.
pub fn route_exception(input: &ReconException, outcome: MatchOutcome) -> (r: ReconRoutingDecision)
    ensures
        r.reason_code == routed_reason(input.exception_type@, outcome, input.severity@),
        r.owner_queue@ == owner_queue_text(r.reason_code),
{
    let reason_code = route_reason_code(input.exception_type.as_str(), outcome, input.severity.as_str());
    let owner_queue = owned(route_owner_queue(reason_code));
    ReconRoutingDecision { reason_code, owner_queue }
}

/// An exception needs an owner and a severity that are not blank.
pub fn validate_exception(input: &ReconException) -> (r: Result<(), ReconValidationError>)
    ensures
        trim_text(input.owner@).len() == 0 ==> r == Err::<(), ReconValidationError>(ReconValidationError::MissingOwner),
        trim_text(input.owner@).len() > 0 && trim_text(input.severity@).len() == 0
            ==> r == Err::<(), ReconValidationError>(ReconValidationError::MissingSeverity),
        trim_text(input.owner@).len() > 0 && trim_text(input.severity@).len() > 0 ==> r is Ok,
{
    if trim(input.owner.as_str()).as_str().unicode_len() == 0 {
        return Err(ReconValidationError::MissingOwner);
    }
    if trim(input.severity.as_str()).as_str().unicode_len() == 0 {
        return Err(ReconValidationError::MissingSeverity);
    }
    Ok(())
}


/// An order to match. Times are seconds since the Unix epoch (UTC).
#[derive(Debug, Clone, PartialEq, Eq)]
pub struct ReconOrder {
    pub order_id: String,
    pub payment_id: String,
    pub payout_id: String,
    pub currency: String,
    pub amount_minor: i64,
    pub captured_at: i64,
}

#[derive(Debug, Clone, PartialEq, Eq)]
pub struct ReconPayment {
    pub payment_id: String,
    pub order_id: String,
    pub payout_id: String,
    pub currency: String,
    pub amount_minor: i64,
    pub settled_at: i64,
}

#[derive(Debug, Clone, PartialEq, Eq)]
pub struct ReconPayout {
    pub payout_id: String,
    pub payment_id: String,
    pub bank_reference: String,
    pub currency: String,
    pub amount_minor: i64,
    pub settled_at: i64,
}

#[derive(Debug, Clone, PartialEq, Eq)]
pub struct ReconRunInput {
    pub run_id: String,
    pub run_started_at: i64,
    pub orders: Vec<ReconOrder>,
    pub payments: Vec<ReconPayment>,
    pub payouts: Vec<ReconPayout>,
    pub tolerance_minor: i64,
}

#[derive(Debug, Clone, PartialEq, Eq)]
pub struct ReconMatchRecord {
    pub order_id: String,
    pub expected_payment_id: String,
    pub expected_payout_id: String,
    pub matched_payment_id: Option<String>,
    pub matched_payout_id: Option<String>,
    pub outcome: MatchOutcome,
    pub reason_code: Option<ReconReasonCode>,
}

#[derive(Debug, Clone, PartialEq, Eq)]
pub struct ReconExceptionQueueItem {
    pub exception_id: String,
    pub order_id: String,
    pub payment_id: String,
    pub payout_id: String,
    pub reason_code: ReconReasonCode,
    pub owner_queue: String,
    pub opened_at: i64,
    pub sla_due_at: i64,
    pub outcome: MatchOutcome,
}

#[derive(Debug, Clone, Copy, PartialEq, Eq, Structural)]
pub struct ReconRunMetrics {
    pub total_candidates: u32,
    pub auto_matched: u32,
    pub non_auto_candidates: u32,
    pub routed_exceptions: u32,
    pub auto_match_rate_bps: u32,
    pub routed_exception_rate_bps: u32,
}

#[derive(Debug, Clone, PartialEq, Eq)]
pub struct ReconRunResult {
    pub run_id: String,
    pub run_started_at: i64,
    pub matches: Vec<ReconMatchRecord>,
    pub exception_queue: Vec<ReconExceptionQueueItem>,
    pub metrics: ReconRunMetrics,
}

impl ReconOrder {
    pub fn copy_order(&self) -> (r: ReconOrder)
        ensures
            r == *self,
    {
        ReconOrder {
            order_id: self.order_id.clone(),
            payment_id: self.payment_id.clone(),
            payout_id: self.payout_id.clone(),
            currency: self.currency.clone(),
            amount_minor: self.amount_minor,
            captured_at: self.captured_at,
        }
    }
}

/// Inserts `o` after every element whose order id does not sort after its own.
pub open spec fn insert_order(sorted: Seq<ReconOrder>, o: ReconOrder) -> Seq<ReconOrder>
    decreases sorted.len(),
{
    if sorted.len() == 0 {
        seq![o]
    } else if text_less(o.order_id@, sorted.last().order_id@) {
        insert_order(sorted.drop_last(), o).push(sorted.last())
    } else {
        sorted.push(o)
    }
}

/// The orders sorted by order id; orders with equal ids keep their order.
pub open spec fn sort_orders(s: Seq<ReconOrder>) -> Seq<ReconOrder>
    decreases s.len(),
{
    if s.len() == 0 {
        s
    } else {
        insert_order(sort_orders(s.drop_last()), s.last())
    }
}

fn insert_order_exec(sorted: &Vec<ReconOrder>, o: ReconOrder) -> (r: Vec<ReconOrder>)
    ensures
        r@ == insert_order(sorted@, o),
{
    let n = sorted.len();
    let mut p: usize = n;
    assert(sorted@.subrange(0, n as int) =~= sorted@);
    assert(sorted@.subrange(n as int, n as int) =~= Seq::<ReconOrder>::empty());
    while p > 0 && str_less(o.order_id.as_str(), sorted[p - 1].order_id.as_str())
        invariant
            p <= n,
            n == sorted@.len(),
            insert_order(sorted@, o) == insert_order(sorted@.subrange(0, p as int), o) + sorted@.subrange(p as int, n as int),
        decreases p,
    {
        let ghost prefix = sorted@.subrange(0, p as int);
        assert(prefix.drop_last() =~= sorted@.subrange(0, p as int - 1));
        assert(prefix.last() == sorted@[p as int - 1]);
        assert(sorted@.subrange(p as int - 1, n as int) =~= seq![sorted@[p as int - 1]] + sorted@.subrange(p as int, n as int));
        assert(insert_order(prefix, o) == insert_order(sorted@.subrange(0, p as int - 1), o).push(sorted@[p as int - 1]));
        assert(insert_order(prefix, o) + sorted@.subrange(p as int, n as int) =~= insert_order(sorted@.subrange(0, p as int - 1), o) + sorted@.subrange(p as int - 1, n as int));
        p = p - 1;
    }
    let mut out: Vec<ReconOrder> = Vec::new();
    let mut i: usize = 0;
    while i < p
        invariant
            i <= p <= n,
            n == sorted@.len(),
            out@ == sorted@.subrange(0, i as int),
        decreases p - i,
    {
        out.push(sorted[i].copy_order());
        i = i + 1;
        assert(out@ =~= sorted@.subrange(0, i as int));
    }
    let ghost op = o;
    out.push(o);
    let mut j: usize = p;
    while j < n
        invariant
            p <= j <= n,
            n == sorted@.len(),
            out@ == sorted@.subrange(0, p as int).push(op) + sorted@.subrange(p as int, j as int),
        decreases n - j,
    {
        out.push(sorted[j].copy_order());
        j = j + 1;
        assert(out@ =~= sorted@.subrange(0, p as int).push(op) + sorted@.subrange(p as int, j as int));
    }
    proof {
        let prefix = sorted@.subrange(0, p as int);
        if p == 0 {
            assert(prefix =~= Seq::<ReconOrder>::empty());
        } else {
            assert(prefix.last() == sorted@[p as int - 1]);
        }
        assert(insert_order(prefix, op) == prefix.push(op));
    }
    out
}

/// The orders of a run, sorted by order id (stable).
pub fn sort_orders_by_id(orders: &Vec<ReconOrder>) -> (r: Vec<ReconOrder>)
    ensures
        r@ == sort_orders(orders@),
{
    let mut sorted: Vec<ReconOrder> = Vec::new();
    let mut i: usize = 0;
    assert(orders@.subrange(0, 0) =~= Seq::<ReconOrder>::empty());
    while i < orders.len()
        invariant
            i <= orders.len(),
            sorted@ == sort_orders(orders@.subrange(0, i as int)),
        decreases orders.len() - i,
    {
        assert(orders@.subrange(0, i as int + 1).drop_last() =~= orders@.subrange(0, i as int));
        sorted = insert_order_exec(&sorted, orders[i].copy_order());
        i = i + 1;
    }
    assert(orders@.subrange(0, orders@.len() as int) =~= orders@);
    sorted
}

/// The payments whose id is `id`, in input order.
pub open spec fn matching_payments(s: Seq<ReconPayment>, id: Seq<char>) -> Seq<ReconPayment>
    decreases s.len(),
{
    if s.len() == 0 {
        Seq::empty()
    } else if s.last().payment_id@ == id {
        matching_payments(s.drop_last(), id).push(s.last())
    } else {
        matching_payments(s.drop_last(), id)
    }
}

/// The payouts whose id is `id`, in input order.
pub open spec fn matching_payouts(s: Seq<ReconPayout>, id: Seq<char>) -> Seq<ReconPayout>
    decreases s.len(),
{
    if s.len() == 0 {
        Seq::empty()
    } else if s.last().payout_id@ == id {
        matching_payouts(s.drop_last(), id).push(s.last())
    } else {
        matching_payouts(s.drop_last(), id)
    }
}

/// How many payments carry `id`, and the first of them.
fn find_payments(payments: &Vec<ReconPayment>, id: &String) -> (r: (usize, usize))
    ensures
        r.0 == matching_payments(payments@, id@).len(),
        r.0 >= 1 ==> r.1 < payments@.len() && payments@[r.1 as int] == matching_payments(payments@, id@)[0],
{
    let mut count: usize = 0;
    let mut first: usize = 0;
    let mut i: usize = 0;
    assert(payments@.subrange(0, 0) =~= Seq::<ReconPayment>::empty());
    while i < payments.len()
        invariant
            i <= payments.len(),
            count <= i,
            count == matching_payments(payments@.subrange(0, i as int), id@).len(),
            count >= 1 ==> first < payments@.len() && payments@[first as int] == matching_payments(payments@.subrange(0, i as int), id@)[0],
        decreases payments.len() - i,
    {
        assert(payments@.subrange(0, i as int + 1).drop_last() =~= payments@.subrange(0, i as int));
        if payments[i].payment_id == *id {
            if count == 0 {
                first = i;
            }
            count = count + 1;
        }
        i = i + 1;
    }
    assert(payments@.subrange(0, payments@.len() as int) =~= payments@);
    (count, first)
}

/// How many payouts carry `id`, and the first of them.
fn find_payouts(payouts: &Vec<ReconPayout>, id: &String) -> (r: (usize, usize))
    ensures
        r.0 == matching_payouts(payouts@, id@).len(),
        r.0 >= 1 ==> r.1 < payouts@.len() && payouts@[r.1 as int] == matching_payouts(payouts@, id@)[0],
{
    let mut count: usize = 0;
    let mut first: usize = 0;
    let mut i: usize = 0;
    assert(payouts@.subrange(0, 0) =~= Seq::<ReconPayout>::empty());
    while i < payouts.len()
        invariant
            i <= payouts.len(),
            count <= i,
            count == matching_payouts(payouts@.subrange(0, i as int), id@).len(),
            count >= 1 ==> first < payouts@.len() && payouts@[first as int] == matching_payouts(payouts@.subrange(0, i as int), id@)[0],
        decreases payouts.len() - i,
    {
        assert(payouts@.subrange(0, i as int + 1).drop_last() =~= payouts@.subrange(0, i as int));
        if payouts[i].payout_id == *id {
            if count == 0 {
                first = i;
            }
            count = count + 1;
        }
        i = i + 1;
    }
    assert(payouts@.subrange(0, payouts@.len() as int) =~= payouts@);
    (count, first)
}

/// The verdict on one order.
pub struct Decision {
    pub outcome: MatchOutcome,
    pub reason: Option<ReconReasonCode>,
    pub payment: Option<ReconPayment>,
    pub payout: Option<ReconPayout>,
}

pub open spec fn abs_diff(a: int, b: int) -> int {
    if a >= b {
        a - b
    } else {
        b - a
    }
}

/// The three-way decision for one order: cardinality of the payment and
/// payout candidates, then references, then currencies, then amounts
/// against the tolerance.
pub open spec fn decide(o: ReconOrder, payments: Seq<ReconPayment>, payouts: Seq<ReconPayout>, tolerance: int) -> Decision {
    let pc = matching_payments(payments, o.payment_id@);
    if pc.len() == 0 {
        Decision { outcome: MatchOutcome::Unmatched, reason: Some(ReconReasonCode::MissingGatewayReference), payment: None, payout: None }
    } else if pc.len() >= 2 {
        Decision { outcome: MatchOutcome::Duplicate, reason: Some(ReconReasonCode::DuplicateCandidate), payment: None, payout: None }
    } else {
        let p = pc[0];
        let qc = matching_payouts(payouts, o.payout_id@);
        if qc.len() == 0 {
            Decision { outcome: MatchOutcome::Unmatched, reason: Some(ReconReasonCode::MissingBankReference), payment: Some(p), payout: None }
        } else if qc.len() >= 2 {
            Decision { outcome: MatchOutcome::Duplicate, reason: Some(ReconReasonCode::DuplicateCandidate), payment: Some(p), payout: None }
        } else {
            let q = qc[0];
            if p.order_id@ != o.order_id@ || p.payout_id@ != o.payout_id@ || q.payment_id@ != p.payment_id@ {
                Decision { outcome: MatchOutcome::PartialMatch, reason: Some(ReconReasonCode::PartialAllocationRequired), payment: Some(p), payout: Some(q) }
            } else if currency_text(o.currency@) != currency_text(p.currency@) || currency_text(p.currency@) != currency_text(q.currency@) {
                Decision { outcome: MatchOutcome::Unmatched, reason: Some(ReconReasonCode::CurrencyMismatch), payment: Some(p), payout: Some(q) }
            } else {
                let d1 = abs_diff(o.amount_minor as int, p.amount_minor as int);
                let d2 = abs_diff(p.amount_minor as int, q.amount_minor as int);
                if d1 == 0 && d2 == 0 {
                    Decision { outcome: MatchOutcome::MatchedExact, reason: None, payment: Some(p), payout: Some(q) }
                } else if d1 <= tolerance && d2 <= tolerance {
                    Decision { outcome: MatchOutcome::MatchedTolerance, reason: None, payment: Some(p), payout: Some(q) }
                } else if d1 <= tolerance || d2 <= tolerance {
                    Decision { outcome: MatchOutcome::PartialMatch, reason: Some(ReconReasonCode::PartialAllocationRequired), payment: Some(p), payout: Some(q) }
                } else {
                    Decision { outcome: MatchOutcome::Unmatched, reason: Some(ReconReasonCode::AmountMismatch), payment: Some(p), payout: Some(q) }
                }
            }
        }
    }
}

/// The tolerance a run uses: its own, or the default when negative.
pub open spec fn effective_tolerance(t: int) -> int {
    if t < 0 {
        DEFAULT_MATCH_TOLERANCE_MINOR as int
    } else {
        t
    }
}

pub open spec fn decisions(input: ReconRunInput) -> Seq<Decision> {
    sort_orders(input.orders@).map_values(
        |o: ReconOrder| decide(o, input.payments@, input.payouts@, effective_tolerance(input.tolerance_minor as int)),
    )
}

/// How many decisions carry a reason.
pub open spec fn count_reasons(ds: Seq<Decision>) -> nat
    decreases ds.len(),
{
    if ds.len() == 0 {
        0
    } else {
        count_reasons(ds.drop_last()) + if ds.last().reason is Some {
            1nat
        } else {
            0nat
        }
    }
}

/// How many decisions are automatic matches.
pub open spec fn count_auto(ds: Seq<Decision>) -> nat
    decreases ds.len(),
{
    if ds.len() == 0 {
        0
    } else {
        count_auto(ds.drop_last()) + if auto_match(ds.last().outcome) {
            1nat
        } else {
            0nat
        }
    }
}

/// A decision has a reason exactly when it is not an automatic match.
pub open spec fn consistent(d: Decision) -> bool {
    d.reason is None <==> auto_match(d.outcome)
}

proof fn lemma_decide_consistent(o: ReconOrder, payments: Seq<ReconPayment>, payouts: Seq<ReconPayout>, tolerance: int)
    ensures
        consistent(decide(o, payments, payouts, tolerance)),
{
}

proof fn lemma_counts_partition(ds: Seq<Decision>)
    requires
        forall|i: int| 0 <= i < ds.len() ==> consistent(#[trigger] ds[i]),
    ensures
        count_reasons(ds) + count_auto(ds) == ds.len(),
    decreases ds.len(),
{
    if ds.len() > 0 {
        let t = ds.drop_last();
        assert forall|i: int| 0 <= i < t.len() implies consistent(#[trigger] t[i]) by {
            assert(t[i] == ds[i]);
        }
        lemma_counts_partition(t);
        assert(consistent(ds[ds.len() - 1]));
    }
}

pub open spec fn opt_text(o: Option<String>) -> Option<Seq<char>> {
    match o {
        Some(s) => Some(s@),
        None => None,
    }
}

pub open spec fn payment_id_of(p: Option<ReconPayment>) -> Option<Seq<char>> {
    match p {
        Some(x) => Some(x.payment_id@),
        None => None,
    }
}

pub open spec fn payout_id_of(p: Option<ReconPayout>) -> Option<Seq<char>> {
    match p {
        Some(x) => Some(x.payout_id@),
        None => None,
    }
}

/// A match record states the decision on its order.
pub open spec fn record_fits(m: ReconMatchRecord, o: ReconOrder, d: Decision) -> bool {
    &&& m.order_id@ == o.order_id@
    &&& m.expected_payment_id@ == o.payment_id@
    &&& m.expected_payout_id@ == o.payout_id@
    &&& opt_text(m.matched_payment_id) == payment_id_of(d.payment)
    &&& opt_text(m.matched_payout_id) == payout_id_of(d.payout)
    &&& m.outcome == d.outcome
    &&& m.reason_code == d.reason
}

/// `{run}-EX-{n:04}`.
pub open spec fn exception_id_text(run_id: Seq<char>, n: nat) -> Seq<char> {
    run_id + "-EX-"@ + padded_decimal(n, 4)
}

/// An exception item routes the `n`-th reasoned decision of a run.
pub open spec fn item_fits(e: ReconExceptionQueueItem, o: ReconOrder, d: Decision, run_id: Seq<char>, n: nat, start: int) -> bool {
    &&& e.exception_id@ == exception_id_text(run_id, n)
    &&& e.order_id@ == o.order_id@
    &&& e.payment_id@ == o.payment_id@
    &&& e.payout_id@ == o.payout_id@
    &&& d.reason == Some(e.reason_code)
    &&& e.owner_queue@ == owner_queue_text(e.reason_code)
    &&& e.opened_at == start
    &&& e.sla_due_at == start + sla_hours(e.reason_code) * 3600
    &&& e.outcome == d.outcome
}


proof fn lemma_count_reasons_prefix(ds: Seq<Decision>, a: int, b: int)
    requires
        0 <= a <= b <= ds.len(),
    ensures
        count_reasons(ds.subrange(0, a)) <= count_reasons(ds.subrange(0, b)),
        a < b && ds[a].reason is Some ==> count_reasons(ds.subrange(0, a)) < count_reasons(ds.subrange(0, b)),
    decreases b - a,
{
    if a < b {
        lemma_count_reasons_prefix(ds, a, b - 1);
        assert(ds.subrange(0, b).drop_last() =~= ds.subrange(0, b - 1));
        if a == b - 1 {
            assert(ds.subrange(0, b).last() == ds[a]);
        }
    }
}

proof fn lemma_insert_len(sorted: Seq<ReconOrder>, o: ReconOrder)
    ensures
        insert_order(sorted, o).len() == sorted.len() + 1,
    decreases sorted.len(),
{
    if sorted.len() > 0 {
        lemma_insert_len(sorted.drop_last(), o);
    }
}

proof fn lemma_sort_len(s: Seq<ReconOrder>)
    ensures
        sort_orders(s).len() == s.len(),
    decreases s.len(),
{
    if s.len() > 0 {
        lemma_sort_len(s.drop_last());
        lemma_insert_len(sort_orders(s.drop_last()), s.last());
    }
}

/// The decision on one order, with the positions of the matched payment and
/// payout.
fn decide_order(o: &ReconOrder, payments: &Vec<ReconPayment>, payouts: &Vec<ReconPayout>, tolerance: i64) -> (r: (
    MatchOutcome,
    Option<ReconReasonCode>,
    Option<usize>,
    Option<usize>,
))
    ensures
        ({
            let d = decide(*o, payments@, payouts@, tolerance as int);
            &&& r.0 == d.outcome
            &&& r.1 == d.reason
            &&& match r.2 {
                Some(i) => i < payments@.len() && d.payment == Some(payments@[i as int]),
                None => d.payment is None,
            }
            &&& match r.3 {
                Some(i) => i < payouts@.len() && d.payout == Some(payouts@[i as int]),
                None => d.payout is None,
            }
        }),
{
    let (pc, pi) = find_payments(payments, &o.payment_id);
    if pc == 0 {
        return (MatchOutcome::Unmatched, Some(ReconReasonCode::MissingGatewayReference), None, None);
    }
    if pc >= 2 {
        return (MatchOutcome::Duplicate, Some(ReconReasonCode::DuplicateCandidate), None, None);
    }
    let (qc, qi) = find_payouts(payouts, &o.payout_id);
    if qc == 0 {
        return (MatchOutcome::Unmatched, Some(ReconReasonCode::MissingBankReference), Some(pi), None);
    }
    if qc >= 2 {
        return (MatchOutcome::Duplicate, Some(ReconReasonCode::DuplicateCandidate), Some(pi), None);
    }
    let p = &payments[pi];
    let q = &payouts[qi];
    if p.order_id != o.order_id || p.payout_id != o.payout_id || q.payment_id != p.payment_id {
        return (MatchOutcome::PartialMatch, Some(ReconReasonCode::PartialAllocationRequired), Some(pi), Some(qi));
    }
    let oc = normalize_currency(o.currency.as_str());
    let pcur = normalize_currency(p.currency.as_str());
    let qcur = normalize_currency(q.currency.as_str());
    if oc != pcur || pcur != qcur {
        return (MatchOutcome::Unmatched, Some(ReconReasonCode::CurrencyMismatch), Some(pi), Some(qi));
    }
    let d1: i128 = if o.amount_minor >= p.amount_minor {
        o.amount_minor as i128 - p.amount_minor as i128
    } else {
        p.amount_minor as i128 - o.amount_minor as i128
    };
    let d2: i128 = if p.amount_minor >= q.amount_minor {
        p.amount_minor as i128 - q.amount_minor as i128
    } else {
        q.amount_minor as i128 - p.amount_minor as i128
    };
    let t = tolerance as i128;
    if d1 == 0 && d2 == 0 {
        (MatchOutcome::MatchedExact, None, Some(pi), Some(qi))
    } else if d1 <= t && d2 <= t {
        (MatchOutcome::MatchedTolerance, None, Some(pi), Some(qi))
    } else if d1 <= t || d2 <= t {
        (MatchOutcome::PartialMatch, Some(ReconReasonCode::PartialAllocationRequired), Some(pi), Some(qi))
    } else {
        (MatchOutcome::Unmatched, Some(ReconReasonCode::AmountMismatch), Some(pi), Some(qi))
    }
}

fn exception_id(run_id: &String, n: u32) -> (r: String)
    ensures
        r@ == exception_id_text(run_id@, n as nat),
{
    let mut out = run_id.clone();
    out.append("-EX-");
    push_padded_decimal(&mut out, n as u64, 4);
    assert(out@ =~= exception_id_text(run_id@, n as nat));
    out
}

/// What a reconciliation run yields for an input: one record per order in
/// ascending order id, one exception per reasoned decision in that order,
/// and the metrics.
pub open spec fn reconciles(input: ReconRunInput, r: ReconRunResult) -> bool {
    ({
            let sorted = sort_orders(input.orders@);
            let ds = decisions(input);
            let run_id = run_id_text(input.run_id@);
            &&& r.run_id@ == input.run_id@
            &&& r.run_started_at == input.run_started_at
            &&& r.matches@.len() == sorted.len()
            &&& forall|i: int| 0 <= i < sorted.len() ==> record_fits(#[trigger] r.matches@[i], sorted[i], ds[i])
            &&& r.exception_queue@.len() == count_reasons(ds)
            &&& forall|i: int| 0 <= i < sorted.len() && (#[trigger] ds[i]).reason is Some ==> item_fits(
                r.exception_queue@[count_reasons(ds.subrange(0, i)) as int],
                sorted[i],
                ds[i],
                run_id,
                count_reasons(ds.subrange(0, i)) + 1,
                input.run_started_at as int,
            )
            &&& r.metrics.total_candidates == sorted.len()
            &&& r.metrics.auto_matched == count_auto(ds)
            &&& r.metrics.non_auto_candidates == sorted.len() - count_auto(ds)
            &&& r.metrics.routed_exceptions == count_reasons(ds)
            &&& r.metrics.auto_match_rate_bps == bps(count_auto(ds) as int, sorted.len() as int)
            &&& r.metrics.routed_exception_rate_bps == bps(count_reasons(ds) as int, sorted.len() - count_auto(ds))
        })
}

/// Two exception items hold the same values.
pub open spec fn same_item(a: ReconExceptionQueueItem, b: ReconExceptionQueueItem) -> bool {
    &&& a.exception_id@ == b.exception_id@
    &&& a.order_id@ == b.order_id@
    &&& a.payment_id@ == b.payment_id@
    &&& a.payout_id@ == b.payout_id@
    &&& a.reason_code == b.reason_code
    &&& a.owner_queue@ == b.owner_queue@
    &&& a.opened_at == b.opened_at
    &&& a.sla_due_at == b.sla_due_at
    &&& a.outcome == b.outcome
}

/// Two match records hold the same values.
pub open spec fn same_record(a: ReconMatchRecord, b: ReconMatchRecord) -> bool {
    &&& a.order_id@ == b.order_id@
    &&& a.expected_payment_id@ == b.expected_payment_id@
    &&& a.expected_payout_id@ == b.expected_payout_id@
    &&& opt_text(a.matched_payment_id) == opt_text(b.matched_payment_id)
    &&& opt_text(a.matched_payout_id) == opt_text(b.matched_payout_id)
    &&& a.outcome == b.outcome
    &&& a.reason_code == b.reason_code
}

/// Two run results hold the same values.
pub open spec fn same_result(a: ReconRunResult, b: ReconRunResult) -> bool {
    &&& a.run_id@ == b.run_id@
    &&& a.run_started_at == b.run_started_at
    &&& a.matches@.len() == b.matches@.len()
    &&& forall|i: int| 0 <= i < a.matches@.len() ==> same_record(#[trigger] a.matches@[i], b.matches@[i])
    &&& a.exception_queue@.len() == b.exception_queue@.len()
    &&& forall|i: int| 0 <= i < a.exception_queue@.len() ==> same_item(#[trigger] a.exception_queue@[i], b.exception_queue@[i])
    &&& a.metrics == b.metrics
}

proof fn lemma_count_reasons_onto(ds: Seq<Decision>, q: int)
    requires
        0 <= q < count_reasons(ds),
    ensures
        exists|i: int| 0 <= i < ds.len() && (#[trigger] ds[i]).reason is Some && count_reasons(ds.subrange(0, i)) == q,
    decreases ds.len(),
{
    let t = ds.drop_last();
    if q < count_reasons(t) {
        lemma_count_reasons_onto(t, q);
        let i = choose|i: int| 0 <= i < t.len() && (#[trigger] t[i]).reason is Some && count_reasons(t.subrange(0, i)) == q;
        assert(t.subrange(0, i) =~= ds.subrange(0, i));
        assert(ds[i] == t[i]);
    } else {
        let i = ds.len() - 1;
        assert(t =~= ds.subrange(0, i));
        assert(ds[i].reason is Some);
    }
}

/// Reconciliation is a function of its input: any two results that a run
/// may yield for the same input hold the same values.
pub proof fn lemma_reconcile_deterministic(input: ReconRunInput, r1: ReconRunResult, r2: ReconRunResult)
    requires
        reconciles(input, r1),
        reconciles(input, r2),
    ensures
        same_result(r1, r2),
{
    let ds = decisions(input);
    let sorted = sort_orders(input.orders@);
    lemma_sort_len(input.orders@);
    assert forall|i: int| 0 <= i < r1.matches@.len() implies same_record(#[trigger] r1.matches@[i], r2.matches@[i]) by {
        assert(record_fits(r1.matches@[i], sorted[i], ds[i]));
        assert(record_fits(r2.matches@[i], sorted[i], ds[i]));
    }
    assert forall|q: int| 0 <= q < r1.exception_queue@.len() implies same_item(#[trigger] r1.exception_queue@[q], r2.exception_queue@[q]) by {
        lemma_count_reasons_onto(ds, q);
        let i = choose|i: int| 0 <= i < ds.len() && (#[trigger] ds[i]).reason is Some && count_reasons(ds.subrange(0, i)) == q;
    }
}

/// Matches each order (ascending order id) to its payment and payout,
/// routes every order with a reason to an exception queue with an SLA, and
/// measures the run. The same input always yields the same result.
pub fn reconcile_v1(input: &ReconRunInput) -> (r: ReconRunResult)
    requires
        input.orders@.len() < u32::MAX,
        input.run_started_at <= i64::MAX - 86400,
    ensures
        reconciles(*input, r),
{
    let sorted = sort_orders_by_id(&input.orders);
    let tolerance: i64 = if input.tolerance_minor < 0 {
        DEFAULT_MATCH_TOLERANCE_MINOR
    } else {
        input.tolerance_minor
    };
    let run_id = normalize_run_id(input.run_id.as_str());
    let ghost ds = decisions(*input);
    proof {
        lemma_sort_len(input.orders@);
    }
    let n = sorted.len();
    let mut matches: Vec<ReconMatchRecord> = Vec::new();
    let mut exception_queue: Vec<ReconExceptionQueueItem> = Vec::new();
    let mut auto_matched: u32 = 0;
    let mut exception_sequence: u32 = 1;
    let mut i: usize = 0;
    assert(ds.subrange(0, 0) =~= Seq::<Decision>::empty());
    while i < n
        invariant
            i <= n,
            n == sorted@.len(),
            n < u32::MAX,
            sorted@ == sort_orders(input.orders@),
            ds == decisions(*input),
            ds.len() == n,
            tolerance == effective_tolerance(input.tolerance_minor as int),
            run_id@ == run_id_text(input.run_id@),
            input.run_started_at <= i64::MAX - 86400,
            matches@.len() == i,
            forall|k: int| 0 <= k < i ==> record_fits(#[trigger] matches@[k], sorted@[k], ds[k]),
            exception_queue@.len() == count_reasons(ds.subrange(0, i as int)),
            exception_sequence == count_reasons(ds.subrange(0, i as int)) + 1,
            auto_matched == count_auto(ds.subrange(0, i as int)),
            count_reasons(ds.subrange(0, i as int)) <= i,
            count_auto(ds.subrange(0, i as int)) <= i,
            forall|k: int| 0 <= k < i && (#[trigger] ds[k]).reason is Some ==> item_fits(
                exception_queue@[count_reasons(ds.subrange(0, k)) as int],
                sorted@[k],
                ds[k],
                run_id@,
                count_reasons(ds.subrange(0, k)) + 1,
                input.run_started_at as int,
            ),
        decreases n - i,
    {
        let order = &sorted[i];
        let (outcome, reason, pi, qi) = decide_order(order, &input.payments, &input.payouts, tolerance);
        let ghost d = ds[i as int];
        assert(d == decide(sorted@[i as int], input.payments@, input.payouts@, tolerance as int));
        let ghost prefix = ds.subrange(0, i as int + 1);
        assert(prefix.drop_last() =~= ds.subrange(0, i as int));
        assert(prefix.last() == d);
        if is_auto_match(&outcome) {
            auto_matched = auto_matched + 1;
        }
        let matched_payment_id = match pi {
            Some(k) => Some(input.payments[k].payment_id.clone()),
            None => None,
        };
        let matched_payout_id = match qi {
            Some(k) => Some(input.payouts[k].payout_id.clone()),
            None => None,
        };
        matches.push(ReconMatchRecord {
            order_id: order.order_id.clone(),
            expected_payment_id: order.payment_id.clone(),
            expected_payout_id: order.payout_id.clone(),
            matched_payment_id,
            matched_payout_id,
            outcome,
            reason_code: reason,
        });
        match reason {
            Some(code) => {
                let owner_queue = owned(route_owner_queue(code));
                let sla_due_at = input.run_started_at + sla_offset(code);
                let id = exception_id(&run_id, exception_sequence);
                exception_queue.push(ReconExceptionQueueItem {
                    exception_id: id,
                    order_id: order.order_id.clone(),
                    payment_id: order.payment_id.clone(),
                    payout_id: order.payout_id.clone(),
                    reason_code: code,
                    owner_queue,
                    opened_at: input.run_started_at,
                    sla_due_at,
                    outcome,
                });
                exception_sequence = exception_sequence + 1;
            },
            None => {},
        }
        proof {
            assert forall|k: int| 0 <= k < i + 1 && (#[trigger] ds[k]).reason is Some implies item_fits(
                exception_queue@[count_reasons(ds.subrange(0, k)) as int],
                sorted@[k],
                ds[k],
                run_id@,
                count_reasons(ds.subrange(0, k)) + 1,
                input.run_started_at as int,
            ) by {
                if k < i {
                    lemma_count_reasons_prefix(ds, k, i as int);
                }
            }
        }
        i = i + 1;
    }
    assert(ds.subrange(0, n as int) =~= ds);
    proof {
        assert forall|k: int| 0 <= k < ds.len() implies consistent(#[trigger] ds[k]) by {
            lemma_decide_consistent(sorted@[k], input.payments@, input.payouts@, tolerance as int);
        }
        lemma_counts_partition(ds);
    }
    let total_candidates = n as u32;
    let non_auto_candidates = total_candidates - auto_matched;
    let routed_exceptions = exception_queue.len() as u32;
    let auto_match_rate_bps = ratio_to_bps(auto_matched, total_candidates);
    let routed_exception_rate_bps = ratio_to_bps(routed_exceptions, non_auto_candidates);
    ReconRunResult {
        run_id: input.run_id.clone(),
        run_started_at: input.run_started_at,
        matches,
        exception_queue,
        metrics: ReconRunMetrics {
            total_candidates,
            auto_matched,
            non_auto_candidates,
            routed_exceptions,
            auto_match_rate_bps,
            routed_exception_rate_bps,
        },
    }
}

} // verus!
