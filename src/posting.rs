use vstd::prelude::*;

use crate::date::{date_key, CalendarDate};
use crate::digest::{sha256_bytes, sha256_of_text};
use crate::json::{first_string, first_text, str_views, JsonValue};
use crate::ledger::{is_balanced, side_total, EntrySide, JournalLine};
use crate::rule_engine::{
    lines_balanced, lines_model, model_side_total, DerivedPostingLine, LineModel, RuleEngineError, RuleFault,
};
use crate::text::{
    ascii_upper_text, json_string_text, owned, push_json_string, str_equals, to_ascii_uppercase, trim, trim_text,
};

verus! {

#[derive(Debug, Clone, PartialEq, Eq)]
pub struct PostLine {
    pub account_id: String,
    pub entry_side: String,
    pub amount_minor: i64,
    pub currency: String,
    pub base_amount_minor: i64,
    pub base_currency: String,
}

#[derive(Debug, Clone, PartialEq, Eq)]
pub struct Provenance {
    pub book_policy_id: String,
    pub policy_version: String,
    pub fx_rate_set_id: String,
    pub ruleset_version: String,
    pub workflow_id: Option<String>,
}

#[derive(Debug, Clone, PartialEq, Eq)]
pub struct PostEventResponse {
    pub journal_id: String,
    pub status: String,
    pub replayed: bool,
}

#[derive(Debug, Clone, PartialEq, Eq)]
pub struct ReverseJournalResponse {
    pub journal_id: String,
    pub status: String,
}

#[derive(Debug, Clone, PartialEq, Eq)]
pub struct LockPeriodRequest {
    pub tenant_id: String,
    pub legal_entity_id: String,
    pub ledger_book: String,
}

#[derive(Debug, Clone, PartialEq, Eq)]
pub struct LockPeriodResponse {
    pub period_id: String,
    pub status: String,
}

#[derive(Debug, Clone, PartialEq, Eq)]
pub struct UpsertLegalHoldRequest {
    pub hold_id: String,
    pub tenant_id: String,
    pub legal_entity_id: String,
    pub ledger_book: String,
    pub start_date: String,
    pub end_date: Option<String>,
    pub reason: String,
    pub retention_days: u32,
}

#[derive(Debug, Clone, PartialEq, Eq)]
pub struct UpsertLegalHoldResponse {
    pub hold_id: String,
    pub status: String,
}

#[derive(Debug, Clone, PartialEq, Eq)]
pub struct AdjustJournalRequest {
    pub tenant_id: String,
    pub legal_entity_id: String,
    pub ledger_book: String,
    pub accounting_date: String,
    pub source_event_id: String,
    pub posting_run_id: String,
    pub reason_code: String,
    pub location_id: Option<String>,
    pub lines: Vec<PostLine>,
    pub provenance: Provenance,
}

#[derive(Debug, Clone, PartialEq, Eq)]
pub struct AdjustJournalResponse {
    pub reversed_journal_id: String,
    pub replacement_journal_id: String,
    pub status: String,
    pub audit_seal: String,
}

#[derive(Debug, Clone, PartialEq, Eq)]
pub struct RevRecQuery {
    pub book: String,
}

#[derive(Debug, Clone, PartialEq, Eq)]
pub struct RevRecRollforwardResponse {
    pub book: String,
    pub journal_count: u32,
    pub recognized_revenue_minor: i64,
    pub deferred_revenue_ending_minor: i64,
}

#[derive(Debug, Clone, PartialEq, Eq)]
pub struct RevRecDisclosureResponse {
    pub book: String,
    pub journal_count: u32,
    pub refund_contra_revenue_minor: i64,
    pub policy_versions: Vec<String>,
    pub fx_rate_sets: Vec<String>,
}

#[derive(Debug, Clone, PartialEq, Eq)]
pub struct AuditSealVerifyResponse {
    pub status: String,
    pub entries: usize,
}

/// A credit counts up, a debit down.
pub open spec fn signed(side: EntrySide, amount: int) -> int {
    match side {
        EntrySide::Credit => amount,
        EntrySide::Debit => -amount,
    }
}

pub fn signed_amount(entry_side: EntrySide, amount_minor: i64) -> (r: i64)
    requires
        amount_minor > i64::MIN,
    ensures
        r == signed(entry_side, amount_minor as int),
{
    match entry_side {
        EntrySide::Credit => amount_minor,
        EntrySide::Debit => -amount_minor,
    }
}

/// `debit` or `credit`, in any ASCII case.
pub open spec fn entry_side_of(s: Seq<char>) -> Option<EntrySide> {
    if ascii_upper_text(s) == "DEBIT"@ {
        Some(EntrySide::Debit)
    } else if ascii_upper_text(s) == "CREDIT"@ {
        Some(EntrySide::Credit)
    } else {
        None
    }
}

pub fn parse_entry_side(entry_side: &str) -> (r: Result<EntrySide, RuleEngineError>)
    ensures
        match entry_side_of(entry_side@) {
            Some(side) => r == Ok::<EntrySide, RuleEngineError>(side),
            None => r is Err && r->Err_0.fault() == RuleFault::InvalidEntrySide(entry_side@),
        },
{
    let upper = to_ascii_uppercase(entry_side);
    if str_equals(upper.as_str(), "DEBIT") {
        Ok(EntrySide::Debit)
    } else if str_equals(upper.as_str(), "CREDIT") {
        Ok(EntrySide::Credit)
    } else {
        Err(RuleEngineError::InvalidEntrySide(owned(entry_side)))
    }
}

/// Journal line `i` (numbered `i + 1`) holds the values of derived line `d`.
pub open spec fn numbered_from(l: JournalLine, d: LineModel, i: int) -> bool {
    &&& l.line_number == i + 1
    &&& l.account_id@ == d.account
    &&& l.entry_side == d.side
    &&& l.amount_minor == d.amount
    &&& l.currency@ == d.currency
    &&& l.base_amount_minor == d.base_amount
    &&& l.base_currency@ == d.base_currency
}

/// Numbers derived lines `1..=n` as journal lines.
pub fn number_derived_lines(derived: Vec<DerivedPostingLine>) -> (r: Vec<JournalLine>)
    requires
        derived@.len() < u32::MAX,
    ensures
        r@.len() == derived@.len(),
        forall|i: int| 0 <= i < r@.len() ==> numbered_from(#[trigger] r@[i], lines_model(derived@)[i], i),
{
    let mut out: Vec<JournalLine> = Vec::new();
    let mut i: usize = 0;
    while i < derived.len()
        invariant
            i <= derived@.len(),
            derived@.len() < u32::MAX,
            out@.len() == i,
            forall|k: int| 0 <= k < i ==> numbered_from(#[trigger] out@[k], lines_model(derived@)[k], k),
        decreases derived.len() - i,
    {
        let d = &derived[i];
        out.push(JournalLine {
            line_number: (i + 1) as u32,
            account_id: d.account_id.clone(),
            entry_side: d.entry_side,
            amount_minor: d.amount_minor,
            currency: d.currency.clone(),
            base_amount_minor: d.base_amount_minor,
            base_currency: d.base_currency.clone(),
        });
        i = i + 1;
    }
    out
}

proof fn lemma_numbered_totals(ls: Seq<JournalLine>, ds: Seq<LineModel>, side: EntrySide, base: bool)
    requires
        ls.len() == ds.len(),
        forall|i: int| 0 <= i < ls.len() ==> numbered_from(#[trigger] ls[i], ds[i], i),
    ensures
        side_total(ls, side, base) == model_side_total(ds, side, base),
    decreases ls.len(),
{
    if ls.len() > 0 {
        let lt = ls.drop_last();
        let dt = ds.drop_last();
        assert forall|i: int| 0 <= i < lt.len() implies numbered_from(#[trigger] lt[i], dt[i], i) by {
            assert(lt[i] == ls[i] && dt[i] == ds[i]);
        }
        lemma_numbered_totals(lt, dt, side, base);
        assert(numbered_from(ls[ls.len() - 1], ds[ds.len() - 1], ls.len() - 1));
    }
}

/// Journal lines numbered from balanced derived lines balance too, so a
/// journal built from the rule engine's lines passes the ledger's check.
pub proof fn lemma_numbered_lines_balance(ls: Seq<JournalLine>, ds: Seq<LineModel>)
    requires
        ls.len() == ds.len(),
        forall|i: int| 0 <= i < ls.len() ==> numbered_from(#[trigger] ls[i], ds[i], i),
        lines_balanced(ds),
    ensures
        is_balanced(ls),
{
    lemma_numbered_totals(ls, ds, EntrySide::Debit, false);
    lemma_numbered_totals(ls, ds, EntrySide::Credit, false);
    lemma_numbered_totals(ls, ds, EntrySide::Debit, true);
    lemma_numbered_totals(ls, ds, EntrySide::Credit, true);
}

/// Position of the first line whose side is neither debit nor credit, or
/// the line count.
pub open spec fn first_bad_side(ls: Seq<PostLine>) -> int
    decreases ls.len(),
{
    if ls.len() == 0 {
        0
    } else if entry_side_of(ls[0].entry_side@) is None {
        0
    } else {
        1 + first_bad_side(ls.drop_first())
    }
}

pub proof fn lemma_first_bad_side(ls: Seq<PostLine>, k: int)
    requires
        0 <= k <= ls.len(),
        forall|j: int| 0 <= j < k ==> entry_side_of((#[trigger] ls[j]).entry_side@) is Some,
        k < ls.len() ==> entry_side_of(ls[k].entry_side@) is None,
    ensures
        first_bad_side(ls) == k,
    decreases ls.len(),
{
    if ls.len() > 0 && k > 0 {
        assert forall|j: int| 0 <= j < k - 1 implies entry_side_of((#[trigger] ls.drop_first()[j]).entry_side@) is Some by {
            assert(ls.drop_first()[j] == ls[j + 1]);
        }
        lemma_first_bad_side(ls.drop_first(), k - 1);
    }
}

/// Sum of the explicit lines' amounts (or base amounts) on `side`.
pub open spec fn post_side_total(ls: Seq<PostLine>, side: EntrySide, base: bool) -> int
    decreases ls.len(),
{
    if ls.len() == 0 {
        0
    } else {
        let l = ls.last();
        post_side_total(ls.drop_last(), side, base) + if entry_side_of(l.entry_side@) == Some(side) {
            if base {
                l.base_amount_minor as int
            } else {
                l.amount_minor as int
            }
        } else {
            0
        }
    }
}

/// Explicit lines balance on both axes.
pub open spec fn post_lines_balanced(ls: Seq<PostLine>) -> bool {
    &&& post_side_total(ls, EntrySide::Debit, false) == post_side_total(ls, EntrySide::Credit, false)
    &&& post_side_total(ls, EntrySide::Debit, true) == post_side_total(ls, EntrySide::Credit, true)
}

/// Journal line `l` (numbered `i + 1`) holds explicit line `p`.
pub open spec fn built_from(l: JournalLine, p: PostLine, i: int) -> bool {
    &&& l.line_number == i + 1
    &&& l.account_id@ == p.account_id@
    &&& Some(l.entry_side) == entry_side_of(p.entry_side@)
    &&& l.amount_minor == p.amount_minor
    &&& l.currency@ == p.currency@
    &&& l.base_amount_minor == p.base_amount_minor
    &&& l.base_currency@ == p.base_currency@
}

proof fn lemma_built_totals(ls: Seq<JournalLine>, ps: Seq<PostLine>, side: EntrySide, base: bool)
    requires
        ls.len() == ps.len(),
        forall|i: int| 0 <= i < ls.len() ==> built_from(#[trigger] ls[i], ps[i], i),
    ensures
        side_total(ls, side, base) == post_side_total(ps, side, base),
    decreases ls.len(),
{
    if ls.len() > 0 {
        let lt = ls.drop_last();
        let pt = ps.drop_last();
        assert forall|i: int| 0 <= i < lt.len() implies built_from(#[trigger] lt[i], pt[i], i) by {
            assert(lt[i] == ls[i] && pt[i] == ps[i]);
        }
        lemma_built_totals(lt, pt, side, base);
        assert(built_from(ls[ls.len() - 1], ps[ps.len() - 1], ls.len() - 1));
    }
}

/// Lines built from explicit lines balance exactly when those lines do.
pub proof fn lemma_built_lines_balance(ls: Seq<JournalLine>, ps: Seq<PostLine>)
    requires
        ls.len() == ps.len(),
        forall|i: int| 0 <= i < ls.len() ==> built_from(#[trigger] ls[i], ps[i], i),
    ensures
        is_balanced(ls) <==> post_lines_balanced(ps),
{
    lemma_built_totals(ls, ps, EntrySide::Debit, false);
    lemma_built_totals(ls, ps, EntrySide::Credit, false);
    lemma_built_totals(ls, ps, EntrySide::Debit, true);
    lemma_built_totals(ls, ps, EntrySide::Credit, true);
}

/// Journal lines from explicitly given lines, numbered `1..=n`; fails on
/// the first entry side that is neither debit nor credit.
pub fn derive_lines_from_post_lines(lines: &[PostLine]) -> (r: Result<Vec<JournalLine>, RuleEngineError>)
    requires
        lines@.len() < u32::MAX,
    ensures
        (forall|i: int| 0 <= i < lines@.len() ==> entry_side_of((#[trigger] lines@[i]).entry_side@) is Some) <==> r is Ok,
        r is Err ==> first_bad_side(lines@) < lines@.len() && r->Err_0.fault() == RuleFault::InvalidEntrySide(
            lines@[first_bad_side(lines@)].entry_side@,
        ),
        r is Ok ==> forall|i: int| 0 <= i < lines@.len() ==> built_from(#[trigger] r->Ok_0@[i], lines@[i], i),
        r is Ok ==> r->Ok_0@.len() == lines@.len() && forall|i: int| 0 <= i < lines@.len() ==> {
            let l = #[trigger] r->Ok_0@[i];
            let p = lines@[i];
            &&& l.line_number == i + 1
            &&& l.account_id@ == p.account_id@
            &&& Some(l.entry_side) == entry_side_of(p.entry_side@)
            &&& l.amount_minor == p.amount_minor
            &&& l.currency@ == p.currency@
            &&& l.base_amount_minor == p.base_amount_minor
            &&& l.base_currency@ == p.base_currency@
        },
{
    let mut out: Vec<JournalLine> = Vec::new();
    let mut i: usize = 0;
    while i < lines.len()
        invariant
            i <= lines@.len(),
            lines@.len() < u32::MAX,
            out@.len() == i,
            forall|k: int| 0 <= k < i ==> entry_side_of((#[trigger] lines@[k]).entry_side@) is Some,
            forall|k: int| 0 <= k < i ==> {
                let l = #[trigger] out@[k];
                let p = lines@[k];
                &&& l.line_number == k + 1
                &&& l.account_id@ == p.account_id@
                &&& Some(l.entry_side) == entry_side_of(p.entry_side@)
                &&& l.amount_minor == p.amount_minor
                &&& l.currency@ == p.currency@
                &&& l.base_amount_minor == p.base_amount_minor
                &&& l.base_currency@ == p.base_currency@
            },
        decreases lines.len() - i,
    {
        let p = &lines[i];
        let side = match parse_entry_side(p.entry_side.as_str()) {
            Ok(s) => s,
            Err(e) => {
                proof {
                    lemma_first_bad_side(lines@, i as int);
                }
                return Err(e);
            },
        };
        out.push(JournalLine {
            line_number: (i + 1) as u32,
            account_id: p.account_id.clone(),
            entry_side: side,
            amount_minor: p.amount_minor,
            currency: p.currency.clone(),
            base_amount_minor: p.base_amount_minor,
            base_currency: p.base_currency.clone(),
        });
        i = i + 1;
    }
    Ok(out)
}

/// The canonical JSON text hashed for a journal id: `{"value":"K:H"}`.
pub open spec fn journal_id_material(key: Seq<char>, hash: Seq<char>) -> Seq<char> {
    "{\"value\":"@ + json_string_text(key + ":"@ + hash) + "}"@
}

/// The first sixteen bytes of a digest read as a big-endian integer.
pub open spec fn be_u128(b: Seq<u8>) -> int
    decreases b.len(),
{
    if b.len() == 0 {
        0
    } else {
        be_u128(b.drop_last()) * 256 + b.last() as int
    }
}

/// The journal id that an idempotency key and payload hash determine: the
/// first sixteen bytes of the SHA-256 of `{"value":"K:H"}`.
pub fn deterministic_journal_id(key: &str, hash: &str) -> (r: u128)
    ensures
        r as int == be_u128(sha256_of_text(journal_id_material(key@, hash@)).subrange(0, 16)),
{
    let mut composite = owned(key);
    composite.append(":");
    composite.append(hash);
    let mut material = owned("{\"value\":");
    push_json_string(&mut material, composite.as_str());
    material.append("}");
    assert(material@ =~= journal_id_material(key@, hash@));
    let digest = sha256_bytes(material.as_str());
    let mut acc: u128 = 0;
    let mut i: usize = 0;
    while i < 16
        invariant
            i <= 16,
            digest@.len() == 32,
            acc as int == be_u128(digest@.subrange(0, i as int)),
            be_u128(digest@.subrange(0, i as int)) < pow256(i as nat),
        decreases 16 - i,
    {
        let ghost p = digest@.subrange(0, i as int + 1);
        assert(p.drop_last() =~= digest@.subrange(0, i as int));
        proof {
            lemma_pow256_step(i as nat);
            assert(be_u128(p) == be_u128(digest@.subrange(0, i as int)) * 256 + digest@[i as int] as int);
            assert(be_u128(p) < pow256((i + 1) as nat)) by (nonlinear_arith)
                requires
                    be_u128(p) == be_u128(digest@.subrange(0, i as int)) * 256 + digest@[i as int] as int,
                    be_u128(digest@.subrange(0, i as int)) < pow256(i as nat),
                    pow256((i + 1) as nat) == pow256(i as nat) * 256,
                    digest@[i as int] < 256,
            ;
            lemma_pow256_bound(i as nat);
        }
        acc = acc * 256 + digest[i] as u128;
        i = i + 1;
    }
    acc
}

pub open spec fn pow256(n: nat) -> int
    decreases n,
{
    if n == 0 {
        1
    } else {
        pow256((n - 1) as nat) * 256
    }
}

proof fn lemma_pow256_step(n: nat)
    ensures
        pow256(n + 1) == pow256(n) * 256,
{
}

proof fn lemma_pow256_bound(n: nat)
    requires
        n < 16,
    ensures
        pow256(n + 1) <= 0x1_0000_0000_0000_0000_0000_0000_0000_0000int,
    decreases n,
{
    reveal_with_fuel(pow256, 17);
}


/// A date-scoped bar on posting for one tenant, entity and book.
#[derive(Debug, Clone, PartialEq, Eq)]
pub struct LegalHoldRule {
    pub hold_id: String,
    pub tenant_id: String,
    pub legal_entity_id: String,
    pub ledger_book: String,
    pub start_date: CalendarDate,
    pub end_date: Option<CalendarDate>,
    pub reason: String,
    pub retention_days: u32,
}

/// Retention applied when a hold names none.
pub const DEFAULT_RETENTION_DAYS: u32 = 2555;

pub fn default_retention_days() -> (r: u32)
    ensures
        r == DEFAULT_RETENTION_DAYS,
{
    DEFAULT_RETENTION_DAYS
}

#[derive(Debug, Clone, PartialEq, Eq)]
pub enum LegalHoldError {
    InvalidLegalHoldRange,
    LegalHoldActive { hold_id: String, reason: String, retention_days: u32 },
}

/// A hold applies from its start date through its end date, if any.
pub open spec fn hold_applies(rule: LegalHoldRule, date: CalendarDate) -> bool {
    date_key(rule.start_date) <= date_key(date) && match rule.end_date {
        Some(end) => date_key(date) <= date_key(end),
        None => true,
    }
}

pub open spec fn rule_wf(rule: LegalHoldRule) -> bool {
    rule.start_date.wf() && match rule.end_date {
        Some(end) => end.wf(),
        None => true,
    }
}

impl LegalHoldRule {
    pub fn applies_to(&self, accounting_date: CalendarDate) -> (r: bool)
        requires
            rule_wf(*self),
            accounting_date.wf(),
        ensures
            r == hold_applies(*self, accounting_date),
    {
        let starts = self.start_date.on_or_before(&accounting_date);
        let ends = match self.end_date {
            Some(end) => accounting_date.on_or_before(&end),
            None => true,
        };
        starts && ends
    }
}

pub type HoldScope = (Seq<char>, Seq<char>, Seq<char>);

pub open spec fn hold_scope(rule: LegalHoldRule) -> HoldScope {
    (rule.tenant_id@, rule.legal_entity_id@, rule.ledger_book@)
}

/// The hold in force for each scope: the last one written.
pub open spec fn holds_map(rules: Seq<LegalHoldRule>) -> Map<HoldScope, LegalHoldRule>
    decreases rules.len(),
{
    if rules.len() == 0 {
        Map::empty()
    } else {
        holds_map(rules.drop_last()).insert(hold_scope(rules.last()), rules.last())
    }
}

proof fn lemma_holds_map_last(rules: Seq<LegalHoldRule>, k: int, scope: HoldScope)
    requires
        -1 <= k < rules.len(),
        forall|j: int| k < j < rules.len() ==> hold_scope(#[trigger] rules[j]) != scope,
        k >= 0 ==> hold_scope(rules[k]) == scope,
    ensures
        k >= 0 ==> holds_map(rules).contains_key(scope) && holds_map(rules)[scope] == rules[k],
        k < 0 ==> !holds_map(rules).contains_key(scope),
    decreases rules.len(),
{
    if rules.len() > 0 && k < rules.len() - 1 {
        let t = rules.drop_last();
        assert forall|j: int| k < j < t.len() implies hold_scope(#[trigger] t[j]) != scope by {
            assert(t[j] == rules[j]);
        }
        if k >= 0 {
            assert(t[k] == rules[k]);
        }
        lemma_holds_map_last(t, k, scope);
        assert(hold_scope(rules[rules.len() - 1]) != scope);
    }
}

/// Legal holds, last writer wins per scope.
pub struct LegalHoldRegistry {
    rules: Vec<LegalHoldRule>,
}

impl View for LegalHoldRegistry {
    type V = Map<HoldScope, LegalHoldRule>;

    closed spec fn view(&self) -> Map<HoldScope, LegalHoldRule> {
        holds_map(self.rules@)
    }
}

impl LegalHoldRegistry {
    pub closed spec fn wf(&self) -> bool {
        forall|i: int| 0 <= i < self.rules@.len() ==> rule_wf(#[trigger] self.rules@[i])
    }

    pub fn new() -> (r: Self)
        ensures
            r@ == Map::<HoldScope, LegalHoldRule>::empty(),
            r.wf(),
    {
        LegalHoldRegistry { rules: Vec::new() }
    }

    /// Records a hold for its scope, replacing any earlier one; an end date
    /// before the start date is rejected and nothing changes.
    pub fn upsert(&mut self, rule: LegalHoldRule) -> (r: Result<(), LegalHoldError>)
        requires
            old(self).wf(),
            rule_wf(rule),
        ensures
            final(self).wf(),
            (match rule.end_date {
                Some(end) => date_key(end) < date_key(rule.start_date),
                None => false,
            }) ==> r == Err::<(), LegalHoldError>(LegalHoldError::InvalidLegalHoldRange) && final(self)@ == old(self)@,
            !(match rule.end_date {
                Some(end) => date_key(end) < date_key(rule.start_date),
                None => false,
            }) ==> r is Ok && final(self)@ == old(self)@.insert(hold_scope(rule), rule),
    {
        match rule.end_date {
            Some(end) => {
                if !rule.start_date.on_or_before(&end) {
                    return Err(LegalHoldError::InvalidLegalHoldRange);
                }
            },
            None => {},
        }
        let ghost before = self.rules@;
        self.rules.push(rule);
        assert(self.rules@.drop_last() =~= before);
        Ok(())
    }

    /// Fails with `LegalHoldActive` when the hold in force for the scope
    /// covers `accounting_date`.
    pub fn validate(&self, tenant_id: &str, legal_entity_id: &str, ledger_book: &str, accounting_date: CalendarDate) -> (r: Result<(), LegalHoldError>)
        requires
            self.wf(),
            accounting_date.wf(),
        ensures
            ({
                let scope = (tenant_id@, legal_entity_id@, ledger_book@);
                if self@.contains_key(scope) && hold_applies(self@[scope], accounting_date) {
                    r matches Err(LegalHoldError::LegalHoldActive { hold_id, reason, retention_days })
                        && hold_id@ == self@[scope].hold_id@ && reason@ == self@[scope].reason@
                        && retention_days == self@[scope].retention_days
                } else {
                    r is Ok
                }
            }),
    {
        let ghost scope = (tenant_id@, legal_entity_id@, ledger_book@);
        let mut k: usize = self.rules.len();
        while k > 0 && !(str_equals(self.rules[k - 1].tenant_id.as_str(), tenant_id) && str_equals(self.rules[k - 1].legal_entity_id.as_str(), legal_entity_id)
            && str_equals(self.rules[k - 1].ledger_book.as_str(), ledger_book))
            invariant
                k <= self.rules@.len(),
                scope == (tenant_id@, legal_entity_id@, ledger_book@),
                forall|j: int| k <= j < self.rules@.len() ==> hold_scope(#[trigger] self.rules@[j]) != scope,
            decreases k,
        {
            k = k - 1;
        }
        proof {
            lemma_holds_map_last(self.rules@, k - 1, scope);
        }
        if k == 0 {
            return Ok(());
        }
        let rule = &self.rules[k - 1];
        assert(rule_wf(self.rules@[k - 1]));
        if rule.applies_to(accounting_date) {
            return Err(LegalHoldError::LegalHoldActive { hold_id: rule.hold_id.clone(), reason: rule.reason.clone(), retention_days: rule.retention_days });
        }
        Ok(())
    }
}

/// The scope key of a hold, `tenant::entity::book`.
pub fn legal_hold_key(tenant_id: &str, legal_entity_id: &str, ledger_book: &str) -> (r: String)
    ensures
        r@ == tenant_id@ + "::"@ + legal_entity_id@ + "::"@ + ledger_book@,
{
    let mut key = owned(tenant_id);
    key.append("::");
    key.append(legal_entity_id);
    key.append("::");
    key.append(ledger_book);
    key
}

#[derive(Debug, Clone, Copy, PartialEq, Eq, Structural)]
pub enum BoundaryError {
    MissingLocationId,
    UnknownLegalEntityBoundary,
    LocationNotAllowedForLegalEntity,
    MissingCounterpartyLegalEntityId,
    InvalidCounterpartyLegalEntity,
    UnknownCounterpartyLegalEntity,
}

/// The locations each legal entity may post from.
pub struct LocationAllowlist {
    pub entries: Vec<(String, Vec<String>)>,
}

pub open spec fn allowlist_entity(a: Seq<(String, Vec<String>)>, entity: Seq<char>) -> Option<int> {
    if exists|i: int| 0 <= i < a.len() && a[i].0@ == entity {
        Some(choose|i: int| 0 <= i < a.len() && a[i].0@ == entity && forall|k: int| 0 <= k < i ==> a[k].0@ != entity)
    } else {
        None
    }
}

/// The seeded allowlist: US_CO_01 at Breckenridge and Vail, CA_BC_01 at
/// Whistler and Blackcomb.
pub fn default_location_allowlist() -> (r: LocationAllowlist)
    ensures
        r.entries@.len() == 2,
        r.entries@[0].0@ == "US_CO_01"@,
        string_list(r.entries@[0].1@) == seq!["BRECK_BASE_AREA"@, "VAIL_BASE_LODGE"@],
        r.entries@[1].0@ == "CA_BC_01"@,
        string_list(r.entries@[1].1@) == seq!["WHISTLER_VILLAGE"@, "BLACKCOMB_BASE"@],
{
    let mut us: Vec<String> = Vec::new();
    us.push(owned("BRECK_BASE_AREA"));
    us.push(owned("VAIL_BASE_LODGE"));
    let mut ca: Vec<String> = Vec::new();
    ca.push(owned("WHISTLER_VILLAGE"));
    ca.push(owned("BLACKCOMB_BASE"));
    let mut entries: Vec<(String, Vec<String>)> = Vec::new();
    entries.push((owned("US_CO_01"), us));
    entries.push((owned("CA_BC_01"), ca));
    let r = LocationAllowlist { entries };
    assert(string_list(r.entries@[0].1@) =~= seq!["BRECK_BASE_AREA"@, "VAIL_BASE_LODGE"@]);
    assert(string_list(r.entries@[1].1@) =~= seq!["WHISTLER_VILLAGE"@, "BLACKCOMB_BASE"@]);
    r
}

pub open spec fn string_list(v: Seq<String>) -> Seq<Seq<char>> {
    v.map_values(|s: String| s@)
}

/// Position of the first entry for `entity`, or the entry count.
pub open spec fn entity_index(a: Seq<(String, Vec<String>)>, entity: Seq<char>) -> int
    decreases a.len(),
{
    if a.len() == 0 {
        0
    } else if a[0].0@ == entity {
        0
    } else {
        1 + entity_index(a.drop_first(), entity)
    }
}

proof fn lemma_entity_index(a: Seq<(String, Vec<String>)>, entity: Seq<char>, k: int)
    requires
        0 <= k <= a.len(),
        forall|j: int| 0 <= j < k ==> a[j].0@ != entity,
        k < a.len() ==> a[k].0@ == entity,
    ensures
        entity_index(a, entity) == k,
    decreases a.len(),
{
    if a.len() > 0 && k > 0 {
        assert forall|j: int| 0 <= j < k - 1 implies a.drop_first()[j].0@ != entity by {
            assert(a.drop_first()[j] == a[j + 1]);
        }
        lemma_entity_index(a.drop_first(), entity, k - 1);
    }
}

/// What the location check decides: the entity's first entry must list the
/// location.
pub open spec fn boundary_verdict(a: Seq<(String, Vec<String>)>, entity: Seq<char>, location: Seq<char>) -> Option<BoundaryError> {
    let k = entity_index(a, entity);
    if k >= a.len() {
        Some(BoundaryError::UnknownLegalEntityBoundary)
    } else if string_list(a[k].1@).contains(location) {
        None
    } else {
        Some(BoundaryError::LocationNotAllowedForLegalEntity)
    }
}

impl LocationAllowlist {
    fn find_entity(&self, entity: &str) -> (r: Option<usize>)
        ensures
            match r {
                Some(i) => i < self.entries@.len() && self.entries@[i as int].0@ == entity@ && entity_index(self.entries@, entity@) == i,
                None => forall|k: int| 0 <= k < self.entries@.len() ==> self.entries@[k].0@ != entity@,
            },
            r is None ==> entity_index(self.entries@, entity@) == self.entries@.len(),
    {
        let mut i: usize = 0;
        while i < self.entries.len()
            invariant
                i <= self.entries@.len(),
                forall|k: int| 0 <= k < i ==> self.entries@[k].0@ != entity@,
            decreases self.entries.len() - i,
        {
            if str_equals(self.entries[i].0.as_str(), entity) {
                proof {
                    lemma_entity_index(self.entries@, entity@, i as int);
                }
                return Some(i);
            }
            i = i + 1;
        }
        proof {
            lemma_entity_index(self.entries@, entity@, self.entries@.len() as int);
        }
        None
    }

    /// Whether the legal entity is known.
    pub fn knows(&self, entity: &str) -> (r: bool)
        ensures
            r == exists|k: int| 0 <= k < self.entries@.len() && self.entries@[k].0@ == entity@,
    {
        self.find_entity(entity).is_some()
    }

    /// The location must be allowed for the entity's first entry.
    pub fn validate_location_boundary(&self, legal_entity_id: &str, location_id: &str) -> (r: Result<(), BoundaryError>)
        ensures
            match boundary_verdict(self.entries@, legal_entity_id@, location_id@) {
                None => r is Ok,
                Some(b) => r == Err::<(), BoundaryError>(b),
            },
    {
        let i = match self.find_entity(legal_entity_id) {
            Some(i) => i,
            None => {
                return Err(BoundaryError::UnknownLegalEntityBoundary);
            },
        };
        let allowed = &self.entries[i].1;
        let mut j: usize = 0;
        while j < allowed.len()
            invariant
                j <= allowed@.len(),
                forall|k: int| 0 <= k < j ==> string_list(allowed@)[k] != location_id@,
                i < self.entries@.len(),
                entity_index(self.entries@, legal_entity_id@) == i,
                self.entries@[i as int].0@ == legal_entity_id@,
                *allowed == self.entries@[i as int].1,
            decreases allowed.len() - j,
        {
            if str_equals(allowed[j].as_str(), location_id) {
                assert(string_list(allowed@)[j as int] == location_id@);
                assert(string_list(self.entries@[i as int].1@).contains(location_id@));
                return Ok(());
            }
            assert(string_list(allowed@)[j as int] == allowed@[j as int]@);
            j = j + 1;
        }
        assert(!string_list(allowed@).contains(location_id@));
        Err(BoundaryError::LocationNotAllowedForLegalEntity)
    }
}

/// The location of a post: the request's own when not blank (trimmed),
/// else the first string among the payload's routing pointers.
pub open spec fn resolved_location(location_id: Option<Seq<char>>, payload: JsonValue) -> Option<Seq<char>> {
    match location_id {
        Some(l) if trim_text(l).len() > 0 => Some(trim_text(l)),
        _ => first_text(
            payload,
            seq!["/location_id"@, "/routing/location_id"@, "/context/routing/location_id"@, "/extensions/routing/location_id"@],
        ),
    }
}

pub fn resolve_location_id(location_id: &Option<String>, payload: &JsonValue) -> (r: Result<String, BoundaryError>)
    ensures
        match resolved_location(
            match location_id {
                Some(l) => Some(l@),
                None => None,
            },
            *payload,
        ) {
            Some(l) => r is Ok && r->Ok_0@ == l,
            None => r == Err::<String, BoundaryError>(BoundaryError::MissingLocationId),
        },
{
    match location_id {
        Some(l) => {
            let t = trim(l.as_str());
            if t.as_str().unicode_len() > 0 {
                return Ok(t);
            }
        },
        None => {},
    }
    let ptrs: &[&str] = &["/location_id", "/routing/location_id", "/context/routing/location_id", "/extensions/routing/location_id"];
    assert(str_views(ptrs@) =~= seq!["/location_id"@, "/routing/location_id"@, "/context/routing/location_id"@, "/extensions/routing/location_id"@]);
    match first_string(payload, ptrs) {
        Some(s) => Ok(s),
        None => Err(BoundaryError::MissingLocationId),
    }
}

/// Whether an event type crosses entities and so names a counterparty.
pub open spec fn is_cross_entity(event_type: Seq<char>) -> bool {
    event_type == "intercompany.due_to_due_from.v1"@ || event_type == "consolidation.elimination.v1"@
}

/// For intercompany and consolidation events, the payload must name a
/// counterparty entity other than the poster's and known to the allowlist.
pub fn validate_intercompany_counterparty(
    allowlist: &LocationAllowlist,
    event_type: &str,
    legal_entity_id: &str,
    payload: &JsonValue,
) -> (r: Result<(), BoundaryError>)
    ensures
        ({
            let c = first_text(
                *payload,
                seq![
                    "/counterparty_legal_entity_id"@,
                    "/intercompany/counterparty_legal_entity_id"@,
                    "/consolidation/counterparty_legal_entity_id"@,
                ],
            );
            if !is_cross_entity(event_type@) {
                r is Ok
            } else if c is None {
                r == Err::<(), BoundaryError>(BoundaryError::MissingCounterpartyLegalEntityId)
            } else if c->0 == legal_entity_id@ {
                r == Err::<(), BoundaryError>(BoundaryError::InvalidCounterpartyLegalEntity)
            } else if !exists|k: int| 0 <= k < allowlist.entries@.len() && allowlist.entries@[k].0@ == c->0 {
                r == Err::<(), BoundaryError>(BoundaryError::UnknownCounterpartyLegalEntity)
            } else {
                r is Ok
            }
        }),
{
    if !(str_equals(event_type, "intercompany.due_to_due_from.v1") || str_equals(event_type, "consolidation.elimination.v1")) {
        return Ok(());
    }
    let ptrs: &[&str] = &[
        "/counterparty_legal_entity_id",
        "/intercompany/counterparty_legal_entity_id",
        "/consolidation/counterparty_legal_entity_id",
    ];
    assert(str_views(ptrs@) =~= seq![
        "/counterparty_legal_entity_id"@,
        "/intercompany/counterparty_legal_entity_id"@,
        "/consolidation/counterparty_legal_entity_id"@,
    ]);
    let counterparty = match first_string(payload, ptrs) {
        Some(c) => c,
        None => {
            return Err(BoundaryError::MissingCounterpartyLegalEntityId);
        },
    };
    if str_equals(counterparty.as_str(), legal_entity_id) {
        return Err(BoundaryError::InvalidCounterpartyLegalEntity);
    }
    if !allowlist.knows(counterparty.as_str()) {
        return Err(BoundaryError::UnknownCounterpartyLegalEntity);
    }
    Ok(())
}

} // verus!
