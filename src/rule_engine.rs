use vstd::prelude::*;

use crate::json::{first_integer, first_string, first_text, optional_i64, str_views, JsonValue};
use crate::ledger::EntrySide;
use crate::text::{owned, str_equals};

verus! {

/// One line derived from an event, before numbering.
#[derive(Debug, Clone, PartialEq, Eq)]
pub struct DerivedPostingLine {
    pub account_id: String,
    pub entry_side: EntrySide,
    pub amount_minor: i64,
    pub currency: String,
    pub base_amount_minor: i64,
    pub base_currency: String,
}

#[derive(Debug, Clone, PartialEq, Eq)]
pub enum RuleEngineError {
    UnsupportedEventType(String),
    MissingField(&'static str),
    InvalidNumber(&'static str),
    InvalidSettlementMath,
    InvalidEntrySide(String),
}

/// What a derived line holds, as plain values.
pub struct LineModel {
    pub account: Seq<char>,
    pub side: EntrySide,
    pub amount: int,
    pub currency: Seq<char>,
    pub base_amount: int,
    pub base_currency: Seq<char>,
}

/// What a rule-engine error holds, as plain values.
pub enum RuleFault {
    UnsupportedEventType(Seq<char>),
    MissingField(Seq<char>),
    InvalidNumber(Seq<char>),
    InvalidSettlementMath,
    InvalidEntrySide(Seq<char>),
}

impl DerivedPostingLine {
    pub open spec fn model(&self) -> LineModel {
        LineModel {
            account: self.account_id@,
            side: self.entry_side,
            amount: self.amount_minor as int,
            currency: self.currency@,
            base_amount: self.base_amount_minor as int,
            base_currency: self.base_currency@,
        }
    }
}

impl RuleEngineError {
    pub open spec fn fault(&self) -> RuleFault {
        match self {
            RuleEngineError::UnsupportedEventType(s) => RuleFault::UnsupportedEventType(s@),
            RuleEngineError::MissingField(s) => RuleFault::MissingField(s@),
            RuleEngineError::InvalidNumber(s) => RuleFault::InvalidNumber(s@),
            RuleEngineError::InvalidSettlementMath => RuleFault::InvalidSettlementMath,
            RuleEngineError::InvalidEntrySide(s) => RuleFault::InvalidEntrySide(s@),
        }
    }
}

pub open spec fn lines_model(lines: Seq<DerivedPostingLine>) -> Seq<LineModel> {
    lines.map_values(|l: DerivedPostingLine| l.model())
}

/// A derivation result, as plain values.
pub open spec fn derivation_model(r: Result<Vec<DerivedPostingLine>, RuleEngineError>) -> Result<Seq<LineModel>, RuleFault> {
    match r {
        Ok(lines) => Ok(lines_model(lines@)),
        Err(e) => Err(e.fault()),
    }
}

pub open spec fn or_default(o: Option<Seq<char>>, d: Seq<char>) -> Seq<char> {
    match o {
        Some(s) => s,
        None => d,
    }
}

pub open spec fn line_model(
    account: Seq<char>,
    side: EntrySide,
    amount: int,
    currency: Seq<char>,
    base_amount: int,
    base_currency: Seq<char>,
) -> LineModel {
    LineModel { account, side, amount, currency, base_amount, base_currency }
}

/// A positive integer at the first of `ptrs` that holds one; `MissingField`
/// when none does, `InvalidNumber` when it is zero or negative.
pub open spec fn positive_amount(payload: JsonValue, ptrs: Seq<Seq<char>>, field: Seq<char>) -> Result<int, RuleFault> {
    match first_integer(payload, ptrs) {
        None => Err(RuleFault::MissingField(field)),
        Some(v) => if v <= 0 {
            Err(RuleFault::InvalidNumber(field))
        } else {
            Ok(v)
        },
    }
}

/// A debit and a credit of the same amounts: the shape of most rules.
/// Currency comes from `currency_ptrs` (default `USD`), the base amount from
/// `base_amount_ptrs` (default the amount), the base currency from
/// `/base_currency` (default the currency).
pub open spec fn two_line_model(
    payload: JsonValue,
    amount_ptrs: Seq<Seq<char>>,
    field: Seq<char>,
    currency_ptrs: Seq<Seq<char>>,
    base_amount_ptrs: Seq<Seq<char>>,
    debit_account: Seq<char>,
    credit_account: Seq<char>,
) -> Result<Seq<LineModel>, RuleFault> {
    match positive_amount(payload, amount_ptrs, field) {
        Err(e) => Err(e),
        Ok(a) => {
            let c = or_default(first_text(payload, currency_ptrs), "USD"@);
            let ba = match first_integer(payload, base_amount_ptrs) {
                Some(b) => b,
                None => a,
            };
            let bc = or_default(first_text(payload, seq!["/base_currency"@]), c);
            Ok(seq![
                line_model(debit_account, EntrySide::Debit, a, c, ba, bc),
                line_model(credit_account, EntrySide::Credit, a, c, ba, bc),
            ])
        },
    }
}

fn make_line(
    account_id: String,
    entry_side: EntrySide,
    amount_minor: i64,
    currency: &String,
    base_amount_minor: i64,
    base_currency: &String,
) -> (r: DerivedPostingLine)
    ensures
        r.model() == line_model(account_id@, entry_side, amount_minor as int, currency@, base_amount_minor as int, base_currency@),
{
    DerivedPostingLine {
        account_id,
        entry_side,
        amount_minor,
        currency: currency.clone(),
        base_amount_minor,
        base_currency: base_currency.clone(),
    }
}

fn positive_i64(payload: &JsonValue, ptrs: &[&str], field: &'static str) -> (r: Result<i64, RuleEngineError>)
    ensures
        match positive_amount(*payload, str_views(ptrs@), field@) {
            Ok(v) => r == Ok::<i64, RuleEngineError>(v as i64) && 0 < v <= i64::MAX,
            Err(f) => r is Err && r->Err_0.fault() == f,
        },
{
    match optional_i64(payload, ptrs) {
        None => Err(RuleEngineError::MissingField(field)),
        Some(v) => if v <= 0 {
            Err(RuleEngineError::InvalidNumber(field))
        } else {
            Ok(v)
        },
    }
}

fn string_or(payload: &JsonValue, ptrs: &[&str], default: &str) -> (r: String)
    ensures
        r@ == or_default(first_text(*payload, str_views(ptrs@)), default@),
{
    match first_string(payload, ptrs) {
        Some(s) => s,
        None => owned(default),
    }
}

fn two_line_rule(
    payload: &JsonValue,
    amount_ptrs: &[&str],
    field: &'static str,
    currency_ptrs: &[&str],
    base_amount_ptrs: &[&str],
    debit_account: String,
    credit_account: String,
) -> (r: Result<Vec<DerivedPostingLine>, RuleEngineError>)
    ensures
        derivation_model(r) == two_line_model(
            *payload,
            str_views(amount_ptrs@),
            field@,
            str_views(currency_ptrs@),
            str_views(base_amount_ptrs@),
            debit_account@,
            credit_account@,
        ),
{
    let amount = match positive_i64(payload, amount_ptrs, field) {
        Ok(a) => a,
        Err(e) => {
            return Err(e);
        },
    };
    let currency = string_or(payload, currency_ptrs, "USD");
    let base_amount = match optional_i64(payload, base_amount_ptrs) {
        Some(b) => b,
        None => amount,
    };
    let base_currency_ptrs: &[&str] = &["/base_currency"];
    assert(str_views(base_currency_ptrs@) =~= seq!["/base_currency"@]);
    let base_currency = match first_string(payload, base_currency_ptrs) {
        Some(s) => s,
        None => currency.clone(),
    };
    let mut lines: Vec<DerivedPostingLine> = Vec::new();
    lines.push(make_line(debit_account, EntrySide::Debit, amount, &currency, base_amount, &base_currency));
    lines.push(make_line(credit_account, EntrySide::Credit, amount, &currency, base_amount, &base_currency));
    assert(lines_model(lines@) =~= two_line_model(
        *payload,
        str_views(amount_ptrs@),
        field@,
        str_views(currency_ptrs@),
        str_views(base_amount_ptrs@),
        debit_account@,
        credit_account@,
    )->Ok_0);
    Ok(lines)
}

/// Lines for `order.captured.v1`.
pub open spec fn order_captured_model(payload: JsonValue) -> Result<Seq<LineModel>, RuleFault> {
    two_line_model(
        payload,
        seq!["/amount_minor"@, "/totals/grand_total_minor"@, "/totals/grand_total/amount_minor"@],
        "amount_minor"@,
        seq!["/currency"@, "/totals/currency"@, "/totals/grand_total/currency"@],
        seq!["/base_amount_minor"@],
        "1105-CASH-CLEARING"@,
        "4000-REVENUE"@,
    )
}

fn order_captured(payload: &JsonValue) -> (r: Result<Vec<DerivedPostingLine>, RuleEngineError>)
    ensures
        derivation_model(r) == order_captured_model(*payload),
{
    let amount_ptrs: &[&str] = &["/amount_minor", "/totals/grand_total_minor", "/totals/grand_total/amount_minor"];
    let currency_ptrs: &[&str] = &["/currency", "/totals/currency", "/totals/grand_total/currency"];
    let base_amount_ptrs: &[&str] = &["/base_amount_minor"];
    assert(str_views(amount_ptrs@) =~= seq!["/amount_minor"@, "/totals/grand_total_minor"@, "/totals/grand_total/amount_minor"@]);
    assert(str_views(currency_ptrs@) =~= seq!["/currency"@, "/totals/currency"@, "/totals/grand_total/currency"@]);
    assert(str_views(base_amount_ptrs@) =~= seq!["/base_amount_minor"@]);
    let debit = owned("1105-CASH-CLEARING");
    let credit = owned("4000-REVENUE");
    two_line_rule(payload, amount_ptrs, "amount_minor", currency_ptrs, base_amount_ptrs, debit, credit)
}

/// Lines for `refund.v1`.
pub open spec fn refund_model(payload: JsonValue) -> Result<Seq<LineModel>, RuleFault> {
    two_line_model(
        payload,
        seq!["/amount_minor"@, "/refund_amount_minor"@],
        "amount_minor"@,
        seq!["/currency"@],
        Seq::<Seq<char>>::empty(),
        "4050-REFUNDS"@,
        "1105-CASH-CLEARING"@,
    )
}

fn refund(payload: &JsonValue) -> (r: Result<Vec<DerivedPostingLine>, RuleEngineError>)
    ensures
        derivation_model(r) == refund_model(*payload),
{
    let amount_ptrs: &[&str] = &["/amount_minor", "/refund_amount_minor"];
    let currency_ptrs: &[&str] = &["/currency"];
    let base_amount_ptrs: &[&str] = &[];
    assert(str_views(amount_ptrs@) =~= seq!["/amount_minor"@, "/refund_amount_minor"@]);
    assert(str_views(currency_ptrs@) =~= seq!["/currency"@]);
    assert(str_views(base_amount_ptrs@) =~= Seq::<Seq<char>>::empty());
    let debit = owned("4050-REFUNDS");
    let credit = owned("1105-CASH-CLEARING");
    two_line_rule(payload, amount_ptrs, "amount_minor", currency_ptrs, base_amount_ptrs, debit, credit)
}

/// Lines for `fee.assessed.v1`.
pub open spec fn fee_assessed_model(payload: JsonValue) -> Result<Seq<LineModel>, RuleFault> {
    two_line_model(
        payload,
        seq!["/fee_amount_minor"@, "/amount_minor"@],
        "fee_amount_minor"@,
        seq!["/currency"@],
        Seq::<Seq<char>>::empty(),
        "6100-PAYMENT-FEES"@,
        "1105-CASH-CLEARING"@,
    )
}

fn fee_assessed(payload: &JsonValue) -> (r: Result<Vec<DerivedPostingLine>, RuleEngineError>)
    ensures
        derivation_model(r) == fee_assessed_model(*payload),
{
    let amount_ptrs: &[&str] = &["/fee_amount_minor", "/amount_minor"];
    let currency_ptrs: &[&str] = &["/currency"];
    let base_amount_ptrs: &[&str] = &[];
    assert(str_views(amount_ptrs@) =~= seq!["/fee_amount_minor"@, "/amount_minor"@]);
    assert(str_views(currency_ptrs@) =~= seq!["/currency"@]);
    assert(str_views(base_amount_ptrs@) =~= Seq::<Seq<char>>::empty());
    let debit = owned("6100-PAYMENT-FEES");
    let credit = owned("1105-CASH-CLEARING");
    two_line_rule(payload, amount_ptrs, "fee_amount_minor", currency_ptrs, base_amount_ptrs, debit, credit)
}

/// Lines for `chargeback.created.v1`.
pub open spec fn chargeback_created_model(payload: JsonValue) -> Result<Seq<LineModel>, RuleFault> {
    two_line_model(
        payload,
        seq!["/amount_minor"@, "/chargeback_amount_minor"@],
        "amount_minor"@,
        seq!["/currency"@],
        Seq::<Seq<char>>::empty(),
        "6150-CHARGEBACK-LOSSES"@,
        "1105-CASH-CLEARING"@,
    )
}

fn chargeback_created(payload: &JsonValue) -> (r: Result<Vec<DerivedPostingLine>, RuleEngineError>)
    ensures
        derivation_model(r) == chargeback_created_model(*payload),
{
    let amount_ptrs: &[&str] = &["/amount_minor", "/chargeback_amount_minor"];
    let currency_ptrs: &[&str] = &["/currency"];
    let base_amount_ptrs: &[&str] = &[];
    assert(str_views(amount_ptrs@) =~= seq!["/amount_minor"@, "/chargeback_amount_minor"@]);
    assert(str_views(currency_ptrs@) =~= seq!["/currency"@]);
    assert(str_views(base_amount_ptrs@) =~= Seq::<Seq<char>>::empty());
    let debit = owned("6150-CHARGEBACK-LOSSES");
    let credit = owned("1105-CASH-CLEARING");
    two_line_rule(payload, amount_ptrs, "amount_minor", currency_ptrs, base_amount_ptrs, debit, credit)
}

/// Lines for `payout.cleared.v1`.
pub open spec fn payout_cleared_model(payload: JsonValue) -> Result<Seq<LineModel>, RuleFault> {
    two_line_model(
        payload,
        seq!["/amount_minor"@, "/net_amount_minor"@],
        "amount_minor"@,
        seq!["/currency"@],
        Seq::<Seq<char>>::empty(),
        "1010-BANK-OPERATING"@,
        "1105-CASH-CLEARING"@,
    )
}

fn payout_cleared(payload: &JsonValue) -> (r: Result<Vec<DerivedPostingLine>, RuleEngineError>)
    ensures
        derivation_model(r) == payout_cleared_model(*payload),
{
    let amount_ptrs: &[&str] = &["/amount_minor", "/net_amount_minor"];
    let currency_ptrs: &[&str] = &["/currency"];
    let base_amount_ptrs: &[&str] = &[];
    assert(str_views(amount_ptrs@) =~= seq!["/amount_minor"@, "/net_amount_minor"@]);
    assert(str_views(currency_ptrs@) =~= seq!["/currency"@]);
    assert(str_views(base_amount_ptrs@) =~= Seq::<Seq<char>>::empty());
    let debit = owned("1010-BANK-OPERATING");
    let credit = owned("1105-CASH-CLEARING");
    two_line_rule(payload, amount_ptrs, "amount_minor", currency_ptrs, base_amount_ptrs, debit, credit)
}

/// Lines for `dispute.opened.v1`.
pub open spec fn dispute_opened_model(payload: JsonValue) -> Result<Seq<LineModel>, RuleFault> {
    two_line_model(
        payload,
        seq!["/amount_minor"@, "/dispute_amount_minor"@],
        "amount_minor"@,
        seq!["/currency"@],
        Seq::<Seq<char>>::empty(),
        "1205-DISPUTE-RECEIVABLE"@,
        "6150-CHARGEBACK-LOSSES"@,
    )
}

fn dispute_opened(payload: &JsonValue) -> (r: Result<Vec<DerivedPostingLine>, RuleEngineError>)
    ensures
        derivation_model(r) == dispute_opened_model(*payload),
{
    let amount_ptrs: &[&str] = &["/amount_minor", "/dispute_amount_minor"];
    let currency_ptrs: &[&str] = &["/currency"];
    let base_amount_ptrs: &[&str] = &[];
    assert(str_views(amount_ptrs@) =~= seq!["/amount_minor"@, "/dispute_amount_minor"@]);
    assert(str_views(currency_ptrs@) =~= seq!["/currency"@]);
    assert(str_views(base_amount_ptrs@) =~= Seq::<Seq<char>>::empty());
    let debit = owned("1205-DISPUTE-RECEIVABLE");
    let credit = owned("6150-CHARGEBACK-LOSSES");
    two_line_rule(payload, amount_ptrs, "amount_minor", currency_ptrs, base_amount_ptrs, debit, credit)
}

/// Lines for `dispute.won.v1`.
pub open spec fn dispute_won_model(payload: JsonValue) -> Result<Seq<LineModel>, RuleFault> {
    two_line_model(
        payload,
        seq!["/amount_minor"@, "/dispute_amount_minor"@],
        "amount_minor"@,
        seq!["/currency"@],
        Seq::<Seq<char>>::empty(),
        "1105-CASH-CLEARING"@,
        "1205-DISPUTE-RECEIVABLE"@,
    )
}

fn dispute_won(payload: &JsonValue) -> (r: Result<Vec<DerivedPostingLine>, RuleEngineError>)
    ensures
        derivation_model(r) == dispute_won_model(*payload),
{
    let amount_ptrs: &[&str] = &["/amount_minor", "/dispute_amount_minor"];
    let currency_ptrs: &[&str] = &["/currency"];
    let base_amount_ptrs: &[&str] = &[];
    assert(str_views(amount_ptrs@) =~= seq!["/amount_minor"@, "/dispute_amount_minor"@]);
    assert(str_views(currency_ptrs@) =~= seq!["/currency"@]);
    assert(str_views(base_amount_ptrs@) =~= Seq::<Seq<char>>::empty());
    let debit = owned("1105-CASH-CLEARING");
    let credit = owned("1205-DISPUTE-RECEIVABLE");
    two_line_rule(payload, amount_ptrs, "amount_minor", currency_ptrs, base_amount_ptrs, debit, credit)
}

/// Lines for `dispute.lost.v1`.
pub open spec fn dispute_lost_model(payload: JsonValue) -> Result<Seq<LineModel>, RuleFault> {
    two_line_model(
        payload,
        seq!["/amount_minor"@, "/dispute_amount_minor"@],
        "amount_minor"@,
        seq!["/currency"@],
        Seq::<Seq<char>>::empty(),
        "6150-CHARGEBACK-LOSSES"@,
        "1205-DISPUTE-RECEIVABLE"@,
    )
}

fn dispute_lost(payload: &JsonValue) -> (r: Result<Vec<DerivedPostingLine>, RuleEngineError>)
    ensures
        derivation_model(r) == dispute_lost_model(*payload),
{
    let amount_ptrs: &[&str] = &["/amount_minor", "/dispute_amount_minor"];
    let currency_ptrs: &[&str] = &["/currency"];
    let base_amount_ptrs: &[&str] = &[];
    assert(str_views(amount_ptrs@) =~= seq!["/amount_minor"@, "/dispute_amount_minor"@]);
    assert(str_views(currency_ptrs@) =~= seq!["/currency"@]);
    assert(str_views(base_amount_ptrs@) =~= Seq::<Seq<char>>::empty());
    let debit = owned("6150-CHARGEBACK-LOSSES");
    let credit = owned("1205-DISPUTE-RECEIVABLE");
    two_line_rule(payload, amount_ptrs, "amount_minor", currency_ptrs, base_amount_ptrs, debit, credit)
}

/// Lines for `inntopia.reservation.captured.v1`.
pub open spec fn inntopia_reservation_captured_model(payload: JsonValue) -> Result<Seq<LineModel>, RuleFault> {
    two_line_model(
        payload,
        seq!["/total_amount_minor"@, "/amount_minor"@],
        "total_amount_minor"@,
        seq!["/currency"@],
        Seq::<Seq<char>>::empty(),
        "1105-CASH-CLEARING"@,
        "2200-DEFERRED-REVENUE-RESERVATIONS"@,
    )
}

fn inntopia_reservation_captured(payload: &JsonValue) -> (r: Result<Vec<DerivedPostingLine>, RuleEngineError>)
    ensures
        derivation_model(r) == inntopia_reservation_captured_model(*payload),
{
    let amount_ptrs: &[&str] = &["/total_amount_minor", "/amount_minor"];
    let currency_ptrs: &[&str] = &["/currency"];
    let base_amount_ptrs: &[&str] = &[];
    assert(str_views(amount_ptrs@) =~= seq!["/total_amount_minor"@, "/amount_minor"@]);
    assert(str_views(currency_ptrs@) =~= seq!["/currency"@]);
    assert(str_views(base_amount_ptrs@) =~= Seq::<Seq<char>>::empty());
    let debit = owned("1105-CASH-CLEARING");
    let credit = owned("2200-DEFERRED-REVENUE-RESERVATIONS");
    two_line_rule(payload, amount_ptrs, "total_amount_minor", currency_ptrs, base_amount_ptrs, debit, credit)
}

/// Lines for `intercompany.due_to_due_from.v1`.
pub open spec fn intercompany_due_to_due_from_model(payload: JsonValue) -> Result<Seq<LineModel>, RuleFault> {
    two_line_model(
        payload,
        seq!["/amount_minor"@, "/due_to_due_from_amount_minor"@],
        "amount_minor"@,
        seq!["/currency"@],
        Seq::<Seq<char>>::empty(),
        or_default(first_text(payload, seq!["/due_from_account_id"@]), "1305-DUE-FROM-AFFILIATES"@),
        or_default(first_text(payload, seq!["/due_to_account_id"@]), "2305-DUE-TO-AFFILIATES"@),
    )
}

fn intercompany_due_to_due_from(payload: &JsonValue) -> (r: Result<Vec<DerivedPostingLine>, RuleEngineError>)
    ensures
        derivation_model(r) == intercompany_due_to_due_from_model(*payload),
{
    let amount_ptrs: &[&str] = &["/amount_minor", "/due_to_due_from_amount_minor"];
    let currency_ptrs: &[&str] = &["/currency"];
    let base_amount_ptrs: &[&str] = &[];
    assert(str_views(amount_ptrs@) =~= seq!["/amount_minor"@, "/due_to_due_from_amount_minor"@]);
    assert(str_views(currency_ptrs@) =~= seq!["/currency"@]);
    assert(str_views(base_amount_ptrs@) =~= Seq::<Seq<char>>::empty());
    let debit_ptrs: &[&str] = &["/due_from_account_id"];
    assert(str_views(debit_ptrs@) =~= seq!["/due_from_account_id"@]);
    let debit = string_or(payload, debit_ptrs, "1305-DUE-FROM-AFFILIATES");
    let credit_ptrs: &[&str] = &["/due_to_account_id"];
    assert(str_views(credit_ptrs@) =~= seq!["/due_to_account_id"@]);
    let credit = string_or(payload, credit_ptrs, "2305-DUE-TO-AFFILIATES");
    two_line_rule(payload, amount_ptrs, "amount_minor", currency_ptrs, base_amount_ptrs, debit, credit)
}

/// Lines for `consolidation.elimination.v1`.
pub open spec fn consolidation_elimination_model(payload: JsonValue) -> Result<Seq<LineModel>, RuleFault> {
    two_line_model(
        payload,
        seq!["/amount_minor"@, "/elimination_amount_minor"@],
        "amount_minor"@,
        seq!["/currency"@],
        Seq::<Seq<char>>::empty(),
        or_default(first_text(payload, seq!["/elimination_debit_account_id"@]), "4999-INTERCOMPANY-ELIMINATION"@),
        or_default(first_text(payload, seq!["/elimination_credit_account_id"@]), "5999-INTERCOMPANY-ELIMINATION"@),
    )
}

fn consolidation_elimination(payload: &JsonValue) -> (r: Result<Vec<DerivedPostingLine>, RuleEngineError>)
    ensures
        derivation_model(r) == consolidation_elimination_model(*payload),
{
    let amount_ptrs: &[&str] = &["/amount_minor", "/elimination_amount_minor"];
    let currency_ptrs: &[&str] = &["/currency"];
    let base_amount_ptrs: &[&str] = &[];
    assert(str_views(amount_ptrs@) =~= seq!["/amount_minor"@, "/elimination_amount_minor"@]);
    assert(str_views(currency_ptrs@) =~= seq!["/currency"@]);
    assert(str_views(base_amount_ptrs@) =~= Seq::<Seq<char>>::empty());
    let debit_ptrs: &[&str] = &["/elimination_debit_account_id"];
    assert(str_views(debit_ptrs@) =~= seq!["/elimination_debit_account_id"@]);
    let debit = string_or(payload, debit_ptrs, "4999-INTERCOMPANY-ELIMINATION");
    let credit_ptrs: &[&str] = &["/elimination_credit_account_id"];
    assert(str_views(credit_ptrs@) =~= seq!["/elimination_credit_account_id"@]);
    let credit = string_or(payload, credit_ptrs, "5999-INTERCOMPANY-ELIMINATION");
    two_line_rule(payload, amount_ptrs, "amount_minor", currency_ptrs, base_amount_ptrs, debit, credit)
}

/// Lines for `payment.settled.v1`: cash for the net amount, a fee expense when
/// the fee is positive, and a clearing credit for the gross amount.
pub open spec fn payment_settled_model(payload: JsonValue) -> Result<Seq<LineModel>, RuleFault> {
    match positive_amount(payload, seq!["/gross_amount_minor"@, "/amount_minor"@], "gross_amount_minor"@) {
        Err(e) => Err(e),
        Ok(gross) => {
            let fee = match first_integer(payload, seq!["/fee_amount_minor"@]) {
                Some(f) => f,
                None => 0,
            };
            if fee < 0 {
                Err(RuleFault::InvalidNumber("fee_amount_minor"@))
            } else {
                let net = match first_integer(payload, seq!["/net_amount_minor"@]) {
                    Some(n) => n,
                    None => gross - fee,
                };
                if net < 0 {
                    Err(RuleFault::InvalidNumber("net_amount_minor"@))
                } else if gross != net + fee {
                    Err(RuleFault::InvalidSettlementMath)
                } else {
                    let c = or_default(first_text(payload, seq!["/currency"@]), "USD"@);
                    let bc = or_default(first_text(payload, seq!["/base_currency"@]), c);
                    let cash = seq![line_model("1000-CASH"@, EntrySide::Debit, net, c, net, bc)];
                    let fees = if fee > 0 {
                        seq![line_model("6100-PAYMENT-FEES"@, EntrySide::Debit, fee, c, fee, bc)]
                    } else {
                        Seq::<LineModel>::empty()
                    };
                    Ok(cash + fees + seq![line_model("1105-CASH-CLEARING"@, EntrySide::Credit, gross, c, gross, bc)])
                }
            }
        },
    }
}

fn payment_settled(payload: &JsonValue) -> (r: Result<Vec<DerivedPostingLine>, RuleEngineError>)
    ensures
        derivation_model(r) == payment_settled_model(*payload),
{
    let gross_ptrs: &[&str] = &["/gross_amount_minor", "/amount_minor"];
    let fee_ptrs: &[&str] = &["/fee_amount_minor"];
    let net_ptrs: &[&str] = &["/net_amount_minor"];
    let currency_ptrs: &[&str] = &["/currency"];
    let base_currency_ptrs: &[&str] = &["/base_currency"];
    assert(str_views(gross_ptrs@) =~= seq!["/gross_amount_minor"@, "/amount_minor"@]);
    assert(str_views(fee_ptrs@) =~= seq!["/fee_amount_minor"@]);
    assert(str_views(net_ptrs@) =~= seq!["/net_amount_minor"@]);
    assert(str_views(currency_ptrs@) =~= seq!["/currency"@]);
    assert(str_views(base_currency_ptrs@) =~= seq!["/base_currency"@]);
    let gross = match positive_i64(payload, gross_ptrs, "gross_amount_minor") {
        Ok(g) => g,
        Err(e) => {
            return Err(e);
        },
    };
    let fee = match optional_i64(payload, fee_ptrs) {
        Some(f) => f,
        None => 0,
    };
    if fee < 0 {
        return Err(RuleEngineError::InvalidNumber("fee_amount_minor"));
    }
    let net = match optional_i64(payload, net_ptrs) {
        Some(n) => n,
        None => gross - fee,
    };
    if net < 0 {
        return Err(RuleEngineError::InvalidNumber("net_amount_minor"));
    }
    if gross as i128 != net as i128 + fee as i128 {
        return Err(RuleEngineError::InvalidSettlementMath);
    }
    let currency = string_or(payload, currency_ptrs, "USD");
    let base_currency = match first_string(payload, base_currency_ptrs) {
        Some(s) => s,
        None => currency.clone(),
    };
    let mut lines: Vec<DerivedPostingLine> = Vec::new();
    lines.push(make_line(owned("1000-CASH"), EntrySide::Debit, net, &currency, net, &base_currency));
    if fee > 0 {
        lines.push(make_line(owned("6100-PAYMENT-FEES"), EntrySide::Debit, fee, &currency, fee, &base_currency));
    }
    lines.push(make_line(owned("1105-CASH-CLEARING"), EntrySide::Credit, gross, &currency, gross, &base_currency));
    assert(lines_model(lines@) =~= payment_settled_model(*payload)->Ok_0);
    Ok(lines)
}

/// Lines for `fx.translation.v1`: a gain moves the cumulative translation
/// adjustment up, a loss moves it down; both sides carry the absolute amount
/// in one currency.
pub open spec fn fx_translation_model(payload: JsonValue) -> Result<Seq<LineModel>, RuleFault> {
    match first_integer(
        payload,
        seq!["/translation_amount_minor"@, "/fx_translation_amount_minor"@, "/amount_minor"@],
    ) {
        None => Err(RuleFault::MissingField("translation_amount_minor"@)),
        Some(t) => if t == 0 || t == i64::MIN {
            Err(RuleFault::InvalidNumber("translation_amount_minor"@))
        } else {
            let a = if t > 0 {
                t
            } else {
                -t
            };
            let c = or_default(first_text(payload, seq!["/base_currency"@, "/currency"@]), "USD"@);
            let cta = "3100-CUMULATIVE-TRANSLATION-ADJUSTMENT"@;
            let gain_loss = "7300-FX-TRANSLATION-GAIN-LOSS"@;
            if t > 0 {
                Ok(seq![
                    line_model(cta, EntrySide::Debit, a, c, a, c),
                    line_model(gain_loss, EntrySide::Credit, a, c, a, c),
                ])
            } else {
                Ok(seq![
                    line_model(gain_loss, EntrySide::Debit, a, c, a, c),
                    line_model(cta, EntrySide::Credit, a, c, a, c),
                ])
            }
        },
    }
}

fn fx_translation(payload: &JsonValue) -> (r: Result<Vec<DerivedPostingLine>, RuleEngineError>)
    ensures
        derivation_model(r) == fx_translation_model(*payload),
{
    let amount_ptrs: &[&str] = &["/translation_amount_minor", "/fx_translation_amount_minor", "/amount_minor"];
    let currency_ptrs: &[&str] = &["/base_currency", "/currency"];
    assert(str_views(amount_ptrs@) =~= seq!["/translation_amount_minor"@, "/fx_translation_amount_minor"@, "/amount_minor"@]);
    assert(str_views(currency_ptrs@) =~= seq!["/base_currency"@, "/currency"@]);
    let translation = match optional_i64(payload, amount_ptrs) {
        Some(t) => t,
        None => {
            return Err(RuleEngineError::MissingField("translation_amount_minor"));
        },
    };
    if translation == 0 || translation == i64::MIN {
        return Err(RuleEngineError::InvalidNumber("translation_amount_minor"));
    }
    let amount = if translation > 0 {
        translation
    } else {
        -translation
    };
    let currency = string_or(payload, currency_ptrs, "USD");
    let mut lines: Vec<DerivedPostingLine> = Vec::new();
    if translation > 0 {
        lines.push(make_line(owned("3100-CUMULATIVE-TRANSLATION-ADJUSTMENT"), EntrySide::Debit, amount, &currency, amount, &currency));
        lines.push(make_line(owned("7300-FX-TRANSLATION-GAIN-LOSS"), EntrySide::Credit, amount, &currency, amount, &currency));
    } else {
        lines.push(make_line(owned("7300-FX-TRANSLATION-GAIN-LOSS"), EntrySide::Debit, amount, &currency, amount, &currency));
        lines.push(make_line(owned("3100-CUMULATIVE-TRANSLATION-ADJUSTMENT"), EntrySide::Credit, amount, &currency, amount, &currency));
    }
    assert(lines_model(lines@) =~= fx_translation_model(*payload)->Ok_0);
    Ok(lines)
}

/// Sum of the amounts (or, with `base`, the base amounts) on `side`.
pub open spec fn model_side_total(lines: Seq<LineModel>, side: EntrySide, base: bool) -> int
    decreases lines.len(),
{
    if lines.len() == 0 {
        0
    } else {
        let l = lines.last();
        model_side_total(lines.drop_last(), side, base) + if l.side == side {
            if base {
                l.base_amount
            } else {
                l.amount
            }
        } else {
            0
        }
    }
}

/// Debits equal credits on both currency axes.
pub open spec fn lines_balanced(lines: Seq<LineModel>) -> bool {
    &&& model_side_total(lines, EntrySide::Debit, false) == model_side_total(lines, EntrySide::Credit, false)
    &&& model_side_total(lines, EntrySide::Debit, true) == model_side_total(lines, EntrySide::Credit, true)
}

proof fn lemma_pair_balanced(a: LineModel, b: LineModel)
    requires
        a.side == EntrySide::Debit,
        b.side == EntrySide::Credit,
        a.amount == b.amount,
        a.base_amount == b.base_amount,
    ensures
        lines_balanced(seq![a, b]),
{
    reveal_with_fuel(model_side_total, 3);
    assert(seq![a, b].drop_last() =~= seq![a]);
    assert(seq![a].drop_last() =~= Seq::<LineModel>::empty());
}

proof fn lemma_two_line_balanced(
    payload: JsonValue,
    amount_ptrs: Seq<Seq<char>>,
    field: Seq<char>,
    currency_ptrs: Seq<Seq<char>>,
    base_amount_ptrs: Seq<Seq<char>>,
    debit_account: Seq<char>,
    credit_account: Seq<char>,
)
    ensures
        two_line_model(payload, amount_ptrs, field, currency_ptrs, base_amount_ptrs, debit_account, credit_account) is Ok
            ==> lines_balanced(two_line_model(payload, amount_ptrs, field, currency_ptrs, base_amount_ptrs, debit_account, credit_account)->Ok_0),
{
    let m = two_line_model(payload, amount_ptrs, field, currency_ptrs, base_amount_ptrs, debit_account, credit_account);
    if m is Ok {
        lemma_pair_balanced(m->Ok_0[0], m->Ok_0[1]);
        assert(m->Ok_0 =~= seq![m->Ok_0[0], m->Ok_0[1]]);
    }
}

/// A derivation yields two or three lines.
pub proof fn lemma_derived_lines_count(event_type: Seq<char>, payload: JsonValue)
    ensures
        derive_model(event_type, payload) is Ok ==> derive_model(event_type, payload)->Ok_0.len() <= 3,
{
}

/// Every event type of the vocabulary derives lines whose debits equal
/// their credits, in transaction and in base currency.
#[verifier::rlimit(50)]
pub proof fn lemma_derived_lines_balance(event_type: Seq<char>, payload: JsonValue)
    ensures
        derive_model(event_type, payload) is Ok ==> lines_balanced(derive_model(event_type, payload)->Ok_0),
{
    let m = derive_model(event_type, payload);
    if m is Ok {
        if event_type == "payment.settled.v1"@ {
            let s = m->Ok_0;
            reveal_with_fuel(model_side_total, 4);
            if s.len() == 3 {
                assert(s.drop_last() =~= seq![s[0], s[1]]);
                assert(seq![s[0], s[1]].drop_last() =~= seq![s[0]]);
                assert(seq![s[0]].drop_last() =~= Seq::<LineModel>::empty());
            } else {
                lemma_pair_balanced(s[0], s[1]);
                assert(s =~= seq![s[0], s[1]]);
            }
        } else if event_type == "fx.translation.v1"@ {
            lemma_pair_balanced(m->Ok_0[0], m->Ok_0[1]);
            assert(m->Ok_0 =~= seq![m->Ok_0[0], m->Ok_0[1]]);
        } else {
            let s = m->Ok_0;
            lemma_pair_balanced(s[0], s[1]);
            assert(s =~= seq![s[0], s[1]]);
        }
    }
}

/// The result of `derive_lines_v1` for each event type.
pub open spec fn derive_model(event_type: Seq<char>, payload: JsonValue) -> Result<Seq<LineModel>, RuleFault> {
    if event_type == "order.captured.v1"@ {
        order_captured_model(payload)
    } else if event_type == "payment.settled.v1"@ {
        payment_settled_model(payload)
    } else if event_type == "refund.v1"@ {
        refund_model(payload)
    } else if event_type == "fee.assessed.v1"@ {
        fee_assessed_model(payload)
    } else if event_type == "chargeback.created.v1"@ {
        chargeback_created_model(payload)
    } else if event_type == "payout.cleared.v1"@ {
        payout_cleared_model(payload)
    } else if event_type == "dispute.opened.v1"@ {
        dispute_opened_model(payload)
    } else if event_type == "dispute.won.v1"@ {
        dispute_won_model(payload)
    } else if event_type == "dispute.lost.v1"@ {
        dispute_lost_model(payload)
    } else if event_type == "inntopia.reservation.captured.v1"@ {
        inntopia_reservation_captured_model(payload)
    } else if event_type == "intercompany.due_to_due_from.v1"@ {
        intercompany_due_to_due_from_model(payload)
    } else if event_type == "consolidation.elimination.v1"@ {
        consolidation_elimination_model(payload)
    } else if event_type == "fx.translation.v1"@ {
        fx_translation_model(payload)
    } else {
        Err(RuleFault::UnsupportedEventType(event_type))
    }
}

/// Derives the journal lines for an event of the closed vocabulary.
pub fn derive_lines_v1(event_type: &str, payload: &JsonValue) -> (r: Result<Vec<DerivedPostingLine>, RuleEngineError>)
    ensures
        derivation_model(r) == derive_model(event_type@, *payload),
        r is Ok ==> lines_balanced(lines_model(r->Ok_0@)),
{
    proof {
        lemma_derived_lines_balance(event_type@, *payload);
    }
    if str_equals(event_type, "order.captured.v1") {
        return order_captured(payload);
    }
    if str_equals(event_type, "payment.settled.v1") {
        return payment_settled(payload);
    }
    if str_equals(event_type, "refund.v1") {
        return refund(payload);
    }
    if str_equals(event_type, "fee.assessed.v1") {
        return fee_assessed(payload);
    }
    if str_equals(event_type, "chargeback.created.v1") {
        return chargeback_created(payload);
    }
    if str_equals(event_type, "payout.cleared.v1") {
        return payout_cleared(payload);
    }
    if str_equals(event_type, "dispute.opened.v1") {
        return dispute_opened(payload);
    }
    if str_equals(event_type, "dispute.won.v1") {
        return dispute_won(payload);
    }
    if str_equals(event_type, "dispute.lost.v1") {
        return dispute_lost(payload);
    }
    if str_equals(event_type, "inntopia.reservation.captured.v1") {
        return inntopia_reservation_captured(payload);
    }
    if str_equals(event_type, "intercompany.due_to_due_from.v1") {
        return intercompany_due_to_due_from(payload);
    }
    if str_equals(event_type, "consolidation.elimination.v1") {
        return consolidation_elimination(payload);
    }
    if str_equals(event_type, "fx.translation.v1") {
        return fx_translation(payload);
    }
    Err(RuleEngineError::UnsupportedEventType(owned(event_type)))
}

} // verus!
