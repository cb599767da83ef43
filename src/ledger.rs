use vstd::prelude::*;

use crate::date::CalendarDate;

verus! {

/// Side of a double-entry line.
#[derive(Debug, Clone, Copy, PartialEq, Eq, Structural)]
pub enum EntrySide {
    Debit,
    Credit,
}

/// Lifecycle of a stored journal: `Posted -> Reversed`, once.
#[derive(Debug, Clone, Copy, PartialEq, Eq, Structural)]
pub enum JournalStatus {
    Posted,
    Reversed,
}

#[derive(Debug, Clone, PartialEq, Eq)]
pub struct JournalLine {
    pub line_number: u32,
    pub account_id: String,
    pub entry_side: EntrySide,
    pub amount_minor: i64,
    pub currency: String,
    pub base_amount_minor: i64,
    pub base_currency: String,
}

#[derive(Debug, Clone, Copy, PartialEq, Eq, Structural)]
pub enum LedgerError {
    JournalExists,
    Unbalanced,
    Immutable,
    NotFound,
    AlreadyReversed,
}

/// Sum of the transaction-currency amounts (or, with `base`, of the base
/// amounts) of the lines on `side`.
pub open spec fn side_total(lines: Seq<JournalLine>, side: EntrySide, base: bool) -> int
    decreases lines.len(),
{
    if lines.len() == 0 {
        0
    } else {
        let l = lines.last();
        side_total(lines.drop_last(), side, base) + if l.entry_side == side {
            if base {
                l.base_amount_minor as int
            } else {
                l.amount_minor as int
            }
        } else {
            0
        }
    }
}

/// Debits equal credits, both in transaction currency and in base currency.
pub open spec fn is_balanced(lines: Seq<JournalLine>) -> bool {
    &&& side_total(lines, EntrySide::Debit, false) == side_total(lines, EntrySide::Credit, false)
    &&& side_total(lines, EntrySide::Debit, true) == side_total(lines, EntrySide::Credit, true)
}

pub open spec fn i64_span() -> int {
    0x8000_0000_0000_0000int
}

proof fn lemma_side_total_bound(lines: Seq<JournalLine>, side: EntrySide, base: bool)
    ensures
        -(lines.len() * i64_span()) <= side_total(lines, side, base) <= lines.len() * i64_span(),
    decreases lines.len(),
{
    if lines.len() > 0 {
        lemma_side_total_bound(lines.drop_last(), side, base);
    }
}

/// Checks that the lines balance on both currency axes.
pub fn validate_balanced(lines: &[JournalLine]) -> (r: Result<(), LedgerError>)
    ensures
        r is Ok <==> is_balanced(lines@),
        r matches Err(e) ==> e == LedgerError::Unbalanced,
{
    let mut debit_total: i128 = 0;
    let mut credit_total: i128 = 0;
    let mut base_debit_total: i128 = 0;
    let mut base_credit_total: i128 = 0;
    let mut i: usize = 0;
    while i < lines.len()
        invariant
            i <= lines.len(),
            debit_total == side_total(lines@.subrange(0, i as int), EntrySide::Debit, false),
            credit_total == side_total(lines@.subrange(0, i as int), EntrySide::Credit, false),
            base_debit_total == side_total(lines@.subrange(0, i as int), EntrySide::Debit, true),
            base_credit_total == side_total(lines@.subrange(0, i as int), EntrySide::Credit, true),
        decreases lines.len() - i,
    {
        let ghost prefix = lines@.subrange(0, i as int + 1);
        assert(prefix.drop_last() =~= lines@.subrange(0, i as int));
        proof {
            lemma_side_total_bound(lines@.subrange(0, i as int), EntrySide::Debit, false);
            lemma_side_total_bound(lines@.subrange(0, i as int), EntrySide::Credit, false);
            lemma_side_total_bound(lines@.subrange(0, i as int), EntrySide::Debit, true);
            lemma_side_total_bound(lines@.subrange(0, i as int), EntrySide::Credit, true);
            assert(i * i64_span() <= 0xffff_ffff_ffff_ffffint * i64_span()) by (nonlinear_arith)
                requires
                    i <= 0xffff_ffff_ffff_ffffint,
                    i64_span() > 0,
            ;
        }
        let line = &lines[i];
        match line.entry_side {
            EntrySide::Debit => {
                debit_total = debit_total + line.amount_minor as i128;
                base_debit_total = base_debit_total + line.base_amount_minor as i128;
            },
            EntrySide::Credit => {
                credit_total = credit_total + line.amount_minor as i128;
                base_credit_total = base_credit_total + line.base_amount_minor as i128;
            },
        }
        i = i + 1;
    }
    assert(lines@.subrange(0, lines@.len() as int) =~= lines@);
    if debit_total == credit_total && base_debit_total == base_credit_total {
        Ok(())
    } else {
        Err(LedgerError::Unbalanced)
    }
}


#[derive(Debug, Clone, PartialEq, Eq)]
pub struct JournalHeader {
    /// The 128-bit journal identifier (a UUID read as a big-endian integer).
    pub journal_id: u128,
    pub journal_number: String,
    pub status: JournalStatus,
    pub tenant_id: String,
    pub legal_entity_id: String,
    pub ledger_book: String,
    pub accounting_date: CalendarDate,
    /// Wall-clock posting time, nanoseconds since the Unix epoch.
    pub posted_at_ns: i64,
    pub source_event_ids: Vec<String>,
    pub posting_run_id: String,
    pub book_policy_id: String,
    pub policy_version: String,
    pub fx_rate_set_id: String,
    pub ruleset_version: String,
    pub workflow_id: Option<String>,
}

#[derive(Debug, Clone, PartialEq, Eq)]
pub struct JournalRecord {
    pub header: JournalHeader,
    pub lines: Vec<JournalLine>,
}

/// Two headers hold the same values.
pub open spec fn same_header(a: JournalHeader, b: JournalHeader) -> bool {
    &&& a.journal_id == b.journal_id
    &&& a.journal_number == b.journal_number
    &&& a.status == b.status
    &&& a.tenant_id == b.tenant_id
    &&& a.legal_entity_id == b.legal_entity_id
    &&& a.ledger_book == b.ledger_book
    &&& a.accounting_date == b.accounting_date
    &&& a.posted_at_ns == b.posted_at_ns
    &&& a.source_event_ids@ == b.source_event_ids@
    &&& a.posting_run_id == b.posting_run_id
    &&& a.book_policy_id == b.book_policy_id
    &&& a.policy_version == b.policy_version
    &&& a.fx_rate_set_id == b.fx_rate_set_id
    &&& a.ruleset_version == b.ruleset_version
    &&& a.workflow_id == b.workflow_id
}

/// Two records hold the same values.
pub open spec fn same_record(a: JournalRecord, b: JournalRecord) -> bool {
    same_header(a.header, b.header) && a.lines@ == b.lines@
}

/// Copies a list of strings.
pub fn copy_strings(v: &Vec<String>) -> (r: Vec<String>)
    ensures
        r@ == v@,
{
    let mut r: Vec<String> = Vec::new();
    let mut i: usize = 0;
    while i < v.len()
        invariant
            i <= v.len(),
            r@ == v@.subrange(0, i as int),
        decreases v.len() - i,
    {
        r.push(v[i].clone());
        i = i + 1;
        assert(r@ =~= v@.subrange(0, i as int));
    }
    assert(v@.subrange(0, v.len() as int) =~= v@);
    r
}

impl JournalLine {
    pub fn copy_line(&self) -> (r: JournalLine)
        ensures
            r == *self,
    {
        JournalLine {
            line_number: self.line_number,
            account_id: self.account_id.clone(),
            entry_side: self.entry_side,
            amount_minor: self.amount_minor,
            currency: self.currency.clone(),
            base_amount_minor: self.base_amount_minor,
            base_currency: self.base_currency.clone(),
        }
    }
}

fn copy_optional_string(s: &Option<String>) -> (r: Option<String>)
    ensures
        r == *s,
{
    match s {
        Some(v) => Some(v.clone()),
        None => None,
    }
}

impl JournalHeader {
    pub fn copy_header(&self) -> (r: JournalHeader)
        ensures
            same_header(r, *self),
    {
        JournalHeader {
            journal_id: self.journal_id,
            journal_number: self.journal_number.clone(),
            status: self.status,
            tenant_id: self.tenant_id.clone(),
            legal_entity_id: self.legal_entity_id.clone(),
            ledger_book: self.ledger_book.clone(),
            accounting_date: self.accounting_date,
            posted_at_ns: self.posted_at_ns,
            source_event_ids: copy_strings(&self.source_event_ids),
            posting_run_id: self.posting_run_id.clone(),
            book_policy_id: self.book_policy_id.clone(),
            policy_version: self.policy_version.clone(),
            fx_rate_set_id: self.fx_rate_set_id.clone(),
            ruleset_version: self.ruleset_version.clone(),
            workflow_id: copy_optional_string(&self.workflow_id),
        }
    }
}

impl JournalRecord {
    pub fn copy_record(&self) -> (r: JournalRecord)
        ensures
            same_record(r, *self),
    {
        let mut lines: Vec<JournalLine> = Vec::new();
        let mut i: usize = 0;
        while i < self.lines.len()
            invariant
                i <= self.lines.len(),
                lines@ == self.lines@.subrange(0, i as int),
            decreases self.lines.len() - i,
        {
            lines.push(self.lines[i].copy_line());
            i = i + 1;
            assert(lines@ =~= self.lines@.subrange(0, i as int));
        }
        assert(self.lines@.subrange(0, self.lines.len() as int) =~= self.lines@);
        JournalRecord { header: self.header.copy_header(), lines }
    }
}

/// Position of the journal with this id, if any (ids are unique in a store).
pub open spec fn index_of_journal(records: Seq<JournalRecord>, id: u128) -> Option<int> {
    if exists|i: int| 0 <= i < records.len() && records[i].header.journal_id == id {
        Some(choose|i: int| 0 <= i < records.len() && records[i].header.journal_id == id)
    } else {
        None
    }
}

/// Append-only journal store: ids are unique and every stored journal balances.
pub struct InMemoryJournalRepository {
    journals: Vec<JournalRecord>,
}

impl View for InMemoryJournalRepository {
    type V = Seq<JournalRecord>;

    closed spec fn view(&self) -> Seq<JournalRecord> {
        self.journals@
    }
}

/// Journal ids are unique and each journal balances on both axes.
pub open spec fn journals_wf(records: Seq<JournalRecord>) -> bool {
    &&& forall|i: int, j: int|
        0 <= i < j < records.len() ==> records[i].header.journal_id != records[j].header.journal_id
    &&& forall|i: int| 0 <= i < records.len() ==> is_balanced(#[trigger] records[i].lines@)
}

/// Every journal a store holds balances: debits equal credits in
/// transaction currency and in base currency.
pub proof fn lemma_stored_journals_balance(store: &InMemoryJournalRepository, i: int)
    requires
        journals_wf(store@),
        0 <= i < store@.len(),
    ensures
        side_total(store@[i].lines@, EntrySide::Debit, false) == side_total(store@[i].lines@, EntrySide::Credit, false),
        side_total(store@[i].lines@, EntrySide::Debit, true) == side_total(store@[i].lines@, EntrySide::Credit, true),
{
    assert(is_balanced(store@[i].lines@));
}

/// A journal that `insert_posted` accepts balances on both axes.
pub proof fn lemma_inserted_journal_balances(old_store: Seq<JournalRecord>, new_store: Seq<JournalRecord>, record: JournalRecord)
    requires
        journals_wf(new_store),
        new_store == old_store.push(record),
    ensures
        is_balanced(record.lines@),
{
    assert(new_store[old_store.len() as int] == record);
}

impl InMemoryJournalRepository {
    pub fn new() -> (r: Self)
        ensures
            r@ == Seq::<JournalRecord>::empty(),
            journals_wf(r@),
    {
        InMemoryJournalRepository { journals: Vec::new() }
    }

    fn find(&self, journal_id: u128) -> (r: Option<usize>)
        ensures
            match r {
                Some(i) => i < self@.len() && self@[i as int].header.journal_id == journal_id,
                None => forall|i: int| 0 <= i < self@.len() ==> self@[i].header.journal_id != journal_id,
            },
    {
        let mut i: usize = 0;
        while i < self.journals.len()
            invariant
                i <= self.journals.len(),
                forall|k: int| 0 <= k < i ==> self.journals@[k].header.journal_id != journal_id,
            decreases self.journals.len() - i,
        {
            if self.journals[i].header.journal_id == journal_id {
                return Some(i);
            }
            i = i + 1;
        }
        None
    }

    /// Stores a new journal. Fails with `JournalExists` when the id is taken
    /// and with `Unbalanced` when its lines do not balance; the store is then
    /// unchanged.
    pub fn insert_posted(&mut self, record: JournalRecord) -> (r: Result<(), LedgerError>)
        requires
            journals_wf(old(self)@),
        ensures
            journals_wf(final(self)@),
            (exists|i: int| 0 <= i < old(self)@.len() && old(self)@[i].header.journal_id == record.header.journal_id)
                ==> r == Err::<(), LedgerError>(LedgerError::JournalExists),
            (forall|i: int| 0 <= i < old(self)@.len() ==> old(self)@[i].header.journal_id != record.header.journal_id)
                ==> (if is_balanced(record.lines@) {
                    r is Ok
                } else {
                    r == Err::<(), LedgerError>(LedgerError::Unbalanced)
                }),
            r is Ok ==> final(self)@ == old(self)@.push(record),
            r is Err ==> final(self)@ == old(self)@,
    {
        match self.find(record.header.journal_id) {
            Some(_) => {
                return Err(LedgerError::JournalExists);
            },
            None => {},
        }
        match validate_balanced(record.lines.as_slice()) {
            Ok(()) => {},
            Err(e) => {
                return Err(e);
            },
        }
        self.journals.push(record);
        Ok(())
    }

    /// The journal with this id.
    pub fn get(&self, journal_id: u128) -> (r: Option<&JournalRecord>)
        requires
            journals_wf(self@),
        ensures
            match index_of_journal(self@, journal_id) {
                Some(i) => r == Some(&self@[i]),
                None => r is None,
            },
    {
        match self.find(journal_id) {
            Some(i) => Some(&self.journals[i]),
            None => None,
        }
    }

    /// A copy of every stored journal, in insertion order.
    pub fn all(&self) -> (r: Vec<JournalRecord>)
        ensures
            r@.len() == self@.len(),
            forall|i: int| 0 <= i < r@.len() ==> same_record(#[trigger] r@[i], self@[i]),
    {
        let mut out: Vec<JournalRecord> = Vec::new();
        let mut i: usize = 0;
        while i < self.journals.len()
            invariant
                i <= self.journals.len(),
                out@.len() == i,
                forall|k: int| 0 <= k < i ==> same_record(#[trigger] out@[k], self.journals@[k]),
            decreases self.journals.len() - i,
        {
            out.push(self.journals[i].copy_record());
            i = i + 1;
        }
        out
    }

    /// Stored journals are immutable: this always fails and changes nothing.
    pub fn update_posted(&mut self, journal_id: u128, record: JournalRecord) -> (r: Result<(), LedgerError>)
        ensures
            r == Err::<(), LedgerError>(LedgerError::Immutable),
            final(self)@ == old(self)@,
    {
        Err(LedgerError::Immutable)
    }

    /// Marks a posted journal as reversed. A second reversal fails with
    /// `AlreadyReversed`; an unknown id with `NotFound`.
    pub fn reverse(&mut self, journal_id: u128) -> (r: Result<(), LedgerError>)
        requires
            journals_wf(old(self)@),
        ensures
            journals_wf(final(self)@),
            match index_of_journal(old(self)@, journal_id) {
                None => r == Err::<(), LedgerError>(LedgerError::NotFound) && final(self)@ == old(self)@,
                Some(i) => if old(self)@[i].header.status == JournalStatus::Reversed {
                    r == Err::<(), LedgerError>(LedgerError::AlreadyReversed) && final(self)@ == old(self)@
                } else {
                    &&& r is Ok
                    &&& final(self)@.len() == old(self)@.len()
                    &&& final(self)@[i].header.status == JournalStatus::Reversed
                    &&& final(self)@[i].lines == old(self)@[i].lines
                    &&& final(self)@[i].header == (JournalHeader { status: JournalStatus::Reversed, ..old(self)@[i].header })
                    &&& forall|k: int| 0 <= k < final(self)@.len() && k != i ==> final(self)@[k] == old(self)@[k]
                },
            },
    {
        match self.find(journal_id) {
            None => Err(LedgerError::NotFound),
            Some(i) => {
                assert(index_of_journal(self@, journal_id) == Some(i as int));
                if self.journals[i].header.status == JournalStatus::Reversed {
                    return Err(LedgerError::AlreadyReversed);
                }
                self.journals[i].header.status = JournalStatus::Reversed;
                assert(is_balanced(self.journals@[i as int].lines@));
                Ok(())
            },
        }
    }

    /// Number of stored journals.
    pub fn len(&self) -> (r: usize)
        ensures
            r == self@.len(),
    {
        self.journals.len()
    }
}

impl Default for InMemoryJournalRepository {
    fn default() -> (r: Self)
        ensures
            r@ == Seq::<JournalRecord>::empty(),
    {
        InMemoryJournalRepository::new()
    }
}

} // verus!
