use vstd::prelude::*;

use crate::date::CalendarDate;
use crate::text::{is_ascii_digit, owned, padded_decimal, push_char, push_padded_decimal};

verus! {

/// A closed accounting period of one ledger book.
#[derive(Debug, Clone, PartialEq, Eq, Hash)]
pub struct PeriodKey {
    pub tenant_id: String,
    pub legal_entity_id: String,
    pub ledger_book: String,
    pub period_id: String,
}

/// A period key as plain values.
pub type PeriodScope = (Seq<char>, Seq<char>, Seq<char>, Seq<char>);

impl PeriodKey {
    pub open spec fn scope(&self) -> PeriodScope {
        (self.tenant_id@, self.legal_entity_id@, self.ledger_book@, self.period_id@)
    }

    pub fn new(tenant_id: &str, legal_entity_id: &str, ledger_book: &str, period_id: &str) -> (r: Self)
        ensures
            r.scope() == (tenant_id@, legal_entity_id@, ledger_book@, period_id@),
    {
        PeriodKey {
            tenant_id: owned(tenant_id),
            legal_entity_id: owned(legal_entity_id),
            ledger_book: owned(ledger_book),
            period_id: owned(period_id),
        }
    }
}

#[derive(Debug, Clone, PartialEq, Eq)]
pub enum PeriodError {
    InvalidPeriodId(String),
    PeriodClosed(String),
}

/// `YYYY-MM`: four ASCII digits, a dash, two ASCII digits.
pub open spec fn is_period_id(s: Seq<char>) -> bool {
    &&& s.len() == 7
    &&& s[4] == '-'
    &&& forall|i: int| 0 <= i < 7 && i != 4 ==> is_ascii_digit(#[trigger] s[i])
}

/// Whether `period_id` has the shape `YYYY-MM`.
pub fn is_valid_period_id(period_id: &str) -> (r: bool)
    ensures
        r == is_period_id(period_id@),
{
    if period_id.unicode_len() != 7 {
        return false;
    }
    let mut i: usize = 0;
    while i < 7
        invariant
            i <= 7,
            period_id@.len() == 7,
            forall|k: int| 0 <= k < i ==> (if k == 4 {
                period_id@[k] == '-'
            } else {
                is_ascii_digit(period_id@[k])
            }),
        decreases 7 - i,
    {
        let c = period_id.get_char(i);
        if i == 4 {
            if c != '-' {
                return false;
            }
        } else if !('0' <= c && c <= '9') {
            return false;
        }
        i = i + 1;
    }
    true
}

/// The period id of a date: its year, zero-padded to four digits, a dash, and
/// its month, zero-padded to two.
pub open spec fn period_text(date: CalendarDate) -> Seq<char> {
    padded_decimal(date.year as nat, 4) + seq!['-'] + padded_decimal(date.month as nat, 2)
}

/// The `YYYY-MM` period that contains `date`.
pub fn period_id_from_date(date: CalendarDate) -> (r: String)
    requires
        date.wf(),
    ensures
        r@ == period_text(date),
{
    let mut s = String::new();
    push_padded_decimal(&mut s, date.year as u64, 4);
    push_char(&mut s, '-');
    push_padded_decimal(&mut s, date.month as u64, 2);
    assert(s@ =~= period_text(date));
    s
}

/// The set of closed periods.
pub struct InMemoryPeriodRepository {
    closed: Vec<PeriodKey>,
}

impl View for InMemoryPeriodRepository {
    type V = Set<PeriodScope>;

    closed spec fn view(&self) -> Set<PeriodScope> {
        self.closed@.map_values(|k: PeriodKey| k.scope()).to_set()
    }
}

impl InMemoryPeriodRepository {
    pub fn new() -> (r: Self)
        ensures
            r@ == Set::<PeriodScope>::empty(),
    {
        let r = InMemoryPeriodRepository { closed: Vec::new() };
        assert(r@ =~= Set::<PeriodScope>::empty()) by {
            assert(r.closed@.map_values(|k: PeriodKey| k.scope()) =~= Seq::<PeriodScope>::empty());
        }
        r
    }

    fn contains(&self, key: &PeriodKey) -> (r: bool)
        ensures
            r == self@.contains(key.scope()),
    {
        let ghost scopes = self.closed@.map_values(|k: PeriodKey| k.scope());
        let mut i: usize = 0;
        while i < self.closed.len()
            invariant
                i <= self.closed.len(),
                scopes == self.closed@.map_values(|k: PeriodKey| k.scope()),
                forall|j: int| 0 <= j < i ==> scopes[j] != key.scope(),
            decreases self.closed.len() - i,
        {
            let k = &self.closed[i];
            if k.tenant_id == key.tenant_id && k.legal_entity_id == key.legal_entity_id
                && k.ledger_book == key.ledger_book && k.period_id == key.period_id {
                assert(scopes[i as int] == key.scope());
                assert(self@.contains(key.scope()));
                return true;
            }
            i = i + 1;
        }
        assert(!self@.contains(key.scope())) by {
            if scopes.contains(key.scope()) {
                let j = choose|j: int| 0 <= j < scopes.len() && scopes[j] == key.scope();
                assert(scopes[j] == key.scope());
            }
        }
        false
    }

    /// Closes a period. Fails with `InvalidPeriodId` unless `period_id` is
    /// `YYYY-MM`; closing a closed period changes nothing.
    pub fn lock_period(&mut self, tenant_id: &str, legal_entity_id: &str, ledger_book: &str, period_id: &str) -> (r: Result<(), PeriodError>)
        ensures
            is_period_id(period_id@) ==> r is Ok && final(self)@ == old(self)@.insert((tenant_id@, legal_entity_id@, ledger_book@, period_id@)),
            !is_period_id(period_id@) ==> (r matches Err(PeriodError::InvalidPeriodId(p)) && p@ == period_id@) && final(self)@ == old(self)@,
    {
        if !is_valid_period_id(period_id) {
            return Err(PeriodError::InvalidPeriodId(owned(period_id)));
        }
        let key = PeriodKey::new(tenant_id, legal_entity_id, ledger_book, period_id);
        if !self.contains(&key) {
            let ghost before = self.closed@;
            self.closed.push(key);
            assert(self.closed@.map_values(|k: PeriodKey| k.scope()) =~= before.map_values(|k: PeriodKey| k.scope()).push(key.scope()));
            proof {
                before.map_values(|k: PeriodKey| k.scope()).lemma_push_to_set_commute(key.scope());
            }
            assert(self@ =~= old(self)@.insert(key.scope()));
        } else {
            assert(self@ =~= old(self)@.insert(key.scope()));
        }
        Ok(())
    }

    /// Fails with `PeriodClosed(period)` when the period that holds
    /// `accounting_date` is closed for this book.
    pub fn ensure_open(&self, tenant_id: &str, legal_entity_id: &str, ledger_book: &str, accounting_date: CalendarDate) -> (r: Result<(), PeriodError>)
        requires
            accounting_date.wf(),
        ensures
            self@.contains((tenant_id@, legal_entity_id@, ledger_book@, period_text(accounting_date)))
                ==> (r matches Err(PeriodError::PeriodClosed(p)) && p@ == period_text(accounting_date)),
            !self@.contains((tenant_id@, legal_entity_id@, ledger_book@, period_text(accounting_date))) ==> r is Ok,
    {
        let period_id = period_id_from_date(accounting_date);
        let key = PeriodKey::new(tenant_id, legal_entity_id, ledger_book, period_id.as_str());
        if self.contains(&key) {
            return Err(PeriodError::PeriodClosed(period_id));
        }
        Ok(())
    }
}

impl Default for InMemoryPeriodRepository {
    fn default() -> (r: Self)
        ensures
            r@ == Set::<PeriodScope>::empty(),
    {
        InMemoryPeriodRepository::new()
    }
}

} // verus!
