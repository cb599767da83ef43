use vstd::prelude::*;

use crate::audit::{insert_sorted, string_views, strictly_sorted};
use crate::ledger::{EntrySide, JournalLine, JournalRecord, JournalStatus};
use crate::posting::{signed, RevRecDisclosureResponse, RevRecRollforwardResponse};
use crate::text::{owned, str_contains, str_equals, text_contains};

verus! {

/// The accounts the revenue read-side aggregates.
#[derive(Debug, Clone, Copy, PartialEq, Eq, Structural)]
pub enum RevRecAccount {
    /// `4000-REVENUE`.
    Recognized,
    /// Any account whose id contains `DEFERRED`.
    Deferred,
    /// `4050-REFUNDS`.
    Refunds,
}

pub open spec fn account_selected(account: Seq<char>, which: RevRecAccount) -> bool {
    match which {
        RevRecAccount::Recognized => account == "4000-REVENUE"@,
        RevRecAccount::Deferred => text_contains(account, "DEFERRED"@),
        RevRecAccount::Refunds => account == "4050-REFUNDS"@,
    }
}

/// A journal counts when it is posted in the book.
pub open spec fn counts_in_book(r: JournalRecord, book: Seq<char>) -> bool {
    r.header.ledger_book@ == book && r.header.status == JournalStatus::Posted
}

/// Signed sum (credit up, debit down) of the selected lines.
pub open spec fn lines_sum(ls: Seq<JournalLine>, which: RevRecAccount) -> int
    decreases ls.len(),
{
    if ls.len() == 0 {
        0
    } else {
        lines_sum(ls.drop_last(), which) + if account_selected(ls.last().account_id@, which) {
            signed(ls.last().entry_side, ls.last().amount_minor as int)
        } else {
            0
        }
    }
}

/// Signed sum of the selected lines of the journals that count in the book.
pub open spec fn book_sum(rs: Seq<JournalRecord>, book: Seq<char>, which: RevRecAccount) -> int
    decreases rs.len(),
{
    if rs.len() == 0 {
        0
    } else {
        book_sum(rs.drop_last(), book, which) + if counts_in_book(rs.last(), book) {
            lines_sum(rs.last().lines@, which)
        } else {
            0
        }
    }
}

/// Number of journals that count in the book.
pub open spec fn book_count(rs: Seq<JournalRecord>, book: Seq<char>) -> nat
    decreases rs.len(),
{
    if rs.len() == 0 {
        0
    } else {
        book_count(rs.drop_last(), book) + if counts_in_book(rs.last(), book) {
            1nat
        } else {
            0nat
        }
    }
}

pub open spec fn fits_i64(x: int) -> bool {
    i64::MIN <= x <= i64::MAX
}

/// Journals and lines few enough that exact sums fit the accumulators.
pub open spec fn revrec_sized(rs: Seq<JournalRecord>) -> bool {
    &&& rs.len() <= u32::MAX
    &&& forall|i: int| 0 <= i < rs.len() ==> (#[trigger] rs[i]).lines@.len() < 0x8000_0000
}

fn selected(account: &String, which: RevRecAccount) -> (r: bool)
    ensures
        r == account_selected(account@, which),
{
    match which {
        RevRecAccount::Recognized => str_equals(account.as_str(), "4000-REVENUE"),
        RevRecAccount::Deferred => str_contains(account.as_str(), "DEFERRED"),
        RevRecAccount::Refunds => str_equals(account.as_str(), "4050-REFUNDS"),
    }
}

pub open spec fn span() -> int {
    0x8000_0000_0000_0000int
}

fn record_sum(r: &JournalRecord, which: RevRecAccount) -> (s: i128)
    requires
        r.lines@.len() < 0x8000_0000,
    ensures
        s == lines_sum(r.lines@, which),
        -(0x8000_0000int * span()) <= s <= 0x8000_0000int * span(),
{
    let mut acc: i128 = 0;
    let mut j: usize = 0;
    assert(r.lines@.subrange(0, 0) =~= Seq::<JournalLine>::empty());
    while j < r.lines.len()
        invariant
            j <= r.lines@.len(),
            r.lines@.len() < 0x8000_0000,
            acc == lines_sum(r.lines@.subrange(0, j as int), which),
            -(j * span()) <= acc <= j * span(),
        decreases r.lines.len() - j,
    {
        let l = &r.lines[j];
        let ghost p = r.lines@.subrange(0, j as int + 1);
        assert(p.drop_last() =~= r.lines@.subrange(0, j as int));
        if selected(&l.account_id, which) {
            match l.entry_side {
                EntrySide::Credit => {
                    acc = acc + l.amount_minor as i128;
                },
                EntrySide::Debit => {
                    acc = acc - l.amount_minor as i128;
                },
            }
        }
        j = j + 1;
        assert(-(j * span()) <= acc <= j * span()) by (nonlinear_arith)
            requires
                -((j - 1) * span()) - span() <= acc <= (j - 1) * span() + span(),
                span() > 0,
        ;
    }
    assert(r.lines@.subrange(0, r.lines@.len() as int) =~= r.lines@);
    assert(j * span() <= 0x8000_0000int * span()) by (nonlinear_arith)
        requires
            j < 0x8000_0000,
            span() > 0,
    ;
    acc
}

fn book_total(records: &Vec<JournalRecord>, book: &str, which: RevRecAccount) -> (s: i128)
    requires
        revrec_sized(records@),
    ensures
        s == book_sum(records@, book@, which),
{
    let mut acc: i128 = 0;
    let mut i: usize = 0;
    assert(records@.subrange(0, 0) =~= Seq::<JournalRecord>::empty());
    while i < records.len()
        invariant
            i <= records@.len(),
            revrec_sized(records@),
            acc == book_sum(records@.subrange(0, i as int), book@, which),
            -(i * (0x8000_0000int * span())) <= acc <= i * (0x8000_0000int * span()),
        decreases records.len() - i,
    {
        let r = &records[i];
        let ghost p = records@.subrange(0, i as int + 1);
        assert(p.drop_last() =~= records@.subrange(0, i as int));
        assert(r.lines@.len() < 0x8000_0000);
        assert(i * (0x8000_0000int * span()) <= 0xffff_ffffint * (0x8000_0000int * span())) by (nonlinear_arith)
            requires
                i <= 0xffff_ffff,
        ;
        if str_equals(r.header.ledger_book.as_str(), book) && r.header.status == JournalStatus::Posted {
            let s = record_sum(r, which);
            acc = acc + s;
        }
        i = i + 1;
        assert(-(i * (0x8000_0000int * span())) <= acc <= i * (0x8000_0000int * span())) by (nonlinear_arith)
            requires
                -((i - 1) * (0x8000_0000int * span())) - 0x8000_0000int * span() <= acc <= (i - 1) * (0x8000_0000int * span()) + 0x8000_0000int * span(),
        ;
    }
    assert(records@.subrange(0, records@.len() as int) =~= records@);
    acc
}

fn book_journal_count(records: &Vec<JournalRecord>, book: &str) -> (n: u32)
    requires
        records@.len() <= u32::MAX,
    ensures
        n == book_count(records@, book@),
{
    let mut n: u32 = 0;
    let mut i: usize = 0;
    assert(records@.subrange(0, 0) =~= Seq::<JournalRecord>::empty());
    while i < records.len()
        invariant
            i <= records@.len(),
            records@.len() <= u32::MAX,
            n == book_count(records@.subrange(0, i as int), book@),
            n <= i,
        decreases records.len() - i,
    {
        let r = &records[i];
        let ghost p = records@.subrange(0, i as int + 1);
        assert(p.drop_last() =~= records@.subrange(0, i as int));
        if str_equals(r.header.ledger_book.as_str(), book) && r.header.status == JournalStatus::Posted {
            n = n + 1;
        }
        i = i + 1;
    }
    assert(records@.subrange(0, records@.len() as int) =~= records@);
    n
}

/// The revenue rollforward of a book: posted journals counted, recognized
/// revenue and ending deferred revenue as signed sums. `None` when a total
/// does not fit in an `i64`.
pub fn revrec_rollforward(records: &Vec<JournalRecord>, book: &str) -> (r: Option<RevRecRollforwardResponse>)
    requires
        revrec_sized(records@),
    ensures
        ({
            let recognized = book_sum(records@, book@, RevRecAccount::Recognized);
            let deferred = book_sum(records@, book@, RevRecAccount::Deferred);
            &&& (r is Some <==> fits_i64(recognized) && fits_i64(deferred))
            &&& r is Some ==> {
                let v = r->0;
                &&& v.book@ == book@
                &&& v.journal_count == book_count(records@, book@)
                &&& v.recognized_revenue_minor == recognized
                &&& v.deferred_revenue_ending_minor == deferred
            }
        }),
{
    let recognized = book_total(records, book, RevRecAccount::Recognized);
    let deferred = book_total(records, book, RevRecAccount::Deferred);
    if recognized < i64::MIN as i128 || recognized > i64::MAX as i128 || deferred < i64::MIN as i128 || deferred > i64::MAX as i128 {
        return None;
    }
    Some(RevRecRollforwardResponse {
        book: owned(book),
        journal_count: book_journal_count(records, book),
        recognized_revenue_minor: recognized as i64,
        deferred_revenue_ending_minor: deferred as i64,
    })
}

/// The set of values a header field takes over the journals that count.
pub open spec fn policy_versions_of(rs: Seq<JournalRecord>, book: Seq<char>) -> Set<Seq<char>> {
    Set::new(|v: Seq<char>| exists|i: int| 0 <= i < rs.len() && counts_in_book(rs[i], book) && rs[i].header.policy_version@ == v)
}

pub open spec fn fx_rate_sets_of(rs: Seq<JournalRecord>, book: Seq<char>) -> Set<Seq<char>> {
    Set::new(|v: Seq<char>| exists|i: int| 0 <= i < rs.len() && counts_in_book(rs[i], book) && rs[i].header.fx_rate_set_id@ == v)
}

/// The disclosures of a book: posted journals counted, refunds booked
/// against revenue as a signed sum, and the policy versions and FX rate
/// sets in use, each sorted without repeats. `None` when the refund total
/// does not fit in an `i64`.
pub fn revrec_disclosures(records: &Vec<JournalRecord>, book: &str) -> (r: Option<RevRecDisclosureResponse>)
    requires
        revrec_sized(records@),
    ensures
        ({
            let refunds = book_sum(records@, book@, RevRecAccount::Refunds);
            &&& (r is Some <==> fits_i64(refunds))
            &&& r is Some ==> {
                let v = r->0;
                &&& v.book@ == book@
                &&& v.journal_count == book_count(records@, book@)
                &&& v.refund_contra_revenue_minor == refunds
                &&& strictly_sorted(string_views(v.policy_versions@))
                &&& string_views(v.policy_versions@).to_set() == policy_versions_of(records@, book@)
                &&& strictly_sorted(string_views(v.fx_rate_sets@))
                &&& string_views(v.fx_rate_sets@).to_set() == fx_rate_sets_of(records@, book@)
            }
        }),
{
    let refunds = book_total(records, book, RevRecAccount::Refunds);
    if refunds < i64::MIN as i128 || refunds > i64::MAX as i128 {
        return None;
    }
    let mut policy_versions: Vec<String> = Vec::new();
    let mut fx_rate_sets: Vec<String> = Vec::new();
    let mut i: usize = 0;
    assert(string_views(policy_versions@).to_set() =~= Set::<Seq<char>>::empty());
    assert(string_views(fx_rate_sets@).to_set() =~= Set::<Seq<char>>::empty());
    assert(policy_versions_of(records@.subrange(0, 0), book@) =~= Set::<Seq<char>>::empty());
    assert(fx_rate_sets_of(records@.subrange(0, 0), book@) =~= Set::<Seq<char>>::empty());
    while i < records.len()
        invariant
            i <= records@.len(),
            strictly_sorted(string_views(policy_versions@)),
            strictly_sorted(string_views(fx_rate_sets@)),
            string_views(policy_versions@).to_set() == policy_versions_of(records@.subrange(0, i as int), book@),
            string_views(fx_rate_sets@).to_set() == fx_rate_sets_of(records@.subrange(0, i as int), book@),
        decreases records.len() - i,
    {
        let r = &records[i];
        let ghost prev = records@.subrange(0, i as int);
        let ghost next = records@.subrange(0, i as int + 1);
        assert(next[i as int] == records@[i as int]);
        if str_equals(r.header.ledger_book.as_str(), book) && r.header.status == JournalStatus::Posted {
            insert_sorted(&mut policy_versions, r.header.policy_version.clone());
            insert_sorted(&mut fx_rate_sets, r.header.fx_rate_set_id.clone());
            assert(policy_versions_of(next, book@) =~= policy_versions_of(prev, book@).insert(records@[i as int].header.policy_version@)) by {
                assert forall|v: Seq<char>| policy_versions_of(next, book@).contains(v) implies policy_versions_of(prev, book@).insert(records@[i as int].header.policy_version@).contains(v) by {
                    let k = choose|k: int| 0 <= k < next.len() && counts_in_book(next[k], book@) && next[k].header.policy_version@ == v;
                    if k < i {
                        assert(prev[k] == next[k]);
                    }
                }
                assert forall|v: Seq<char>| policy_versions_of(prev, book@).insert(records@[i as int].header.policy_version@).contains(v) implies policy_versions_of(next, book@).contains(v) by {
                    if v != records@[i as int].header.policy_version@ {
                        let k = choose|k: int| 0 <= k < prev.len() && counts_in_book(prev[k], book@) && prev[k].header.policy_version@ == v;
                        assert(next[k] == prev[k]);
                    }
                }
            }
            assert(fx_rate_sets_of(next, book@) =~= fx_rate_sets_of(prev, book@).insert(records@[i as int].header.fx_rate_set_id@)) by {
                assert forall|v: Seq<char>| fx_rate_sets_of(next, book@).contains(v) implies fx_rate_sets_of(prev, book@).insert(records@[i as int].header.fx_rate_set_id@).contains(v) by {
                    let k = choose|k: int| 0 <= k < next.len() && counts_in_book(next[k], book@) && next[k].header.fx_rate_set_id@ == v;
                    if k < i {
                        assert(prev[k] == next[k]);
                    }
                }
                assert forall|v: Seq<char>| fx_rate_sets_of(prev, book@).insert(records@[i as int].header.fx_rate_set_id@).contains(v) implies fx_rate_sets_of(next, book@).contains(v) by {
                    if v != records@[i as int].header.fx_rate_set_id@ {
                        let k = choose|k: int| 0 <= k < prev.len() && counts_in_book(prev[k], book@) && prev[k].header.fx_rate_set_id@ == v;
                        assert(next[k] == prev[k]);
                    }
                }
            }
        } else {
            assert(policy_versions_of(next, book@) =~= policy_versions_of(prev, book@)) by {
                assert forall|v: Seq<char>| policy_versions_of(next, book@).contains(v) implies policy_versions_of(prev, book@).contains(v) by {
                    let k = choose|k: int| 0 <= k < next.len() && counts_in_book(next[k], book@) && next[k].header.policy_version@ == v;
                    assert(k < i);
                    assert(prev[k] == next[k]);
                }
                assert forall|v: Seq<char>| policy_versions_of(prev, book@).contains(v) implies policy_versions_of(next, book@).contains(v) by {
                    let k = choose|k: int| 0 <= k < prev.len() && counts_in_book(prev[k], book@) && prev[k].header.policy_version@ == v;
                    assert(next[k] == prev[k]);
                }
            }
            assert(fx_rate_sets_of(next, book@) =~= fx_rate_sets_of(prev, book@)) by {
                assert forall|v: Seq<char>| fx_rate_sets_of(next, book@).contains(v) implies fx_rate_sets_of(prev, book@).contains(v) by {
                    let k = choose|k: int| 0 <= k < next.len() && counts_in_book(next[k], book@) && next[k].header.fx_rate_set_id@ == v;
                    assert(k < i);
                    assert(prev[k] == next[k]);
                }
                assert forall|v: Seq<char>| fx_rate_sets_of(prev, book@).contains(v) implies fx_rate_sets_of(next, book@).contains(v) by {
                    let k = choose|k: int| 0 <= k < prev.len() && counts_in_book(prev[k], book@) && prev[k].header.fx_rate_set_id@ == v;
                    assert(next[k] == prev[k]);
                }
            }
        }
        i = i + 1;
    }
    assert(records@.subrange(0, records@.len() as int) =~= records@);
    Some(RevRecDisclosureResponse {
        book: owned(book),
        journal_count: book_journal_count(records, book),
        refund_contra_revenue_minor: refunds as i64,
        policy_versions,
        fx_rate_sets,
    })
}

} // verus!
