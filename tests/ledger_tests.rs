use ledger_core::date::CalendarDate;
use ledger_core::ledger::{
    validate_balanced, EntrySide, InMemoryJournalRepository, JournalHeader, JournalLine, JournalRecord,
    JournalStatus, LedgerError,
};

fn sample_header(journal_id: u128) -> JournalHeader {
    JournalHeader {
        journal_id,
        journal_number: "USCO01-2026-000001".to_string(),
        status: JournalStatus::Posted,
        tenant_id: "tenant_1".to_string(),
        legal_entity_id: "US_CO_01".to_string(),
        ledger_book: "US_GAAP".to_string(),
        accounting_date: CalendarDate { year: 2026, month: 2, day: 21 },
        posted_at_ns: 1_771_632_000_000_000_000,
        source_event_ids: vec!["evt_1".to_string()],
        posting_run_id: "run_1".to_string(),
        book_policy_id: "policy_dual_book".to_string(),
        policy_version: "1.0.0".to_string(),
        fx_rate_set_id: "fx_2026_02_21".to_string(),
        ruleset_version: "v1".to_string(),
        workflow_id: Some("wf_1".to_string()),
    }
}

fn line(n: u32, account: &str, side: EntrySide, amount: i64, base: i64) -> JournalLine {
    JournalLine {
        line_number: n,
        account_id: account.to_string(),
        entry_side: side,
        amount_minor: amount,
        currency: "USD".to_string(),
        base_amount_minor: base,
        base_currency: "USD".to_string(),
    }
}

fn balanced_lines() -> Vec<JournalLine> {
    vec![
        line(1, "1105-CASH-CLEARING", EntrySide::Debit, 10000, 10000),
        line(2, "4000-REVENUE", EntrySide::Credit, 10000, 10000),
    ]
}

#[test]
fn inserted_journal_must_be_balanced() {
    let mut repo = InMemoryJournalRepository::default();
    let mut lines = balanced_lines();
    lines[1].amount_minor = 9000;

    let result = repo.insert_posted(JournalRecord { header: sample_header(1), lines });

    assert_eq!(result, Err(LedgerError::Unbalanced));
    assert_eq!(repo.len(), 0);
}

#[test]
fn posted_journal_is_immutable() {
    let mut repo = InMemoryJournalRepository::default();
    let record = JournalRecord { header: sample_header(7), lines: balanced_lines() };
    let journal_id = record.header.journal_id;

    repo.insert_posted(record.clone()).unwrap();
    let update = repo.update_posted(journal_id, record);

    assert_eq!(update, Err(LedgerError::Immutable));
}

#[test]
fn reverse_transitions_posted_to_reversed_once() {
    let mut repo = InMemoryJournalRepository::default();
    let record = JournalRecord { header: sample_header(9), lines: balanced_lines() };
    let journal_id = record.header.journal_id;
    repo.insert_posted(record).unwrap();

    repo.reverse(journal_id).unwrap();
    let status = repo.get(journal_id).unwrap().header.status;
    assert_eq!(status, JournalStatus::Reversed);

    let duplicate_reverse = repo.reverse(journal_id);
    assert_eq!(duplicate_reverse, Err(LedgerError::AlreadyReversed));
}

#[test]
fn reverse_fails_for_missing_journal() {
    let mut repo = InMemoryJournalRepository::default();
    let error = repo.reverse(0x1234_5678_9abc_def0_1234_5678_9abc_def0);
    assert_eq!(error, Err(LedgerError::NotFound));
}

#[test]
fn duplicate_journal_id_is_rejected() {
    let mut repo = InMemoryJournalRepository::default();
    repo.insert_posted(JournalRecord { header: sample_header(3), lines: balanced_lines() }).unwrap();
    let again = repo.insert_posted(JournalRecord { header: sample_header(3), lines: balanced_lines() });
    assert_eq!(again, Err(LedgerError::JournalExists));
    assert_eq!(repo.all().len(), 1);
}

#[test]
fn base_currency_axis_must_balance_too() {
    let lines = vec![
        line(1, "1105-CASH-CLEARING", EntrySide::Debit, 10000, 13500),
        line(2, "4000-REVENUE", EntrySide::Credit, 10000, 13400),
    ];
    assert_eq!(validate_balanced(&lines), Err(LedgerError::Unbalanced));
}

#[test]
fn three_line_journal_balances_and_is_listed() {
    let lines = vec![
        line(1, "1000-CASH", EntrySide::Debit, 9750, 9750),
        line(2, "6100-PAYMENT-FEES", EntrySide::Debit, 250, 250),
        line(3, "1105-CASH-CLEARING", EntrySide::Credit, 10000, 10000),
    ];
    assert_eq!(validate_balanced(&lines), Ok(()));
    let mut repo = InMemoryJournalRepository::default();
    repo.insert_posted(JournalRecord { header: sample_header(11), lines }).unwrap();
    let all = repo.all();
    assert_eq!(all.len(), 1);
    assert_eq!(all[0].lines.len(), 3);
    assert_eq!(all[0].header.journal_id, 11);
}

#[test]
fn empty_line_set_is_balanced() {
    assert_eq!(validate_balanced(&[]), Ok(()));
}

#[test]
fn extreme_amounts_do_not_overflow_the_check() {
    let lines = vec![
        line(1, "A", EntrySide::Debit, i64::MAX, i64::MAX),
        line(2, "B", EntrySide::Debit, i64::MAX, i64::MAX),
        line(3, "C", EntrySide::Credit, i64::MAX, i64::MAX),
    ];
    assert_eq!(validate_balanced(&lines), Err(LedgerError::Unbalanced));
}
