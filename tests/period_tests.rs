use ledger_core::date::CalendarDate;
use ledger_core::period::{is_valid_period_id, period_id_from_date, InMemoryPeriodRepository, PeriodError};

#[test]
fn lock_period_rejects_invalid_period_id() {
    let mut repo = InMemoryPeriodRepository::default();
    let err = repo.lock_period("tenant_1", "US_CO_01", "US_GAAP", "202602").unwrap_err();
    assert_eq!(err, PeriodError::InvalidPeriodId("202602".to_string()));
}

#[test]
fn locked_period_rejects_posting_date() {
    let mut repo = InMemoryPeriodRepository::default();
    repo.lock_period("tenant_1", "US_CO_01", "US_GAAP", "2026-02").unwrap();

    let err = repo
        .ensure_open("tenant_1", "US_CO_01", "US_GAAP", CalendarDate { year: 2026, month: 2, day: 21 })
        .unwrap_err();
    assert_eq!(err, PeriodError::PeriodClosed("2026-02".to_string()));
}

#[test]
fn open_period_allows_posting_date() {
    let repo = InMemoryPeriodRepository::default();
    let result = repo.ensure_open("tenant_1", "US_CO_01", "US_GAAP", CalendarDate { year: 2026, month: 2, day: 21 });
    assert!(result.is_ok());
}

#[test]
fn derives_period_id_from_date() {
    let period = period_id_from_date(CalendarDate { year: 2026, month: 12, day: 31 });
    assert_eq!(period, "2026-12");
}

#[test]
fn period_ids_are_zero_padded() {
    assert_eq!(period_id_from_date(CalendarDate { year: 987, month: 3, day: 1 }), "0987-03");
}

#[test]
fn period_id_shape_is_checked_exactly() {
    assert!(is_valid_period_id("2026-02"));
    assert!(!is_valid_period_id("2026-2"));
    assert!(!is_valid_period_id("2026/02"));
    assert!(!is_valid_period_id("20a6-02"));
    assert!(!is_valid_period_id(""));
}

#[test]
fn locks_are_scoped_and_idempotent() {
    let mut repo = InMemoryPeriodRepository::default();
    repo.lock_period("tenant_1", "US_CO_01", "US_GAAP", "2026-02").unwrap();
    repo.lock_period("tenant_1", "US_CO_01", "US_GAAP", "2026-02").unwrap();
    let other_book = repo.ensure_open("tenant_1", "US_CO_01", "IFRS", CalendarDate { year: 2026, month: 2, day: 3 });
    assert!(other_book.is_ok());
    let next_month = repo.ensure_open("tenant_1", "US_CO_01", "US_GAAP", CalendarDate { year: 2026, month: 3, day: 1 });
    assert!(next_month.is_ok());
}
