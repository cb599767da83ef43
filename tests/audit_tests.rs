use ledger_core::audit::{canonical_entity_scope, AuditSealError, InMemoryAuditSealStore};
use ledger_core::digest::payload_hash;
use ledger_core::idempotency::{IdempotencyError, IdempotencyStatus, InMemoryIdempotencyStore};

fn two_seal_store() -> InMemoryAuditSealStore {
    let mut store = InMemoryAuditSealStore::default();
    let entity_scope = vec!["US_CO_01".to_string()];
    store.append("posting.posted", &entity_scope, "{\"journal_id\":\"j1\"}", 1700000000000000000).unwrap();
    store.append("posting.posted", &entity_scope, "{\"journal_id\":\"j2\"}", 1700000001000000000).unwrap();
    store
}

#[test]
fn first_seen_then_replay() {
    let mut store = InMemoryIdempotencyStore::default();
    let payload = "{\"amount\":100,\"event\":\"order.captured.v1\"}";

    let first = store.check_or_insert("key-1", payload).unwrap();
    let replay = store.check_or_insert("key-1", payload).unwrap();

    assert_eq!(first, IdempotencyStatus::FirstSeen);
    assert_eq!(replay, IdempotencyStatus::Replay);
}

#[test]
fn same_key_different_hash_is_conflict() {
    let mut store = InMemoryIdempotencyStore::default();
    let payload_a = "{\"amount\":100,\"event\":\"order.captured.v1\"}";
    let payload_b = "{\"amount\":200,\"event\":\"order.captured.v1\"}";

    store.check_or_insert("key-1", payload_a).unwrap();
    let conflict = store.check_or_insert("key-1", payload_b).unwrap_err();

    assert_eq!(conflict, IdempotencyError::PayloadHashMismatch);
    assert_eq!(store.entries().len(), 1);
}

#[test]
fn hash_level_admission_is_keyed() {
    let mut store = InMemoryIdempotencyStore::default();
    assert_eq!(store.check_or_insert_hash("a", "h1"), Ok(IdempotencyStatus::FirstSeen));
    assert_eq!(store.check_or_insert_hash("b", "h1"), Ok(IdempotencyStatus::FirstSeen));
    assert_eq!(store.check_or_insert_hash("a", "h1"), Ok(IdempotencyStatus::Replay));
    assert_eq!(store.check_or_insert_hash("a", "h2"), Err(IdempotencyError::PayloadHashMismatch));
    assert_eq!(store.check_or_insert_hash("a", "h1"), Ok(IdempotencyStatus::Replay));
}

#[test]
fn payload_hash_is_lowercase_sha256_hex() {
    assert_eq!(payload_hash(""), "e3b0c44298fc1c149afbf4c8996fb92427ae41e4649b934ca495991b7852b855");
    assert_eq!(payload_hash("abc"), "ba7816bf8f01cfea414140de5dae2223b00361a396177a9cb410ff61f20015ad");
}

#[test]
fn audit_seal_chain_verifies_after_append() {
    let store = two_seal_store();
    assert_eq!(store.len().unwrap(), 2);
    assert_eq!(store.verify_chain(), Ok(()));
}

#[test]
fn audit_seal_detects_payload_tampering() {
    let store = two_seal_store();
    let mut entries = store.entries();
    entries[1].payload_hash = "tampered".to_string();
    let tampered = InMemoryAuditSealStore::from_entries(entries);

    assert_eq!(tampered.verify_chain(), Err(AuditSealError::Tampered { sequence: 2 }));
}

#[test]
fn seals_link_to_previous_and_start_at_genesis() {
    let store = two_seal_store();
    let entries = store.entries();
    assert_eq!(entries[0].sequence, 1);
    assert_eq!(entries[0].previous_seal, "GENESIS");
    assert_eq!(entries[1].sequence, 2);
    assert_eq!(entries[1].previous_seal, entries[0].seal);
    assert_eq!(entries[0].seal.len(), 64);
    assert_ne!(entries[0].seal, entries[1].seal);
    assert_eq!(entries[0].payload_hash, payload_hash("{\"journal_id\":\"j1\"}"));
}

#[test]
fn changed_sequence_or_link_breaks_chain() {
    let store = two_seal_store();
    let mut entries = store.entries();
    entries[1].sequence = 5;
    let broken = InMemoryAuditSealStore::from_entries(entries);
    assert_eq!(broken.verify_chain(), Err(AuditSealError::ChainBroken { sequence: 5 }));

    let mut entries = store.entries();
    entries[0].previous_seal = "elsewhere".to_string();
    let relinked = InMemoryAuditSealStore::from_entries(entries);
    assert_eq!(relinked.verify_chain(), Err(AuditSealError::ChainBroken { sequence: 1 }));
}

#[test]
fn changed_timestamp_is_tampering() {
    let store = two_seal_store();
    let mut entries = store.entries();
    entries[0].created_at_ns += 1;
    let tampered = InMemoryAuditSealStore::from_entries(entries);
    assert_eq!(tampered.verify_chain(), Err(AuditSealError::Tampered { sequence: 1 }));
}

#[test]
fn dropping_the_tail_keeps_chain_valid_but_a_middle_gap_breaks_it() {
    let mut store = two_seal_store();
    store.append("journal.reversed", &["US_CO_01".to_string()], "{}", 1700000002000000000).unwrap();
    let mut entries = store.entries();
    entries.pop();
    assert_eq!(InMemoryAuditSealStore::from_entries(entries).verify_chain(), Ok(()));
    let mut entries = store.entries();
    entries.remove(1);
    assert_eq!(InMemoryAuditSealStore::from_entries(entries).verify_chain(), Err(AuditSealError::ChainBroken { sequence: 3 }));
}

#[test]
fn entity_scope_is_trimmed_sorted_and_deduplicated() {
    let scope = vec![" US_CO_01 ".to_string(), "".to_string(), "CA_BC_01".to_string(), "US_CO_01".to_string(), "  ".to_string()];
    assert_eq!(canonical_entity_scope(&scope), vec!["CA_BC_01".to_string(), "US_CO_01".to_string()]);
}

#[test]
fn seal_over_a_messy_scope_still_verifies() {
    let mut store = InMemoryAuditSealStore::default();
    let scope = vec!["US_CO_01".to_string(), " CA_BC_01".to_string(), "US_CO_01".to_string()];
    let entry = store.append("posting.posted", &scope, "{\"note\":\"quote \\\" and \\n\"}", -5).unwrap();
    assert_eq!(entry.entity_scope, vec!["CA_BC_01".to_string(), "US_CO_01".to_string()]);
    assert_eq!(store.verify_chain(), Ok(()));
}
