use vstd::prelude::*;

use crate::digest::{hex_text, payload_hash, sha256_of_text};
use crate::text::owned;

verus! {

#[derive(Debug, Clone, PartialEq, Eq)]
pub struct IdempotencyEntry {
    pub key: String,
    pub payload_hash: String,
}

#[derive(Debug, Clone, Copy, PartialEq, Eq, Structural)]
pub enum IdempotencyStatus {
    FirstSeen,
    Replay,
}

#[derive(Debug, Clone, Copy, PartialEq, Eq, Structural)]
pub enum IdempotencyError {
    PayloadHashMismatch,
    StorePoisoned,
}

/// The key-to-hash map that a list of entries describes.
pub open spec fn entries_map(s: Seq<IdempotencyEntry>) -> Map<Seq<char>, Seq<char>>
    decreases s.len(),
{
    if s.len() == 0 {
        Map::empty()
    } else {
        entries_map(s.drop_last()).insert(s.last().key@, s.last().payload_hash@)
    }
}

pub open spec fn keys_unique(s: Seq<IdempotencyEntry>) -> bool {
    forall|i: int, j: int| 0 <= i < j < s.len() ==> s[i].key@ != s[j].key@
}

proof fn lemma_entries_map_lookup(s: Seq<IdempotencyEntry>, i: int)
    requires
        keys_unique(s),
        0 <= i < s.len(),
    ensures
        entries_map(s).contains_key(s[i].key@),
        entries_map(s)[s[i].key@] == s[i].payload_hash@,
    decreases s.len(),
{
    if i < s.len() - 1 {
        let t = s.drop_last();
        assert(keys_unique(t));
        assert(t[i] == s[i]);
        lemma_entries_map_lookup(t, i);
    }
}

proof fn lemma_entries_map_absent(s: Seq<IdempotencyEntry>, k: Seq<char>)
    requires
        forall|i: int| 0 <= i < s.len() ==> s[i].key@ != k,
    ensures
        !entries_map(s).contains_key(k),
    decreases s.len(),
{
    if s.len() > 0 {
        lemma_entries_map_absent(s.drop_last(), k);
    }
}

/// Keyed exactly-once admission: each key maps to the hash of the payload
/// first seen under it, and is never rewritten.
pub struct InMemoryIdempotencyStore {
    entries: Vec<IdempotencyEntry>,
}

impl View for InMemoryIdempotencyStore {
    type V = Map<Seq<char>, Seq<char>>;

    closed spec fn view(&self) -> Map<Seq<char>, Seq<char>> {
        entries_map(self.entries@)
    }
}

impl InMemoryIdempotencyStore {
    pub closed spec fn wf(&self) -> bool {
        keys_unique(self.entries@)
    }

    pub fn new() -> (r: Self)
        ensures
            r@ == Map::<Seq<char>, Seq<char>>::empty(),
            r.wf(),
    {
        InMemoryIdempotencyStore { entries: Vec::new() }
    }

    /// Admits `key` with the given payload hash: `FirstSeen` (and recorded)
    /// for a new key, `Replay` for a known key with the same hash, and
    /// `PayloadHashMismatch` (nothing recorded) for a known key with another
    /// hash.
    pub fn check_or_insert_hash(&mut self, key: &str, hash: &str) -> (r: Result<IdempotencyStatus, IdempotencyError>)
        requires
            old(self).wf(),
        ensures
            final(self).wf(),
            !old(self)@.contains_key(key@) ==> r == Ok::<IdempotencyStatus, IdempotencyError>(IdempotencyStatus::FirstSeen)
                && final(self)@ == old(self)@.insert(key@, hash@),
            old(self)@.contains_key(key@) && old(self)@[key@] == hash@ ==> r == Ok::<IdempotencyStatus, IdempotencyError>(IdempotencyStatus::Replay)
                && final(self)@ == old(self)@,
            old(self)@.contains_key(key@) && old(self)@[key@] != hash@ ==> r == Err::<IdempotencyStatus, IdempotencyError>(IdempotencyError::PayloadHashMismatch)
                && final(self)@ == old(self)@,
    {
        let key_s = owned(key);
        let mut i: usize = 0;
        while i < self.entries.len()
            invariant
                i <= self.entries.len(),
                keys_unique(self.entries@),
                self.entries@ == old(self).entries@,
                key_s@ == key@,
                forall|k: int| 0 <= k < i ==> self.entries@[k].key@ != key@,
            decreases self.entries.len() - i,
        {
            if self.entries[i].key == key_s {
                proof {
                    lemma_entries_map_lookup(self.entries@, i as int);
                }
                if self.entries[i].payload_hash.as_str().unicode_len() == hash.unicode_len()
                    && crate::text::str_equals(self.entries[i].payload_hash.as_str(), hash) {
                    return Ok(IdempotencyStatus::Replay);
                }
                return Err(IdempotencyError::PayloadHashMismatch);
            }
            i = i + 1;
        }
        proof {
            lemma_entries_map_absent(self.entries@, key@);
        }
        let ghost before = self.entries@;
        self.entries.push(IdempotencyEntry { key: key_s, payload_hash: owned(hash) });
        assert(self.entries@.drop_last() =~= before);
        Ok(IdempotencyStatus::FirstSeen)
    }

    /// Admits `key` for a payload given as its JSON text, hashed with SHA-256.
    pub fn check_or_insert(&mut self, key: &str, payload_json: &str) -> (r: Result<IdempotencyStatus, IdempotencyError>)
        requires
            old(self).wf(),
        ensures
            final(self).wf(),
            ({
                let h = hex_text(sha256_of_text(payload_json@));
                &&& !old(self)@.contains_key(key@) ==> r == Ok::<IdempotencyStatus, IdempotencyError>(IdempotencyStatus::FirstSeen)
                    && final(self)@ == old(self)@.insert(key@, h)
                &&& old(self)@.contains_key(key@) && old(self)@[key@] == h ==> r == Ok::<IdempotencyStatus, IdempotencyError>(IdempotencyStatus::Replay)
                    && final(self)@ == old(self)@
                &&& old(self)@.contains_key(key@) && old(self)@[key@] != h ==> r == Err::<IdempotencyStatus, IdempotencyError>(IdempotencyError::PayloadHashMismatch)
                    && final(self)@ == old(self)@
            }),
    {
        let hash = payload_hash(payload_json);
        self.check_or_insert_hash(key, hash.as_str())
    }

    /// The recorded entries, as `(key, payload hash)` pairs in admission order.
    pub fn entries(&self) -> (r: Vec<IdempotencyEntry>)
        ensures
            entries_map(r@) == self@,
            self.wf() ==> keys_unique(r@),
    {
        let mut out: Vec<IdempotencyEntry> = Vec::new();
        let mut i: usize = 0;
        while i < self.entries.len()
            invariant
                i <= self.entries.len(),
                out@.len() == i,
                forall|k: int| 0 <= k < i ==> (#[trigger] out@[k]).key@ == self.entries@[k].key@
                    && out@[k].payload_hash@ == self.entries@[k].payload_hash@,
                entries_map(out@) == entries_map(self.entries@.subrange(0, i as int)),
            decreases self.entries.len() - i,
        {
            let ghost before = out@;
            out.push(IdempotencyEntry { key: self.entries[i].key.clone(), payload_hash: self.entries[i].payload_hash.clone() });
            assert(out@.drop_last() =~= before);
            assert(self.entries@.subrange(0, i as int + 1).drop_last() =~= self.entries@.subrange(0, i as int));
            i = i + 1;
        }
        assert(self.entries@.subrange(0, self.entries@.len() as int) =~= self.entries@);
        assert(keys_unique(self.entries@) ==> keys_unique(out@)) by {
            if keys_unique(self.entries@) {
                assert forall|a: int, b: int| 0 <= a < b < out@.len() implies out@[a].key@ != out@[b].key@ by {
                    assert(out@[a].key@ == self.entries@[a].key@);
                    assert(out@[b].key@ == self.entries@[b].key@);
                }
            }
        }
        out
    }

    /// Rebuilds a store from entries read back from storage.
    pub fn from_entries(entries: Vec<IdempotencyEntry>) -> (r: Self)
        ensures
            r@ == entries_map(entries@),
            r.wf() <==> keys_unique(entries@),
    {
        InMemoryIdempotencyStore { entries }
    }
}

impl Default for InMemoryIdempotencyStore {
    fn default() -> (r: Self)
        ensures
            r@ == Map::<Seq<char>, Seq<char>>::empty(),
            r.wf(),
    {
        InMemoryIdempotencyStore::new()
    }
}

} // verus!
