use vstd::prelude::*;

use crate::digest::{hex_text, payload_hash, sha256_of_text};
use crate::ledger::copy_strings;
use crate::text::{
    decimal_text, json_string_text, lemma_text_less_irreflexive, lemma_text_less_total,
    lemma_text_less_transitive, owned, push_decimal, push_i64, push_json_string, signed_decimal_text,
    str_less, text_less, trim, trim_text, push_char, lemma_trim_idempotent,
};

verus! {

/// One link of the audit chain.
#[derive(Debug, Clone, PartialEq, Eq)]
pub struct AuditSealEntry {
    pub sequence: u64,
    pub event_type: String,
    pub entity_scope: Vec<String>,
    pub payload_hash: String,
    pub previous_seal: String,
    pub seal: String,
    pub created_at_ns: i64,
}

#[derive(Debug, Clone, Copy, PartialEq, Eq, Structural)]
pub enum AuditSealError {
    StorePoisoned,
    ChainBroken { sequence: u64 },
    Tampered { sequence: u64 },
}

pub open spec fn string_views(v: Seq<String>) -> Seq<Seq<char>> {
    v.map_values(|s: String| s@)
}

/// Every element sorts strictly before the ones after it.
pub open spec fn strictly_sorted(s: Seq<Seq<char>>) -> bool {
    forall|i: int, j: int| 0 <= i < j < s.len() ==> text_less(s[i], s[j])
}

/// The trimmed, non-empty members of a raw entity scope.
pub open spec fn scope_members(raw: Seq<Seq<char>>) -> Set<Seq<char>> {
    Set::new(|t: Seq<char>| t.len() > 0 && exists|i: int| 0 <= i < raw.len() && trim_text(raw[i]) == t)
}

/// The canonical form of an entity scope: its trimmed, non-empty members,
/// sorted ascending without repeats.
pub open spec fn canonical_scope(raw: Seq<Seq<char>>) -> Seq<Seq<char>> {
    choose|r: Seq<Seq<char>>| strictly_sorted(r) && r.to_set() == scope_members(raw)
}

proof fn lemma_sorted_unique(a: Seq<Seq<char>>, b: Seq<Seq<char>>)
    requires
        strictly_sorted(a),
        strictly_sorted(b),
        a.to_set() == b.to_set(),
    ensures
        a == b,
    decreases a.len(),
{
    if a.len() == 0 {
        if b.len() > 0 {
            assert(b.to_set().contains(b[0]));
        }
        assert(a =~= b);
    } else {
        assert(a.to_set().contains(a[0]));
        assert(b.len() > 0);
        assert(b.to_set().contains(b[0]));
        let k = choose|k: int| 0 <= k < b.len() && b[k] == a[0];
        let j = choose|j: int| 0 <= j < a.len() && a[j] == b[0];
        if k > 0 {
            if j > 0 {
                assert(text_less(b[0], b[k]));
                assert(text_less(a[0], a[j]));
                lemma_text_less_transitive(a[0], b[0], a[0]);
                lemma_text_less_irreflexive(a[0]);
            } else {
                assert(text_less(b[0], b[k]));
                lemma_text_less_irreflexive(b[0]);
            }
        }
        assert(a[0] == b[0]);
        let a1 = a.drop_first();
        let b1 = b.drop_first();
        assert(strictly_sorted(a1)) by {
            assert forall|i: int, j: int| 0 <= i < j < a1.len() implies text_less(a1[i], a1[j]) by {
                assert(a1[i] == a[i + 1] && a1[j] == a[j + 1]);
            }
        }
        assert(strictly_sorted(b1)) by {
            assert forall|i: int, j: int| 0 <= i < j < b1.len() implies text_less(b1[i], b1[j]) by {
                assert(b1[i] == b[i + 1] && b1[j] == b[j + 1]);
            }
        }
        assert(a1.to_set() =~= b1.to_set()) by {
            assert forall|x: Seq<char>| a1.to_set().contains(x) implies b1.to_set().contains(x) by {
                let i = choose|i: int| 0 <= i < a1.len() && a1[i] == x;
                assert(a.to_set().contains(x)) by {
                    assert(a[i + 1] == x);
                }
                let m = choose|m: int| 0 <= m < b.len() && b[m] == x;
                if m == 0 {
                    assert(text_less(a[0], a[i + 1]));
                    lemma_text_less_irreflexive(a[0]);
                }
                assert(b1[m - 1] == x);
            }
            assert forall|x: Seq<char>| b1.to_set().contains(x) implies a1.to_set().contains(x) by {
                let i = choose|i: int| 0 <= i < b1.len() && b1[i] == x;
                assert(b.to_set().contains(x)) by {
                    assert(b[i + 1] == x);
                }
                let m = choose|m: int| 0 <= m < a.len() && a[m] == x;
                if m == 0 {
                    assert(text_less(b[0], b[i + 1]));
                    lemma_text_less_irreflexive(b[0]);
                }
                assert(a1[m - 1] == x);
            }
        }
        lemma_sorted_unique(a1, b1);
        assert(a =~= seq![a[0]] + a1);
        assert(b =~= seq![b[0]] + b1);
    }
}

/// Adds `t` to a strictly sorted list, keeping it strictly sorted.
pub(crate) fn insert_sorted(out: &mut Vec<String>, t: String)
    requires
        strictly_sorted(string_views(old(out)@)),
    ensures
        strictly_sorted(string_views(final(out)@)),
        string_views(final(out)@).to_set() == string_views(old(out)@).to_set().insert(t@),
{
    let ghost old_views = string_views(out@);
    let n = out.len();
    let mut p: usize = 0;
    while p < n && str_less(out[p].as_str(), t.as_str())
        invariant
            p <= n,
            n == out@.len(),
            old_views == string_views(out@),
            forall|k: int| 0 <= k < p ==> text_less(old_views[k], t@),
        decreases n - p,
    {
        p = p + 1;
    }
    if p < n && out[p] == t {
        assert(old_views[p as int] == t@);
        assert(old_views.to_set().insert(t@) =~= old_views.to_set());
        return;
    }
    proof {
        if p < n {
            lemma_text_less_total(old_views[p as int], t@);
        }
    }
    let mut rebuilt: Vec<String> = Vec::new();
    let mut i: usize = 0;
    while i < p
        invariant
            i <= p <= n,
            n == out@.len(),
            old_views == string_views(out@),
            string_views(rebuilt@) == old_views.subrange(0, i as int),
            rebuilt@.len() == i,
        decreases p - i,
    {
        let c = out[i].clone();
        assert(c@ == old_views[i as int]);
        let ghost before = rebuilt@;
        rebuilt.push(c);
        assert forall|k: int| 0 <= k < i implies #[trigger] string_views(rebuilt@)[k] == string_views(before)[k] by {
            assert(rebuilt@[k] == before[k]);
        }
        i = i + 1;
        assert(string_views(rebuilt@) =~= old_views.subrange(0, i as int));
    }
    let ghost tv = t@;
    rebuilt.push(t);
    assert(string_views(rebuilt@) =~= old_views.subrange(0, p as int).push(tv));
    let mut j: usize = p;
    while j < n
        invariant
            p <= j <= n,
            n == out@.len(),
            old_views == string_views(out@),
            string_views(rebuilt@) == old_views.subrange(0, p as int).push(tv) + old_views.subrange(p as int, j as int),
            rebuilt@.len() == j + 1,
        decreases n - j,
    {
        let c = out[j].clone();
        assert(c@ == old_views[j as int]);
        let ghost before = rebuilt@;
        rebuilt.push(c);
        assert forall|k: int| 0 <= k < before.len() implies #[trigger] string_views(rebuilt@)[k] == string_views(before)[k] by {
            assert(rebuilt@[k] == before[k]);
        }
        j = j + 1;
        assert(string_views(rebuilt@) =~= old_views.subrange(0, p as int).push(tv) + old_views.subrange(p as int, j as int));
    }
    let ghost nv = string_views(rebuilt@);
    assert(nv =~= old_views.subrange(0, p as int).push(tv) + old_views.subrange(p as int, n as int));
    assert(strictly_sorted(nv)) by {
        assert forall|a: int, b: int| 0 <= a < b < nv.len() implies text_less(nv[a], nv[b]) by {
            if b < p {
                assert(nv[a] == old_views[a] && nv[b] == old_views[b]);
            } else if b == p {
                assert(nv[a] == old_views[a]);
            } else if a == p {
                assert(nv[b] == old_views[b - 1]);
                if b - 1 > p {
                    lemma_text_less_transitive(tv, old_views[p as int], old_views[b - 1]);
                }
            } else if a < p {
                assert(nv[a] == old_views[a] && nv[b] == old_views[b - 1]);
            } else {
                assert(nv[a] == old_views[a - 1] && nv[b] == old_views[b - 1]);
            }
        }
    }
    assert(nv.to_set() =~= old_views.to_set().insert(tv)) by {
        assert forall|x: Seq<char>| nv.to_set().contains(x) implies old_views.to_set().insert(tv).contains(x) by {
            let i = choose|i: int| 0 <= i < nv.len() && nv[i] == x;
            if i < p {
                assert(old_views[i] == x);
            } else if i > p {
                assert(old_views[i - 1] == x);
            }
        }
        assert forall|x: Seq<char>| old_views.to_set().insert(tv).contains(x) implies nv.to_set().contains(x) by {
            if x == tv {
                assert(nv[p as int] == x);
            } else {
                let i = choose|i: int| 0 <= i < old_views.len() && old_views[i] == x;
                if i < p {
                    assert(nv[i] == x);
                } else {
                    assert(nv[i + 1] == x);
                }
            }
        }
    }
    *out = rebuilt;
}

/// Trims each member, drops the empty ones, sorts ascending and removes
/// repeats.
pub fn canonical_entity_scope(entity_scope: &[String]) -> (r: Vec<String>)
    ensures
        string_views(r@) == canonical_scope(string_views(entity_scope@)),
        strictly_sorted(string_views(r@)),
        string_views(r@).to_set() == scope_members(string_views(entity_scope@)),
{
    let ghost raw = string_views(entity_scope@);
    let mut out: Vec<String> = Vec::new();
    let mut i: usize = 0;
    assert(string_views(out@).to_set() =~= Set::<Seq<char>>::empty());
    while i < entity_scope.len()
        invariant
            i <= entity_scope.len(),
            raw == string_views(entity_scope@),
            strictly_sorted(string_views(out@)),
            string_views(out@).to_set() == scope_members(raw.subrange(0, i as int)),
        decreases entity_scope.len() - i,
    {
        let t = trim(entity_scope[i].as_str());
        let ghost prev = raw.subrange(0, i as int);
        let ghost next = raw.subrange(0, i as int + 1);
        assert(next[i as int] == raw[i as int]);
        if t.unicode_len() > 0 {
            let ghost tv = t@;
            insert_sorted(&mut out, t);
            assert(scope_members(next) =~= scope_members(prev).insert(tv)) by {
                assert forall|x: Seq<char>| scope_members(next).contains(x) implies scope_members(prev).insert(tv).contains(x) by {
                    let k = choose|k: int| 0 <= k < next.len() && trim_text(next[k]) == x;
                    if k < i {
                        assert(prev[k] == next[k]);
                    }
                }
                assert forall|x: Seq<char>| scope_members(prev).insert(tv).contains(x) implies scope_members(next).contains(x) by {
                    if x != tv {
                        let k = choose|k: int| 0 <= k < prev.len() && trim_text(prev[k]) == x;
                        assert(next[k] == prev[k]);
                    }
                }
            }
        } else {
            assert(scope_members(next) =~= scope_members(prev)) by {
                assert forall|x: Seq<char>| scope_members(next).contains(x) implies scope_members(prev).contains(x) by {
                    let k = choose|k: int| 0 <= k < next.len() && trim_text(next[k]) == x;
                    assert(k < i);
                    assert(prev[k] == next[k]);
                }
                assert forall|x: Seq<char>| scope_members(prev).contains(x) implies scope_members(next).contains(x) by {
                    let k = choose|k: int| 0 <= k < prev.len() && trim_text(prev[k]) == x;
                    assert(next[k] == prev[k]);
                }
            }
        }
        i = i + 1;
    }
    assert(raw.subrange(0, entity_scope@.len() as int) =~= raw);
    proof {
        let c = canonical_scope(raw);
        assert(strictly_sorted(string_views(out@)) && string_views(out@).to_set() == scope_members(raw));
        lemma_sorted_unique(c, string_views(out@));
    }
    out
}


/// Comma-separated JSON string literals.
pub open spec fn json_string_items(items: Seq<Seq<char>>) -> Seq<char>
    decreases items.len(),
{
    if items.len() == 0 {
        Seq::empty()
    } else if items.len() == 1 {
        json_string_text(items[0])
    } else {
        json_string_items(items.drop_last()) + seq![','] + json_string_text(items.last())
    }
}

/// The canonical JSON text that a seal is the hash of: the six fields of an
/// entry in key order, without spaces.
#[verifier::opaque]
pub open spec fn seal_material(
    sequence: int,
    event_type: Seq<char>,
    scope: Seq<Seq<char>>,
    payload_hash: Seq<char>,
    previous_seal: Seq<char>,
    created_at_ns: int,
) -> Seq<char> {
    "{\"created_at_ns\":"@ + signed_decimal_text(created_at_ns) + ",\"entity_scope\":["@ + json_string_items(scope)
        + "],\"event_type\":"@ + json_string_text(event_type) + ",\"payload_hash\":"@ + json_string_text(payload_hash)
        + ",\"previous_seal\":"@ + json_string_text(previous_seal) + ",\"sequence\":"@ + decimal_text(sequence as nat)
        + "}"@
}

/// The seal that an entry's other fields call for.
pub open spec fn expected_seal(e: AuditSealEntry) -> Seq<char> {
    hex_text(
        sha256_of_text(
            seal_material(
                e.sequence as int,
                e.event_type@,
                canonical_scope(string_views(e.entity_scope@)),
                e.payload_hash@,
                e.previous_seal@,
                e.created_at_ns as int,
            ),
        ),
    )
}

pub open spec fn genesis() -> Seq<char> {
    "GENESIS"@
}

/// Entry `i` carries sequence `i + 1` and the stored seal of the entry
/// before it (`GENESIS` for the first).
pub open spec fn link_ok(entries: Seq<AuditSealEntry>, i: int) -> bool {
    &&& entries[i].sequence == i + 1
    &&& entries[i].previous_seal@ == if i == 0 {
        genesis()
    } else {
        entries[i - 1].seal@
    }
}

/// Entry `i`'s stored seal is the one its fields call for.
pub open spec fn seal_ok(entries: Seq<AuditSealEntry>, i: int) -> bool {
    entries[i].seal@ == expected_seal(entries[i])
}

/// The outcome of checking entries `i..` in order: the first broken link or
/// wrong seal is reported.
pub open spec fn verify_from(entries: Seq<AuditSealEntry>, i: int) -> Result<(), AuditSealError>
    decreases entries.len() - i,
{
    if i < 0 || i >= entries.len() {
        Ok(())
    } else if !link_ok(entries, i) {
        Err(AuditSealError::ChainBroken { sequence: entries[i].sequence })
    } else if !seal_ok(entries, i) {
        Err(AuditSealError::Tampered { sequence: entries[i].sequence })
    } else {
        verify_from(entries, i + 1)
    }
}

/// The outcome of verifying a whole chain.
pub open spec fn chain_outcome(entries: Seq<AuditSealEntry>) -> Result<(), AuditSealError> {
    verify_from(entries, 0)
}

fn push_json_string_items(out: &mut String, items: &Vec<String>)
    ensures
        final(out)@ == old(out)@ + json_string_items(string_views(items@)),
{
    let ghost start = out@;
    let ghost views = string_views(items@);
    let mut i: usize = 0;
    while i < items.len()
        invariant
            i <= items.len(),
            views == string_views(items@),
            out@ == start + json_string_items(views.subrange(0, i as int)),
        decreases items.len() - i,
    {
        let ghost prefix = views.subrange(0, i as int + 1);
        assert(prefix.drop_last() =~= views.subrange(0, i as int));
        assert(prefix.last() == items@[i as int]@);
        if i > 0 {
            push_char(out, ',');
        }
        push_json_string(out, items[i].as_str());
        i = i + 1;
        assert(out@ =~= start + json_string_items(views.subrange(0, i as int)));
    }
    assert(views.subrange(0, items@.len() as int) =~= views);
}

fn seal_material_text(
    sequence: u64,
    event_type: &str,
    scope: &Vec<String>,
    payload_hash: &str,
    previous_seal: &str,
    created_at_ns: i64,
) -> (r: String)
    ensures
        r@ == seal_material(sequence as int, event_type@, string_views(scope@), payload_hash@, previous_seal@, created_at_ns as int),
{
    reveal(seal_material);
    let mut out = owned("{\"created_at_ns\":");
    push_i64(&mut out, created_at_ns);
    out.append(",\"entity_scope\":[");
    push_json_string_items(&mut out, scope);
    out.append("],\"event_type\":");
    push_json_string(&mut out, event_type);
    out.append(",\"payload_hash\":");
    push_json_string(&mut out, payload_hash);
    out.append(",\"previous_seal\":");
    push_json_string(&mut out, previous_seal);
    out.append(",\"sequence\":");
    push_decimal(&mut out, sequence);
    out.append("}");
    assert(out@ =~= seal_material(sequence as int, event_type@, string_views(scope@), payload_hash@, previous_seal@, created_at_ns as int));
    out
}

fn compute_seal(
    sequence: u64,
    event_type: &str,
    scope: &Vec<String>,
    payload_hash_text: &str,
    previous_seal: &str,
    created_at_ns: i64,
) -> (r: String)
    ensures
        r@ == hex_text(sha256_of_text(seal_material(sequence as int, event_type@, string_views(scope@), payload_hash_text@, previous_seal@, created_at_ns as int))),
{
    let material = seal_material_text(sequence, event_type, scope, payload_hash_text, previous_seal, created_at_ns);
    payload_hash(material.as_str())
}

/// Two entries hold the same values.
pub open spec fn same_entry(a: AuditSealEntry, b: AuditSealEntry) -> bool {
    &&& a.sequence == b.sequence
    &&& a.event_type@ == b.event_type@
    &&& a.entity_scope@ == b.entity_scope@
    &&& a.payload_hash@ == b.payload_hash@
    &&& a.previous_seal@ == b.previous_seal@
    &&& a.seal@ == b.seal@
    &&& a.created_at_ns == b.created_at_ns
}

impl AuditSealEntry {
    pub fn copy_entry(&self) -> (r: AuditSealEntry)
        ensures
            same_entry(r, *self),
    {
        AuditSealEntry {
            sequence: self.sequence,
            event_type: self.event_type.clone(),
            entity_scope: copy_strings(&self.entity_scope),
            payload_hash: self.payload_hash.clone(),
            previous_seal: self.previous_seal.clone(),
            seal: self.seal.clone(),
            created_at_ns: self.created_at_ns,
        }
    }
}

/// The hash-linked log of state changes.
pub struct InMemoryAuditSealStore {
    entries: Vec<AuditSealEntry>,
}

impl View for InMemoryAuditSealStore {
    type V = Seq<AuditSealEntry>;

    closed spec fn view(&self) -> Seq<AuditSealEntry> {
        self.entries@
    }
}

proof fn lemma_verify_from_prefix(entries: Seq<AuditSealEntry>, e: AuditSealEntry, i: int)
    requires
        0 <= i <= entries.len(),
        verify_from(entries, i) is Ok,
        link_ok(entries.push(e), entries.len() as int),
        seal_ok(entries.push(e), entries.len() as int),
    ensures
        verify_from(entries.push(e), i) is Ok,
    decreases entries.len() - i,
{
    let longer = entries.push(e);
    if i < entries.len() {
        assert(longer[i] == entries[i]);
        if i > 0 {
            assert(longer[i - 1] == entries[i - 1]);
        }
        lemma_verify_from_prefix(entries, e, i + 1);
    } else {
        reveal_with_fuel(verify_from, 2);
    }
}

impl InMemoryAuditSealStore {
    pub fn new() -> (r: Self)
        ensures
            r@ == Seq::<AuditSealEntry>::empty(),
    {
        InMemoryAuditSealStore { entries: Vec::new() }
    }

    /// Appends a seal over `payload_json` (the JSON text of the payload):
    /// sequence `len + 1`, linked to the last seal or to `GENESIS`, with the
    /// scope in canonical form. A chain that verified still verifies.
    pub fn append(&mut self, event_type: &str, entity_scope: &[String], payload_json: &str, created_at_ns: i64) -> (r: Result<AuditSealEntry, AuditSealError>)
        requires
            old(self)@.len() < u64::MAX,
        ensures
            r is Ok,
            final(self)@.len() == old(self)@.len() + 1,
            final(self)@.drop_last() == old(self)@,
            same_entry(r->Ok_0, final(self)@.last()),
            ({
                let e = final(self)@.last();
                &&& e.sequence == old(self)@.len() + 1
                &&& e.event_type@ == event_type@
                &&& string_views(e.entity_scope@) == canonical_scope(string_views(entity_scope@))
                &&& e.payload_hash@ == hex_text(sha256_of_text(payload_json@))
                &&& e.previous_seal@ == if old(self)@.len() == 0 {
                    genesis()
                } else {
                    old(self)@.last().seal@
                }
                &&& e.seal@ == expected_seal(e)
                &&& e.created_at_ns == created_at_ns
            }),
            chain_outcome(old(self)@) is Ok ==> chain_outcome(final(self)@) is Ok,
    {
        let sequence = self.entries.len() as u64 + 1;
        let previous_seal = if self.entries.len() == 0 {
            owned("GENESIS")
        } else {
            self.entries[self.entries.len() - 1].seal.clone()
        };
        let digest = payload_hash(payload_json);
        let scope = canonical_entity_scope(entity_scope);
        let seal = compute_seal(sequence, event_type, &scope, digest.as_str(), previous_seal.as_str(), created_at_ns);
        let entry = AuditSealEntry {
            sequence,
            event_type: owned(event_type),
            entity_scope: scope,
            payload_hash: digest,
            previous_seal,
            seal,
            created_at_ns,
        };
        proof {
            let raw = string_views(entity_scope@);
            let c1 = string_views(entry.entity_scope@);
            assert forall|i: int| 0 <= i < c1.len() implies (#[trigger] c1[i]).len() > 0 && trim_text(c1[i]) == c1[i] by {
                assert(c1.to_set().contains(c1[i]));
                assert(scope_members(raw).contains(c1[i]));
                let k = choose|k: int| 0 <= k < raw.len() && trim_text(raw[k]) == c1[i];
                lemma_trim_idempotent(raw[k]);
            }
            lemma_canonical_idempotent(c1);
            assert(expected_seal(entry) == entry.seal@);
        }
        let returned = entry.copy_entry();
        let ghost before = self.entries@;
        self.entries.push(entry);
        proof {
            assert(self.entries@.drop_last() =~= before);
            if chain_outcome(before) is Ok {
                lemma_verify_from_prefix(before, entry, 0);
            }
        }
        Ok(returned)
    }

    /// Walks the chain in order and reports the first broken link
    /// (`ChainBroken`) or wrong seal (`Tampered`) by its stored sequence.
    pub fn verify_chain(&self) -> (r: Result<(), AuditSealError>)
        ensures
            r == chain_outcome(self@),
    {
        let mut previous_seal = owned("GENESIS");
        let mut i: usize = 0;
        while i < self.entries.len()
            invariant
                i <= self.entries.len(),
                previous_seal@ == if i == 0 {
                    genesis()
                } else {
                    self.entries@[i - 1].seal@
                },
                verify_from(self.entries@, i as int) == verify_from(self.entries@, 0),
            decreases self.entries.len() - i,
        {
            let entry = &self.entries[i];
            if entry.sequence != i as u64 + 1 || entry.previous_seal != previous_seal {
                return Err(AuditSealError::ChainBroken { sequence: entry.sequence });
            }
            let scope = canonical_entity_scope(entry.entity_scope.as_slice());
            let expected = compute_seal(
                entry.sequence,
                entry.event_type.as_str(),
                &scope,
                entry.payload_hash.as_str(),
                entry.previous_seal.as_str(),
                entry.created_at_ns,
            );
            if expected != entry.seal {
                return Err(AuditSealError::Tampered { sequence: entry.sequence });
            }
            previous_seal = entry.seal.clone();
            i = i + 1;
        }
        Ok(())
    }

    /// Number of entries.
    pub fn len(&self) -> (r: Result<usize, AuditSealError>)
        ensures
            r is Ok,
            r->Ok_0 == self@.len(),
    {
        Ok(self.entries.len())
    }

    /// The entries, in sequence order.
    pub fn entries(&self) -> (r: Vec<AuditSealEntry>)
        ensures
            r@.len() == self@.len(),
            forall|i: int| 0 <= i < r@.len() ==> same_entry(#[trigger] r@[i], self@[i]),
    {
        let mut out: Vec<AuditSealEntry> = Vec::new();
        let mut i: usize = 0;
        while i < self.entries.len()
            invariant
                i <= self.entries.len(),
                out@.len() == i,
                forall|k: int| 0 <= k < i ==> same_entry(#[trigger] out@[k], self.entries@[k]),
            decreases self.entries.len() - i,
        {
            out.push(self.entries[i].copy_entry());
            i = i + 1;
        }
        out
    }

    /// Rebuilds a store from entries read back from storage, as they were.
    pub fn from_entries(entries: Vec<AuditSealEntry>) -> (r: Self)
        ensures
            r@ == entries@,
    {
        InMemoryAuditSealStore { entries }
    }
}

impl Default for InMemoryAuditSealStore {
    fn default() -> (r: Self)
        ensures
            r@ == Seq::<AuditSealEntry>::empty(),
    {
        InMemoryAuditSealStore::new()
    }
}

proof fn lemma_ok_from(entries: Seq<AuditSealEntry>, i: int, j: int)
    requires
        0 <= i <= j < entries.len(),
        verify_from(entries, i) is Ok,
    ensures
        link_ok(entries, j),
        seal_ok(entries, j),
    decreases j - i,
{
    if i < j {
        lemma_ok_from(entries, i + 1, j);
    }
}

proof fn lemma_same_prefix(a: Seq<AuditSealEntry>, b: Seq<AuditSealEntry>, i: int, k: int)
    requires
        0 <= i <= k < a.len(),
        a.len() == b.len(),
        verify_from(a, 0) is Ok,
        forall|j: int| 0 <= j < k ==> a[j] == b[j],
    ensures
        verify_from(b, i) == verify_from(b, k),
    decreases k - i,
{
    if i < k {
        lemma_ok_from(a, 0, i);
        if i > 0 {
            assert(a[i - 1] == b[i - 1]);
        }
        assert(a[i] == b[i]);
        assert(link_ok(b, i) && seal_ok(b, i));
        lemma_same_prefix(a, b, i + 1, k);
    }
}

proof fn lemma_same_suffix(a: Seq<AuditSealEntry>, b: Seq<AuditSealEntry>, i: int, k: int)
    requires
        0 <= k < i <= a.len(),
        a.len() == b.len(),
        verify_from(a, 0) is Ok,
        forall|j: int| k < j < a.len() ==> a[j] == b[j],
        b[k].seal@ == a[k].seal@,
    ensures
        verify_from(b, i) is Ok,
    decreases a.len() - i,
{
    if i < a.len() {
        lemma_ok_from(a, 0, i);
        assert(a[i] == b[i]);
        if i - 1 > k {
            assert(a[i - 1] == b[i - 1]);
        }
        assert(link_ok(b, i));
        assert(seal_ok(b, i));
        lemma_same_suffix(a, b, i + 1, k);
    }
}

/// An empty chain verifies.
pub proof fn lemma_empty_chain_verifies()
    ensures
        chain_outcome(Seq::<AuditSealEntry>::empty()) is Ok,
{
}

/// Appending the entry that `append` builds (next sequence, linked to the
/// last seal, sealed over its own fields) to a chain that verifies gives a
/// chain that verifies.
pub proof fn lemma_append_keeps_chain_valid(entries: Seq<AuditSealEntry>, e: AuditSealEntry)
    requires
        chain_outcome(entries) is Ok,
        e.sequence == entries.len() + 1,
        e.previous_seal@ == if entries.len() == 0 {
            genesis()
        } else {
            entries.last().seal@
        },
        e.seal@ == expected_seal(e),
    ensures
        chain_outcome(entries.push(e)) is Ok,
{
    let longer = entries.push(e);
    if entries.len() > 0 {
        assert(longer[entries.len() - 1] == entries.last());
    }
    assert(link_ok(longer, entries.len() as int));
    assert(seal_ok(longer, entries.len() as int));
    lemma_verify_from_prefix(entries, e, 0);
}

/// Changing the sequence or the previous seal of entry `k` of a chain that
/// verifies makes verification fail with `ChainBroken` at that entry.
pub proof fn lemma_relinked_entry_breaks_chain(entries: Seq<AuditSealEntry>, k: int, e: AuditSealEntry)
    requires
        chain_outcome(entries) is Ok,
        0 <= k < entries.len(),
        e.sequence != entries[k].sequence || e.previous_seal@ != entries[k].previous_seal@,
    ensures
        chain_outcome(entries.update(k, e)) == Err::<(), AuditSealError>(AuditSealError::ChainBroken { sequence: e.sequence }),
{
    let changed = entries.update(k, e);
    lemma_same_prefix(entries, changed, 0, k);
    lemma_ok_from(entries, 0, k);
    if k > 0 {
        assert(changed[k - 1] == entries[k - 1]);
    }
    assert(!link_ok(changed, k));
}

/// Changing the fields under the seal of entry `k` (payload hash, creation
/// time, event type, scope) of a chain that verifies, link and seal kept,
/// makes verification report `Tampered` at that entry exactly when the
/// recomputed seal differs from the stored one; otherwise the chain still
/// verifies.
pub proof fn lemma_resealed_content_is_tampered(entries: Seq<AuditSealEntry>, k: int, e: AuditSealEntry)
    requires
        chain_outcome(entries) is Ok,
        0 <= k < entries.len(),
        e.sequence == entries[k].sequence,
        e.previous_seal@ == entries[k].previous_seal@,
        e.seal@ == entries[k].seal@,
    ensures
        chain_outcome(entries.update(k, e)) == if e.seal@ != expected_seal(e) {
            Err::<(), AuditSealError>(AuditSealError::Tampered { sequence: e.sequence })
        } else {
            Ok::<(), AuditSealError>(())
        },
{
    let changed = entries.update(k, e);
    lemma_same_prefix(entries, changed, 0, k);
    lemma_ok_from(entries, 0, k);
    if k > 0 {
        assert(changed[k - 1] == entries[k - 1]);
    }
    assert(changed[k] == e);
    assert(link_ok(changed, k));
    assert(verify_from(changed, 0) == verify_from(changed, k));
    if e.seal@ != expected_seal(e) {
        assert(!seal_ok(changed, k));
        assert(verify_from(changed, k) == Err::<(), AuditSealError>(AuditSealError::Tampered { sequence: e.sequence }));
    } else {
        assert(seal_ok(changed, k));
        lemma_same_suffix(entries, changed, k + 1, k);
        assert(verify_from(changed, k) == verify_from(changed, k + 1));
        let rest = verify_from(changed, k + 1);
        assert(rest is Ok);
        assert(rest == Ok::<(), AuditSealError>(rest->Ok_0));
    }
}

/// A sorted list of trimmed, non-empty members is its own canonical form.
proof fn lemma_canonical_idempotent(c: Seq<Seq<char>>)
    requires
        strictly_sorted(c),
        forall|i: int| 0 <= i < c.len() ==> (#[trigger] c[i]).len() > 0 && trim_text(c[i]) == c[i],
    ensures
        canonical_scope(c) == c,
{
    assert(scope_members(c) =~= c.to_set()) by {
        assert forall|x: Seq<char>| c.to_set().contains(x) implies scope_members(c).contains(x) by {
            let i = choose|i: int| 0 <= i < c.len() && c[i] == x;
            assert(trim_text(c[i]) == x);
        }
        assert forall|x: Seq<char>| scope_members(c).contains(x) implies c.to_set().contains(x) by {
            let i = choose|i: int| 0 <= i < c.len() && trim_text(c[i]) == x;
            assert(c[i] == x);
        }
    }
    let r = canonical_scope(c);
    assert(strictly_sorted(r) && r.to_set() == scope_members(c));
    lemma_sorted_unique(r, c);
}

} // verus!
