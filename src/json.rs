use vstd::prelude::*;

use crate::text::{json_string_text, parse_i64, parsed_i64, push_char, push_i64, push_json_string, signed_decimal_text};

verus! {

/// A JSON document. Numbers that are integers in `i64` range are held as
/// such; any other number keeps its JSON text. Object members keep their
/// order.
#[derive(Debug, PartialEq, Eq)]
pub enum JsonValue {
    Null,
    Bool(bool),
    Int(i64),
    OtherNumber(String),
    Str(String),
    Array(Vec<JsonValue>),
    Object(Vec<(String, JsonValue)>),
}

/// The value of the first member named `key`.
pub open spec fn member(entries: Seq<(String, JsonValue)>, key: Seq<char>) -> Option<JsonValue>
    decreases entries.len(),
{
    if entries.len() == 0 {
        None
    } else if entries[0].0@ == key {
        Some(entries[0].1)
    } else {
        member(entries.drop_first(), key)
    }
}

/// The member found for `key` is the first entry carrying it.
pub proof fn lemma_member_at(entries: Seq<(String, JsonValue)>, k: int, key: Seq<char>)
    requires
        0 <= k < entries.len(),
        entries[k].0@ == key,
        forall|j: int| 0 <= j < k ==> entries[j].0@ != key,
    ensures
        member(entries, key) == Some(entries[k].1),
    decreases k,
{
    if k > 0 {
        let t = entries.drop_first();
        assert forall|j: int| 0 <= j < k - 1 implies t[j].0@ != key by {
            assert(t[j] == entries[j + 1]);
        }
        lemma_member_at(t, k - 1, key);
    }
}

/// One pointer step: the member `token` of an object.
pub open spec fn step(cur: Option<JsonValue>, token: Seq<char>) -> Option<JsonValue> {
    match cur {
        Some(JsonValue::Object(m)) => member(m@, token),
        _ => None,
    }
}

/// Follows the `/`-separated tokens in `rest`, `token` being the one read so far.
pub open spec fn walk(cur: Option<JsonValue>, token: Seq<char>, rest: Seq<char>) -> Option<JsonValue>
    decreases rest.len(),
{
    if rest.len() == 0 {
        step(cur, token)
    } else if rest[0] == '/' {
        walk(step(cur, token), Seq::empty(), rest.drop_first())
    } else {
        walk(cur, token.push(rest[0]), rest.drop_first())
    }
}

/// The value that a JSON pointer (`""`, or `/a/b`) selects; each token names
/// an object member.
pub open spec fn pointer_get(v: JsonValue, p: Seq<char>) -> Option<JsonValue> {
    if p.len() == 0 {
        Some(v)
    } else if p[0] != '/' {
        None
    } else {
        walk(Some(v), Seq::empty(), p.drop_first())
    }
}

pub open spec fn deref_opt(o: Option<&JsonValue>) -> Option<JsonValue> {
    match o {
        Some(x) => Some(*x),
        None => None,
    }
}

fn member_get<'a>(entries: &'a Vec<(String, JsonValue)>, key: &String) -> (r: Option<&'a JsonValue>)
    ensures
        deref_opt(r) == member(entries@, key@),
{
    let mut i: usize = 0;
    assert(entries@.subrange(0, entries@.len() as int) =~= entries@);
    while i < entries.len()
        invariant
            i <= entries.len(),
            member(entries@.subrange(i as int, entries@.len() as int), key@) == member(entries@, key@),
        decreases entries.len() - i,
    {
        let ghost rest = entries@.subrange(i as int, entries@.len() as int);
        assert(rest.drop_first() =~= entries@.subrange(i as int + 1, entries@.len() as int));
        assert(rest[0] == entries@[i as int]);
        if entries[i].0 == *key {
            return Some(&entries[i].1);
        }
        i = i + 1;
    }
    None
}

fn step_exec<'a>(cur: Option<&'a JsonValue>, token: &String) -> (r: Option<&'a JsonValue>)
    ensures
        deref_opt(r) == step(deref_opt(cur), token@),
{
    match cur {
        Some(JsonValue::Object(m)) => member_get(m, token),
        _ => None,
    }
}

/// Resolves a JSON pointer whose tokens name object members.
pub fn pointer<'a>(v: &'a JsonValue, p: &str) -> (r: Option<&'a JsonValue>)
    ensures
        deref_opt(r) == pointer_get(*v, p@),
{
    let n = p.unicode_len();
    if n == 0 {
        return Some(v);
    }
    if p.get_char(0) != '/' {
        return None;
    }
    let mut cur: Option<&JsonValue> = Some(v);
    let mut token = String::new();
    let mut i: usize = 1;
    while i < n
        invariant
            1 <= i <= n,
            n == p@.len(),
            p@[0] == '/',
            walk(deref_opt(cur), token@, p@.subrange(i as int, n as int)) == pointer_get(*v, p@),
        decreases n - i,
    {
        let ghost rest = p@.subrange(i as int, n as int);
        assert(rest.drop_first() =~= p@.subrange(i as int + 1, n as int));
        let c = p.get_char(i);
        if c == '/' {
            cur = step_exec(cur, &token);
            token = String::new();
            assert(token@ =~= Seq::<char>::empty());
        } else {
            push_char(&mut token, c);
        }
        i = i + 1;
    }
    assert(p@.drop_first() =~= p@.subrange(1, n as int));
    step_exec(cur, &token)
}

/// The views of a list of string slices.
pub open spec fn str_views(ptrs: Seq<&str>) -> Seq<Seq<char>> {
    ptrs.map_values(|q: &str| q@)
}

/// An integer read from a number, or from a string of decimal digits.
pub open spec fn integer_of(o: Option<JsonValue>) -> Option<int> {
    match o {
        Some(JsonValue::Int(n)) => Some(n as int),
        Some(JsonValue::Str(s)) => parsed_i64(s@),
        _ => None,
    }
}

/// The integer at the first pointer of `ptrs` that holds one.
pub open spec fn first_integer(v: JsonValue, ptrs: Seq<Seq<char>>) -> Option<int>
    decreases ptrs.len(),
{
    if ptrs.len() == 0 {
        None
    } else {
        match integer_of(pointer_get(v, ptrs[0])) {
            Some(n) => Some(n),
            None => first_integer(v, ptrs.drop_first()),
        }
    }
}

/// The text at the first pointer of `ptrs` that holds a string.
pub open spec fn first_text(v: JsonValue, ptrs: Seq<Seq<char>>) -> Option<Seq<char>>
    decreases ptrs.len(),
{
    if ptrs.len() == 0 {
        None
    } else {
        match pointer_get(v, ptrs[0]) {
            Some(JsonValue::Str(s)) => Some(s@),
            _ => first_text(v, ptrs.drop_first()),
        }
    }
}

/// The integer at the first of `ptrs` that holds one (a string of digits counts).
pub fn optional_i64(payload: &JsonValue, ptrs: &[&str]) -> (r: Option<i64>)
    ensures
        match first_integer(*payload, str_views(ptrs@)) {
            Some(n) => r == Some(n as i64) && i64::MIN <= n <= i64::MAX,
            None => r is None,
        },
{
    let mut i: usize = 0;
    assert(ptrs@.subrange(0, ptrs@.len() as int) =~= ptrs@);
    while i < ptrs.len()
        invariant
            i <= ptrs.len(),
            first_integer(*payload, str_views(ptrs@.subrange(i as int, ptrs@.len() as int)))
                == first_integer(*payload, str_views(ptrs@)),
        decreases ptrs.len() - i,
    {
        let ghost rest = ptrs@.subrange(i as int, ptrs@.len() as int);
        assert(str_views(rest).drop_first() =~= str_views(ptrs@.subrange(i as int + 1, ptrs@.len() as int)));
        assert(str_views(rest)[0] == ptrs@[i as int]@);
        let found = pointer(payload, ptrs[i]);
        match found {
            Some(JsonValue::Int(n)) => {
                return Some(*n);
            },
            Some(JsonValue::Str(s)) => {
                match parse_i64(s.as_str()) {
                    Some(n) => {
                        return Some(n);
                    },
                    None => {},
                }
            },
            _ => {},
        }
        i = i + 1;
    }
    assert(str_views(ptrs@.subrange(i as int, ptrs@.len() as int)) =~= Seq::<Seq<char>>::empty());
    None
}

/// The string at the first of `ptrs` that holds one.
pub fn first_string(payload: &JsonValue, ptrs: &[&str]) -> (r: Option<String>)
    ensures
        match first_text(*payload, str_views(ptrs@)) {
            Some(t) => r is Some && r->0@ == t,
            None => r is None,
        },
{
    let mut i: usize = 0;
    assert(ptrs@.subrange(0, ptrs@.len() as int) =~= ptrs@);
    while i < ptrs.len()
        invariant
            i <= ptrs.len(),
            first_text(*payload, str_views(ptrs@.subrange(i as int, ptrs@.len() as int)))
                == first_text(*payload, str_views(ptrs@)),
        decreases ptrs.len() - i,
    {
        let ghost rest = ptrs@.subrange(i as int, ptrs@.len() as int);
        assert(str_views(rest).drop_first() =~= str_views(ptrs@.subrange(i as int + 1, ptrs@.len() as int)));
        assert(str_views(rest)[0] == ptrs@[i as int]@);
        match pointer(payload, ptrs[i]) {
            Some(JsonValue::Str(s)) => {
                return Some(s.clone());
            },
            _ => {},
        }
        i = i + 1;
    }
    assert(str_views(ptrs@.subrange(i as int, ptrs@.len() as int)) =~= Seq::<Seq<char>>::empty());
    None
}


/// The compact JSON text of `v`, object members in their held order, as
/// serde_json writes a value.
pub open spec fn json_text(v: JsonValue) -> Seq<char>
    decreases v, 2int, 0int,
{
    match v {
        JsonValue::Null => "null"@,
        JsonValue::Bool(b) => if b {
            "true"@
        } else {
            "false"@
        },
        JsonValue::Int(n) => signed_decimal_text(n as int),
        JsonValue::OtherNumber(t) => t@,
        JsonValue::Str(t) => json_string_text(t@),
        JsonValue::Array(items) => seq!['['] + array_items_text(v, items@.len() as int) + seq![']'],
        JsonValue::Object(m) => seq!['{'] + object_members_text(v, m@.len() as int) + seq!['}'],
    }
}

/// The comma-separated texts of the first `n` elements of array `v`.
pub open spec fn array_items_text(v: JsonValue, n: int) -> Seq<char>
    decreases v, 1int, n,
{
    match v {
        JsonValue::Array(items) => if n <= 0 || n > items@.len() {
            Seq::empty()
        } else if n == 1 {
            json_text(items@[0])
        } else {
            array_items_text(v, n - 1) + seq![','] + json_text(items@[n - 1])
        },
        _ => Seq::empty(),
    }
}

/// The comma-separated `"key":value` texts of the first `n` members of
/// object `v`.
pub open spec fn object_members_text(v: JsonValue, n: int) -> Seq<char>
    decreases v, 1int, n,
{
    match v {
        JsonValue::Object(m) => if n <= 0 || n > m@.len() {
            Seq::empty()
        } else if n == 1 {
            json_string_text(m@[0].0@) + seq![':'] + json_text(m@[0].1)
        } else {
            object_members_text(v, n - 1) + seq![','] + json_string_text(m@[n - 1].0@) + seq![':'] + json_text(m@[n - 1].1)
        },
        _ => Seq::empty(),
    }
}

/// Appends the compact JSON text of `v`, members in their held order, as
/// serde_json writes a value.
pub fn write_json(v: &JsonValue, out: &mut String)
    ensures
        final(out)@ == old(out)@ + json_text(*v),
    decreases v,
{
    let ghost start = out@;
    match v {
        JsonValue::Null => out.append("null"),
        JsonValue::Bool(b) => if *b {
            out.append("true")
        } else {
            out.append("false")
        },
        JsonValue::Int(n) => push_i64(out, *n),
        JsonValue::OtherNumber(t) => out.append(t.as_str()),
        JsonValue::Str(t) => push_json_string(out, t.as_str()),
        JsonValue::Array(items) => {
            push_char(out, '[');
            let mut i: usize = 0;
            while i < items.len()
                invariant
                    i <= items@.len(),
                    *v == JsonValue::Array(*items),
                    out@ == start + seq!['['] + array_items_text(*v, i as int),
                decreases items.len() - i,
            {
                proof {
                    assert(decreases_to!(*v => (*v)->Array_0));
                    assert(decreases_to!(*items => items@));
                    assert(decreases_to!(items@ => items@[i as int]));
                }
                if i > 0 {
                    push_char(out, ',');
                }
                write_json(&items[i], out);
                i = i + 1;
                assert(out@ =~= start + seq!['['] + array_items_text(*v, i as int));
            }
            push_char(out, ']');
            assert(out@ =~= start + json_text(*v));
        },
        JsonValue::Object(members) => {
            push_char(out, '{');
            let mut i: usize = 0;
            while i < members.len()
                invariant
                    i <= members@.len(),
                    *v == JsonValue::Object(*members),
                    out@ == start + seq!['{'] + object_members_text(*v, i as int),
                decreases members.len() - i,
            {
                proof {
                    assert(decreases_to!(*v => (*v)->Object_0));
                    assert(decreases_to!(*members => members@));
                    assert(decreases_to!(members@ => members@[i as int]));
                    assert(decreases_to!(members@[i as int] => members@[i as int].1));
                }
                if i > 0 {
                    push_char(out, ',');
                }
                push_json_string(out, members[i].0.as_str());
                push_char(out, ':');
                write_json(&members[i].1, out);
                i = i + 1;
                assert(out@ =~= start + seq!['{'] + object_members_text(*v, i as int));
            }
            push_char(out, '}');
            assert(out@ =~= start + json_text(*v));
        },
    }
}

/// Some pointer of `ptrs` selects a value.
pub open spec fn any_present(v: JsonValue, ptrs: Seq<Seq<char>>) -> bool {
    exists|i: int| 0 <= i < ptrs.len() && (#[trigger] pointer_get(v, ptrs[i])) is Some
}

/// Whether any of the pointers selects a value.
pub fn has_any(v: &JsonValue, ptrs: &[&str]) -> (r: bool)
    ensures
        r == any_present(*v, str_views(ptrs@)),
{
    let mut i: usize = 0;
    while i < ptrs.len()
        invariant
            i <= ptrs@.len(),
            forall|k: int| 0 <= k < i ==> (#[trigger] pointer_get(*v, str_views(ptrs@)[k])) is None,
        decreases ptrs.len() - i,
    {
        assert(str_views(ptrs@)[i as int] == ptrs@[i as int]@);
        if pointer(v, ptrs[i]).is_some() {
            return true;
        }
        i = i + 1;
    }
    false
}

/// A deep copy of `v`.
pub fn copy_json(v: &JsonValue) -> (r: JsonValue)
    decreases v,
{
    match v {
        JsonValue::Null => JsonValue::Null,
        JsonValue::Bool(b) => JsonValue::Bool(*b),
        JsonValue::Int(n) => JsonValue::Int(*n),
        JsonValue::OtherNumber(t) => JsonValue::OtherNumber(t.clone()),
        JsonValue::Str(t) => JsonValue::Str(t.clone()),
        JsonValue::Array(items) => {
            let mut out: Vec<JsonValue> = Vec::new();
            let mut i: usize = 0;
            while i < items.len()
                invariant
                    i <= items@.len(),
                    *v == JsonValue::Array(*items),
                decreases items.len() - i,
            {
                proof {
                    assert(decreases_to!(*v => (*v)->Array_0));
                    assert(decreases_to!(*items => items@));
                    assert(decreases_to!(items@ => items@[i as int]));
                }
                out.push(copy_json(&items[i]));
                i = i + 1;
            }
            JsonValue::Array(out)
        },
        JsonValue::Object(members) => {
            let mut out: Vec<(String, JsonValue)> = Vec::new();
            let mut i: usize = 0;
            while i < members.len()
                invariant
                    i <= members@.len(),
                    *v == JsonValue::Object(*members),
                decreases members.len() - i,
            {
                proof {
                    assert(decreases_to!(*v => (*v)->Object_0));
                    assert(decreases_to!(*members => members@));
                    assert(decreases_to!(members@ => members@[i as int]));
                    assert(decreases_to!(members@[i as int] => members@[i as int].1));
                }
                out.push((members[i].0.clone(), copy_json(&members[i].1)));
                i = i + 1;
            }
            JsonValue::Object(out)
        },
    }
}

/// The value of the top-level member `key` of an object.
pub fn get_member<'a>(v: &'a JsonValue, key: &str) -> (r: Option<&'a JsonValue>)
    ensures
        deref_opt(r) == match *v {
            JsonValue::Object(m) => member(m@, key@),
            _ => None,
        },
{
    match v {
        JsonValue::Object(m) => member_get(m, &String::from_str(key)),
        _ => None,
    }
}

} // verus!
