use vstd::prelude::*;

use crate::audit::string_views;
use crate::date::{days_in_month, CalendarDate};
use crate::text::{
    all_ascii_digits, digits_value, lemma_digits_value_monotone, lemma_digits_value_nonneg, owned,
    to_ascii_uppercase, ascii_upper_text, trim, trim_text, unsigned_part, str_equals,
};

verus! {

#[derive(Debug, Clone, PartialEq, Eq)]
pub struct StripeSettlementLine {
    pub payout_id: String,
    pub balance_transaction_id: String,
    pub gateway_transaction_id: String,
    pub available_on: CalendarDate,
    pub currency: String,
    pub gross_minor: i64,
    pub fee_minor: i64,
    pub net_minor: i64,
    pub transaction_type: String,
}

#[derive(Debug, Clone, PartialEq, Eq)]
pub struct BankStatementLine {
    pub statement_id: String,
    pub value_date: CalendarDate,
    pub bank_reference: String,
    pub description: String,
    pub currency: String,
    pub amount_minor: i64,
}

#[derive(Debug, Clone, PartialEq, Eq)]
pub enum IngestError {
    Csv { line: usize, message: String },
    MissingField { line: usize, field: &'static str },
    InvalidDate { line: usize, field: &'static str, value: String },
    InvalidAmount { line: usize, field: &'static str, value: String },
}

/// Position of the first `c` in `s`, or its length when there is none.
pub open spec fn first_index_of(s: Seq<char>, c: char) -> int
    decreases s.len(),
{
    if s.len() == 0 {
        0
    } else if s[0] == c {
        0
    } else {
        1 + first_index_of(s.drop_first(), c)
    }
}

/// Hundredths from up to two fractional digits.
pub open spec fn hundredths(f: Seq<char>) -> int {
    if f.len() == 0 {
        0
    } else if f.len() == 1 {
        digits_value(f) * 10
    } else {
        digits_value(f)
    }
}

/// Minor units of a decimal amount `±?\d+(\.\d{0,2})?` (after trimming),
/// scaled by one hundred, when the value fits in an `i64`.
pub open spec fn minor_units_of(s: Seq<char>) -> Option<int> {
    let v = trim_text(s);
    let negative = unsigned_part(v).0;
    let body = unsigned_part(v).1;
    let d = first_index_of(body, '.');
    let whole = body.subrange(0, d);
    let frac = if d < body.len() {
        body.subrange(d + 1, body.len() as int)
    } else {
        Seq::empty()
    };
    if whole.len() == 0 || !all_ascii_digits(whole) || frac.len() > 2 || !all_ascii_digits(frac) {
        None
    } else {
        let magnitude = digits_value(whole) * 100 + hundredths(frac);
        if magnitude > i64::MAX + if negative {
            1int
        } else {
            0int
        } {
            None
        } else if negative {
            Some(-magnitude)
        } else {
            Some(magnitude)
        }
    }
}

proof fn lemma_first_index_of(s: Seq<char>, c: char)
    ensures
        0 <= first_index_of(s, c) <= s.len(),
        forall|k: int| 0 <= k < first_index_of(s, c) ==> s[k] != c,
        first_index_of(s, c) < s.len() ==> s[first_index_of(s, c)] == c,
    decreases s.len(),
{
    if s.len() > 0 && s[0] != c {
        lemma_first_index_of(s.drop_first(), c);
        assert forall|k: int| 0 <= k < first_index_of(s, c) implies s[k] != c by {
            if k > 0 {
                assert(s[k] == s.drop_first()[k - 1]);
            }
        }
    }
}

proof fn lemma_first_index_unique(s: Seq<char>, c: char, k: int)
    requires
        0 <= k <= s.len(),
        forall|j: int| 0 <= j < k ==> s[j] != c,
        k < s.len() ==> s[k] == c,
    ensures
        first_index_of(s, c) == k,
    decreases s.len(),
{
    if s.len() > 0 && k > 0 {
        assert forall|j: int| 0 <= j < k - 1 implies s.drop_first()[j] != c by {
            assert(s.drop_first()[j] == s[j + 1]);
        }
        lemma_first_index_unique(s.drop_first(), c, k - 1);
    }
}

/// The value of the digits `s[from..to]` when they are all digits and the
/// value is at most `cap`.
fn digit_run(s: &str, from: usize, to: usize, cap: u64) -> (r: Option<u64>)
    requires
        from <= to <= s@.len(),
        cap <= 1_000_000_000_000_000_000u64,
    ensures
        match r {
            Some(x) => all_ascii_digits(s@.subrange(from as int, to as int)) && x == digits_value(s@.subrange(from as int, to as int))
                && x <= cap,
            None => !all_ascii_digits(s@.subrange(from as int, to as int)) || digits_value(s@.subrange(from as int, to as int)) > cap,
        },
{
    let ghost full = s@.subrange(from as int, to as int);
    let mut acc: u64 = 0;
    let mut i: usize = from;
    assert(full.subrange(0, 0) =~= Seq::<char>::empty());
    while i < to
        invariant
            from <= i <= to <= s@.len(),
            cap <= 1_000_000_000_000_000_000u64,
            full == s@.subrange(from as int, to as int),
            all_ascii_digits(full.subrange(0, i - from)),
            acc == digits_value(full.subrange(0, i - from)),
            acc <= cap,
        decreases to - i,
    {
        let c = s.get_char(i);
        assert(full[i - from] == c);
        if !('0' <= c && c <= '9') {
            return None;
        }
        let ghost p = full.subrange(0, i - from + 1);
        assert(p.drop_last() =~= full.subrange(0, i - from));
        assert(all_ascii_digits(p)) by {
            assert forall|k: int| 0 <= k < p.len() implies crate::text::is_ascii_digit(#[trigger] p[k]) by {
                if k < p.len() - 1 {
                    assert(p[k] == full.subrange(0, i - from)[k]);
                }
            }
        }
        acc = acc * 10 + (c as u32 - '0' as u32) as u64;
        if acc > cap {
            proof {
                if all_ascii_digits(full) {
                    lemma_digits_value_monotone(full, i - from + 1);
                    assert(full.subrange(0, i - from + 1) =~= p);
                }
            }
            return None;
        }
        i = i + 1;
    }
    assert(full.subrange(0, to - from) =~= full);
    Some(acc)
}

/// Reads a decimal amount into minor units (hundredths); `None` when it is
/// not of the form `±?\d+(\.\d{0,2})?` or does not fit.
pub fn minor_units(input: &str) -> (r: Option<i64>)
    ensures
        match minor_units_of(input@) {
            Some(v) => r == Some(v as i64) && i64::MIN <= v <= i64::MAX,
            None => r is None,
        },
{
    let v = trim(input);
    let vs = v.as_str();
    let n = vs.unicode_len();
    let mut start: usize = 0;
    let mut negative = false;
    if n > 0 {
        let c0 = vs.get_char(0);
        if c0 == '-' {
            negative = true;
            start = 1;
        } else if c0 == '+' {
            start = 1;
        }
    }
    let ghost body = unsigned_part(v@).1;
    assert(body =~= v@.subrange(start as int, n as int));
    let mut dot: usize = start;
    while dot < n && vs.get_char(dot) != '.'
        invariant
            start <= dot <= n,
            n == vs@.len(),
            forall|j: int| start <= j < dot ==> vs@[j] != '.',
        decreases n - dot,
    {
        dot = dot + 1;
    }
    proof {
        assert forall|j: int| 0 <= j < dot - start implies body[j] != '.' by {
            assert(body[j] == vs@[start + j]);
        }
        if dot < n {
            assert(body[dot - start] == vs@[dot as int]);
        }
        lemma_first_index_unique(body, '.', dot - start);
    }
    let ghost d = dot - start;
    let ghost whole_s = body.subrange(0, d);
    let ghost frac_s = if d < body.len() {
        body.subrange(d + 1, body.len() as int)
    } else {
        Seq::<char>::empty()
    };
    assert(whole_s =~= vs@.subrange(start as int, dot as int));
    if dot == start {
        return None;
    }
    let whole = match digit_run(vs, start, dot, 92_233_720_368_547_758u64) {
        Some(w) => w,
        None => {
            proof {
                if all_ascii_digits(frac_s) {
                    lemma_digits_value_nonneg(frac_s);
                }
            }
            return None;
        },
    };
    let mut scaled: u64 = 0;
    if dot < n {
        assert(frac_s =~= vs@.subrange(dot as int + 1, n as int));
        if n - (dot + 1) > 2 {
            return None;
        }
        let f = match digit_run(vs, dot + 1, n, 99) {
            Some(f) => f,
            None => {
                proof {
                    if all_ascii_digits(frac_s) {
                        assert(digits_value(frac_s) <= 99) by {
                            reveal_with_fuel(digits_value, 3);
                            if frac_s.len() == 2 {
                                assert(frac_s.drop_last().drop_last() =~= Seq::<char>::empty());
                            } else if frac_s.len() == 1 {
                                assert(frac_s.drop_last() =~= Seq::<char>::empty());
                            }
                        }
                    }
                }
                return None;
            },
        };
        scaled = if n - (dot + 1) == 1 {
            f * 10
        } else {
            f
        };
    }
    let magnitude = whole * 100 + scaled;
    if negative && magnitude == 0x8000_0000_0000_0000u64 {
        return Some(i64::MIN);
    }
    if magnitude > 0x7fff_ffff_ffff_ffffu64 {
        return None;
    }
    if negative {
        Some(-(magnitude as i64))
    } else {
        Some(magnitude as i64)
    }
}

/// Parses an amount field: `InvalidAmount` (carrying the raw value) when
/// it is not a decimal with at most two fractional digits.
pub fn parse_minor_units(input: &str, field: &'static str, line: usize) -> (r: Result<i64, IngestError>)
    ensures
        match minor_units_of(input@) {
            Some(v) => r == Ok::<i64, IngestError>(v as i64) && i64::MIN <= v <= i64::MAX,
            None => r matches Err(IngestError::InvalidAmount { line: l, field: f, value: s }) && l == line && f == field && s@ == input@,
        },
{
    match minor_units(input) {
        Some(v) => Ok(v),
        None => Err(IngestError::InvalidAmount { line, field, value: owned(input) }),
    }
}

/// A required field: present and not blank once trimmed; returned trimmed.
pub fn required(value: Option<String>, field: &'static str, line: usize) -> (r: Result<String, IngestError>)
    ensures
        match value {
            Some(v) if trim_text(v@).len() > 0 => r is Ok && r->Ok_0@ == trim_text(v@),
            _ => r == Err::<String, IngestError>(IngestError::MissingField { line, field }),
        },
{
    match value {
        None => Err(IngestError::MissingField { line, field }),
        Some(v) => {
            let trimmed = trim(v.as_str());
            if trimmed.as_str().unicode_len() == 0 {
                Err(IngestError::MissingField { line, field })
            } else {
                Ok(trimmed)
            }
        },
    }
}

/// What `chrono::NaiveDate::parse_from_str(s, fmt)` yields, as year, month
/// and day.
pub uninterp spec fn date_parse_of(s: Seq<char>, fmt: Seq<char>) -> Option<(int, int, int)>;

/// Relies on `chrono::NaiveDate::parse_from_str` and `Datelike`: the date
/// that `s` denotes in `fmt`, if any; a `NaiveDate` is always a real
/// calendar day.
#[verifier::external_body]
pub(crate) fn parse_naive_date(s: &str, fmt: &str) -> (r: Option<(i32, u32, u32)>)
    ensures
        match r {
            Some(t) => date_parse_of(s@, fmt@) == Some((t.0 as int, t.1 as int, t.2 as int)) && 1 <= t.1 <= 12 && 1 <= t.2
                <= days_in_month(t.0 as int, t.1 as int),
            None => date_parse_of(s@, fmt@) is None,
        },
{
    chrono::NaiveDate::parse_from_str(s, fmt).ok().map(|d| (chrono::Datelike::year(&d), chrono::Datelike::month(&d), chrono::Datelike::day(&d)))
}

/// A parsed date as a `CalendarDate`, when its year has four digits.
pub open spec fn as_calendar_date(t: Option<(int, int, int)>) -> Option<CalendarDate> {
    match t {
        Some((y, m, d)) => if 0 <= y <= 9999 {
            Some(CalendarDate { year: y as i32, month: m as u32, day: d as u32 })
        } else {
            None
        },
        None => None,
    }
}

/// The date in `YYYY-MM-DD`, else in `MM/DD/YYYY`.
pub open spec fn settlement_date_of(s: Seq<char>) -> Option<CalendarDate> {
    match as_calendar_date(date_parse_of(s, "%Y-%m-%d"@)) {
        Some(d) => Some(d),
        None => as_calendar_date(date_parse_of(s, "%m/%d/%Y"@)),
    }
}

fn to_calendar_date(t: Option<(i32, u32, u32)>) -> (r: Option<CalendarDate>)
    requires
        t matches Some(x) ==> 1 <= x.1 <= 12 && 1 <= x.2 <= days_in_month(x.0 as int, x.1 as int),
    ensures
        r == as_calendar_date(match t {
            Some(x) => Some((x.0 as int, x.1 as int, x.2 as int)),
            None => None,
        }),
        r matches Some(d) ==> d.wf(),
{
    match t {
        Some((y, m, d)) => if 0 <= y && y <= 9999 {
            Some(CalendarDate { year: y, month: m, day: d })
        } else {
            None
        },
        None => None,
    }
}

/// Parses a settlement date, `YYYY-MM-DD` or `MM/DD/YYYY`.
pub fn parse_date(input: &str, field: &'static str, line: usize) -> (r: Result<CalendarDate, IngestError>)
    ensures
        match settlement_date_of(input@) {
            Some(d) => r == Ok::<CalendarDate, IngestError>(d) && d.wf(),
            None => r matches Err(IngestError::InvalidDate { line: l, field: f, value: s }) && l == line && f == field && s@ == input@,
        },
{
    match to_calendar_date(parse_naive_date(input, "%Y-%m-%d")) {
        Some(d) => {
            return Ok(d);
        },
        None => {},
    }
    match to_calendar_date(parse_naive_date(input, "%m/%d/%Y")) {
        Some(d) => Ok(d),
        None => Err(IngestError::InvalidDate { line, field, value: owned(input) }),
    }
}


/// What the `csv` reader yields for a text, header row first: each record's
/// trimmed fields, or the line and message of the first error.
pub uninterp spec fn csv_rows_of(text: Seq<char>) -> Result<Seq<Seq<Seq<char>>>, (int, Seq<char>)>;

pub open spec fn rows_views(rows: Seq<Vec<String>>) -> Seq<Seq<Seq<char>>> {
    rows.map_values(|row: Vec<String>| string_views(row@))
}

/// Relies on `csv::ReaderBuilder` (fields trimmed, the header row read as
/// a record): every record's fields, or the line and message of the first
/// error, which depend on the text alone.
#[verifier::external_body]
fn read_csv_rows(input: &str) -> (r: Result<Vec<Vec<String>>, (usize, String)>)
    ensures
        match r {
            Ok(rows) => csv_rows_of(input@) == Ok::<Seq<Seq<Seq<char>>>, (int, Seq<char>)>(rows_views(rows@)),
            Err(e) => csv_rows_of(input@) == Err::<Seq<Seq<Seq<char>>>, (int, Seq<char>)>((e.0 as int, e.1@)),
        },
{
    let mut reader = csv::ReaderBuilder::new().trim(csv::Trim::All).has_headers(false).from_reader(input.as_bytes());
    reader
        .records()
        .map(|record| record.map(|fields| fields.iter().map(|f| f.to_string()).collect::<Vec<String>>()))
        .collect::<Result<Vec<Vec<String>>, csv::Error>>()
        .map_err(|e| (e.position().map(|p| p.line() as usize).unwrap_or(0), e.to_string()))
}

/// Position of the first header equal to `name`, or the header count.
pub open spec fn header_index(header: Seq<Seq<char>>, name: Seq<char>) -> int
    decreases header.len(),
{
    if header.len() == 0 {
        0
    } else if header[0] == name {
        0
    } else {
        1 + header_index(header.drop_first(), name)
    }
}

/// The field of `row` under the column `name`, if the header has it and the
/// row reaches it.
pub open spec fn column_of(header: Seq<Seq<char>>, row: Seq<Seq<char>>, name: Seq<char>) -> Option<Seq<char>> {
    let i = header_index(header, name);
    if i < header.len() && i < row.len() {
        Some(row[i])
    } else {
        None
    }
}

/// A field that is there and not blank.
pub open spec fn present(v: Option<Seq<char>>) -> bool {
    v is Some && trim_text(v->0).len() > 0
}

proof fn lemma_header_index(header: Seq<Seq<char>>, name: Seq<char>, k: int)
    requires
        0 <= k <= header.len(),
        forall|j: int| 0 <= j < k ==> header[j] != name,
        k < header.len() ==> header[k] == name,
    ensures
        header_index(header, name) == k,
    decreases header.len(),
{
    if header.len() > 0 && k > 0 {
        assert forall|j: int| 0 <= j < k - 1 implies header.drop_first()[j] != name by {
            assert(header.drop_first()[j] == header[j + 1]);
        }
        lemma_header_index(header.drop_first(), name, k - 1);
    }
}

fn field_value(header: &Vec<String>, row: &Vec<String>, name: &str) -> (r: Option<String>)
    ensures
        match column_of(string_views(header@), string_views(row@), name@) {
            Some(v) => r is Some && r->0@ == v,
            None => r is None,
        },
{
    let mut i: usize = 0;
    while i < header.len() && !str_equals(header[i].as_str(), name)
        invariant
            i <= header.len(),
            forall|j: int| 0 <= j < i ==> header@[j]@ != name@,
        decreases header.len() - i,
    {
        i = i + 1;
    }
    proof {
        let hv = string_views(header@);
        assert forall|j: int| 0 <= j < i implies hv[j] != name@ by {
            assert(hv[j] == header@[j]@);
        }
        if i < header.len() {
            assert(hv[i as int] == header@[i as int]@);
        }
        lemma_header_index(hv, name@, i as int);
    }
    if i < header.len() && i < row.len() {
        assert(string_views(row@)[i as int] == row@[i as int]@);
        Some(row[i].clone())
    } else {
        None
    }
}

/// Every field of a row is present and well-formed.
pub open spec fn stripe_row_ok(header: Seq<Seq<char>>, row: Seq<Seq<char>>) -> bool {
    &&& present(column_of(header, row, "payout_id"@))
    &&& present(column_of(header, row, "balance_transaction_id"@))
    &&& present(column_of(header, row, "source_id"@))
    &&& present(column_of(header, row, "available_on"@))
    &&& settlement_date_of(trim_text(column_of(header, row, "available_on"@)->0)) is Some
    &&& present(column_of(header, row, "currency"@))
    &&& present(column_of(header, row, "gross"@))
    &&& minor_units_of(trim_text(column_of(header, row, "gross"@)->0)) is Some
    &&& present(column_of(header, row, "fee"@))
    &&& minor_units_of(trim_text(column_of(header, row, "fee"@)->0)) is Some
    &&& present(column_of(header, row, "net"@))
    &&& minor_units_of(trim_text(column_of(header, row, "net"@)->0)) is Some
    &&& present(column_of(header, row, "type"@))
}

/// A parsed line holds the row's fields.
pub open spec fn stripe_line_fits(l: StripeSettlementLine, header: Seq<Seq<char>>, row: Seq<Seq<char>>) -> bool {
    &&& l.payout_id@ == trim_text(column_of(header, row, "payout_id"@)->0)
    &&& l.balance_transaction_id@ == trim_text(column_of(header, row, "balance_transaction_id"@)->0)
    &&& l.gateway_transaction_id@ == trim_text(column_of(header, row, "source_id"@)->0)
    &&& Some(l.available_on) == settlement_date_of(trim_text(column_of(header, row, "available_on"@)->0))
    &&& l.currency@ == ascii_upper_text(trim_text(column_of(header, row, "currency"@)->0))
    &&& Some(l.gross_minor as int) == minor_units_of(trim_text(column_of(header, row, "gross"@)->0))
    &&& Some(l.fee_minor as int) == minor_units_of(trim_text(column_of(header, row, "fee"@)->0))
    &&& Some(l.net_minor as int) == minor_units_of(trim_text(column_of(header, row, "net"@)->0))
    &&& l.transaction_type@ == trim_text(column_of(header, row, "type"@)->0)
}

fn stripe_row(header: &Vec<String>, row: &Vec<String>, line: usize) -> (r: Result<StripeSettlementLine, IngestError>)
    ensures
        r is Ok <==> stripe_row_ok(string_views(header@), string_views(row@)),
        r is Ok ==> stripe_line_fits(r->Ok_0, string_views(header@), string_views(row@)),
{
    let payout_id_raw = match required(field_value(header, row, "payout_id"), "payout_id", line) {
        Ok(v) => v,
        Err(e) => {
            return Err(e);
        },
    };
    let payout_id = payout_id_raw;
    let balance_transaction_id_raw = match required(field_value(header, row, "balance_transaction_id"), "balance_transaction_id", line) {
        Ok(v) => v,
        Err(e) => {
            return Err(e);
        },
    };
    let balance_transaction_id = balance_transaction_id_raw;
    let gateway_transaction_id_raw = match required(field_value(header, row, "source_id"), "source_id", line) {
        Ok(v) => v,
        Err(e) => {
            return Err(e);
        },
    };
    let gateway_transaction_id = gateway_transaction_id_raw;
    let available_on_raw = match required(field_value(header, row, "available_on"), "available_on", line) {
        Ok(v) => v,
        Err(e) => {
            return Err(e);
        },
    };
    let available_on = match parse_date(available_on_raw.as_str(), "available_on", line) {
        Ok(d) => d,
        Err(e) => {
            return Err(e);
        },
    };
    let currency_raw = match required(field_value(header, row, "currency"), "currency", line) {
        Ok(v) => v,
        Err(e) => {
            return Err(e);
        },
    };
    let currency = to_ascii_uppercase(currency_raw.as_str());
    let gross_minor_raw = match required(field_value(header, row, "gross"), "gross", line) {
        Ok(v) => v,
        Err(e) => {
            return Err(e);
        },
    };
    let gross_minor = match parse_minor_units(gross_minor_raw.as_str(), "gross", line) {
        Ok(v) => v,
        Err(e) => {
            return Err(e);
        },
    };
    let fee_minor_raw = match required(field_value(header, row, "fee"), "fee", line) {
        Ok(v) => v,
        Err(e) => {
            return Err(e);
        },
    };
    let fee_minor = match parse_minor_units(fee_minor_raw.as_str(), "fee", line) {
        Ok(v) => v,
        Err(e) => {
            return Err(e);
        },
    };
    let net_minor_raw = match required(field_value(header, row, "net"), "net", line) {
        Ok(v) => v,
        Err(e) => {
            return Err(e);
        },
    };
    let net_minor = match parse_minor_units(net_minor_raw.as_str(), "net", line) {
        Ok(v) => v,
        Err(e) => {
            return Err(e);
        },
    };
    let transaction_type_raw = match required(field_value(header, row, "type"), "type", line) {
        Ok(v) => v,
        Err(e) => {
            return Err(e);
        },
    };
    let transaction_type = transaction_type_raw;
    Ok(StripeSettlementLine { payout_id, balance_transaction_id, gateway_transaction_id, available_on, currency, gross_minor, fee_minor, net_minor, transaction_type })
}

/// Every field of a row is present and well-formed.
pub open spec fn bank_row_ok(header: Seq<Seq<char>>, row: Seq<Seq<char>>) -> bool {
    &&& present(column_of(header, row, "statement_id"@))
    &&& present(column_of(header, row, "value_date"@))
    &&& settlement_date_of(trim_text(column_of(header, row, "value_date"@)->0)) is Some
    &&& present(column_of(header, row, "bank_reference"@))
    &&& present(column_of(header, row, "description"@))
    &&& present(column_of(header, row, "currency"@))
    &&& present(column_of(header, row, "amount"@))
    &&& minor_units_of(trim_text(column_of(header, row, "amount"@)->0)) is Some
}

/// A parsed line holds the row's fields.
pub open spec fn bank_line_fits(l: BankStatementLine, header: Seq<Seq<char>>, row: Seq<Seq<char>>) -> bool {
    &&& l.statement_id@ == trim_text(column_of(header, row, "statement_id"@)->0)
    &&& Some(l.value_date) == settlement_date_of(trim_text(column_of(header, row, "value_date"@)->0))
    &&& l.bank_reference@ == trim_text(column_of(header, row, "bank_reference"@)->0)
    &&& l.description@ == trim_text(column_of(header, row, "description"@)->0)
    &&& l.currency@ == ascii_upper_text(trim_text(column_of(header, row, "currency"@)->0))
    &&& Some(l.amount_minor as int) == minor_units_of(trim_text(column_of(header, row, "amount"@)->0))
}

fn bank_row(header: &Vec<String>, row: &Vec<String>, line: usize) -> (r: Result<BankStatementLine, IngestError>)
    ensures
        r is Ok <==> bank_row_ok(string_views(header@), string_views(row@)),
        r is Ok ==> bank_line_fits(r->Ok_0, string_views(header@), string_views(row@)),
{
    let statement_id_raw = match required(field_value(header, row, "statement_id"), "statement_id", line) {
        Ok(v) => v,
        Err(e) => {
            return Err(e);
        },
    };
    let statement_id = statement_id_raw;
    let value_date_raw = match required(field_value(header, row, "value_date"), "value_date", line) {
        Ok(v) => v,
        Err(e) => {
            return Err(e);
        },
    };
    let value_date = match parse_date(value_date_raw.as_str(), "value_date", line) {
        Ok(d) => d,
        Err(e) => {
            return Err(e);
        },
    };
    let bank_reference_raw = match required(field_value(header, row, "bank_reference"), "bank_reference", line) {
        Ok(v) => v,
        Err(e) => {
            return Err(e);
        },
    };
    let bank_reference = bank_reference_raw;
    let description_raw = match required(field_value(header, row, "description"), "description", line) {
        Ok(v) => v,
        Err(e) => {
            return Err(e);
        },
    };
    let description = description_raw;
    let currency_raw = match required(field_value(header, row, "currency"), "currency", line) {
        Ok(v) => v,
        Err(e) => {
            return Err(e);
        },
    };
    let currency = to_ascii_uppercase(currency_raw.as_str());
    let amount_minor_raw = match required(field_value(header, row, "amount"), "amount", line) {
        Ok(v) => v,
        Err(e) => {
            return Err(e);
        },
    };
    let amount_minor = match parse_minor_units(amount_minor_raw.as_str(), "amount", line) {
        Ok(v) => v,
        Err(e) => {
            return Err(e);
        },
    };
    Ok(BankStatementLine { statement_id, value_date, bank_reference, description, currency, amount_minor })
}

/// Every data row of a settlement text is well-formed.
pub open spec fn all_stripe_rows_ok(rows: Seq<Seq<Seq<char>>>) -> bool {
    forall|k: int| 1 <= k < rows.len() ==> stripe_row_ok(rows[0], #[trigger] rows[k])
}

/// Every data row of a bank statement is well-formed.
pub open spec fn all_bank_rows_ok(rows: Seq<Seq<Seq<char>>>) -> bool {
    forall|k: int| 1 <= k < rows.len() ==> bank_row_ok(rows[0], #[trigger] rows[k])
}

/// Parses a provider settlement CSV (`payout_id,balance_transaction_id,
/// source_id,available_on,currency,gross,fee,net,type`); data rows are
/// numbered from line 2.
pub fn parse_stripe_settlement_csv(input: &str) -> (r: Result<Vec<StripeSettlementLine>, IngestError>)
    ensures
        match csv_rows_of(input@) {
            Err(e) => r matches Err(IngestError::Csv { line, message }) && line == e.0 && message@ == e.1,
            Ok(rows) => {
                &&& r is Ok <==> all_stripe_rows_ok(rows)
                &&& r is Ok ==> r->Ok_0@.len() == if rows.len() == 0 { 0 } else { rows.len() - 1 }
                &&& r is Ok ==> forall|k: int| 0 <= k < r->Ok_0@.len() ==> stripe_line_fits(#[trigger] r->Ok_0@[k], rows[0], rows[k + 1])
            },
        },
{
    let rows = match read_csv_rows(input) {
        Ok(rows) => rows,
        Err(e) => {
            return Err(IngestError::Csv { line: e.0, message: e.1 });
        },
    };
    let ghost views = rows_views(rows@);
    let mut lines: Vec<StripeSettlementLine> = Vec::new();
    if rows.len() == 0 {
        return Ok(lines);
    }
    let header = &rows[0];
    assert(views[0] == string_views(header@));
    let mut k: usize = 1;
    while k < rows.len()
        invariant
            1 <= k <= rows.len(),
            views == rows_views(rows@),
            views.len() == rows@.len(),
            csv_rows_of(input@) == Ok::<Seq<Seq<Seq<char>>>, (int, Seq<char>)>(views),
            *header == rows@[0],
            lines@.len() == k - 1,
            forall|j: int| 1 <= j < k ==> stripe_row_ok(views[0], #[trigger] views[j]),
            forall|j: int| 0 <= j < k - 1 ==> stripe_line_fits(#[trigger] lines@[j], views[0], views[j + 1]),
        decreases rows.len() - k,
    {
        assert(views[k as int] == string_views(rows@[k as int]@));
        assert(views[0] == string_views(header@));
        let line_no = if k < usize::MAX - 1 { k + 1 } else { k };
        match stripe_row(header, &rows[k], line_no) {
            Ok(l) => {
                lines.push(l);
            },
            Err(e) => {
                assert(!stripe_row_ok(views[0], views[k as int]));
                return Err(e);
            },
        }
        k = k + 1;
    }
    Ok(lines)
}

/// Parses a bank statement CSV (`statement_id,value_date,bank_reference,
/// description,currency,amount`); data rows are numbered from line 2.
pub fn parse_bank_statement_csv(input: &str) -> (r: Result<Vec<BankStatementLine>, IngestError>)
    ensures
        match csv_rows_of(input@) {
            Err(e) => r matches Err(IngestError::Csv { line, message }) && line == e.0 && message@ == e.1,
            Ok(rows) => {
                &&& r is Ok <==> all_bank_rows_ok(rows)
                &&& r is Ok ==> r->Ok_0@.len() == if rows.len() == 0 { 0 } else { rows.len() - 1 }
                &&& r is Ok ==> forall|k: int| 0 <= k < r->Ok_0@.len() ==> bank_line_fits(#[trigger] r->Ok_0@[k], rows[0], rows[k + 1])
            },
        },
{
    let rows = match read_csv_rows(input) {
        Ok(rows) => rows,
        Err(e) => {
            return Err(IngestError::Csv { line: e.0, message: e.1 });
        },
    };
    let ghost views = rows_views(rows@);
    let mut lines: Vec<BankStatementLine> = Vec::new();
    if rows.len() == 0 {
        return Ok(lines);
    }
    let header = &rows[0];
    assert(views[0] == string_views(header@));
    let mut k: usize = 1;
    while k < rows.len()
        invariant
            1 <= k <= rows.len(),
            views == rows_views(rows@),
            views.len() == rows@.len(),
            csv_rows_of(input@) == Ok::<Seq<Seq<Seq<char>>>, (int, Seq<char>)>(views),
            *header == rows@[0],
            lines@.len() == k - 1,
            forall|j: int| 1 <= j < k ==> bank_row_ok(views[0], #[trigger] views[j]),
            forall|j: int| 0 <= j < k - 1 ==> bank_line_fits(#[trigger] lines@[j], views[0], views[j + 1]),
        decreases rows.len() - k,
    {
        assert(views[k as int] == string_views(rows@[k as int]@));
        assert(views[0] == string_views(header@));
        let line_no = if k < usize::MAX - 1 { k + 1 } else { k };
        match bank_row(header, &rows[k], line_no) {
            Ok(l) => {
                lines.push(l);
            },
            Err(e) => {
                assert(!bank_row_ok(views[0], views[k as int]));
                return Err(e);
            },
        }
        k = k + 1;
    }
    Ok(lines)
}

} // verus!
