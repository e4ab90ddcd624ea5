//! The engine's on-disk file formats: JSON texts for a serialized table
//! (`<Table>.table`), for a migration's predecessor pointer (`info.json`)
//! and for the chain tip (`state.json`). The writers emit one canonical
//! text per value; the readers accept exactly that canonical text, which
//! is what the writers ever produce.

use vstd::prelude::*;
use vstd::string::*;

use crate::adb::{
    str_eq, AColumn, ATable, ColV, DeferredSqlType, SqlType, SqlVal, TableV, TypV, ValV,
};

verus! {

/// Relies on std's `String::push`: appends the given character to the
/// end of the string.
pub assume_specification[ String::push ](s: &mut String, c: char)
    ensures
        (*final(s))@ == (*old(s))@ + seq![c],
;

/// The hexadecimal digit for `n` (0 to 15).
pub open spec fn hex_digit(n: u32) -> char {
    if n == 0 {
        '0'
    } else if n == 1 {
        '1'
    } else if n == 2 {
        '2'
    } else if n == 3 {
        '3'
    } else if n == 4 {
        '4'
    } else if n == 5 {
        '5'
    } else if n == 6 {
        '6'
    } else if n == 7 {
        '7'
    } else if n == 8 {
        '8'
    } else if n == 9 {
        '9'
    } else if n == 10 {
        'a'
    } else if n == 11 {
        'b'
    } else if n == 12 {
        'c'
    } else if n == 13 {
        'd'
    } else if n == 14 {
        'e'
    } else {
        'f'
    }
}

/// How one character is written inside a JSON string literal.
pub open spec fn esc_char(c: char) -> Seq<char> {
    if c == '"' {
        seq!['\\', '"']
    } else if c == '\\' {
        seq!['\\', '\\']
    } else if (c as u32) < 32 {
        seq!['\\', 'u', '0', '0', hex_digit((c as u32) / 16), hex_digit((c as u32) % 16)]
    } else {
        seq![c]
    }
}

/// A character sequence escaped for a JSON string literal.
pub open spec fn escape(s: Seq<char>) -> Seq<char>
    decreases s.len(),
{
    if s.len() == 0 {
        Seq::<char>::empty()
    } else {
        escape(s.drop_last()) + esc_char(s.last())
    }
}

/// A JSON string literal.
pub open spec fn quoted(s: Seq<char>) -> Seq<char> {
    seq!['"'] + escape(s) + seq!['"']
}

/// The decimal digits of `n`.
pub open spec fn dec_str(n: nat) -> Seq<char>
    decreases n,
{
    if n < 10 {
        seq![hex_digit(n as u32)]
    } else {
        dec_str(n / 10) + seq![hex_digit((n % 10) as u32)]
    }
}

/// The decimal form of a signed integer.
pub open spec fn int_str(n: int) -> Seq<char> {
    if n < 0 {
        seq!['-'] + dec_str((-n) as nat)
    } else {
        dec_str(n as nat)
    }
}

/// A JSON boolean.
pub open spec fn json_bool(b: bool) -> Seq<char> {
    if b {
        seq!['t', 'r', 'u', 'e']
    } else {
        seq!['f', 'a', 'l', 's', 'e']
    }
}

/// The hexadecimal digit character for `n` (0 to 15).
fn hex_char(n: u32) -> (c: char)
    requires
        n < 16,
    ensures
        c == hex_digit(n),
{
    if n == 0 {
        '0'
    } else if n == 1 {
        '1'
    } else if n == 2 {
        '2'
    } else if n == 3 {
        '3'
    } else if n == 4 {
        '4'
    } else if n == 5 {
        '5'
    } else if n == 6 {
        '6'
    } else if n == 7 {
        '7'
    } else if n == 8 {
        '8'
    } else if n == 9 {
        '9'
    } else if n == 10 {
        'a'
    } else if n == 11 {
        'b'
    } else if n == 12 {
        'c'
    } else if n == 13 {
        'd'
    } else if n == 14 {
        'e'
    } else {
        'f'
    }
}

/// Append one escaped character to `out`.
fn push_escaped(out: &mut String, c: char)
    ensures
        (*final(out))@ == (*old(out))@ + esc_char(c),
{
    if c == '"' {
        out.append("\\\"");
        proof {
            reveal_strlit("\\\"");
            assert("\\\""@ =~= esc_char(c));
        }
    } else if c == '\\' {
        out.append("\\\\");
        proof {
            reveal_strlit("\\\\");
            assert("\\\\"@ =~= esc_char(c));
        }
    } else {
        let v = c as u32;
        if v < 32 {
            let ghost pre = out@;
            out.append("\\u00");
            out.push(hex_char(v / 16));
            out.push(hex_char(v % 16));
            proof {
                reveal_strlit("\\u00");
                assert(out@ =~= pre + esc_char(c));
            }
        } else {
            out.push(c);
            proof {
                assert(seq![c] =~= esc_char(c));
            }
        }
    }
}

/// Append a JSON string literal for `s` to `out`.
#[verifier::loop_isolation(false)]
pub fn push_quoted(out: &mut String, s: &str)
    ensures
        (*final(out))@ == (*old(out))@ + quoted(s@),
{
    let ghost pre = out@;
    out.push('"');
    let n = s.unicode_len();
    let mut i: usize = 0;
    proof {
        assert(escape(s@.take(0)) =~= Seq::<char>::empty());
        assert(out@ =~= pre + seq!['"'] + escape(s@.take(0)));
    }
    while i < n
        invariant
            i <= n,
            n == s@.len(),
            out@ == pre + seq!['"'] + escape(s@.take(i as int)),
        decreases n - i,
    {
        let c = s.get_char(i);
        push_escaped(out, c);
        proof {
            assert(s@.take(i as int + 1).drop_last() =~= s@.take(i as int));
            assert(s@.take(i as int + 1).last() == s@[i as int]);
            assert(out@ =~= pre + seq!['"'] + escape(s@.take(i as int + 1)));
        }
        i = i + 1;
    }
    out.push('"');
    proof {
        assert(s@.take(s@.len() as int) =~= s@);
        assert(out@ =~= pre + quoted(s@));
    }
}

/// Append the decimal form of `n` to `out`.
#[verifier::loop_isolation(false)]
pub fn push_u64(out: &mut String, n: u64)
    ensures
        (*final(out))@ == (*old(out))@ + dec_str(n as nat),
{
    let ghost pre = out@;
    let mut digits: Vec<char> = Vec::new();
    let mut m: u64 = n;
    while m >= 10
        invariant
            dec_str(n as nat) == dec_str(m as nat) + digits@.reverse(),
        decreases m,
    {
        let d = m % 10;
        digits.push(hex_char((d as u32)));
        m = m / 10;
        proof {
            assert(digits@.reverse() =~= seq![hex_digit((d as u32))] + digits@.drop_last().reverse());
            assert(dec_str(n as nat) =~= dec_str(m as nat) + digits@.reverse());
        }
    }
    out.push(hex_char((m as u32) % 16));
    proof {
        assert((m as u32) % 16 == m as u32);
        assert(dec_str(m as nat) == seq![hex_digit(m as u32)]);
    }
    let mut k: usize = digits.len();
    while k > 0
        invariant
            k <= digits@.len(),
            out@ == pre + dec_str(m as nat) + digits@.reverse().take(digits@.len() - k),
        decreases k,
    {
        k = k - 1;
        out.push(digits[k]);
        proof {
            assert(digits@.reverse()[digits@.len() - k - 1] == digits@[k as int]);
            assert(out@ =~= pre + dec_str(m as nat) + digits@.reverse().take(
                digits@.len() - k,
            ));
        }
    }
    proof {
        assert(digits@.reverse().take(digits@.len() as int) =~= digits@.reverse());
        assert(out@ =~= pre + dec_str(n as nat));
    }
}

/// Append the decimal form of a signed integer to `out`.
pub fn push_i64(out: &mut String, n: i64)
    ensures
        (*final(out))@ == (*old(out))@ + int_str(n as int),
{
    let ghost pre = out@;
    if n < 0 {
        out.push('-');
        let m: u64 = if n == i64::MIN {
            9223372036854775808u64
        } else {
            (-n) as u64
        };
        proof {
            assert(m as nat == (-(n as int)) as nat);
        }
        push_u64(out, m);
        proof {
            assert(out@ =~= pre + int_str(n as int));
        }
    } else {
        push_u64(out, n as u64);
    }
}

/// The name under which a known column type is stored.
pub open spec fn typ_name(t: SqlType) -> Seq<char> {
    match t {
        SqlType::Bool => "Bool"@,
        SqlType::Int => "Int"@,
        SqlType::BigInt => "BigInt"@,
        SqlType::Real => "Real"@,
        SqlType::Text => "Text"@,
        SqlType::Blob => "Blob"@,
        SqlType::Timestamp => "Timestamp"@,
    }
}

/// The JSON text of a column type.
pub open spec fn json_typ(t: TypV) -> Seq<char> {
    match t {
        TypV::Known(st) => "{\"Known\":\""@ + typ_name(st) + "\"}"@,
        TypV::Deferred(k) => "{\"Deferred\":"@ + quoted(k) + "}"@,
    }
}

/// The JSON text of a default value.
pub open spec fn json_val(v: ValV) -> Seq<char> {
    match v {
        ValV::Bool(b) => "{\"Bool\":"@ + json_bool(b) + "}"@,
        ValV::Int(i) => "{\"Int\":"@ + int_str(i as int) + "}"@,
        ValV::Text(s) => "{\"Text\":"@ + quoted(s) + "}"@,
    }
}

/// The JSON text of an optional default value.
pub open spec fn json_default(d: Option<ValV>) -> Seq<char> {
    match d {
        Option::None => "null"@,
        Option::Some(v) => json_val(v),
    }
}

/// The JSON text of one column.
pub open spec fn json_col(c: ColV) -> Seq<char> {
    "{\"name\":"@ + quoted(c.name) + ",\"sqltype\":"@ + json_typ(c.sqltype) + ",\"nullable\":"@
        + json_bool(c.nullable) + ",\"pk\":"@ + json_bool(c.pk) + ",\"auto\":"@ + json_bool(c.auto)
        + ",\"default\":"@ + json_default(c.default) + "}"@
}

/// The JSON texts of a column list, comma-separated.
pub open spec fn json_cols(cs: Seq<ColV>) -> Seq<char>
    decreases cs.len(),
{
    if cs.len() == 0 {
        Seq::<char>::empty()
    } else if cs.len() == 1 {
        json_col(cs[0])
    } else {
        json_cols(cs.drop_last()) + ","@ + json_col(cs.last())
    }
}

/// The canonical text of a `.table` file.
pub open spec fn json_table(t: TableV) -> Seq<char> {
    "{\"name\":"@ + quoted(t.name) + ",\"columns\":["@ + json_cols(t.columns) + "]}"@
}

/// The text of an optional name.
pub open spec fn json_opt_name(n: Option<Seq<char>>) -> Seq<char> {
    match n {
        Option::None => "null"@,
        Option::Some(s) => quoted(s),
    }
}

/// The canonical text of `info.json`: a migration's predecessor pointer.
pub open spec fn json_info(from: Option<Seq<char>>) -> Seq<char> {
    "{\"from_name\":"@ + json_opt_name(from) + "}"@
}

/// The canonical text of `state.json`: the chain tip.
pub open spec fn json_state(latest: Option<Seq<char>>) -> Seq<char> {
    "{\"latest\":"@ + json_opt_name(latest) + "}"@
}

/// The mathematical value of an optional owned name.
pub open spec fn opt_name_view(n: Option<String>) -> Option<Seq<char>> {
    match n {
        Option::None => Option::None,
        Option::Some(s) => Option::Some(s@),
    }
}

/// Append a JSON boolean to `out`.
fn push_bool(out: &mut String, b: bool)
    ensures
        (*final(out))@ == (*old(out))@ + json_bool(b),
{
    if b {
        out.append("true");
        proof {
            reveal_strlit("true");
            assert("true"@ =~= json_bool(b));
        }
    } else {
        out.append("false");
        proof {
            reveal_strlit("false");
            assert("false"@ =~= json_bool(b));
        }
    }
}

/// Append the stored name of a known column type to `out`.
fn push_typ_name(out: &mut String, t: SqlType)
    ensures
        (*final(out))@ == (*old(out))@ + typ_name(t),
{
    match t {
        SqlType::Bool => out.append("Bool"),
        SqlType::Int => out.append("Int"),
        SqlType::BigInt => out.append("BigInt"),
        SqlType::Real => out.append("Real"),
        SqlType::Text => out.append("Text"),
        SqlType::Blob => out.append("Blob"),
        SqlType::Timestamp => out.append("Timestamp"),
    }
}

/// Append the JSON text of a column type to `out`.
fn push_typ(out: &mut String, t: &DeferredSqlType)
    ensures
        (*final(out))@ == (*old(out))@ + json_typ(t@),
{
    match t {
        DeferredSqlType::Known(st) => {
            out.append("{\"Known\":\"");
            push_typ_name(out, *st);
            out.append("\"}");
            proof {
                assert(out@ =~= (*old(out))@ + json_typ(t@));
            }
        },
        DeferredSqlType::Deferred(k) => {
            out.append("{\"Deferred\":");
            push_quoted(out, k.as_str());
            out.append("}");
            proof {
                assert(out@ =~= (*old(out))@ + json_typ(t@));
            }
        },
    }
}

/// Append the JSON text of an optional default value to `out`.
fn push_default(out: &mut String, d: &Option<SqlVal>)
    ensures
        (*final(out))@ == (*old(out))@ + json_default(
            match d {
                Option::None => Option::None,
                Option::Some(v) => Option::Some(v@),
            },
        ),
{
    let ghost gd = match d {
        Option::None => Option::None,
        Option::Some(v) => Option::Some(v@),
    };
    match d {
        Option::None => out.append("null"),
        Option::Some(SqlVal::Bool(b)) => {
            out.append("{\"Bool\":");
            push_bool(out, *b);
            out.append("}");
            proof {
                assert(out@ =~= (*old(out))@ + json_default(gd));
            }
        },
        Option::Some(SqlVal::Int(i)) => {
            out.append("{\"Int\":");
            push_i64(out, *i);
            out.append("}");
            proof {
                assert(out@ =~= (*old(out))@ + json_default(gd));
            }
        },
        Option::Some(SqlVal::Text(s)) => {
            out.append("{\"Text\":");
            push_quoted(out, s.as_str());
            out.append("}");
            proof {
                assert(out@ =~= (*old(out))@ + json_default(gd));
            }
        },
    }
}

/// Append the JSON text of one column to `out`.
#[verifier::rlimit(50)]
fn push_col(out: &mut String, c: &AColumn)
    ensures
        (*final(out))@ == (*old(out))@ + json_col(c@),
{
    out.append("{\"name\":");
    push_quoted(out, c.name.as_str());
    out.append(",\"sqltype\":");
    push_typ(out, &c.sqltype);
    out.append(",\"nullable\":");
    push_bool(out, c.nullable);
    out.append(",\"pk\":");
    push_bool(out, c.pk);
    out.append(",\"auto\":");
    push_bool(out, c.auto);
    out.append(",\"default\":");
    push_default(out, &c.default);
    out.append("}");
    proof {
        assert(out@ =~= (*old(out))@ + json_col(c@));
    }
}

/// The canonical text of a `.table` file for this table.
#[verifier::loop_isolation(false)]
pub fn table_json(t: &ATable) -> (r: String)
    ensures
        r@ == json_table(t@),
{
    let mut out = String::new();
    out.append("{\"name\":");
    push_quoted(&mut out, t.name.as_str());
    out.append(",\"columns\":[");
    let ghost cs = t@.columns;
    let ghost pre = out@;
    let mut i: usize = 0;
    proof {
        assert(out@ =~= pre + json_cols(cs.take(0)));
    }
    while i < t.columns.len()
        invariant
            i <= t.columns.len(),
            cs == t@.columns,
            out@ == pre + json_cols(cs.take(i as int)),
        decreases t.columns.len() - i,
    {
        proof {
            assert(cs.take(i as int + 1).drop_last() =~= cs.take(i as int));
            assert(cs.take(i as int + 1).last() == cs[i as int]);
            assert(cs[i as int] == t.columns@[i as int]@);
        }
        if i > 0 {
            out.append(",");
        }
        push_col(&mut out, &t.columns[i]);
        proof {
            if i == 0 {
                assert(json_cols(cs.take(1)) == json_col(cs[0]));
                assert(out@ =~= pre + json_cols(cs.take(i as int + 1)));
            } else {
                assert(out@ =~= pre + json_cols(cs.take(i as int + 1)));
            }
        }
        i = i + 1;
    }
    proof {
        assert(cs.take(cs.len() as int) =~= cs);
    }
    out.append("]}");
    proof {
        assert(out@ =~= json_table(t@));
    }
    out
}

/// The canonical text of `info.json` for this predecessor pointer.
pub fn info_json(from: &Option<String>) -> (r: String)
    ensures
        r@ == json_info(
            match from {
                Option::None => Option::None,
                Option::Some(s) => Option::Some(s@),
            },
        ),
{
    let mut out = String::new();
    out.append("{\"from_name\":");
    match from {
        Option::None => out.append("null"),
        Option::Some(s) => push_quoted(&mut out, s.as_str()),
    }
    out.append("}");
    proof {
        assert(out@ =~= json_info(
            match from {
                Option::None => Option::None,
                Option::Some(s) => Option::Some(s@),
            },
        ));
    }
    out
}

/// The canonical text of `state.json` for this chain tip.
pub fn state_json(latest: &Option<String>) -> (r: String)
    ensures
        r@ == json_state(
            match latest {
                Option::None => Option::None,
                Option::Some(s) => Option::Some(s@),
            },
        ),
{
    let mut out = String::new();
    out.append("{\"latest\":");
    match latest {
        Option::None => out.append("null"),
        Option::Some(s) => push_quoted(&mut out, s.as_str()),
    }
    out.append("}");
    proof {
        assert(out@ =~= json_state(
            match latest {
                Option::None => Option::None,
                Option::Some(s) => Option::Some(s@),
            },
        ));
    }
    out
}

/// Advance past `lit` exactly when the text continues with it.
fn eat_lit(s: &str, n: usize, i: usize, lit: &str) -> (r: Option<usize>)
    requires
        n == s@.len(),
        i <= n,
    ensures
        r matches Some(j) ==> i <= j <= n && j == i + lit@.len() && s@.subrange(
            i as int,
            j as int,
        ) == lit@,
        i + lit@.len() <= n && s@.subrange(i as int, i + lit@.len()) == lit@ ==> r is Some,
{
    let l = lit.unicode_len();
    if l > n - i {
        return Option::None;
    }
    let sub = s.substring_char(i, i + l);
    if str_eq(sub, lit) {
        Option::Some(i + l)
    } else {
        Option::None
    }
}

/// The value of a lower-case hexadecimal digit.
pub open spec fn hex_val_spec(c: char) -> Option<u32> {
    if 48 <= c as u32 <= 57 {
        Option::Some((c as u32 - 48) as u32)
    } else if 97 <= c as u32 <= 102 {
        Option::Some((c as u32 - 97 + 10) as u32)
    } else {
        Option::None
    }
}

/// The value of a lower-case hexadecimal digit.
fn hex_val(c: char) -> (r: Option<u32>)
    ensures
        r == hex_val_spec(c),
        r matches Some(v) ==> v < 16,
{
    let u = c as u32;
    if 48 <= u && u <= 57 {
        Option::Some(u - 48)
    } else if 97 <= u && u <= 102 {
        Option::Some(u - 97 + 10)
    } else {
        Option::None
    }
}

/// Reading the digit written for `n` gives `n` back.
proof fn lemma_hex_roundtrip(n: u32)
    requires
        n < 16,
    ensures
        hex_val_spec(hex_digit(n)) == Option::Some(n),
{
}

/// What the string scanner returns from position `j`: the decoded
/// content up to the first closing quote, and the position after it.
pub open spec fn scan_string(s: Seq<char>, j: int) -> Option<(Seq<char>, int)>
    decreases s.len() - j,
{
    if j < 0 || j >= s.len() {
        Option::None
    } else if s[j] == '"' {
        Option::Some((Seq::<char>::empty(), j + 1))
    } else if s[j] == '\\' {
        if j + 1 >= s.len() {
            Option::None
        } else if s[j + 1] == '"' {
            scan_cons('"', scan_string(s, j + 2))
        } else if s[j + 1] == '\\' {
            scan_cons('\\', scan_string(s, j + 2))
        } else if s[j + 1] == 'u' {
            if s.len() - j < 6 {
                Option::None
            } else if s[j + 2] != '0' || s[j + 3] != '0' {
                Option::None
            } else {
                match (hex_val_spec(s[j + 4]), hex_val_spec(s[j + 5])) {
                    (Option::Some(h1), Option::Some(h2)) => scan_cons(
                        (((h1 * 16 + h2) as u8) as char),
                        scan_string(s, j + 6),
                    ),
                    _ => Option::None,
                }
            }
        } else {
            Option::None
        }
    } else {
        scan_cons(s[j], scan_string(s, j + 1))
    }
}

/// Prepend one decoded character to a scan result.
pub open spec fn scan_cons(c: char, rest: Option<(Seq<char>, int)>) -> Option<(Seq<char>, int)> {
    match rest {
        Option::Some(p) => Option::Some((seq![c] + p.0, p.1)),
        Option::None => Option::None,
    }
}

/// Prepend an already-decoded prefix to a scan result.
pub open spec fn scan_prepend(p: Seq<char>, rest: Option<(Seq<char>, int)>) -> Option<
    (Seq<char>, int),
> {
    match rest {
        Option::Some(q) => Option::Some((p + q.0, q.1)),
        Option::None => Option::None,
    }
}

/// What `parse_string` returns from position `i`.
pub open spec fn spec_parse_string(s: Seq<char>, i: int) -> Option<(Seq<char>, int)> {
    if 0 <= i < s.len() && s[i] == '"' {
        scan_string(s, i + 1)
    } else {
        Option::None
    }
}

/// Read a JSON string literal, undoing the writer's escapes. The
/// result is exactly what the scanner specification yields.
#[verifier::loop_isolation(false)]
fn parse_string(s: &str, n: usize, i: usize) -> (r: Option<(String, usize)>)
    requires
        n == s@.len(),
        i <= n,
    ensures
        r matches Some(p) ==> i < p.1 <= n,
        r is Some <==> spec_parse_string(s@, i as int) is Some,
        r matches Some(p) ==> (spec_parse_string(s@, i as int) matches Some(q) && p.0@ == q.0
            && p.1 == q.1),
{
    if i >= n {
        return Option::None;
    }
    if s.get_char(i) != '"' {
        return Option::None;
    }
    let mut out = String::new();
    let mut j: usize = i + 1;
    proof {
        lemma_scan_prepend_empty(s@, i as int + 1);
    }
    while j < n
        invariant
            i + 1 <= j <= n,
            scan_prepend(out@, scan_string(s@, j as int)) == scan_string(s@, i as int + 1),
        decreases n - j,
    {
        let c = s.get_char(j);
        if c == '"' {
            proof {
                assert(out@ + Seq::<char>::empty() =~= out@);
            }
            return Option::Some((out, j + 1));
        }
        if c == '\\' {
            if n - j < 2 {
                return Option::None;
            }
            let e = s.get_char(j + 1);
            if e == '"' {
                proof {
                    lemma_scan_prepend_step(out@, '"', scan_string(s@, j as int + 2));
                }
                out.push('"');
                j = j + 2;
            } else if e == '\\' {
                proof {
                    lemma_scan_prepend_step(out@, '\\', scan_string(s@, j as int + 2));
                }
                out.push('\\');
                j = j + 2;
            } else if e == 'u' {
                if n - j < 6 {
                    return Option::None;
                }
                if s.get_char(j + 2) != '0' || s.get_char(j + 3) != '0' {
                    return Option::None;
                }
                let h1 = match hex_val(s.get_char(j + 4)) {
                    Option::Some(v) => v,
                    Option::None => {
                        return Option::None;
                    },
                };
                let h2 = match hex_val(s.get_char(j + 5)) {
                    Option::Some(v) => v,
                    Option::None => {
                        return Option::None;
                    },
                };
                let v = h1 * 16 + h2;
                proof {
                    lemma_scan_prepend_step(
                        out@,
                        (((h1 * 16 + h2) as u8) as char),
                        scan_string(s@, j as int + 6),
                    );
                }
                out.push(((v as u8) as char));
                j = j + 6;
            } else {
                return Option::None;
            }
        } else {
            proof {
                lemma_scan_prepend_step(out@, s@[j as int], scan_string(s@, j as int + 1));
            }
            out.push(c);
            j = j + 1;
        }
    }
    Option::None
}

/// Prepending nothing changes nothing.
proof fn lemma_scan_prepend_empty(s: Seq<char>, j: int)
    ensures
        scan_prepend(Seq::<char>::empty(), scan_string(s, j)) == scan_string(s, j),
{
    match scan_string(s, j) {
        Option::Some(q) => {
            assert(Seq::<char>::empty() + q.0 =~= q.0);
        },
        Option::None => {},
    }
}

/// Prepending one more decoded character moves it across the cons.
proof fn lemma_scan_prepend_step(p: Seq<char>, c: char, rest: Option<(Seq<char>, int)>)
    ensures
        scan_prepend(p, scan_cons(c, rest)) == scan_prepend(p.push(c), rest),
{
    match rest {
        Option::Some(q) => {
            assert(p + (seq![c] + q.0) =~= p.push(c) + q.0);
        },
        Option::None => {},
    }
}

/// The escape image of a text starts with its first character's block.
proof fn lemma_escape_unfold_front(w: Seq<char>)
    requires
        w.len() > 0,
    ensures
        escape(w) == esc_char(w[0]) + escape(w.drop_first()),
    decreases w.len(),
{
    if w.len() == 1 {
        assert(w.drop_last() =~= Seq::<char>::empty());
        assert(w.drop_first() =~= Seq::<char>::empty());
        assert(escape(w) =~= esc_char(w[0]) + escape(w.drop_first()));
    } else {
        lemma_escape_unfold_front(w.drop_last());
        assert(w.drop_last()[0] == w[0]);
        assert(w.drop_last().drop_first() =~= w.drop_first().drop_last());
        assert(w.drop_first().last() == w.last());
        assert(escape(w) =~= esc_char(w[0]) + escape(w.drop_first()));
    }
}

/// Scanning the escape image of `w` followed by a closing quote decodes
/// exactly `w` and stops right after the quote.
proof fn lemma_scan_escape(s: Seq<char>, j: int, w: Seq<char>)
    requires
        0 <= j,
        j + escape(w).len() + 1 <= s.len(),
        s.subrange(j, j + escape(w).len() + 1) == escape(w) + seq!['"'],
    ensures
        scan_string(s, j) == Option::Some((w, j + escape(w).len() + 1)),
    decreases w.len(),
{
    let tail = escape(w) + seq!['"'];
    assert forall|p: int| 0 <= p < tail.len() implies s[j + p] == #[trigger] tail[p] by {
        assert(s.subrange(j, j + escape(w).len() + 1)[p] == s[j + p]);
    }
    if w.len() == 0 {
        assert(escape(w).len() == 0);
        assert(s[j + 0] == tail[0]);
        assert(s[j] == '"');
        assert(scan_string(s, j) == Option::Some((Seq::<char>::empty(), j + 1)));
        assert(Seq::<char>::empty() =~= w);
    } else {
        lemma_escape_unfold_front(w);
        let b = esc_char(w[0]);
        let w2 = w.drop_first();
        assert(escape(w).len() == b.len() + escape(w2).len());
        assert(s.subrange(j + b.len(), j + escape(w).len() + 1) =~= escape(w2) + seq!['"']) by {
            assert forall|p: int|
                0 <= p < escape(w2).len() + 1 implies s.subrange(
                j + b.len(),
                j + escape(w).len() + 1,
            )[p] == (escape(w2) + seq!['"'])[p] by {
                assert(s[j + b.len() + p] == tail[b.len() + p]);
                assert(tail[b.len() + p] == (escape(w2) + seq!['"'])[p]);
            }
        }
        lemma_scan_escape(s, j + b.len(), w2);
        let c = w[0];
        if c == '"' {
            assert(s[j + 0] == tail[0] && s[j + 1] == tail[1]);
            assert(tail[0] == b[0] && tail[1] == b[1]);
            assert(s[j] == '\\' && s[j + 1] == '"');
            assert(scan_string(s, j) == scan_cons('"', scan_string(s, j + 2)));
            assert(seq![c] + w2 =~= w);
        } else if c == '\\' {
            assert(s[j + 0] == tail[0] && s[j + 1] == tail[1]);
            assert(tail[0] == b[0] && tail[1] == b[1]);
            assert(s[j] == '\\' && s[j + 1] == '\\');
            assert(scan_string(s, j) == scan_cons('\\', scan_string(s, j + 2)));
            assert(seq![c] + w2 =~= w);
        } else if (c as u32) < 32 {
            let v = c as u32;
            assert(s[j + 0] == tail[0] && s[j + 1] == tail[1] && s[j + 2] == tail[2] && s[j + 3]
                == tail[3] && s[j + 4] == tail[4] && s[j + 5] == tail[5]);
            assert(tail[0] == b[0] && tail[1] == b[1] && tail[2] == b[2] && tail[3] == b[3]
                && tail[4] == b[4] && tail[5] == b[5]);
            assert(s[j] == '\\' && s[j + 1] == 'u' && s[j + 2] == '0' && s[j + 3] == '0');
            assert(s[j + 4] == hex_digit(v / 16) && s[j + 5] == hex_digit(v % 16));
            lemma_hex_roundtrip(v / 16);
            lemma_hex_roundtrip(v % 16);
            assert((v / 16) * 16 + v % 16 == v);
            vstd::utf8::char_u32_cast(c, v);
            assert((((v / 16) * 16 + v % 16) as u8) as char == c);
            assert(scan_string(s, j) == scan_cons(c, scan_string(s, j + 6)));
            assert(seq![c] + w2 =~= w);
        } else {
            assert(s[j + 0] == tail[0]);
            assert(tail[0] == b[0]);
            assert(s[j] == c);
            assert(scan_string(s, j) == scan_cons(c, scan_string(s, j + 1)));
            assert(seq![c] + w2 =~= w);
        }
    }
}

/// Parsing a canonical string literal yields exactly its content and
/// stops right after the closing quote.
proof fn lemma_parse_quoted(s: Seq<char>, i: int, w: Seq<char>)
    requires
        0 <= i,
        i + quoted(w).len() <= s.len(),
        s.subrange(i, i + quoted(w).len()) == quoted(w),
    ensures
        spec_parse_string(s, i) == Option::Some((w, i + quoted(w).len())),
{
    assert forall|p: int| 0 <= p < quoted(w).len() implies s[i + p] == #[trigger] quoted(w)[p] by {
        assert(s.subrange(i, i + quoted(w).len())[p] == s[i + p]);
    }
    assert(s[i + 0] == quoted(w)[0]);
    assert(s[i] == '"');
    assert(s.subrange(i + 1, i + 1 + escape(w).len() + 1) =~= escape(w) + seq!['"']) by {
        assert forall|p: int|
            0 <= p < escape(w).len() + 1 implies s.subrange(
            i + 1,
            i + 1 + escape(w).len() + 1,
        )[p] == (escape(w) + seq!['"'])[p] by {
            assert(s[i + 1 + p] == quoted(w)[1 + p]);
        }
    }
    lemma_scan_escape(s, i + 1, w);
}

/// Read a JSON boolean./// Read a JSON boolean.
fn parse_bool(s: &str, n: usize, i: usize) -> (r: Option<(bool, usize)>)
    requires
        n == s@.len(),
        i <= n,
    ensures
        r matches Some(p) ==> i <= p.1 <= n,
{
    match eat_lit(s, n, i, "true") {
        Option::Some(j) => Option::Some((true, j)),
        Option::None => match eat_lit(s, n, i, "false") {
            Option::Some(j) => Option::Some((false, j)),
            Option::None => Option::None,
        },
    }
}

/// Read an unsigned decimal number.
#[verifier::loop_isolation(false)]
fn parse_u64(s: &str, n: usize, i: usize) -> (r: Option<(u64, usize)>)
    requires
        n == s@.len(),
        i <= n,
    ensures
        r matches Some(p) ==> i <= p.1 <= n,
{
    let mut m: u64 = 0;
    let mut j: usize = i;
    let mut any = false;
    while j < n
        invariant
            i <= j <= n,
        decreases n - j,
    {
        let u = s.get_char(j) as u32;
        if 48 <= u && u <= 57 {
            let d: u64 = (u - 48) as u64;
            if m > (u64::MAX - d) / 10 {
                return Option::None;
            }
            proof {
                assert(m * 10 + d <= u64::MAX) by (nonlinear_arith)
                    requires
                        m <= (u64::MAX - d) / 10,
                        d <= 9,
                ;
            }
            m = m * 10 + d;
            any = true;
            j = j + 1;
        } else {
            break ;
        }
    }
    if any {
        Option::Some((m, j))
    } else {
        Option::None
    }
}

/// Read a signed decimal number in the range of `i64`.
fn parse_i64(s: &str, n: usize, i: usize) -> (r: Option<(i64, usize)>)
    requires
        n == s@.len(),
        i <= n,
    ensures
        r matches Some(p) ==> i <= p.1 <= n,
{
    let mut j: usize = i;
    let mut neg = false;
    if j < n && s.get_char(j) == '-' {
        neg = true;
        j = j + 1;
    }
    match parse_u64(s, n, j) {
        Option::None => Option::None,
        Option::Some((m, k)) => {
            if neg {
                if m > 9223372036854775808u64 {
                    Option::None
                } else if m == 9223372036854775808u64 {
                    Option::Some((i64::MIN, k))
                } else {
                    Option::Some((-(m as i64), k))
                }
            } else {
                if m > i64::MAX as u64 {
                    Option::None
                } else {
                    Option::Some((m as i64, k))
                }
            }
        },
    }
}

/// Read a stored column type.
fn parse_typ(s: &str, n: usize, i: usize) -> (r: Option<(DeferredSqlType, usize)>)
    requires
        n == s@.len(),
        i <= n,
    ensures
        r matches Some(p) ==> i <= p.1 <= n,
{
    match eat_lit(s, n, i, "{\"Known\":\"Bool\"}") {
        Option::Some(j) => {
            return Option::Some((DeferredSqlType::Known(SqlType::Bool), j));
        },
        Option::None => {},
    }
    match eat_lit(s, n, i, "{\"Known\":\"Int\"}") {
        Option::Some(j) => {
            return Option::Some((DeferredSqlType::Known(SqlType::Int), j));
        },
        Option::None => {},
    }
    match eat_lit(s, n, i, "{\"Known\":\"BigInt\"}") {
        Option::Some(j) => {
            return Option::Some((DeferredSqlType::Known(SqlType::BigInt), j));
        },
        Option::None => {},
    }
    match eat_lit(s, n, i, "{\"Known\":\"Real\"}") {
        Option::Some(j) => {
            return Option::Some((DeferredSqlType::Known(SqlType::Real), j));
        },
        Option::None => {},
    }
    match eat_lit(s, n, i, "{\"Known\":\"Text\"}") {
        Option::Some(j) => {
            return Option::Some((DeferredSqlType::Known(SqlType::Text), j));
        },
        Option::None => {},
    }
    match eat_lit(s, n, i, "{\"Known\":\"Blob\"}") {
        Option::Some(j) => {
            return Option::Some((DeferredSqlType::Known(SqlType::Blob), j));
        },
        Option::None => {},
    }
    match eat_lit(s, n, i, "{\"Known\":\"Timestamp\"}") {
        Option::Some(j) => {
            return Option::Some((DeferredSqlType::Known(SqlType::Timestamp), j));
        },
        Option::None => {},
    }
    match eat_lit(s, n, i, "{\"Deferred\":") {
        Option::Some(j) => {
            match parse_string(s, n, j) {
                Option::Some((key, k)) => {
                    match eat_lit(s, n, k, "}") {
                        Option::Some(l) => Option::Some((DeferredSqlType::Deferred(key), l)),
                        Option::None => Option::None,
                    }
                },
                Option::None => Option::None,
            }
        },
        Option::None => Option::None,
    }
}

/// Read an optional default value.
fn parse_default(s: &str, n: usize, i: usize) -> (r: Option<(Option<SqlVal>, usize)>)
    requires
        n == s@.len(),
        i <= n,
    ensures
        r matches Some(p) ==> i <= p.1 <= n,
{
    match eat_lit(s, n, i, "null") {
        Option::Some(j) => {
            return Option::Some((Option::None, j));
        },
        Option::None => {},
    }
    match eat_lit(s, n, i, "{\"Bool\":") {
        Option::Some(j) => {
            match parse_bool(s, n, j) {
                Option::Some((b, k)) => {
                    match eat_lit(s, n, k, "}") {
                        Option::Some(l) => {
                            return Option::Some((Option::Some(SqlVal::Bool(b)), l));
                        },
                        Option::None => {
                            return Option::None;
                        },
                    }
                },
                Option::None => {
                    return Option::None;
                },
            }
        },
        Option::None => {},
    }
    match eat_lit(s, n, i, "{\"Int\":") {
        Option::Some(j) => {
            match parse_i64(s, n, j) {
                Option::Some((v, k)) => {
                    match eat_lit(s, n, k, "}") {
                        Option::Some(l) => {
                            return Option::Some((Option::Some(SqlVal::Int(v)), l));
                        },
                        Option::None => {
                            return Option::None;
                        },
                    }
                },
                Option::None => {
                    return Option::None;
                },
            }
        },
        Option::None => {},
    }
    match eat_lit(s, n, i, "{\"Text\":") {
        Option::Some(j) => {
            match parse_string(s, n, j) {
                Option::Some((v, k)) => {
                    match eat_lit(s, n, k, "}") {
                        Option::Some(l) => {
                            return Option::Some((Option::Some(SqlVal::Text(v)), l));
                        },
                        Option::None => {
                            return Option::None;
                        },
                    }
                },
                Option::None => {
                    return Option::None;
                },
            }
        },
        Option::None => {},
    }
    Option::None
}

/// Read one column.
fn parse_col(s: &str, n: usize, i: usize) -> (r: Option<(AColumn, usize)>)
    requires
        n == s@.len(),
        i <= n,
    ensures
        r matches Some(p) ==> i < p.1 <= n,
{
    let j1 = match eat_lit(s, n, i, "{\"name\":") {
        Option::Some(j) => j,
        Option::None => {
            return Option::None;
        },
    };
    let (name, j2) = match parse_string(s, n, j1) {
        Option::Some(p) => p,
        Option::None => {
            return Option::None;
        },
    };
    let j3 = match eat_lit(s, n, j2, ",\"sqltype\":") {
        Option::Some(j) => j,
        Option::None => {
            return Option::None;
        },
    };
    let (sqltype, j4) = match parse_typ(s, n, j3) {
        Option::Some(p) => p,
        Option::None => {
            return Option::None;
        },
    };
    let j5 = match eat_lit(s, n, j4, ",\"nullable\":") {
        Option::Some(j) => j,
        Option::None => {
            return Option::None;
        },
    };
    let (nullable, j6) = match parse_bool(s, n, j5) {
        Option::Some(p) => p,
        Option::None => {
            return Option::None;
        },
    };
    let j7 = match eat_lit(s, n, j6, ",\"pk\":") {
        Option::Some(j) => j,
        Option::None => {
            return Option::None;
        },
    };
    let (pk, j8) = match parse_bool(s, n, j7) {
        Option::Some(p) => p,
        Option::None => {
            return Option::None;
        },
    };
    let j9 = match eat_lit(s, n, j8, ",\"auto\":") {
        Option::Some(j) => j,
        Option::None => {
            return Option::None;
        },
    };
    let (auto, j10) = match parse_bool(s, n, j9) {
        Option::Some(p) => p,
        Option::None => {
            return Option::None;
        },
    };
    let j11 = match eat_lit(s, n, j10, ",\"default\":") {
        Option::Some(j) => j,
        Option::None => {
            return Option::None;
        },
    };
    let (default, j12) = match parse_default(s, n, j11) {
        Option::Some(p) => p,
        Option::None => {
            return Option::None;
        },
    };
    let j13 = match eat_lit(s, n, j12, "}") {
        Option::Some(j) => j,
        Option::None => {
            return Option::None;
        },
    };
    Option::Some((AColumn { name, sqltype, nullable, pk, auto, default }, j13))
}

/// Attempt to read a whole `.table` text; the caller re-serializes the
/// candidate and keeps it only when the texts agree.
#[verifier::loop_isolation(false)]
fn parse_table_attempt(s: &str) -> (r: Option<ATable>) {
    let n = s.unicode_len();
    let i0 = match eat_lit(s, n, 0, "{\"name\":") {
        Option::Some(j) => j,
        Option::None => {
            return Option::None;
        },
    };
    let (name, i1) = match parse_string(s, n, i0) {
        Option::Some(p) => p,
        Option::None => {
            return Option::None;
        },
    };
    let mut i = match eat_lit(s, n, i1, ",\"columns\":[") {
        Option::Some(j) => j,
        Option::None => {
            return Option::None;
        },
    };
    let mut columns: Vec<AColumn> = Vec::new();
    match eat_lit(s, n, i, "]}") {
        Option::Some(j) => {
            if j == n {
                return Option::Some(ATable { name, columns });
            } else {
                return Option::None;
            }
        },
        Option::None => {},
    }
    loop
        invariant
            i <= n,
            n == s@.len(),
        decreases n - i,
    {
        let (col, j) = match parse_col(s, n, i) {
            Option::Some(p) => p,
            Option::None => {
                return Option::None;
            },
        };
        columns.push(col);
        i = j;
        match eat_lit(s, n, i, ",") {
            Option::Some(k) => {
                if k == i {
                    return Option::None;
                }
                i = k;
            },
            Option::None => {
                match eat_lit(s, n, i, "]}") {
                    Option::Some(k) => {
                        if k == n {
                            return Option::Some(ATable { name, columns });
                        } else {
                            return Option::None;
                        }
                    },
                    Option::None => {
                        return Option::None;
                    },
                }
            },
        }
    }
}

/// Read a `.table` text. The result is accepted only when it is exactly
/// the canonical serialization of the returned table, so a successful
/// read pins the text down completely.
pub fn parse_table(s: &str) -> (r: Option<ATable>)
    ensures
        r matches Some(t) ==> s@ == json_table(t@),
{
    match parse_table_attempt(s) {
        Option::None => Option::None,
        Option::Some(t) => {
            let ser = table_json(&t);
            if str_eq(ser.as_str(), s) {
                Option::Some(t)
            } else {
                Option::None
            }
        },
    }
}

/// Three-way concatenations index their parts.
proof fn lemma_split3(s: Seq<char>, a: Seq<char>, b: Seq<char>, c: Seq<char>)
    requires
        s == a + b + c,
    ensures
        s.len() == a.len() + b.len() + c.len(),
        s.subrange(0, a.len() as int) == a,
        s.subrange(a.len() as int, a.len() as int + b.len() as int) == b,
        s.subrange(a.len() as int + b.len() as int, s.len() as int) == c,
{
    assert(s.subrange(0, a.len() as int) =~= a);
    assert(s.subrange(a.len() as int, a.len() as int + b.len() as int) =~= b);
    assert(s.subrange(a.len() as int + b.len() as int, s.len() as int) =~= c);
}

/// Attempt to read an optional-name object with the given opening text.
/// A canonical text is always accepted and yields its exact value.
#[verifier::rlimit(60)]
fn parse_opt_name_attempt(s: &str, open: &str) -> (r: Option<Option<String>>)
    ensures
        s@ == open@ + json_opt_name(Option::None) + "}"@ ==> (r matches Some(u) && u is None),
        forall|x: Seq<char>|
            s@ == open@ + json_opt_name(Option::Some(x)) + "}"@ ==> (r matches Some(u) && (u
                matches Some(us) && us@ == x)),
{
    proof {
        reveal_strlit("null");
        reveal_strlit("null}");
        reveal_strlit("}");
    }
    let n = s.unicode_len();
    let i0 = match eat_lit(s, n, 0, open) {
        Option::Some(j) => j,
        Option::None => {
            proof {
                if s@ == open@ + json_opt_name(Option::<Seq<char>>::None) + "}"@ {
                    lemma_split3(s@, open@, json_opt_name(Option::None), "}"@);
                }
                assert forall|x: Seq<char>|
                    s@ == open@ + json_opt_name(Option::Some(x)) + "}"@ implies false by {
                    lemma_split3(s@, open@, json_opt_name(Option::Some(x)), "}"@);
                }
            }
            return Option::None;
        },
    };
    match eat_lit(s, n, i0, "null}") {
        Option::Some(j) => {
            if j == n {
                proof {
                    assert forall|x: Seq<char>|
                        s@ == open@ + json_opt_name(Option::Some(x)) + "}"@ implies false by {
                        lemma_split3(s@, open@, json_opt_name(Option::Some(x)), "}"@);
                        assert(s@[i0 as int] == quoted(x)[0]);
                        assert(s@.subrange(i0 as int, j as int) == "null}"@);
                        assert(s@[i0 as int] == "null}"@[0]);
                    }
                }
                return Option::Some(Option::None);
            } else {
                proof {
                    if s@ == open@ + json_opt_name(Option::<Seq<char>>::None) + "}"@ {
                        lemma_split3(s@, open@, json_opt_name(Option::None), "}"@);
                        assert("null"@ + "}"@ =~= "null}"@);
                    }
                    assert forall|x: Seq<char>|
                        s@ == open@ + json_opt_name(Option::Some(x)) + "}"@ implies false by {
                        lemma_split3(s@, open@, json_opt_name(Option::Some(x)), "}"@);
                        assert(s@[i0 as int] == quoted(x)[0]);
                        assert(s@.subrange(i0 as int, j as int) == "null}"@);
                        assert(s@[i0 as int] == "null}"@[0]);
                    }
                }
                return Option::None;
            }
        },
        Option::None => {
            proof {
                if s@ == open@ + json_opt_name(Option::<Seq<char>>::None) + "}"@ {
                    lemma_split3(s@, open@, json_opt_name(Option::None), "}"@);
                    assert(s@.subrange(i0 as int, i0 + 5) =~= "null"@ + "}"@);
                    assert("null"@ + "}"@ =~= "null}"@);
                }
            }
        },
    }
    let (name, i1) = match parse_string(s, n, i0) {
        Option::Some(p) => p,
        Option::None => {
            proof {
                assert forall|x: Seq<char>|
                    s@ == open@ + json_opt_name(Option::Some(x)) + "}"@ implies false by {
                    lemma_split3(s@, open@, json_opt_name(Option::Some(x)), "}"@);
                    lemma_parse_quoted(s@, i0 as int, x);
                }
            }
            return Option::None;
        },
    };
    match eat_lit(s, n, i1, "}") {
        Option::Some(j) => {
            if j == n {
                proof {
                    assert forall|x: Seq<char>|
                        s@ == open@ + json_opt_name(Option::Some(x)) + "}"@ implies name@
                        == x by {
                        lemma_split3(s@, open@, json_opt_name(Option::Some(x)), "}"@);
                        lemma_parse_quoted(s@, i0 as int, x);
                    }
                }
                Option::Some(Option::Some(name))
            } else {
                proof {
                    assert forall|x: Seq<char>|
                        s@ == open@ + json_opt_name(Option::Some(x)) + "}"@ implies false by {
                        lemma_split3(s@, open@, json_opt_name(Option::Some(x)), "}"@);
                        lemma_parse_quoted(s@, i0 as int, x);
                    }
                }
                Option::None
            }
        },
        Option::None => {
            proof {
                assert forall|x: Seq<char>|
                    s@ == open@ + json_opt_name(Option::Some(x)) + "}"@ implies false by {
                    lemma_split3(s@, open@, json_opt_name(Option::Some(x)), "}"@);
                    lemma_parse_quoted(s@, i0 as int, x);
                    assert(s@.subrange(i1 as int, i1 as int + 1) == "}"@);
                }
            }
            Option::None
        },
    }
}

/// Law: a JSON string literal determines its content. Two texts that
/// quote to the same literal are the same text, because the scanner is
/// a function of the literal.
pub proof fn lemma_quoted_injective(a: Seq<char>, b: Seq<char>)
    requires
        quoted(a) == quoted(b),
    ensures
        a == b,
{
    let s = quoted(a);
    assert(s.subrange(0, quoted(a).len() as int) =~= quoted(a));
    lemma_parse_quoted(s, 0, a);
    lemma_parse_quoted(s, 0, b);
}

/// Law: the canonical predecessor record determines the name it stores.
pub proof fn lemma_json_info_injective(a: Seq<char>, b: Seq<char>)
    requires
        json_info(Option::Some(a)) == json_info(Option::Some(b)),
    ensures
        a == b,
{
    lemma_split3(json_info(Option::Some(a)), "{\"from_name\":"@, quoted(a), "}"@);
    lemma_split3(json_info(Option::Some(b)), "{\"from_name\":"@, quoted(b), "}"@);
    assert(quoted(a).len() == quoted(b).len());
    assert(quoted(a) == quoted(b));
    lemma_quoted_injective(a, b);
}

/// Law: the null predecessor record differs from every named one.
pub proof fn lemma_json_info_forms_distinct(x: Seq<char>)
    ensures
        json_info(Option::None) != json_info(Option::Some(x)),
{
    reveal_strlit("{\"from_name\":");
    reveal_strlit("null");
    let a = json_info(Option::<Seq<char>>::None);
    let b = json_info(Option::Some(x));
    assert(a[13] == "null"@[0]);
    assert(b[13] == quoted(x)[0]);
    assert(quoted(x)[0] == '"');
    assert(a[13] != b[13]);
}

/// Read an `info.json` text: the predecessor pointer. A successful read
/// returns exactly the value whose canonical text this is, and every
/// canonical text is read successfully.
pub fn parse_info(s: &str) -> (r: Option<Option<String>>)
    ensures
        r matches Some(f) ==> s@ == json_info(opt_name_view(f)),
        forall|l: Option<Seq<char>>|
            s@ == json_info(l) ==> (r matches Some(u) && opt_name_view(u) == l),
{
    match parse_opt_name_attempt(s, "{\"from_name\":") {
        Option::None => {
            proof {
                assert forall|l: Option<Seq<char>>| s@ == json_info(l) implies false by {
                    match l {
                        Option::Some(x) => {
                            assert(s@ == "{\"from_name\":"@ + json_opt_name(Option::Some(x))
                                + "}"@);
                        },
                        Option::None => {
                            assert(s@ == "{\"from_name\":"@ + json_opt_name(
                                Option::<Seq<char>>::None,
                            ) + "}"@);
                        },
                    }
                }
            }
            Option::None
        },
        Option::Some(f) => {
            let ser = info_json(&f);
            if str_eq(ser.as_str(), s) {
                proof {
                    assert forall|l: Option<Seq<char>>| s@ == json_info(l) implies opt_name_view(
                        f,
                    ) == l by {
                        match l {
                            Option::Some(x) => {
                                assert(s@ == "{\"from_name\":"@ + json_opt_name(Option::Some(x))
                                    + "}"@);
                            },
                            Option::None => {
                                assert(s@ == "{\"from_name\":"@ + json_opt_name(
                                    Option::<Seq<char>>::None,
                                ) + "}"@);
                            },
                        }
                    }
                }
                Option::Some(f)
            } else {
                proof {
                    assert forall|l: Option<Seq<char>>| s@ == json_info(l) implies false by {
                        match l {
                            Option::Some(x) => {
                                assert(s@ == "{\"from_name\":"@ + json_opt_name(Option::Some(x))
                                    + "}"@);
                            },
                            Option::None => {
                                assert(s@ == "{\"from_name\":"@ + json_opt_name(
                                    Option::<Seq<char>>::None,
                                ) + "}"@);
                            },
                        }
                        assert(ser@ == json_info(opt_name_view(f)));
                        assert(ser@ == s@);
                    }
                }
                Option::None
            }
        },
    }
}

/// Read a `state.json` text: the chain tip. A successful read returns
/// exactly the value whose canonical text this is, and every canonical
/// text is read successfully.
pub fn parse_state(s: &str) -> (r: Option<Option<String>>)
    ensures
        r matches Some(l) ==> s@ == json_state(opt_name_view(l)),
        forall|l: Option<Seq<char>>|
            s@ == json_state(l) ==> (r matches Some(u) && opt_name_view(u) == l),
{
    match parse_opt_name_attempt(s, "{\"latest\":") {
        Option::None => {
            proof {
                assert forall|l: Option<Seq<char>>| s@ == json_state(l) implies false by {
                    match l {
                        Option::Some(x) => {
                            assert(s@ == "{\"latest\":"@ + json_opt_name(Option::Some(x)) + "}"@);
                        },
                        Option::None => {
                            assert(s@ == "{\"latest\":"@ + json_opt_name(
                                Option::<Seq<char>>::None,
                            ) + "}"@);
                        },
                    }
                }
            }
            Option::None
        },
        Option::Some(l) => {
            let ser = state_json(&l);
            if str_eq(ser.as_str(), s) {
                proof {
                    assert forall|w: Option<Seq<char>>| s@ == json_state(w) implies opt_name_view(
                        l,
                    ) == w by {
                        match w {
                            Option::Some(x) => {
                                assert(s@ == "{\"latest\":"@ + json_opt_name(Option::Some(x))
                                    + "}"@);
                            },
                            Option::None => {
                                assert(s@ == "{\"latest\":"@ + json_opt_name(
                                    Option::<Seq<char>>::None,
                                ) + "}"@);
                            },
                        }
                    }
                }
                Option::Some(l)
            } else {
                proof {
                    assert forall|w: Option<Seq<char>>| s@ == json_state(w) implies false by {
                        match w {
                            Option::Some(x) => {
                                assert(s@ == "{\"latest\":"@ + json_opt_name(Option::Some(x))
                                    + "}"@);
                            },
                            Option::None => {
                                assert(s@ == "{\"latest\":"@ + json_opt_name(
                                    Option::<Seq<char>>::None,
                                ) + "}"@);
                            },
                        }
                        assert(ser@ == json_state(opt_name_view(l)));
                        assert(ser@ == s@);
                    }
                }
                Option::None
            }
        },
    }
}

} // verus!
