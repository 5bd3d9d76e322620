//! JSON values as the launcher and the Toggl API exchange them, and the
//! compact JSON text this library writes.

use vstd::prelude::*;
use crate::text::{chars_of, str_eq, dec_int, fmt_i64, push_all};

verus! {

/// A JSON value. Numbers are kept as integers where they are integers
/// (`Int`, within `i64::MIN..=u64::MAX`); any other number is `Float`.
/// An object keeps its members in order, each key once.

pub enum Json {
    Null,
    Bool(bool),
    Int(i128),
    Float,
    Str(String),
    Array(Vec<Json>),
    Object(Vec<(String, Json)>),
}

/// The value of the first member of `fields` named `key`.
pub open spec fn field(fields: Seq<(String, Json)>, key: Seq<char>) -> Option<Json>
    decreases fields.len(),
{
    if fields.len() == 0 {
        None
    } else if fields[0].0@ == key {
        Some(fields[0].1)
    } else {
        field(fields.drop_first(), key)
    }
}

/// What `Value::get(key)` gives: the member `key` of an object, `None` for
/// any other value.
pub open spec fn spec_get(j: Json, key: Seq<char>) -> Option<Json> {
    match j {
        Json::Object(fs) => field(fs@, key),
        _ => None,
    }
}

/// What `Value::as_i64` gives on an optional value.
pub open spec fn spec_as_i64(j: Option<Json>) -> Option<i64> {
    match j {
        Some(Json::Int(n)) => if i64::MIN <= n <= i64::MAX {
            Some(n as i64)
        } else {
            None
        },
        _ => None,
    }
}

/// What `Value::as_u64` gives on an optional value.
pub open spec fn spec_as_u64(j: Option<Json>) -> Option<u64> {
    match j {
        Some(Json::Int(n)) => if 0 <= n <= u64::MAX {
            Some(n as u64)
        } else {
            None
        },
        _ => None,
    }
}

/// What `Value::as_str` gives on an optional value, by its characters.
pub open spec fn spec_as_str(j: Option<Json>) -> Option<Seq<char>> {
    match j {
        Some(Json::Str(s)) => Some(s@),
        _ => None,
    }
}

/// The member `key` of an object.
pub fn get<'a>(j: &'a Json, key: &str) -> (r: Option<&'a Json>)
    ensures
        match r {
            Some(v) => spec_get(*j, key@) == Some(*v),
            None => spec_get(*j, key@) is None,
        },
{
    match j {
        Json::Object(fields) => {
            let mut i: usize = 0;
            assert(fields@.skip(0) == fields@);
            while i < fields.len()
                invariant
                    i <= fields.len(),
                    spec_get(*j, key@) == field(fields@, key@),
                    field(fields@, key@) == field(fields@.skip(i as int), key@),
                decreases fields.len() - i,
            {
                assert(fields@.skip(i as int).drop_first() == fields@.skip(i + 1));
                assert(fields@.skip(i as int)[0] == fields@[i as int]);
                if str_eq(fields[i].0.as_str(), key) {
                    return Some(&fields[i].1);
                }
                i = i + 1;
            }
            None
        },
        _ => None,
    }
}

/// The member `key` of an object, if it is an integer within `i64`.
pub fn get_i64(j: &Json, key: &str) -> (r: Option<i64>)
    ensures
        r == spec_as_i64(spec_get(*j, key@)),
{
    match get(j, key) {
        Some(Json::Int(n)) => {
            if -9223372036854775808i128 <= *n && *n <= 9223372036854775807i128 {
                Some(*n as i64)
            } else {
                None
            }
        },
        _ => None,
    }
}

/// The member `key` of an object, if it is an integer within `u64`.
pub fn get_u64(j: &Json, key: &str) -> (r: Option<u64>)
    ensures
        r == spec_as_u64(spec_get(*j, key@)),
{
    match get(j, key) {
        Some(Json::Int(n)) => {
            if 0i128 <= *n && *n <= 18446744073709551615i128 {
                Some(*n as u64)
            } else {
                None
            }
        },
        _ => None,
    }
}

/// The member `key` of an object, if it is a string.
pub fn get_str<'a>(j: &'a Json, key: &str) -> (r: Option<&'a String>)
    ensures
        match r {
            Some(s) => spec_as_str(spec_get(*j, key@)) == Some(s@),
            None => spec_as_str(spec_get(*j, key@)) is None,
        },
{
    match get(j, key) {
        Some(Json::Str(s)) => Some(s),
        _ => None,
    }
}

/// The lowercase hexadecimal digit for `d` (below sixteen).
pub open spec fn hex_digit(d: int) -> char {
    if d < 10 {
        (d + 48) as char
    } else {
        (d + 87) as char
    }
}

/// How a JSON string writes `c`: quote, backslash and control characters
/// escaped, everything else as it is.
pub open spec fn escape_char(c: char) -> Seq<char> {
    if c == '"' {
        seq!['\\', '"']
    } else if c == '\\' {
        seq!['\\', '\\']
    } else if c == '\u{8}' {
        seq!['\\', 'b']
    } else if c == '\u{c}' {
        seq!['\\', 'f']
    } else if c == '\n' {
        seq!['\\', 'n']
    } else if c == '\r' {
        seq!['\\', 'r']
    } else if c == '\t' {
        seq!['\\', 't']
    } else if (c as u32) < 0x20 {
        seq!['\\', 'u', '0', '0', hex_digit((c as u32) as int / 16), hex_digit((c as u32) as int % 16)]
    } else {
        seq![c]
    }
}

/// Each character of `s` as a JSON string writes it.
pub open spec fn escape_seq(s: Seq<char>) -> Seq<char>
    decreases s.len(),
{
    if s.len() == 0 {
        Seq::empty()
    } else {
        escape_seq(s.drop_last()) + escape_char(s.last())
    }
}

/// `s` as a JSON string literal.
pub open spec fn json_str(s: Seq<char>) -> Seq<char> {
    seq!['"'] + escape_seq(s) + seq!['"']
}

/// Appends `c` as a JSON string writes it.
fn push_escaped(out: &mut Vec<char>, c: char)
    ensures
        final(out)@ == old(out)@ + escape_char(c),
{
    let ghost start = out@;
    if c == '"' {
        out.push('\\');
        out.push('"');
    } else if c == '\\' {
        out.push('\\');
        out.push('\\');
    } else if c == '\u{8}' {
        out.push('\\');
        out.push('b');
    } else if c == '\u{c}' {
        out.push('\\');
        out.push('f');
    } else if c == '\n' {
        out.push('\\');
        out.push('n');
    } else if c == '\r' {
        out.push('\\');
        out.push('r');
    } else if c == '\t' {
        out.push('\\');
        out.push('t');
    } else if (c as u32) < 0x20 {
        let code = c as u32;
        let hi = code / 16;
        let lo = code % 16;
        out.push('\\');
        out.push('u');
        out.push('0');
        out.push('0');
        out.push(((hi as u8) + 48u8) as char);
        let lc = if lo < 10 {
            ((lo as u8) + 48u8) as char
        } else {
            ((lo as u8) + 87u8) as char
        };
        out.push(lc);
        assert(out@ == start + escape_char(c));
    } else {
        out.push(c);
    }
    assert(out@ == start + escape_char(c));
}

/// Appends `s` as a JSON string literal.
pub fn push_json_str(out: &mut Vec<char>, s: &str)
    ensures
        final(out)@ == old(out)@ + json_str(s@),
{
    let ghost start = out@;
    let v = chars_of(s);
    out.push('"');
    let mut i: usize = 0;
    while i < v.len()
        invariant
            i <= v.len(),
            out@ == start + seq!['"'] + escape_seq(v@.take(i as int)),
        decreases v.len() - i,
    {
        assert(v@.take(i + 1).drop_last() == v@.take(i as int));
        push_escaped(out, v[i]);
        i = i + 1;
    }
    assert(v@.take(v.len() as int) == v@);
    out.push('"');
    assert(out@ == start + json_str(s@));
}

/// Appends `n` in decimal.
pub fn push_int(out: &mut Vec<char>, n: i64)
    ensures
        final(out)@ == old(out)@ + dec_int(n as int),
{
    let d = fmt_i64(n);
    push_all(out, &d);
}

} // verus!
