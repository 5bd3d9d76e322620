//! Timestamps: the `start` stamp of a new timer and the elapsed time of a
//! running one. Reading the clock and parsing RFC 3339 are done by `time`.

use vstd::prelude::*;
use crate::text::{dec_int, digit_char, fmt_i64, push_all, string_of};

verus! {

/// The largest magnitude, in nanoseconds from the Unix epoch, of an instant
/// that `time` represents (years -9999 to 9999, offsets below a day).
pub open spec fn instant_bound() -> int {
    0x20_0000_0000_0000_0000
}

/// The Unix timestamp in nanoseconds of the instant that RFC 3339 text `s`
/// denotes, or `None` when `s` is not RFC 3339.
pub uninterp spec fn spec_rfc3339_nanos(s: Seq<char>) -> Option<int>;

/// Calls `OffsetDateTime::parse(s, &Rfc3339)` of `time` and, on success,
/// `unix_timestamp_nanos`. The contract claims that the result depends on `s`
/// alone (named `spec_rfc3339_nanos`) and lies within the years `time`
/// represents.
#[verifier::external_body]
pub fn parse_rfc3339_nanos(s: &str) -> (r: Option<i128>)
    ensures
        r matches Some(n) ==> -instant_bound() < n < instant_bound(),
        match r {
            Some(n) => spec_rfc3339_nanos(s@) == Some(n as int),
            None => spec_rfc3339_nanos(s@) is None,
        },
{
    time::OffsetDateTime::parse(s, &time::format_description::well_known::Rfc3339)
        .ok()
        .map(|t| t.unix_timestamp_nanos())
}

/// Calls `OffsetDateTime::now_utc().unix_timestamp_nanos()` of `time`. The
/// clock decides the value; the contract claims only that it lies within the
/// years `time` represents.
#[verifier::external_body]
pub fn now_unix_nanos() -> (r: i128)
    ensures
        -instant_bound() < r < instant_bound(),
{
    time::OffsetDateTime::now_utc().unix_timestamp_nanos()
}

/// The current UTC date and time as (year, month, day, hour, minute, second).
pub struct UtcFields {
    pub year: i32,
    pub month: u8,
    pub day: u8,
    pub hour: u8,
    pub minute: u8,
    pub second: u8,
}

/// Whether the fields lie in the ranges `time` documents for them.
pub open spec fn fields_in_range(f: UtcFields) -> bool {
    &&& -9999 <= f.year <= 9999
    &&& 1 <= f.month <= 12
    &&& 1 <= f.day <= 31
    &&& f.hour <= 23
    &&& f.minute <= 59
    &&& f.second <= 59
}

/// Calls `OffsetDateTime::now_utc()` of `time` and reads its calendar fields.
/// The clock decides them; the contract claims only the documented ranges.
#[verifier::external_body]
pub fn now_utc_fields() -> (r: UtcFields)
    ensures
        fields_in_range(r),
{
    let t = time::OffsetDateTime::now_utc();
    UtcFields {
        year: t.year(),
        month: u8::from(t.month()),
        day: t.day(),
        hour: t.hour(),
        minute: t.minute(),
        second: t.second(),
    }
}

/// `n` (below 100) in two digits.
pub open spec fn two_digits(n: int) -> Seq<char> {
    seq![digit_char(n / 10), digit_char(n % 10)]
}

/// A year as `time`'s `[year]` writes it: a `-` when negative, then at least
/// four digits.
pub open spec fn year_digits(y: int) -> Seq<char> {
    let a = if y < 0 {
        -y
    } else {
        y
    };
    let digits = seq![digit_char(a / 1000), digit_char(a / 100 % 10), digit_char(a / 10 % 10), digit_char(a % 10)];
    if y < 0 {
        seq!['-'] + digits
    } else {
        digits
    }
}

/// `YYYY-MM-DDTHH:MM:SSZ` for the given fields.
pub open spec fn spec_timestamp(f: UtcFields) -> Seq<char> {
    year_digits(f.year as int) + seq!['-'] + two_digits(f.month as int) + seq!['-'] + two_digits(
        f.day as int,
    ) + seq!['T'] + two_digits(f.hour as int) + seq![':'] + two_digits(f.minute as int) + seq![':']
        + two_digits(f.second as int) + seq!['Z']
}

fn push_digit(out: &mut Vec<char>, d: u32)
    requires
        d < 10,
    ensures
        final(out)@ == old(out)@.push(digit_char(d as int)),
{
    out.push(((d as u8) + 48u8) as char);
}

fn push_two(out: &mut Vec<char>, n: u8)
    requires
        n < 100,
    ensures
        final(out)@ == old(out)@ + two_digits(n as int),
{
    let ghost start = out@;
    push_digit(out, (n / 10) as u32);
    push_digit(out, (n % 10) as u32);
    assert(out@ == start + two_digits(n as int));
}

/// The fields as `YYYY-MM-DDTHH:MM:SSZ`.
pub fn format_timestamp(f: &UtcFields) -> (r: String)
    requires
        fields_in_range(*f),
    ensures
        r@ == spec_timestamp(*f),
{
    let mut out: Vec<char> = Vec::new();
    let a: u32 = if f.year < 0 {
        (-f.year) as u32
    } else {
        f.year as u32
    };
    if f.year < 0 {
        out.push('-');
    }
    let ghost sign = out@;
    push_digit(&mut out, a / 1000);
    push_digit(&mut out, a / 100 % 10);
    push_digit(&mut out, a / 10 % 10);
    push_digit(&mut out, a % 10);
    assert(out@ == year_digits(f.year as int));
    out.push('-');
    push_two(&mut out, f.month);
    out.push('-');
    push_two(&mut out, f.day);
    out.push('T');
    push_two(&mut out, f.hour);
    out.push(':');
    push_two(&mut out, f.minute);
    out.push(':');
    push_two(&mut out, f.second);
    out.push('Z');
    string_of(&out)
}

/// Current UTC time as `YYYY-MM-DDTHH:MM:SSZ` (the `start` format of Toggl).
pub fn now_rfc3339() -> (r: String)
    ensures
        exists|f: UtcFields| fields_in_range(f) && r@ == spec_timestamp(f),
{
    let f = now_utc_fields();
    let r = format_timestamp(&f);
    assert(fields_in_range(f) && r@ == spec_timestamp(f));
    r
}

/// For a year from 0 on, the start stamp is `YYYY-MM-DDTHH:MM:SSZ`: twenty
/// characters, the separators in place and the rest digits.
pub proof fn law_timestamp_shape(f: UtcFields)
    requires
        fields_in_range(f),
        0 <= f.year,
    ensures
        spec_timestamp(f).len() == 20,
        spec_timestamp(f)[4] == '-' && spec_timestamp(f)[7] == '-',
        spec_timestamp(f)[10] == 'T' && spec_timestamp(f)[19] == 'Z',
        spec_timestamp(f)[13] == ':' && spec_timestamp(f)[16] == ':',
        forall|i: int|
            0 <= i < 20 && i != 4 && i != 7 && i != 10 && i != 13 && i != 16 && i != 19
                ==> crate::text::is_digit(#[trigger] spec_timestamp(f)[i]),
{
    let t = spec_timestamp(f);
    let y = f.year as int;
    assert(0 <= y / 1000 < 10 && 0 <= y / 100 % 10 < 10 && 0 <= y / 10 % 10 < 10 && 0 <= y % 10 < 10);
    assert(t =~= seq![
        digit_char(y / 1000), digit_char(y / 100 % 10), digit_char(y / 10 % 10), digit_char(y % 10),
        '-', digit_char(f.month as int / 10), digit_char(f.month as int % 10),
        '-', digit_char(f.day as int / 10), digit_char(f.day as int % 10),
        'T', digit_char(f.hour as int / 10), digit_char(f.hour as int % 10),
        ':', digit_char(f.minute as int / 10), digit_char(f.minute as int % 10),
        ':', digit_char(f.second as int / 10), digit_char(f.second as int % 10),
        'Z',
    ]);
}

/// `a / b` rounded toward zero, as Rust divides integers (`b` positive).
pub open spec fn trunc_div(a: int, b: int) -> int {
    if a >= 0 {
        a / b
    } else {
        -((-a) / b)
    }
}

/// The remainder that goes with [`trunc_div`]: it takes the sign of `a`.
pub open spec fn trunc_rem(a: int, b: int) -> int {
    a - b * trunc_div(a, b)
}

/// An integer as `{:02}` writes it: at least two characters, zero-padded.
pub open spec fn pad2(m: int) -> Seq<char> {
    if 0 <= m < 10 {
        seq!['0', digit_char(m)]
    } else {
        dec_int(m)
    }
}

/// The elapsed time from `start` to `now` (nanoseconds) as text: `?` when
/// there is no start, else whole seconds split into hours and minutes,
/// `1h 05m` with hours and `42m` without.
pub open spec fn spec_elapsed(start: Option<int>, now: int) -> Seq<char> {
    match start {
        None => seq!['?'],
        Some(s) => {
            let secs = trunc_div(now - s, 1_000_000_000);
            let h = trunc_div(secs, 3600);
            let m = trunc_div(trunc_rem(secs, 3600), 60);
            if h != 0 {
                dec_int(h) + seq!['h', ' '] + pad2(m) + seq!['m']
            } else {
                dec_int(m) + seq!['m']
            }
        },
    }
}

/// `a / b` rounded toward zero.
fn div_toward_zero(a: i128, b: i128) -> (r: i128)
    requires
        b > 0,
        -0x1000_0000_0000_0000_0000_0000 < a < 0x1000_0000_0000_0000_0000_0000,
    ensures
        r == trunc_div(a as int, b as int),
{
    if a >= 0 {
        a / b
    } else {
        -((-a) / b)
    }
}

/// The elapsed time from `start` to `now` as text.
pub fn elapsed_text(start: Option<i128>, now: i128) -> (r: String)
    requires
        start matches Some(s) ==> -instant_bound() < s < instant_bound(),
        -instant_bound() < now < instant_bound(),
    ensures
        r@ == spec_elapsed(
            match start {
                Some(s) => Some(s as int),
                None => None,
            },
            now as int,
        ),
{
    match start {
        None => {
            let mut out: Vec<char> = Vec::new();
            out.push('?');
            string_of(&out)
        },
        Some(s) => {
            let secs = div_toward_zero(now - s, 1_000_000_000);
            assert(-0x1_0000_0000_0000 < secs < 0x1_0000_0000_0000) by (nonlinear_arith)
                requires
                    secs == trunc_div((now - s) as int, 1_000_000_000),
                    -0x40_0000_0000_0000_0000 < now - s < 0x40_0000_0000_0000_0000,
            ;
            let h = div_toward_zero(secs, 3600);
            let rem = secs - 3600 * h;
            assert(-3600 < rem < 3600) by (nonlinear_arith)
                requires
                    h == trunc_div(secs as int, 3600),
                    rem == secs - 3600 * h,
            ;
            let m = div_toward_zero(rem, 60);
            assert(-60 < m < 60) by (nonlinear_arith)
                requires
                    m == trunc_div(rem as int, 60),
                    -3600 < rem < 3600,
            ;
            assert(-0x1_0000_0000_0000 < h < 0x1_0000_0000_0000) by (nonlinear_arith)
                requires
                    h == trunc_div(secs as int, 3600),
                    -0x1_0000_0000_0000 < secs < 0x1_0000_0000_0000,
            ;
            let mut out: Vec<char> = Vec::new();
            if h != 0 {
                let hd = fmt_i64(h as i64);
                push_all(&mut out, &hd);
                out.push('h');
                out.push(' ');
                if 0 <= m && m < 10 {
                    out.push('0');
                    push_digit(&mut out, m as u32);
                } else {
                    let md = fmt_i64(m as i64);
                    push_all(&mut out, &md);
                }
                out.push('m');
            } else {
                let md = fmt_i64(m as i64);
                push_all(&mut out, &md);
                out.push('m');
            }
            string_of(&out)
        },
    }
}

/// Human-readable time elapsed since `start_iso` (e.g. `1h 05m`, `42m`, or
/// `?` when it is not RFC 3339), measured against the clock.
pub fn elapsed_str(start_iso: &str) -> (r: String)
    ensures
        exists|now: int|
            -instant_bound() < now < instant_bound() && r@ == spec_elapsed(
                spec_rfc3339_nanos(start_iso@),
                now,
            ),
{
    let start = parse_rfc3339_nanos(start_iso);
    let now = now_unix_nanos();
    let r = elapsed_text(start, now);
    assert(-instant_bound() < now < instant_bound() && r@ == spec_elapsed(
        spec_rfc3339_nanos(start_iso@),
        now as int,
    ));
    r
}

/// For a start at or before `now`, the elapsed text counts whole seconds:
/// from one hour on it is the hours in decimal, `h `, the minutes past the
/// hour in exactly two digits and `m`; below an hour it is the minutes in
/// decimal and `m`.
pub proof fn law_elapsed_text(start: int, now: int)
    requires
        start <= now,
    ensures
        ({
            let secs = (now - start) / 1_000_000_000;
            let h = secs / 3600;
            let m = secs % 3600 / 60;
            &&& 0 <= m < 60
            &&& spec_elapsed(Some(start), now) == if h > 0 {
                crate::text::dec_nat(h as nat) + seq!['h', ' '] + seq![digit_char(m / 10), digit_char(m % 10)]
                    + seq!['m']
            } else {
                crate::text::dec_nat(m as nat) + seq!['m']
            }
        }),
{
    let secs = (now - start) / 1_000_000_000;
    let h = secs / 3600;
    let m = secs % 3600 / 60;
    assert(trunc_div(now - start, 1_000_000_000) == secs);
    assert(trunc_div(secs, 3600) == h);
    assert(trunc_rem(secs, 3600) == secs % 3600);
    assert(trunc_div(secs % 3600, 60) == m);
    assert(0 <= m < 60);
    if h > 0 {
        if m >= 10 {
            reveal_with_fuel(crate::text::dec_nat, 2);
            assert(m / 10 < 10);
            assert(pad2(m) == crate::text::dec_nat(m as nat));
            assert(crate::text::dec_nat(m as nat) =~= seq![digit_char(m / 10), digit_char(m % 10)]);
        } else {
            assert(m / 10 == 0 && m % 10 == m);
        }
    }
}

proof fn lemma_digit_char_injective(a: int, b: int)
    requires
        0 <= a < 10,
        0 <= b < 10,
        digit_char(a) == digit_char(b),
    ensures
        a == b,
{
    assert((a + 48) as char as int == a + 48);
    assert((b + 48) as char as int == b + 48);
}

proof fn lemma_two_digits_injective(a: int, b: int)
    requires
        0 <= a < 100,
        0 <= b < 100,
        two_digits(a) == two_digits(b),
    ensures
        a == b,
{
    assert(two_digits(a)[0] == two_digits(b)[0] && two_digits(a)[1] == two_digits(b)[1]);
    lemma_digit_char_injective(a / 10, b / 10);
    lemma_digit_char_injective(a % 10, b % 10);
}

/// The start stamp determines the reading it was made from: two readings
/// with the same stamp agree in year, month, day, hour, minute and second.
pub proof fn law_timestamp_determines_fields(f: UtcFields, g: UtcFields)
    requires
        fields_in_range(f),
        fields_in_range(g),
        spec_timestamp(f) == spec_timestamp(g),
    ensures
        f == g,
{
    let t = spec_timestamp(f);
    let yf = year_digits(f.year as int);
    let yg = year_digits(g.year as int);
    let rest_f = seq!['-'] + two_digits(f.month as int) + seq!['-'] + two_digits(f.day as int) + seq!['T']
        + two_digits(f.hour as int) + seq![':'] + two_digits(f.minute as int) + seq![':'] + two_digits(
        f.second as int,
    ) + seq!['Z'];
    let rest_g = seq!['-'] + two_digits(g.month as int) + seq!['-'] + two_digits(g.day as int) + seq!['T']
        + two_digits(g.hour as int) + seq![':'] + two_digits(g.minute as int) + seq![':'] + two_digits(
        g.second as int,
    ) + seq!['Z'];
    assert(rest_f.len() == 16 && rest_g.len() == 16);
    assert(spec_timestamp(f) =~= yf + rest_f);
    assert(spec_timestamp(g) =~= yg + rest_g);
    let af = if f.year < 0 { -(f.year as int) } else { f.year as int };
    let ag = if g.year < 0 { -(g.year as int) } else { g.year as int };
    assert(0 <= af / 1000 < 10 && 0 <= ag / 1000 < 10);
    // The sign: a negative year starts with '-', a digit otherwise.
    assert((f.year < 0) == (g.year < 0)) by {
        if f.year < 0 && g.year >= 0 {
            assert(t[0] == '-');
            assert(t[0] == digit_char(ag / 1000));
            assert(digit_char(ag / 1000) as int == ag / 1000 + 48);
        }
        if g.year < 0 && f.year >= 0 {
            assert(t[0] == digit_char(af / 1000));
            assert(t[0] == '-');
            assert(digit_char(af / 1000) as int == af / 1000 + 48);
        }
    }
    assert(yf.len() == yg.len());
    assert(yf =~= t.take(yf.len() as int));
    assert(yg =~= t.take(yf.len() as int));
    assert(rest_f =~= t.skip(yf.len() as int));
    assert(rest_g =~= t.skip(yf.len() as int));
    let o: int = if f.year < 0 { 1 } else { 0 };
    assert(yf[o] == yg[o] && yf[o + 1] == yg[o + 1] && yf[o + 2] == yg[o + 2] && yf[o + 3] == yg[o + 3]);
    lemma_digit_char_injective(af / 1000, ag / 1000);
    lemma_digit_char_injective(af / 100 % 10, ag / 100 % 10);
    lemma_digit_char_injective(af / 10 % 10, ag / 10 % 10);
    lemma_digit_char_injective(af % 10, ag % 10);
    assert(af == ag) by (nonlinear_arith)
        requires
            0 <= af <= 9999,
            0 <= ag <= 9999,
            af / 1000 == ag / 1000,
            af / 100 % 10 == ag / 100 % 10,
            af / 10 % 10 == ag / 10 % 10,
            af % 10 == ag % 10,
    ;
    assert(two_digits(f.month as int) =~= rest_f.subrange(1, 3));
    assert(two_digits(g.month as int) =~= rest_g.subrange(1, 3));
    lemma_two_digits_injective(f.month as int, g.month as int);
    assert(two_digits(f.day as int) =~= rest_f.subrange(4, 6));
    assert(two_digits(g.day as int) =~= rest_g.subrange(4, 6));
    lemma_two_digits_injective(f.day as int, g.day as int);
    assert(two_digits(f.hour as int) =~= rest_f.subrange(7, 9));
    assert(two_digits(g.hour as int) =~= rest_g.subrange(7, 9));
    lemma_two_digits_injective(f.hour as int, g.hour as int);
    assert(two_digits(f.minute as int) =~= rest_f.subrange(10, 12));
    assert(two_digits(g.minute as int) =~= rest_g.subrange(10, 12));
    lemma_two_digits_injective(f.minute as int, g.minute as int);
    assert(two_digits(f.second as int) =~= rest_f.subrange(13, 15));
    assert(two_digits(g.second as int) =~= rest_g.subrange(13, 15));
    lemma_two_digits_injective(f.second as int, g.second as int);
}

} // verus!
