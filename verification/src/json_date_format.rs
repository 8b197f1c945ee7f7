//! The strict `YYYY-MM-DD` codec used wherever a date enters or leaves the
//! store's JSON document: an explicit encode/decode pair over the fixed
//! pattern, with a proved round trip.

use vstd::prelude::*;
use crate::dates::Date;
use crate::text::{chars_to_string, str_to_chars};

verus! {

pub open spec fn spec_is_digit(c: char) -> bool {
    c == '0' || c == '1' || c == '2' || c == '3' || c == '4' || c == '5' || c == '6' || c == '7'
        || c == '8' || c == '9'
}

/// The numeric value of a decimal digit character.
pub open spec fn spec_digit_val(c: char) -> int {
    if c == '0' {
        0
    } else if c == '1' {
        1
    } else if c == '2' {
        2
    } else if c == '3' {
        3
    } else if c == '4' {
        4
    } else if c == '5' {
        5
    } else if c == '6' {
        6
    } else if c == '7' {
        7
    } else if c == '8' {
        8
    } else {
        9
    }
}

/// The decimal digit character for a value from 0 through 9.
pub open spec fn spec_digit_char(n: int) -> char {
    if n == 0 {
        '0'
    } else if n == 1 {
        '1'
    } else if n == 2 {
        '2'
    } else if n == 3 {
        '3'
    } else if n == 4 {
        '4'
    } else if n == 5 {
        '5'
    } else if n == 6 {
        '6'
    } else if n == 7 {
        '7'
    } else if n == 8 {
        '8'
    } else {
        '9'
    }
}

/// The ten characters `YYYY-MM-DD` for a date.
pub open spec fn spec_date_chars(d: Date) -> Seq<char> {
    seq![
        spec_digit_char(d.year as int / 1000),
        spec_digit_char((d.year as int / 100) % 10),
        spec_digit_char((d.year as int / 10) % 10),
        spec_digit_char(d.year as int % 10),
        '-',
        spec_digit_char(d.month as int / 10),
        spec_digit_char(d.month as int % 10),
        '-',
        spec_digit_char(d.day as int / 10),
        spec_digit_char(d.day as int % 10),
    ]
}

/// The date encoded by exactly ten characters `YYYY-MM-DD`, provided the
/// fields form a well-formed calendar date; anything else is rejected.
pub open spec fn spec_parse_date(s: Seq<char>) -> Option<Date> {
    if s.len() == 10 && spec_is_digit(s[0]) && spec_is_digit(s[1]) && spec_is_digit(s[2])
        && spec_is_digit(s[3]) && s[4] == '-' && spec_is_digit(s[5]) && spec_is_digit(s[6]) && s[7]
        == '-' && spec_is_digit(s[8]) && spec_is_digit(s[9]) {
        let y = 1000 * spec_digit_val(s[0]) + 100 * spec_digit_val(s[1]) + 10 * spec_digit_val(
            s[2],
        ) + spec_digit_val(s[3]);
        let m = 10 * spec_digit_val(s[5]) + spec_digit_val(s[6]);
        let dd = 10 * spec_digit_val(s[8]) + spec_digit_val(s[9]);
        let d = Date { year: y as u16, month: m as u8, day: dd as u8 };
        if d.wf() {
            Some(d)
        } else {
            None
        }
    } else {
        None
    }
}

fn digit_char(n: u16) -> (c: char)
    requires
        n < 10,
    ensures
        c == spec_digit_char(n as int),
{
    if n == 0 {
        '0'
    } else if n == 1 {
        '1'
    } else if n == 2 {
        '2'
    } else if n == 3 {
        '3'
    } else if n == 4 {
        '4'
    } else if n == 5 {
        '5'
    } else if n == 6 {
        '6'
    } else if n == 7 {
        '7'
    } else if n == 8 {
        '8'
    } else {
        '9'
    }
}

pub(crate) fn digit_val(c: char) -> (r: Option<u16>)
    ensures
        spec_is_digit(c) ==> r == Some((spec_digit_val(c) as u16)),
        !spec_is_digit(c) ==> r is None,
{
    if c == '0' {
        Some(0)
    } else if c == '1' {
        Some(1)
    } else if c == '2' {
        Some(2)
    } else if c == '3' {
        Some(3)
    } else if c == '4' {
        Some(4)
    } else if c == '5' {
        Some(5)
    } else if c == '6' {
        Some(6)
    } else if c == '7' {
        Some(7)
    } else if c == '8' {
        Some(8)
    } else if c == '9' {
        Some(9)
    } else {
        None
    }
}

/// The ten `YYYY-MM-DD` characters of a date, appended to `out`.
pub fn push_date_chars(out: &mut Vec<char>, d: &Date)
    requires
        d.wf(),
    ensures
        final(out)@ == old(out)@ + spec_date_chars(*d),
{
    out.push(digit_char(d.year / 1000));
    out.push(digit_char((d.year / 100) % 10));
    out.push(digit_char((d.year / 10) % 10));
    out.push(digit_char(d.year % 10));
    out.push('-');
    out.push(digit_char((d.month / 10) as u16));
    out.push(digit_char((d.month % 10) as u16));
    out.push('-');
    out.push(digit_char((d.day / 10) as u16));
    out.push(digit_char((d.day % 10) as u16));
    proof {
        assert(out@ =~= old(out)@ + spec_date_chars(*d));
    }
}

/// A date formatted as its strict `YYYY-MM-DD` representation.
pub fn serialize(date: &Date) -> (r: String)
    requires
        date.wf(),
    ensures
        r@ == spec_date_chars(*date),
{
    let mut out: Vec<char> = Vec::new();
    push_date_chars(&mut out, date);
    chars_to_string(&out)
}

/// The date encoded by the given characters, if they follow the strict
/// pattern and name a real calendar date.
pub fn parse_date_chars(v: &[char]) -> (r: Option<Date>)
    ensures
        r == spec_parse_date(v@),
{
    if v.len() != 10 {
        return None;
    }
    if !(v[4] == '-' && v[7] == '-') {
        return None;
    }
    let d0 = match digit_val(v[0]) {
        Some(x) => x,
        None => {
            return None;
        },
    };
    let d1 = match digit_val(v[1]) {
        Some(x) => x,
        None => {
            return None;
        },
    };
    let d2 = match digit_val(v[2]) {
        Some(x) => x,
        None => {
            return None;
        },
    };
    let d3 = match digit_val(v[3]) {
        Some(x) => x,
        None => {
            return None;
        },
    };
    let m0 = match digit_val(v[5]) {
        Some(x) => x,
        None => {
            return None;
        },
    };
    let m1 = match digit_val(v[6]) {
        Some(x) => x,
        None => {
            return None;
        },
    };
    let day0 = match digit_val(v[8]) {
        Some(x) => x,
        None => {
            return None;
        },
    };
    let day1 = match digit_val(v[9]) {
        Some(x) => x,
        None => {
            return None;
        },
    };
    let y: u16 = 1000 * d0 + 100 * d1 + 10 * d2 + d3;
    let m: u16 = 10 * m0 + m1;
    let dd: u16 = 10 * day0 + day1;
    let date = Date { year: y, month: m as u8, day: dd as u8 };
    if crate::dates::is_valid_date(&date) {
        Some(date)
    } else {
        None
    }
}

/// The date encoded by a string in the strict `YYYY-MM-DD` pattern.
pub fn deserialize(s: &str) -> (r: Option<Date>)
    ensures
        r == spec_parse_date(s@),
{
    let v = str_to_chars(s);
    parse_date_chars(v.as_slice())
}

/// Decoding a digit character yields the encoded value back.
proof fn lemma_digit_round_trip(n: int)
    requires
        0 <= n < 10,
    ensures
        spec_is_digit(spec_digit_char(n)),
        spec_digit_val(spec_digit_char(n)) == n,
{
}

/// A number up to 9999 is recovered from its four decimal digits.
proof fn lemma_decimal_digits(y: int)
    requires
        0 <= y,
    ensures
        1000 * (y / 1000) + 100 * ((y / 100) % 10) + 10 * ((y / 10) % 10) + y % 10 == y,
{
    vstd::arithmetic::div_mod::lemma_fundamental_div_mod(y, 10);
    vstd::arithmetic::div_mod::lemma_fundamental_div_mod(y / 10, 10);
    vstd::arithmetic::div_mod::lemma_fundamental_div_mod(y / 100, 10);
    vstd::arithmetic::div_mod::lemma_div_denominator(y, 10, 10);
    vstd::arithmetic::div_mod::lemma_div_denominator(y, 100, 10);
    assert(100 == 10 * 10);
    assert(1000 == 100 * 10);
}

/// Encoding then decoding a well-formed date yields the date back.
pub proof fn lemma_date_round_trip(d: Date)
    requires
        d.wf(),
    ensures
        spec_parse_date(spec_date_chars(d)) == Some(d),
{
    let s = spec_date_chars(d);
    let y = d.year as int;
    let m = d.month as int;
    let dd = d.day as int;
    lemma_digit_round_trip(y / 1000);
    lemma_digit_round_trip((y / 100) % 10);
    lemma_digit_round_trip((y / 10) % 10);
    lemma_digit_round_trip(y % 10);
    lemma_digit_round_trip(m / 10);
    lemma_digit_round_trip(m % 10);
    lemma_digit_round_trip(dd / 10);
    lemma_digit_round_trip(dd % 10);
    lemma_decimal_digits(y);
    lemma_decimal_digits(m);
    lemma_decimal_digits(dd);
    assert(spec_parse_date(s) == Some(d));
}

} // verus!
