//! Lengths of time, in whole milliseconds.

use crate::text;
use crate::text::{chars_of, concat, decimal_text, parse_chars, trim};
use vstd::prelude::*;

verus! {

/// The longest representable length of time, in milliseconds.
pub const MAX_MILLIS: u128 = 18446744073709551615999;

/// What is left of a 64-bit unsigned product after it wraps around.
pub open spec fn wrapped(n: int) -> int {
    n % 0x1_0000_0000_0000_0000
}

/// The length of time that a text stands for: a number with one of the units
/// `ms`, `s`, `m` and, where `hours` are allowed, `h`. Minutes and hours are
/// turned into seconds with 64-bit arithmetic that wraps around.
pub open spec fn duration_of(s: Seq<char>, hours: bool) -> Option<int> {
    let t = text::trimmed(s);
    let n = t.len() as int;
    let max = u64::MAX as int;
    if n >= 2 && t[n - 2] == 'm' && t[n - 1] == 's' {
        text::number_of(t.take(n - 2), max)
    } else if n >= 1 && t[n - 1] == 's' {
        match text::number_of(t.take(n - 1), max) {
            Some(k) => Some(k * 1000),
            None => None,
        }
    } else if n >= 1 && t[n - 1] == 'm' {
        match text::number_of(t.take(n - 1), max) {
            Some(k) => Some(wrapped(k * 60) * 1000),
            None => None,
        }
    } else if n >= 1 && t[n - 1] == 'h' && hours {
        match text::number_of(t.take(n - 1), max) {
            Some(k) => Some(wrapped(k * 3600) * 1000),
            None => None,
        }
    } else {
        None
    }
}

/// The digits before position `n`, read as a number.
fn head_number(v: &Vec<char>, n: usize) -> (r: Option<u64>)
    requires
        n <= v@.len(),
    ensures
        match text::number_of(v@.take(n as int), u64::MAX as int) {
            Some(k) => r == Some(k as u64) && 0 <= k <= u64::MAX,
            None => r is None,
        },
{
    let mut head: Vec<char> = Vec::new();
    let mut i: usize = 0;
    while i < n
        invariant
            i <= n <= v@.len(),
            head@ == v@.take(i as int),
        decreases n - i,
    {
        head.push(v[i]);
        i = i + 1;
    }
    assert(head@.skip(0) =~= head@);
    parse_chars(&head, 0, u64::MAX)
}

/// Reads a length of time; without `hours` the unit `h` is not known.
pub fn parse_duration(s: &str, hours: bool) -> (r: Option<u128>)
    ensures
        match duration_of(s@, hours) {
            Some(k) => r == Some(k as u128) && 0 <= k <= MAX_MILLIS,
            None => r is None,
        },
{
    let v = trim(&chars_of(s));
    let n: usize = v.len();
    if n >= 2 && v[n - 2] == 'm' && v[n - 1] == 's' {
        match head_number(&v, n - 2) {
            Some(k) => Some(k as u128),
            None => None,
        }
    } else if n >= 1 && v[n - 1] == 's' {
        match head_number(&v, n - 1) {
            Some(k) => Some(k as u128 * 1000),
            None => None,
        }
    } else if n >= 1 && v[n - 1] == 'm' {
        match head_number(&v, n - 1) {
            Some(k) => Some(k.wrapping_mul(60) as u128 * 1000),
            None => None,
        }
    } else if n >= 1 && v[n - 1] == 'h' && hours {
        match head_number(&v, n - 1) {
            Some(k) => Some(k.wrapping_mul(3600) as u128 * 1000),
            None => None,
        }
    } else {
        None
    }
}

/// The decimal places of `ms` thousandths, without trailing zeros.
pub open spec fn thousandths(ms: int) -> Seq<char> {
    let a = text::digit_char(ms / 100);
    let b = text::digit_char(ms / 10 % 10);
    let c = text::digit_char(ms % 10);
    if ms % 100 == 0 {
        seq![a]
    } else if ms % 10 == 0 {
        seq![a, b]
    } else {
        seq![a, b, c]
    }
}

/// A length of time in words: `0ns`, whole milliseconds below one second
/// (`500ms`), and from there on seconds with the decimal places needed
/// (`300s`, `1.5s`).
pub open spec fn duration_text(ms: nat) -> Seq<char> {
    if ms == 0 {
        "0ns"@
    } else if ms < 1000 {
        text::decimal(ms) + "ms"@
    } else if ms % 1000 == 0 {
        text::decimal(ms / 1000) + "s"@
    } else {
        text::decimal(ms / 1000) + "."@ + thousandths((ms % 1000) as int) + "s"@
    }
}

/// A length of time in words.
pub fn show_duration(ms: u128) -> (s: String)
    requires
        ms <= MAX_MILLIS,
    ensures
        s@ == duration_text(ms as nat),
{
    if ms == 0 {
        "0ns".to_owned()
    } else if ms < 1000 {
        concat(decimal_text(ms as u64).as_str(), "ms")
    } else if ms % 1000 == 0 {
        concat(decimal_text((ms / 1000) as u64).as_str(), "s")
    } else {
        let f: u64 = (ms % 1000) as u64;
        let mut s = concat(decimal_text((ms / 1000) as u64).as_str(), ".");
        let ghost head = s@;
        proof {
            assert(text::decimal((f / 100) as nat) =~= seq![text::digit_char(f as int / 100)]);
            assert(text::decimal((f / 10 % 10) as nat) =~= seq![text::digit_char(f as int / 10 % 10)]);
            assert(text::decimal((f % 10) as nat) =~= seq![text::digit_char(f as int % 10)]);
        }
        s.append(decimal_text(f / 100).as_str());
        if f % 100 != 0 {
            s.append(decimal_text(f / 10 % 10).as_str());
            if f % 10 != 0 {
                s.append(decimal_text(f % 10).as_str());
            }
        }
        assert(s@ =~= head + thousandths(f as int));
        s.append("s");
        s
    }
}

} // verus!
