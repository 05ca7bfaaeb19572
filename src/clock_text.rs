//! Seconds shown as `HH:MM:SS`.
use vstd::prelude::*;
use crate::decimal::{digits_of, lemma_digits_of, push_decimal, all_digits};

verus! {

/// A duration split into hours, minutes and seconds.
#[derive(Clone, Copy, Debug, PartialEq, Eq)]
pub struct TimeUnits {
    pub h: u64,
    pub m: u8,
    pub s: u8,
}

pub open spec fn digit_char(d: int) -> char {
    if d == 0 { '0' }
    else if d == 1 { '1' }
    else if d == 2 { '2' }
    else if d == 3 { '3' }
    else if d == 4 { '4' }
    else if d == 5 { '5' }
    else if d == 6 { '6' }
    else if d == 7 { '7' }
    else if d == 8 { '8' }
    else { '9' }
}

/// The shortest decimal numeral of `n`, as characters.
pub open spec fn numeral(n: nat) -> Seq<char> {
    digits_of(n).map_values(|b: u8| digit_char(b - 48))
}

/// A numeral of at least two digits: one below ten gets a leading zero.
pub open spec fn two_digit(n: nat) -> Seq<char> {
    if n < 10 {
        seq!['0'] + numeral(n)
    } else {
        numeral(n)
    }
}

/// `HH:MM:SS` for a count of seconds; the hours grow past two digits as needed.
pub open spec fn timer_text(s: nat) -> Seq<char> {
    two_digit(s / 3600) + seq![':'] + two_digit((s % 3600) / 60) + seq![':'] + two_digit(s % 60)
}

/// Splits `s` seconds into whole hours, the minutes left over, and the seconds left over.
pub fn get_time_units(s: u64) -> (r: TimeUnits)
    ensures
        r.h == s / 3600,
        r.m == (s % 3600) / 60,
        r.s == s % 60,
        r.m < 60,
        r.s < 60,
        r.h * 3600 + r.m * 60 + r.s == s,
{
    let h = s / 3600;
    let rest = s % 3600;
    let m = rest / 60;
    let sec = s % 60;
    assert(rest % 60 == s % 60) by (nonlinear_arith)
        requires rest == s % 3600;
    TimeUnits { h, m: m as u8, s: sec as u8 }
}

fn digit_to_char(d: u8) -> (c: char)
    requires
        d < 10,
    ensures
        c == digit_char(d as int),
{
    match d {
        0 => '0',
        1 => '1',
        2 => '2',
        3 => '3',
        4 => '4',
        5 => '5',
        6 => '6',
        7 => '7',
        8 => '8',
        _ => '9',
    }
}

fn push_two_digit(n: u64, out: &mut Vec<char>)
    ensures
        final(out)@ == old(out)@ + two_digit(n as nat),
{
    let ghost start = out@;
    let ghost pad = if n < 10 { seq!['0'] } else { Seq::<char>::empty() };
    if n < 10 {
        out.push('0');
    }
    let mut bytes: Vec<u8> = Vec::new();
    push_decimal(n, &mut bytes);
    proof {
        lemma_digits_of(n as nat);
        assert(bytes@ =~= digits_of(n as nat));
    }
    let mut i: usize = 0;
    while i < bytes.len()
        invariant
            bytes@ == digits_of(n as nat),
            all_digits(bytes@),
            i <= bytes@.len(),
            out@ == start + pad + bytes@.take(i as int).map_values(|b: u8| digit_char(b - 48)),
        decreases bytes@.len() - i,
    {
        let b = bytes[i];
        assert(48 <= b <= 57);
        let c = digit_to_char(b - 48);
        out.push(c);
        proof {
            assert(bytes@.take(i + 1).map_values(|b: u8| digit_char(b - 48)) =~=
                bytes@.take(i as int).map_values(|b: u8| digit_char(b - 48)).push(c));
        }
        i = i + 1;
    }
    proof {
        assert(bytes@.take(i as int) =~= bytes@);
        assert(final(out)@ =~= old(out)@ + two_digit(n as nat));
    }
}

/// Relies on `String: FromIterator<&char>` (std): the string holds the characters in order.
#[verifier::external_body]
fn string_from_chars(chars: &Vec<char>) -> (r: String)
    ensures
        r@ == chars@,
{
    chars.iter().collect()
}

/// Renders `s` seconds as `HH:MM:SS`.
pub fn get_timer_string(s: u64) -> (r: String)
    ensures
        r@ == timer_text(s as nat),
{
    let units = get_time_units(s);
    let mut out: Vec<char> = Vec::new();
    push_two_digit(units.h, &mut out);
    out.push(':');
    push_two_digit(units.m as u64, &mut out);
    out.push(':');
    push_two_digit(units.s as u64, &mut out);
    assert(out@ =~= timer_text(s as nat));
    string_from_chars(&out)
}

} // verus!
