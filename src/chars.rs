//! Character classes of the grammar and decimal text of numbers.

use vstd::prelude::*;

verus! {

/// `' '` or tab.
pub open spec fn is_space(c: char) -> bool {
    c == ' ' || c == '\t'
}

/// A space, a tab, a carriage return or a line feed.
pub open spec fn is_multispace(c: char) -> bool {
    is_space(c) || c == '\r' || c == '\n'
}

/// An ASCII letter.
pub open spec fn is_alpha(c: char) -> bool {
    ('a' <= c && c <= 'z') || ('A' <= c && c <= 'Z')
}

/// A decimal digit.
pub open spec fn is_digit(c: char) -> bool {
    '0' <= c && c <= '9'
}

/// Unicode's White_Space property: what `char::is_whitespace` tests.
pub open spec fn is_white(c: char) -> bool {
    let u = c as u32;
    (0x09 <= u && u <= 0x0d) || u == 0x20 || u == 0x85 || u == 0xa0 || u == 0x1680
        || (0x2000 <= u && u <= 0x200a) || u == 0x2028 || u == 0x2029 || u == 0x202f
        || u == 0x205f || u == 0x3000
}

pub fn space_char(c: char) -> (r: bool)
    ensures
        r == is_space(c),
{
    c == ' ' || c == '\t'
}

pub fn multispace_char(c: char) -> (r: bool)
    ensures
        r == is_multispace(c),
{
    c == ' ' || c == '\t' || c == '\r' || c == '\n'
}

pub fn alpha_char(c: char) -> (r: bool)
    ensures
        r == is_alpha(c),
{
    ('a' <= c && c <= 'z') || ('A' <= c && c <= 'Z')
}

pub fn digit_char(c: char) -> (r: bool)
    ensures
        r == is_digit(c),
{
    '0' <= c && c <= '9'
}

pub fn white_char(c: char) -> (r: bool)
    ensures
        r == is_white(c),
{
    let u = c as u32;
    (0x09 <= u && u <= 0x0d) || u == 0x20 || u == 0x85 || u == 0xa0 || u == 0x1680
        || (0x2000 <= u && u <= 0x200a) || u == 0x2028 || u == 0x2029 || u == 0x202f
        || u == 0x205f || u == 0x3000
}

/// The character of a decimal digit `d < 10`.
pub open spec fn digit_of(d: int) -> char {
    ((d + 48) as u8) as char
}

/// The decimal numeral of `n`, without leading zeros.
pub open spec fn nat_text(n: nat) -> Seq<char>
    decreases n,
{
    if n < 10 {
        seq![digit_of(n as int)]
    } else {
        nat_text(n / 10).push(digit_of((n % 10) as int))
    }
}

/// A remainder of ticks `r < 12` as ten-thousandths of a unit, to the nearest.
pub open spec fn ten_thousandths(r: int) -> int {
    (r * 10000 + 6) / 12
}

/// The fractional part `q / 10000` written after a point with its trailing
/// zeros dropped; nothing when `q` is zero.
pub open spec fn fraction_text(q: int) -> Seq<char> {
    let ds = seq![digit_of(q / 1000), digit_of(q / 100 % 10), digit_of(q / 10 % 10), digit_of(q % 10)];
    if q == 0 {
        seq![]
    } else if q % 1000 == 0 {
        seq!['.'] + ds.take(1)
    } else if q % 100 == 0 {
        seq!['.'] + ds.take(2)
    } else if q % 10 == 0 {
        seq!['.'] + ds.take(3)
    } else {
        seq!['.'] + ds
    }
}

/// A non-negative count of ticks written in units: the whole part, then the
/// fraction to four places.
pub open spec fn unsigned_ticks_text(a: nat) -> Seq<char> {
    nat_text(a / 12) + fraction_text(ten_thousandths((a % 12) as int))
}

/// A count of ticks written in units, with a leading `-` when negative.
pub open spec fn ticks_text(t: int) -> Seq<char> {
    if t < 0 {
        seq!['-'] + unsigned_ticks_text((-t) as nat)
    } else {
        unsigned_ticks_text(t as nat)
    }
}

/// Relies on `String::push`: appends one character.
#[verifier::external_body]
pub(crate) fn push_char(s: &mut String, c: char)
    ensures
        final(s)@ == old(s)@.push(c),
{
    s.push(c)
}

fn digit(d: u128) -> (c: char)
    requires
        d < 10,
    ensures
        c == digit_of(d as int),
{
    ((d as u8) + 48) as char
}

/// Appends the decimal numeral of `n`.
pub fn push_nat(out: &mut String, n: u128)
    ensures
        final(out)@ == old(out)@ + nat_text(n as nat),
    decreases n,
{
    if n >= 10 {
        push_nat(out, n / 10);
    }
    let c = digit(n % 10);
    push_char(out, c);
    assert(final(out)@ =~= old(out)@ + nat_text(n as nat));
}

/// Appends `q / 10000` after a point as [`fraction_text`] says.
fn push_fraction(out: &mut String, q: u128)
    requires
        q < 10000,
    ensures
        final(out)@ == old(out)@ + fraction_text(q as int),
{
    let ghost start = out@;
    if q == 0 {
        assert(out@ =~= start + fraction_text(q as int));
        return;
    }
    push_char(out, '.');
    let d1 = digit(q / 1000);
    push_char(out, d1);
    if q % 1000 != 0 {
        let d2 = digit(q / 100 % 10);
        push_char(out, d2);
        if q % 100 != 0 {
            let d3 = digit(q / 10 % 10);
            push_char(out, d3);
            if q % 10 != 0 {
                let d4 = digit(q % 10);
                push_char(out, d4);
            }
        }
    }
    assert(out@ =~= start + fraction_text(q as int));
}

/// Appends a count of ticks written in units.
pub fn push_ticks(out: &mut String, t: i128)
    ensures
        final(out)@ == old(out)@ + ticks_text(t as int),
{
    let ghost start = out@;
    let a: u128 = if t < 0 {
        push_char(out, '-');
        ((-(t + 1)) as u128) + 1
    } else {
        t as u128
    };
    assert(a as int == if t < 0 { -t } else { t as int });
    let ghost mid = out@;
    push_nat(out, a / 12);
    let q = ((a % 12) * 10000 + 6) / 12;
    push_fraction(out, q);
    assert(out@ =~= mid + unsigned_ticks_text(a as nat));
    assert(out@ =~= start + ticks_text(t as int));
}

} // verus!
