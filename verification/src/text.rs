//! Text output: numbers in decimal, and strings built char by char.

use vstd::prelude::*;

verus! {

/// The decimal digit for a value below ten.
pub open spec fn digit(d: int) -> char
    recommends
        0 <= d < 10,
{
    ((48 + d) as u8) as char
}

/// The digits of a natural number, without leading zeros.
pub open spec fn digits(n: nat) -> Seq<char>
    decreases n,
{
    if n < 10 {
        seq![digit(n as int)]
    } else {
        digits(n / 10).push(digit((n % 10) as int))
    }
}

/// An integer in decimal, with a minus sign when it is negative.
pub open spec fn decimal(n: int) -> Seq<char> {
    if n < 0 {
        seq!['-'] + digits((-n) as nat)
    } else {
        digits(n as nat)
    }
}

/// Appends one char to a string.
///
/// Wraps `String::push` of the standard library, of which it claims what its
/// documentation says: the string afterwards is the string before with the
/// given char at its end.
#[verifier::external_body]
pub(crate) fn push_char(s: &mut String, c: char)
    ensures
        final(s)@ == old(s)@.push(c),
{
    s.push(c)
}

/// Appends the digits of `n`.
pub fn push_digits(s: &mut String, n: u64)
    ensures
        final(s)@ == old(s)@ + digits(n as nat),
    decreases n,
{
    if n < 10 {
        push_char(s, ((48 + n) as u8) as char);
        assert(s@ =~= old(s)@ + digits(n as nat));
    } else {
        push_digits(s, n / 10);
        push_char(s, ((48 + n % 10) as u8) as char);
        assert(s@ =~= old(s)@ + digits(n as nat));
    }
}

/// Appends `n` in decimal.
pub fn push_decimal(s: &mut String, n: i64)
    ensures
        final(s)@ == old(s)@ + decimal(n as int),
{
    if n < 0 {
        push_char(s, '-');
        let magnitude: u64 = if n == i64::MIN {
            0x8000_0000_0000_0000
        } else {
            (-n) as u64
        };
        push_digits(s, magnitude);
        assert(s@ =~= old(s)@ + decimal(n as int));
    } else {
        push_digits(s, n as u64);
    }
}

/// The hexadecimal digit, in lower case, for a value below sixteen.
pub open spec fn hex_digit(d: int) -> char
    recommends
        0 <= d < 16,
{
    if d < 10 {
        ((48 + d) as u8) as char
    } else {
        ((87 + d) as u8) as char
    }
}

/// A byte as `0x` and two hexadecimal digits.
pub open spec fn hex_byte(b: u8) -> Seq<char> {
    seq!['0', 'x', hex_digit(b as int / 16), hex_digit(b as int % 16)]
}

fn hex_char(d: u8) -> (c: char)
    requires
        d < 16,
    ensures
        c == hex_digit(d as int),
{
    if d < 10 {
        (48 + d) as char
    } else {
        (87 + d) as char
    }
}

/// Appends a byte as `0x` and two hexadecimal digits.
pub fn push_hex_byte(s: &mut String, b: u8)
    ensures
        final(s)@ == old(s)@ + hex_byte(b),
{
    push_char(s, '0');
    push_char(s, 'x');
    push_char(s, hex_char(b / 16));
    push_char(s, hex_char(b % 16));
    assert(s@ =~= old(s)@ + hex_byte(b));
}

/// `count` tabs.
pub open spec fn tabs(count: nat) -> Seq<char> {
    Seq::new(count, |k: int| '\t')
}

/// Appends `count` tabs.
pub fn push_tabs(s: &mut String, count: usize)
    ensures
        final(s)@ == old(s)@ + tabs(count as nat),
{
    let mut k: usize = 0;
    assert(s@ =~= old(s)@ + tabs(0));
    while k < count
        invariant
            k <= count,
            s@ == old(s)@ + tabs(k as nat),
        decreases count - k,
    {
        push_char(s, '\t');
        k = k + 1;
        assert(s@ =~= old(s)@ + tabs(k as nat));
    }
}

} // verus!
