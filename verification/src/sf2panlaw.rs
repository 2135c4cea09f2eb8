//! Reads the pan values of a SoundFont description.

use vstd::prelude::*;

verus! {

/// What is done to the attenuation of a panned zone.
#[derive(Clone, Copy, Debug, PartialEq, Eq)]
pub enum Function {
    Attenuate,
    Amplify,
}

impl Function {
    /// The name of the function.
    pub open spec fn name(self) -> Seq<char> {
        match self {
            Function::Amplify => "amplify"@,
            Function::Attenuate => "attenuate"@,
        }
    }

    /// Writes the name of the function.
    pub fn fmt(&self) -> (text: &'static str)
        ensures
            text@ == self.name(),
    {
        match self {
            Function::Amplify => "amplify",
            Function::Attenuate => "attenuate",
        }
    }
}

/// A 16-bit pattern read as a signed number in two's complement.
pub open spec fn signed16(x: u16) -> i16 {
    if x < 0x8000 {
        x as i16
    } else {
        (x - 0x1_0000) as i16
    }
}

/// Reads a 16-bit pattern as a signed number.
pub fn u16_to_i16(x: u16) -> (res: i16)
    ensures
        res == signed16(x),
{
    if x < 0x8000 {
        x as i16
    } else {
        ((x - 0x8000) as i16) - 0x4000 - 0x4000
    }
}

/// Whether a byte is a decimal digit.
pub open spec fn is_digit(b: u8) -> bool {
    0x30 <= b <= 0x39
}

/// The value of the decimal digits `s[from..to]`.
pub open spec fn digits_value(s: Seq<u8>, from: int, to: int) -> int
    decreases to - from,
{
    if to <= from {
        0
    } else {
        10 * digits_value(s, from, to - 1) + (s[to - 1] - 0x30)
    }
}

/// Whether `s[from..]` is one decimal digit or more, and nothing else.
pub open spec fn all_digits(s: Seq<u8>, from: int) -> bool {
    from < s.len() && forall|k: int| from <= k < s.len() ==> is_digit(#[trigger] s[k])
}

/// The number that a text spells as an unsigned 16-bit number: decimal
/// digits, behind a plus sign or none, with a value of at most 65535.
pub open spec fn unsigned_of(s: Seq<u8>) -> Option<u16> {
    let from = if s.len() > 0 && s[0] == 0x2b {
        1int
    } else {
        0int
    };
    if all_digits(s, from) && digits_value(s, from, s.len() as int) <= 0xffff {
        Some(digits_value(s, from, s.len() as int) as u16)
    } else {
        None
    }
}

/// The number that a text spells as a signed 16-bit number: decimal digits,
/// behind a plus sign, a minus sign or none, with a value from -32768 to
/// 32767.
pub open spec fn signed_of(s: Seq<u8>) -> Option<i16> {
    let signed = s.len() > 0 && (s[0] == 0x2b || s[0] == 0x2d);
    let from = if signed {
        1int
    } else {
        0int
    };
    let magnitude = digits_value(s, from, s.len() as int);
    let value = if s.len() > 0 && s[0] == 0x2d {
        -magnitude
    } else {
        magnitude
    };
    if all_digits(s, from) && -0x8000 <= value <= 0x7fff {
        Some(value as i16)
    } else {
        None
    }
}

/// The pan of a zone in units of a five-hundredth: what the text spells as
/// an unsigned 16-bit number, read as a signed one; failing that, what it
/// spells as a signed 16-bit number.
pub open spec fn pan_of(s: Seq<u8>) -> Option<i16> {
    match unsigned_of(s) {
        Some(x) => Some(signed16(x)),
        None => signed_of(s),
    }
}

proof fn lemma_digits_not_negative(s: Seq<u8>, from: int, to: int)
    requires
        0 <= from <= to <= s.len(),
        forall|k: int| from <= k < to ==> is_digit(#[trigger] s[k]),
    ensures
        0 <= digits_value(s, from, to),
    decreases to - from,
{
    if from < to {
        lemma_digits_not_negative(s, from, to - 1);
    }
}

proof fn lemma_digits_grow(s: Seq<u8>, from: int, mid: int, to: int)
    requires
        0 <= from <= mid <= to <= s.len(),
        forall|k: int| from <= k < to ==> is_digit(#[trigger] s[k]),
    ensures
        0 <= digits_value(s, from, mid) <= digits_value(s, from, to),
    decreases to - mid,
{
    lemma_digits_not_negative(s, from, mid);
    if mid < to {
        lemma_digits_grow(s, from, mid, to - 1);
    }
}

/// Reads the decimal digits `text[from..]`, if their value is at most
/// `limit`.
fn read_digits(text: &[u8], from: usize, limit: u32) -> (res: Option<u32>)
    requires
        from <= text@.len(),
        limit <= 0x10000,
    ensures
        match res {
            Some(value) => {
                &&& all_digits(text@, from as int)
                &&& value == digits_value(text@, from as int, text@.len() as int)
                &&& value <= limit
            },
            None => !all_digits(text@, from as int) || digits_value(
                text@,
                from as int,
                text@.len() as int,
            ) > limit,
        },
{
    let len = text.len();
    if from >= len {
        return None;
    }
    let mut k: usize = from;
    while k < len
        invariant
            from <= k <= len,
            len == text@.len(),
            forall|j: int| from <= j < k ==> is_digit(#[trigger] text@[j]),
        decreases len - k,
    {
        if text[k] < 0x30 || text[k] > 0x39 {
            return None;
        }
        k = k + 1;
    }
    let mut value: u32 = 0;
    let mut k: usize = from;
    while k < len
        invariant
            from <= k <= len,
            len == text@.len(),
            limit <= 0x10000,
            all_digits(text@, from as int),
            value == digits_value(text@, from as int, k as int),
            value <= limit,
        decreases len - k,
    {
        let digit = (text[k] - 0x30) as u32;
        let next = value * 10 + digit;
        if next > limit {
            proof {
                lemma_digits_grow(text@, from as int, k + 1, len as int);
            }
            return None;
        }
        value = next;
        k = k + 1;
    }
    Some(value)
}

/// Reads a text as an unsigned 16-bit number.
pub fn parse_unsigned(text: &[u8]) -> (res: Option<u16>)
    ensures
        res == unsigned_of(text@),
{
    let from: usize = if text.len() > 0 && text[0] == 0x2b {
        1
    } else {
        0
    };
    match read_digits(text, from, 0xffff) {
        Some(value) => Some(value as u16),
        None => None,
    }
}

/// Reads a text as a signed 16-bit number.
pub fn parse_signed(text: &[u8]) -> (res: Option<i16>)
    ensures
        res == signed_of(text@),
{
    let negative = text.len() > 0 && text[0] == 0x2d;
    let from: usize = if text.len() > 0 && (text[0] == 0x2b || text[0] == 0x2d) {
        1
    } else {
        0
    };
    let limit: u32 = if negative {
        0x8000
    } else {
        0x7fff
    };
    match read_digits(text, from, limit) {
        Some(value) => {
            if negative {
                Some((-(value as i32)) as i16)
            } else {
                Some(value as i16)
            }
        },
        None => None,
    }
}

/// Reads the pan of a zone, in units of a five-hundredth.
pub fn pan_units(value: &[u8]) -> (res: Option<i16>)
    ensures
        res == pan_of(value@),
{
    match parse_unsigned(value) {
        Some(x) => Some(u16_to_i16(x)),
        None => parse_signed(value),
    }
}

} // verus!
