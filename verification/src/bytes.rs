//! Fixed-width integers as they lie in a byte stream.

use vstd::prelude::*;

verus! {

/// The 16-bit value at `s[i..i + 2]`, low byte first.
pub open spec fn le16(s: Seq<u8>, i: int) -> u16
    recommends
        0 <= i,
        i + 2 <= s.len(),
{
    (s[i] as int + 256 * (s[i + 1] as int)) as u16
}

/// The 16-bit value at `s[i..i + 2]`, high byte first.
pub open spec fn be16(s: Seq<u8>, i: int) -> u16
    recommends
        0 <= i,
        i + 2 <= s.len(),
{
    (256 * (s[i] as int) + s[i + 1] as int) as u16
}

/// The 32-bit value at `s[i..i + 4]`, low byte first.
pub open spec fn le32(s: Seq<u8>, i: int) -> u32
    recommends
        0 <= i,
        i + 4 <= s.len(),
{
    (s[i] as int + 256 * (s[i + 1] as int) + 65536 * (s[i + 2] as int) + 16777216 * (s[i
        + 3] as int)) as u32
}

/// The 32-bit value at `s[i..i + 4]`, high byte first.
pub open spec fn be32(s: Seq<u8>, i: int) -> u32
    recommends
        0 <= i,
        i + 4 <= s.len(),
{
    (16777216 * (s[i] as int) + 65536 * (s[i + 1] as int) + 256 * (s[i + 2] as int) + s[i
        + 3] as int) as u32
}

/// A 32-bit pattern read as a signed number in two's complement.
pub open spec fn signed32(v: u32) -> i32 {
    if v < 0x8000_0000 {
        v as i32
    } else {
        (v - 0x1_0000_0000) as i32
    }
}

/// The four bytes of `v`, low byte first.
pub open spec fn le32_bytes(v: u32) -> Seq<u8> {
    seq![
        (v as int % 256) as u8,
        ((v as int / 256) % 256) as u8,
        ((v as int / 65536) % 256) as u8,
        (v as int / 16777216) as u8,
    ]
}

/// The four bytes of `v`, high byte first.
pub open spec fn be32_bytes(v: u32) -> Seq<u8> {
    seq![
        (v as int / 16777216) as u8,
        ((v as int / 65536) % 256) as u8,
        ((v as int / 256) % 256) as u8,
        (v as int % 256) as u8,
    ]
}

/// The low 32 bits of a length.
pub open spec fn low32(n: nat) -> u32 {
    (n % 0x1_0000_0000) as u32
}

/// Reads a 16-bit value, low byte first.
pub fn read_le16(bytes: &[u8], i: usize) -> (v: u16)
    requires
        i + 2 <= bytes@.len(),
    ensures
        v == le16(bytes@, i as int),
{
    let len = bytes.len();
    bytes[i] as u16 + 256 * (bytes[i + 1] as u16)
}

/// Reads a 16-bit value, high byte first.
pub fn read_be16(bytes: &[u8], i: usize) -> (v: u16)
    requires
        i + 2 <= bytes@.len(),
    ensures
        v == be16(bytes@, i as int),
{
    let len = bytes.len();
    256 * (bytes[i] as u16) + bytes[i + 1] as u16
}

/// Reads a 32-bit value, low byte first.
pub fn read_le32(bytes: &[u8], i: usize) -> (v: u32)
    requires
        i + 4 <= bytes@.len(),
    ensures
        v == le32(bytes@, i as int),
{
    let len = bytes.len();
    bytes[i] as u32 + 256 * (bytes[i + 1] as u32) + 65536 * (bytes[i + 2] as u32) + 16777216 * (
    bytes[i + 3] as u32)
}

/// Reads a 32-bit value, high byte first.
pub fn read_be32(bytes: &[u8], i: usize) -> (v: u32)
    requires
        i + 4 <= bytes@.len(),
    ensures
        v == be32(bytes@, i as int),
{
    let len = bytes.len();
    16777216 * (bytes[i] as u32) + 65536 * (bytes[i + 1] as u32) + 256 * (bytes[i + 2] as u32)
        + bytes[i + 3] as u32
}

/// Reads a 32-bit pattern as a signed number.
pub fn to_signed(v: u32) -> (x: i32)
    ensures
        x == signed32(v),
{
    if v < 0x8000_0000 {
        v as i32
    } else {
        ((v - 0x8000_0000) as i32) - 0x4000_0000 - 0x4000_0000
    }
}

/// Appends the four bytes of `v`, low byte first.
pub fn push_le32(out: &mut Vec<u8>, v: u32)
    ensures
        final(out)@ == old(out)@ + le32_bytes(v),
{
    out.push((v % 256) as u8);
    out.push(((v / 256) % 256) as u8);
    out.push(((v / 65536) % 256) as u8);
    out.push((v / 16777216) as u8);
    assert(out@ =~= old(out)@ + le32_bytes(v));
}

/// Appends the four bytes of `v`, high byte first.
pub fn push_be32(out: &mut Vec<u8>, v: u32)
    ensures
        final(out)@ == old(out)@ + be32_bytes(v),
{
    out.push((v / 16777216) as u8);
    out.push(((v / 65536) % 256) as u8);
    out.push(((v / 256) % 256) as u8);
    out.push((v % 256) as u8);
    assert(out@ =~= old(out)@ + be32_bytes(v));
}

/// Appends `count` copies of `byte`.
pub fn push_fill(out: &mut Vec<u8>, byte: u8, count: usize)
    ensures
        final(out)@ == old(out)@ + Seq::new(count as nat, |k: int| byte),
{
    let mut k: usize = 0;
    assert(out@ =~= old(out)@ + Seq::new(0, |k: int| byte));
    while k < count
        invariant
            k <= count,
            out@ == old(out)@ + Seq::new(k as nat, |j: int| byte),
        decreases count - k,
    {
        out.push(byte);
        k = k + 1;
        assert(out@ =~= old(out)@ + Seq::new(k as nat, |j: int| byte));
    }
}

/// Appends the bytes `bytes[from..to]`.
pub fn push_range(out: &mut Vec<u8>, bytes: &[u8], from: usize, to: usize)
    requires
        from <= to <= bytes@.len(),
    ensures
        final(out)@ == old(out)@ + bytes@.subrange(from as int, to as int),
{
    let mut k: usize = from;
    assert(out@ =~= old(out)@ + bytes@.subrange(from as int, from as int));
    while k < to
        invariant
            from <= k <= to <= bytes@.len(),
            out@ == old(out)@ + bytes@.subrange(from as int, k as int),
        decreases to - k,
    {
        out.push(bytes[k]);
        k = k + 1;
        assert(out@ =~= old(out)@ + bytes@.subrange(from as int, k as int));
    }
}

/// The low 32 bits of a buffer length.
pub fn len32(len: usize) -> (v: u32)
    ensures
        v == low32(len as nat),
{
    (len as u64 % 0x1_0000_0000) as u32
}

} // verus!
