//! Puts an ADS header in front of raw sample data.

use vstd::prelude::*;
use crate::bytes::{le32_bytes, len32, low32, push_le32, push_range};

verus! {

/// The fields of an ADS header that the caller chooses.
#[derive(Clone, Copy, Debug, PartialEq, Eq)]
pub struct Args {
    /// Number of channels; not zero.
    pub channels: u32,
    /// Samples per second; not zero.
    pub sample_rate: u32,
    /// Interleave in bytes.
    pub interleave: u32,
    /// Sample format: 1 for 16-bit PCM, 16 for Sony 4-bit ADPCM.
    pub format: u32,
}

/// What is wrong with the fields of a header.
#[derive(Clone, Copy, Debug, PartialEq, Eq)]
pub enum ArgsError {
    /// A single channel cannot be interleaved.
    InterleavedMono,
    /// The format is neither 1 nor 16.
    UnknownFormat,
}

/// What is wrong with the fields, if anything: first the interleave of a
/// single channel, then the format.
pub open spec fn fault_of(args: Args) -> Option<ArgsError> {
    if args.channels == 1 && args.interleave != 0 {
        Some(ArgsError::InterleavedMono)
    } else if args.format != 1 && args.format != 16 {
        Some(ArgsError::UnknownFormat)
    } else {
        None
    }
}

/// The forty header bytes for sample data of `body_len` bytes.
pub open spec fn ads_header(args: Args, body_len: nat) -> Seq<u8> {
    seq![0x53u8, 0x53u8, 0x68u8, 0x64u8, 0x18u8, 0u8, 0u8, 0u8] + le32_bytes(args.format)
        + le32_bytes(args.sample_rate) + le32_bytes(args.channels) + le32_bytes(args.interleave)
        + seq![0xffu8, 0xffu8, 0xffu8, 0xffu8, 0xffu8, 0xffu8, 0xffu8, 0xffu8] + seq![
        0x53u8,
        0x53u8,
        0x62u8,
        0x64u8,
    ] + le32_bytes(low32(body_len))
}

/// Checks that the fields describe a file that can exist.
pub fn check_args(args: &Args) -> (res: Result<(), ArgsError>)
    ensures
        match res {
            Ok(()) => fault_of(*args) is None,
            Err(e) => fault_of(*args) == Some(e),
        },
{
    if args.channels == 1 && args.interleave != 0 {
        Err(ArgsError::InterleavedMono)
    } else if args.format != 1 && args.format != 16 {
        Err(ArgsError::UnknownFormat)
    } else {
        Ok(())
    }
}

/// Puts the ADS header in front of the sample data in `file`.
pub fn add_header(args: &Args, file: &mut Vec<u8>)
    ensures
        final(file)@ == ads_header(*args, old(file)@.len()) + old(file)@,
{
    let len = file.len();
    let mut out: Vec<u8> = Vec::new();
    out.push(0x53);
    out.push(0x53);
    out.push(0x68);
    out.push(0x64);
    out.push(0x18);
    out.push(0);
    out.push(0);
    out.push(0);
    push_le32(&mut out, args.format);
    push_le32(&mut out, args.sample_rate);
    push_le32(&mut out, args.channels);
    push_le32(&mut out, args.interleave);
    let mut k: usize = 0;
    while k < 8
        invariant
            k <= 8,
            out@ == seq![0x53u8, 0x53u8, 0x68u8, 0x64u8, 0x18u8, 0u8, 0u8, 0u8] + le32_bytes(
                args.format,
            ) + le32_bytes(args.sample_rate) + le32_bytes(args.channels) + le32_bytes(
                args.interleave,
            ) + Seq::new(k as nat, |j: int| 0xffu8),
        decreases 8 - k,
    {
        out.push(0xff);
        k = k + 1;
    }
    out.push(0x53);
    out.push(0x53);
    out.push(0x62);
    out.push(0x64);
    push_le32(&mut out, len32(len));
    assert(out@ =~= ads_header(*args, len as nat));
    push_range(&mut out, file.as_slice(), 0, len);
    assert(file@.subrange(0, len as int) =~= file@);
    *file = out;
}

} // verus!
