//! Puts a VAG header in front of raw sample data.

use vstd::prelude::*;
use crate::bytes::{be32_bytes, len32, low32, push_be32, push_fill, push_range};

verus! {

/// The fields of a VAG header that the caller chooses.
#[derive(Clone, Copy, Debug, PartialEq, Eq)]
pub struct Args {
    /// Samples per second; not zero.
    pub sample_rate: u32,
    /// Asked for the long header; this is what is written unless `short` is set.
    pub long: bool,
    /// Asked for the short header, without the sixteen bytes of padding.
    pub short: bool,
}

/// The header bytes for sample data of `body_len` bytes: forty-eight bytes,
/// and sixteen zero bytes more unless the short form is asked for.
pub open spec fn vag_header(args: Args, body_len: nat) -> Seq<u8> {
    seq![0x56u8, 0x41u8, 0x47u8, 0x70u8, 0u8, 0u8, 0u8, 3u8, 0u8, 0u8, 0u8, 0u8] + be32_bytes(
        low32(body_len),
    ) + be32_bytes(args.sample_rate) + Seq::new(
        if args.short {
            28nat
        } else {
            44nat
        },
        |k: int| 0u8,
    )
}

/// A copy of the sample data with the VAG header in front.
pub fn add_header(file: &[u8], args: &Args) -> (new_file: Vec<u8>)
    ensures
        new_file@ == vag_header(*args, file@.len()) + file@,
{
    let mut new_file: Vec<u8> = Vec::new();
    new_file.push(0x56);
    new_file.push(0x41);
    new_file.push(0x47);
    new_file.push(0x70);
    new_file.push(0);
    new_file.push(0);
    new_file.push(0);
    new_file.push(3);
    new_file.push(0);
    new_file.push(0);
    new_file.push(0);
    new_file.push(0);
    push_be32(&mut new_file, len32(file.len()));
    push_be32(&mut new_file, args.sample_rate);
    push_fill(&mut new_file, 0, 28);
    if !args.short {
        let ghost before = new_file@;
        push_fill(&mut new_file, 0, 16);
        assert(new_file@ =~= vag_header(*args, file@.len()));
    }
    assert(new_file@ =~= vag_header(*args, file@.len()));
    push_range(&mut new_file, file, 0, file.len());
    assert(file@.subrange(0, file@.len() as int) =~= file@);
    new_file
}

} // verus!
