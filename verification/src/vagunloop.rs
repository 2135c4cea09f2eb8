//! Removes the loop flags from the sample data of a VAG file.

use vstd::prelude::*;
use crate::adpcm::{chunk_count, clear_loops, marked_chunks, unlooped};

verus! {

/// Where the sample data of a VAG file starts.
pub const BODY_START: usize = 48;

/// Whether the file opens with the tag `VAGp`.
pub open spec fn has_magic(s: Seq<u8>) -> bool {
    s.len() >= 4 && s[0] == 0x56 && s[1] == 0x41 && s[2] == 0x47 && s[3] == 0x70
}

/// Whether the file holds its header and no chunk of a single byte.
pub open spec fn readable(s: Seq<u8>) -> bool {
    s.len() >= 48 && (s.len() - 48) % 16 != 1
}

/// Tells whether the file opens with the tag `VAGp`.
pub fn is_vag(bytes: &[u8]) -> (ok: bool)
    ensures
        ok == has_magic(bytes@),
{
    bytes.len() >= 4 && bytes[0] == 0x56 && bytes[1] == 0x41 && bytes[2] == 0x47 && bytes[3]
        == 0x70
}

/// Tells whether [`unloop`] can read the file.
pub fn can_unloop(bytes: &[u8]) -> (ok: bool)
    ensures
        ok == readable(bytes@),
{
    bytes.len() >= 48 && (bytes.len() - 48) % 16 != 1
}

/// Clears the loop flags of every chunk of sample data and returns the
/// number of chunks that held any.
pub fn unloop(vag_bytes: &mut [u8]) -> (changed: usize)
    requires
        readable(old(vag_bytes)@),
    ensures
        final(vag_bytes)@ == unlooped(old(vag_bytes)@, 48),
        changed == marked_chunks(old(vag_bytes)@, 48, chunk_count(old(vag_bytes)@.len() - 48)),
{
    clear_loops(vag_bytes, BODY_START)
}

} // verus!
