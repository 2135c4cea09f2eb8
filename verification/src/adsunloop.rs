//! Removes the loop flags from the sample data of an ADS file.

use vstd::prelude::*;
use crate::adpcm::{chunk_count, clear_loops, marked_chunks, unlooped};
use crate::bytes::{le32, read_le32};

verus! {

/// Where the sample data of an ADS file starts.
pub const BODY_START: usize = 40;

/// Whether the file opens with the header tag `SShd`.
pub open spec fn has_header_tag(s: Seq<u8>) -> bool {
    s.len() >= 4 && s[0] == 0x53 && s[1] == 0x53 && s[2] == 0x68 && s[3] == 0x64
}

/// Whether the codec field names Sony 4-bit ADPCM.
pub open spec fn has_adpcm_codec(s: Seq<u8>) -> bool {
    s.len() >= 12 && le32(s, 8) == 0x10
}

/// Whether the body tag `SSbd` stands at offset 32.
pub open spec fn has_body_tag(s: Seq<u8>) -> bool {
    s.len() >= 36 && s[32] == 0x53 && s[33] == 0x53 && s[34] == 0x62 && s[35] == 0x64
}

/// Whether the file is an ADS file with ADPCM sample data.
pub open spec fn accepted(s: Seq<u8>) -> bool {
    has_header_tag(s) && has_adpcm_codec(s) && has_body_tag(s)
}

/// Whether every field that the checks read, and every flag byte of the
/// sample data, lies inside the file.
pub open spec fn readable(s: Seq<u8>) -> bool {
    &&& s.len() >= 4
    &&& has_header_tag(s) ==> s.len() >= 12
    &&& has_header_tag(s) && has_adpcm_codec(s) ==> s.len() >= 36
    &&& accepted(s) ==> s.len() >= 40 && (s.len() - 40) % 16 != 1
}

fn tag_at(bytes: &[u8], at: usize, b0: u8, b1: u8, b2: u8, b3: u8) -> (found: bool)
    requires
        at + 4 <= bytes@.len(),
    ensures
        found == (bytes@[at as int] == b0 && bytes@[at + 1] == b1 && bytes@[at + 2] == b2
            && bytes@[at + 3] == b3),
{
    let len = bytes.len();
    bytes[at] == b0 && bytes[at + 1] == b1 && bytes[at + 2] == b2 && bytes[at + 3] == b3
}

/// Tells whether [`unloop`] can read the file.
pub fn can_unloop(bytes: &[u8]) -> (ok: bool)
    ensures
        ok == readable(bytes@),
{
    let len = bytes.len();
    if len < 4 {
        return false;
    }
    if !tag_at(bytes, 0, 0x53, 0x53, 0x68, 0x64) {
        return true;
    }
    if len < 12 {
        return false;
    }
    if read_le32(bytes, 8) != 0x10 {
        return true;
    }
    if len < 36 {
        return false;
    }
    if !tag_at(bytes, 32, 0x53, 0x53, 0x62, 0x64) {
        return true;
    }
    len >= 40 && (len - 40) % 16 != 1
}

/// Clears the loop flags of every chunk of sample data and returns the
/// number of chunks that held any.  A file that is not an ADS file with
/// ADPCM data is left alone, and nothing is returned.
pub fn unloop(ads_bytes: &mut [u8]) -> (res: Option<usize>)
    requires
        readable(old(ads_bytes)@),
    ensures
        match res {
            Some(changed) => {
                &&& accepted(old(ads_bytes)@)
                &&& final(ads_bytes)@ == unlooped(old(ads_bytes)@, 40)
                &&& changed == marked_chunks(
                    old(ads_bytes)@,
                    40,
                    chunk_count(old(ads_bytes)@.len() - 40),
                )
            },
            None => !accepted(old(ads_bytes)@) && final(ads_bytes)@ == old(ads_bytes)@,
        },
{
    if !tag_at(ads_bytes, 0, 0x53, 0x53, 0x68, 0x64) {
        return None;
    }
    if read_le32(ads_bytes, 8) != 0x10 {
        return None;
    }
    if !tag_at(ads_bytes, 32, 0x53, 0x53, 0x62, 0x64) {
        return None;
    }
    Some(clear_loops(ads_bytes, BODY_START))
}

} // verus!
