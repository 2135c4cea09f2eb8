//! Finds the loop points of an ADS file with ADPCM sample data.

use vstd::prelude::*;
use vstd::slice::slice_subrange;
use crate::bytes::{le32, read_le32};

verus! {

/// The tag `SShd` that opens an ADS file.
pub const MAGIC_NUMBER: [u8; 4] = [0x53, 0x53, 0x68, 0x64];

/// Whether the file opens with the header tag.
pub open spec fn has_header_tag(s: Seq<u8>) -> bool {
    s.len() >= 4 && s[0] == 0x53 && s[1] == 0x53 && s[2] == 0x68 && s[3] == 0x64
}

/// The index of the first chunk at or after `chunk` whose flag byte is 6,
/// the mark of a loop start.  The sample data is cut into chunks of sixteen
/// bytes.
pub open spec fn loop_chunk_from(body: Seq<u8>, chunk: int) -> Option<int>
    decreases body.len() - chunk,
{
    if chunk < 0 || 16 * chunk >= body.len() {
        None
    } else if 16 * chunk + 1 < body.len() && body[16 * chunk + 1] == 6 {
        Some(chunk)
    } else {
        loop_chunk_from(body, chunk + 1)
    }
}

/// The sample data of an ADS file: all behind the forty header bytes.
pub open spec fn body_of(s: Seq<u8>) -> Seq<u8> {
    s.skip(40)
}

/// The first and the last sample of the loop, counted per channel: a chunk
/// holds twenty-eight samples, shared among the channels.  `None` when the
/// file is no ADPCM file or holds no loop start.
pub open spec fn loop_points(s: Seq<u8>) -> Option<(u32, u32)> {
    if !has_header_tag(s) || le32(s, 8) != 0x10 {
        None
    } else {
        match loop_chunk_from(body_of(s), 0) {
            None => None,
            Some(chunk) => Some(
                (
                    (chunk * 28 / (le32(s, 0x10) as int)) as u32,
                    ((le32(s, 0x24) as int) / 16 * 28 / (le32(s, 0x10) as int) - 1) as u32,
                ),
            ),
        }
    }
}

/// Whether the loop points can be read and computed: the header lies inside
/// the file, no chunk is a single byte long, and where there is a loop, the
/// channel count is not zero and both loop points fit in 32 bits.
pub open spec fn readable(s: Seq<u8>) -> bool {
    &&& s.len() >= 4
    &&& has_header_tag(s) ==> s.len() >= 40
    &&& has_header_tag(s) && le32(s, 8) == 0x10 ==> match loop_chunk_from(body_of(s), 0) {
        None => body_of(s).len() % 16 != 1,
        Some(chunk) => {
            &&& le32(s, 0x10) != 0
            &&& chunk * 28 <= u32::MAX
            &&& (le32(s, 0x24) as int) / 16 * 28 <= u32::MAX
            &&& (le32(s, 0x24) as int) / 16 * 28 / (le32(s, 0x10) as int) >= 1
        },
    }
}

/// Reads the 32-bit value at the start of `bytes`, low byte first.
pub fn load_bytes(bytes: &[u8]) -> (v: u32)
    requires
        bytes@.len() >= 4,
    ensures
        v == le32(bytes@, 0),
{
    read_le32(bytes, 0)
}

fn has_magic(bytes: &[u8]) -> (ok: bool)
    ensures
        ok == has_header_tag(bytes@),
{
    bytes.len() >= 4 && bytes[0] == MAGIC_NUMBER[0] && bytes[1] == MAGIC_NUMBER[1] && bytes[2]
        == MAGIC_NUMBER[2] && bytes[3] == MAGIC_NUMBER[3]
}

/// Finds the first chunk whose flag byte marks a loop start.  The second
/// part of the result tells whether the search ran into a chunk of a single
/// byte, which has no flag byte.
fn first_loop_chunk(body: &[u8]) -> (res: (Option<usize>, bool))
    ensures
        match res.0 {
            Some(chunk) => loop_chunk_from(body@, 0) == Some(chunk as int),
            None => loop_chunk_from(body@, 0) is None,
        },
        res.1 == (res.0 is None && body@.len() % 16 == 1),
{
    let len = body.len();
    let mut chunk: usize = 0;
    let mut at: usize = 0;
    while at < len
        invariant
            len == body@.len(),
            at <= len,
            at < len ==> at == 16 * chunk,
            at == len ==> 16 * chunk >= len,
            loop_chunk_from(body@, 0) == loop_chunk_from(body@, chunk as int),
        decreases len - at,
    {
        if len - at >= 2 && body[at + 1] == 6 {
            return (Some(chunk), false);
        }
        if len - at <= 16 {
            at = len;
        } else {
            at = at + 16;
        }
        chunk = chunk + 1;
    }
    (None, len % 16 == 1)
}

/// Tells whether [`find_loops`] can read the file.
pub fn can_find_loops(ads_file: &[u8]) -> (ok: bool)
    ensures
        ok == readable(ads_file@),
{
    let len = ads_file.len();
    if len < 4 {
        return false;
    }
    if !has_magic(ads_file) {
        return true;
    }
    if len < 40 {
        return false;
    }
    if read_le32(ads_file, 8) != 0x10 {
        return true;
    }
    let body_size = read_le32(ads_file, 0x24);
    let channel_number = read_le32(ads_file, 0x10);
    let body = slice_subrange(ads_file, 40, len);
    assert(body@ =~= body_of(ads_file@));
    match first_loop_chunk(body) {
        (None, short) => !short,
        (Some(chunk), _) => {
            channel_number != 0 && chunk <= 153391689 && body_size / 16 <= 153391689 && (
            body_size / 16 * 28) / channel_number >= 1
        },
    }
}

/// The loop points of an ADS file, or nothing when the file is no ADPCM
/// file or holds no loop.
pub fn find_loops(ads_file: &[u8]) -> (res: Option<(u32, u32)>)
    requires
        readable(ads_file@),
    ensures
        res == loop_points(ads_file@),
{
    if !has_magic(ads_file) {
        return None;
    }
    let len = ads_file.len();
    let body_size = load_bytes(slice_subrange(ads_file, 0x24, len));
    let codec = load_bytes(slice_subrange(ads_file, 8, len));
    if codec != 0x10 {
        return None;
    }
    let channel_number = load_bytes(slice_subrange(ads_file, 0x10, len));
    let body = slice_subrange(ads_file, 0x28, len);
    assert(body@ =~= body_of(ads_file@));
    match first_loop_chunk(body).0 {
        None => None,
        Some(chunk) => Some(
            ((chunk as u32) * 28 / channel_number, body_size / 16 * 28 / channel_number - 1),
        ),
    }
}

} // verus!
