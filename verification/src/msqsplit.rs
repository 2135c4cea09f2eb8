//! Splits an MSQ file into its tracks.

use vstd::prelude::*;
use crate::bytes::{
    le16, le32, le32_bytes, len32, low32, push_le32, push_range, read_le16, read_le32,
};
use crate::reader::ByteReader;

verus! {

/// The header of an MSQ file.  Every field is stored low byte first.
#[derive(Clone, Copy, Debug, PartialEq, Eq)]
pub struct MsqHeader {
    pub magic: u32,
    pub quarter_note_time: u32,
    pub ppqn: u16,
    pub version: u16,
    pub num_tracks: u16,
    pub _padding: u16,
}

/// The header that the sixteen bytes at `s[at..]` spell.
pub open spec fn header_at(s: Seq<u8>, at: int) -> MsqHeader
    recommends
        0 <= at,
        at + 16 <= s.len(),
{
    MsqHeader {
        magic: le32(s, at),
        quarter_note_time: le32(s, at + 4),
        ppqn: le16(s, at + 8),
        version: le16(s, at + 10),
        num_tracks: le16(s, at + 12),
        _padding: le16(s, at + 14),
    }
}

/// Whether `magic` is the tag of an MSQ or of a CDS sequence.
pub open spec fn known_magic(magic: u32) -> bool {
    magic == 0x614d_5351 || magic == 0x6153_4551
}

/// Number of bytes of the offset table that lie inside the file: four for
/// each track, as far as the file reaches.
pub open spec fn table_bytes(s: Seq<u8>) -> int {
    let wanted = header_at(s, 0).num_tracks as int * 4;
    if wanted <= s.len() - 16 {
        wanted
    } else {
        s.len() - 16
    }
}

/// Number of tracks whose offset lies inside the file.
pub open spec fn track_count(s: Seq<u8>) -> int {
    table_bytes(s) / 4
}

/// Where track `k` starts.
pub open spec fn track_start(s: Seq<u8>, k: int) -> int {
    le32(s, 16 + 4 * k) as int
}

/// Where track `k` ends: at the start of the next track, and for the last
/// track at the end of the file.
pub open spec fn track_end(s: Seq<u8>, k: int) -> int {
    if k + 1 < track_count(s) {
        track_start(s, k + 1)
    } else {
        low32(s.len()) as int
    }
}

/// Whether the file can be split: its tag is known, its offset table is not
/// cut inside an entry, and every track lies inside the file.
pub open spec fn splittable(s: Seq<u8>) -> bool {
    s.len() >= 16 ==> {
        &&& known_magic(header_at(s, 0).magic)
        &&& table_bytes(s) % 4 == 0
        &&& forall|k: int|
            0 <= k < track_count(s) ==> track_start(s, k) <= #[trigger] track_end(s, k) <= s.len()
    }
}

impl MsqHeader {
    /// Reads the header.  When fewer than sixteen bytes are left, nothing
    /// is returned and the reader is exhausted.
    pub fn parse(bytes: &mut ByteReader) -> (res: Option<Self>)
        ensures
            final(bytes).source() == old(bytes).source(),
            match res {
                Some(header) => {
                    &&& old(bytes).position() + 16 <= old(bytes).source().len()
                    &&& header == header_at(old(bytes).source(), old(bytes).position() as int)
                    &&& final(bytes).position() == old(bytes).position() + 16
                },
                None => {
                    &&& old(bytes).position() + 16 > old(bytes).source().len()
                    &&& final(bytes).position() == old(bytes).source().len()
                },
            },
    {
        match bytes.take(16) {
            None => None,
            Some(chunk) => Some(
                MsqHeader {
                    magic: read_le32(chunk, 0),
                    quarter_note_time: read_le32(chunk, 4),
                    ppqn: read_le16(chunk, 8),
                    version: read_le16(chunk, 10),
                    num_tracks: read_le16(chunk, 12),
                    _padding: read_le16(chunk, 14),
                },
            ),
        }
    }
}

fn table_len(bytes: &[u8], num_tracks: u16) -> (n: usize)
    requires
        bytes@.len() >= 16,
        num_tracks == header_at(bytes@, 0).num_tracks,
    ensures
        n == table_bytes(bytes@),
{
    let wanted = num_tracks as usize * 4;
    if wanted <= bytes.len() - 16 {
        wanted
    } else {
        bytes.len() - 16
    }
}

fn end_of_track(bytes: &[u8], k: usize, count: usize) -> (end: usize)
    requires
        bytes@.len() >= 16,
        count == track_count(bytes@),
        table_bytes(bytes@) % 4 == 0,
        k < count,
    ensures
        end == track_end(bytes@, k as int),
{
    if k + 1 < count {
        read_le32(bytes, 16 + 4 * (k + 1)) as usize
    } else {
        len32(bytes.len()) as usize
    }
}

/// Tells whether [`convert`] can split the file.
pub fn can_convert(bytes: &[u8]) -> (ok: bool)
    ensures
        ok == splittable(bytes@),
{
    let len = bytes.len();
    if len < 16 {
        return true;
    }
    let magic = read_le32(bytes, 0);
    if magic != 0x614d_5351 && magic != 0x6153_4551 {
        return false;
    }
    let table = table_len(bytes, read_le16(bytes, 12));
    if table % 4 != 0 {
        return false;
    }
    let count = table / 4;
    let mut k: usize = 0;
    while k < count
        invariant
            len == bytes@.len(),
            len >= 16,
            count == track_count(bytes@),
            table_bytes(bytes@) % 4 == 0,
            k <= count,
            forall|j: int|
                0 <= j < k ==> track_start(bytes@, j) <= #[trigger] track_end(bytes@, j) <= len,
        decreases count - k,
    {
        let start = read_le32(bytes, 16 + 4 * k) as usize;
        let end = end_of_track(bytes, k, count);
        if start > end || end > len {
            assert(!(track_start(bytes@, k as int) <= track_end(bytes@, k as int) <= len));
            return false;
        }
        k = k + 1;
    }
    true
}

/// The tracks of a file whose header was read: each track runs from its
/// offset to the offset of the next one, the last one to the end.
pub fn split_tracks(bytes: &[u8]) -> (tracks: Vec<Vec<u8>>)
    requires
        bytes@.len() >= 16,
        splittable(bytes@),
    ensures
        tracks@.len() == track_count(bytes@),
        forall|k: int|
            0 <= k < tracks@.len() ==> (#[trigger] tracks@[k])@ == bytes@.subrange(
                track_start(bytes@, k),
                track_end(bytes@, k),
            ),
{
    let table = table_len(bytes, read_le16(bytes, 12));
    let count = table / 4;
    let mut tracks: Vec<Vec<u8>> = Vec::new();
    let mut k: usize = 0;
    while k < count
        invariant
            bytes@.len() >= 16,
            splittable(bytes@),
            count == track_count(bytes@),
            k <= count,
            tracks@.len() == k,
            forall|j: int|
                0 <= j < k ==> (#[trigger] tracks@[j])@ == bytes@.subrange(
                    track_start(bytes@, j),
                    track_end(bytes@, j),
                ),
        decreases count - k,
    {
        let start = read_le32(bytes, 16 + 4 * k) as usize;
        let end = end_of_track(bytes, k, count);
        assert(track_start(bytes@, k as int) <= track_end(bytes@, k as int) <= bytes@.len());
        let mut track: Vec<u8> = Vec::new();
        push_range(&mut track, bytes, start, end);
        assert(track@ =~= bytes@.subrange(start as int, end as int));
        tracks.push(track);
        k = k + 1;
    }
    tracks
}

/// Splits an MSQ file into its header and its tracks.  A file shorter than
/// the header gives nothing.
pub fn convert(bytes: Vec<u8>) -> (res: Option<(MsqHeader, Vec<Vec<u8>>)>)
    requires
        splittable(bytes@),
    ensures
        match res {
            Some((header, tracks)) => {
                &&& bytes@.len() >= 16
                &&& header == header_at(bytes@, 0)
                &&& tracks@.len() == track_count(bytes@)
                &&& forall|k: int|
                    0 <= k < tracks@.len() ==> (#[trigger] tracks@[k])@ == bytes@.subrange(
                        track_start(bytes@, k),
                        track_end(bytes@, k),
                    )
            },
            None => bytes@.len() < 16,
        },
{
    let mut reader = ByteReader::new(bytes.as_slice());
    let header = match MsqHeader::parse(&mut reader) {
        Some(header) => header,
        None => {
            return None;
        },
    };
    let tracks = split_tracks(bytes.as_slice());
    Some((header, tracks))
}

/// The twelve bytes that open the CDS file of a track: the tag `QESa`, then
/// the timing and the version of the MSQ file, low byte first.
pub open spec fn cds_header(header: MsqHeader) -> Seq<u8> {
    seq![0x51u8, 0x45u8, 0x53u8, 0x61u8] + le32_bytes(header.quarter_note_time) + seq![
        (header.ppqn as int % 256) as u8,
        (header.ppqn as int / 256) as u8,
        (header.version as int % 256) as u8,
        (header.version as int / 256) as u8,
    ]
}

/// The CDS file of one track: the CDS header, then the track.
pub fn track_file(header: &MsqHeader, track: &[u8]) -> (out: Vec<u8>)
    ensures
        out@ == cds_header(*header) + track@,
{
    let mut out: Vec<u8> = Vec::new();
    out.push(0x51);
    out.push(0x45);
    out.push(0x53);
    out.push(0x61);
    push_le32(&mut out, header.quarter_note_time);
    out.push((header.ppqn % 256) as u8);
    out.push((header.ppqn / 256) as u8);
    out.push((header.version % 256) as u8);
    out.push((header.version / 256) as u8);
    assert(out@ =~= cds_header(*header));
    push_range(&mut out, track, 0, track.len());
    assert(track@.subrange(0, track@.len() as int) =~= track@);
    out
}

} // verus!
