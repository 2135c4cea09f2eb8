//! Splits an MSQ file into its tracks, for input known to hold a header.

use vstd::prelude::*;
use crate::bytes::{read_le16, read_le32};
use crate::msqsplit::{header_at, split_tracks, splittable, track_count, track_end, track_start};
use crate::reader::ByteReader;

verus! {

/// The header of an MSQ file.  Every field is stored low byte first.
#[derive(Clone, Copy, Debug, PartialEq, Eq)]
pub struct MsqHeader {
    pub magic: u32,
    pub quarter_note_time: u32,
    pub ppqn: u16,
    pub version: u16,
    pub num_tracks: u16,
    pub padding: u16,
}

impl MsqHeader {
    /// The same header as a value of the splitter's type.
    pub open spec fn fields(self) -> crate::msqsplit::MsqHeader {
        crate::msqsplit::MsqHeader {
            magic: self.magic,
            quarter_note_time: self.quarter_note_time,
            ppqn: self.ppqn,
            version: self.version,
            num_tracks: self.num_tracks,
            _padding: self.padding,
        }
    }

    /// Reads the header from a reader that holds at least sixteen bytes.
    pub fn parse(bytes: &mut ByteReader) -> (header: Self)
        requires
            old(bytes).position() + 16 <= old(bytes).source().len(),
        ensures
            final(bytes).source() == old(bytes).source(),
            final(bytes).position() == old(bytes).position() + 16,
            header.fields() == header_at(old(bytes).source(), old(bytes).position() as int),
    {
        let chunk = bytes.take(16).unwrap();
        MsqHeader {
            magic: read_le32(chunk, 0),
            quarter_note_time: read_le32(chunk, 4),
            ppqn: read_le16(chunk, 8),
            version: read_le16(chunk, 10),
            num_tracks: read_le16(chunk, 12),
            padding: read_le16(chunk, 14),
        }
    }
}

/// The tracks of an MSQ file: each runs from its offset to the offset of
/// the next one, the last one to the end of the file.
pub fn convert(bytes: Vec<u8>) -> (tracks: Vec<Vec<u8>>)
    requires
        bytes@.len() >= 16,
        splittable(bytes@),
    ensures
        tracks@.len() == track_count(bytes@),
        forall|k: int|
            0 <= k < tracks@.len() ==> (#[trigger] tracks@[k])@ == bytes@.subrange(
                track_start(bytes@, k),
                track_end(bytes@, k),
            ),
{
    let mut reader = ByteReader::new(bytes.as_slice());
    let _header = MsqHeader::parse(&mut reader);
    split_tracks(bytes.as_slice())
}

} // verus!
