//! The twelve-byte header of a CDS or MSQ sequence, and the header of the
//! SEQ file made from it.

use vstd::prelude::*;
use super::dictionary::{tempo_bytes, tempo_of};
use super::error::ConvertError;

verus! {

/// Length of the source header in bytes.
pub const HEADER_LEN: usize = 12;

/// The container tag `QESa` of a CDS sequence, read high byte first.
pub const CDS_MAGIC: u32 = 0x5145_5361;

/// The container tag `QSMa` of an MSQ sequence, read high byte first.
pub const MSQ_MAGIC: u32 = 0x5153_4d61;

/// The header of a source sequence.
#[derive(Clone, Copy, Debug, PartialEq, Eq)]
pub struct Header {
    /// The container tag: bytes 0 to 3, high byte first.
    pub magic: u32,
    /// Microseconds per quarter note: bytes 4 to 7, low byte first.
    pub quarter_note_time: u32,
    /// Pulses per quarter note: bytes 8 and 9, high byte first.
    pub ppqn: u16,
    /// Format version: bytes 10 and 11, high byte first.
    pub version: u16,
}

/// The header that the first twelve bytes of `s` spell.
pub open spec fn header_fields(s: Seq<u8>) -> Header
    recommends
        s.len() >= 12,
{
    Header {
        magic: (16777216 * (s[0] as int) + 65536 * (s[1] as int) + 256 * (s[2] as int)
            + s[3] as int) as u32,
        quarter_note_time: (s[4] as int + 256 * (s[5] as int) + 65536 * (s[6] as int) + 16777216
            * (s[7] as int)) as u32,
        ppqn: (256 * (s[8] as int) + s[9] as int) as u16,
        version: (256 * (s[10] as int) + s[11] as int) as u16,
    }
}

/// Whether `magic` is one of the two container tags.
pub open spec fn known_magic(magic: u32) -> bool {
    magic == CDS_MAGIC || magic == MSQ_MAGIC
}

/// The header of a source file, or the reason it has none.
pub open spec fn header_of(s: Seq<u8>) -> Result<Header, ConvertError> {
    if s.len() < 12 {
        Err(ConvertError::TruncatedBuffer)
    } else if !known_magic(header_fields(s).magic) {
        Err(ConvertError::MalformedHeader)
    } else {
        Ok(header_fields(s))
    }
}

/// The fifteen bytes that open a SEQ file: the signature `pQES` and format
/// tag, the pulses per quarter note low byte first, the three tempo bytes,
/// and the trailer `04 02`.
pub open spec fn seq_header(header: Header) -> Seq<u8> {
    seq![0x70u8, 0x51u8, 0x45u8, 0x53u8, 0x00u8, 0x00u8, 0x00u8, 0x01u8] + seq![
        (header.ppqn as int % 256) as u8,
        (header.ppqn as int / 256) as u8,
    ] + tempo_bytes(header.quarter_note_time) + seq![0x04u8, 0x02u8]
}

impl Header {
    /// Reads the header at the start of a source file.  A file shorter than
    /// the header is truncated; a header with an unknown tag is malformed.
    pub fn parse(bytes: &[u8]) -> (res: Result<Header, ConvertError>)
        ensures
            res == header_of(bytes@),
    {
        if bytes.len() < HEADER_LEN {
            return Err(ConvertError::TruncatedBuffer);
        }
        let magic: u32 = 16777216 * (bytes[0] as u32) + 65536 * (bytes[1] as u32) + 256 * (
        bytes[2] as u32) + bytes[3] as u32;
        if magic != CDS_MAGIC && magic != MSQ_MAGIC {
            return Err(ConvertError::MalformedHeader);
        }
        let quarter_note_time: u32 = bytes[4] as u32 + 256 * (bytes[5] as u32) + 65536 * (
        bytes[6] as u32) + 16777216 * (bytes[7] as u32);
        let ppqn: u16 = 256 * (bytes[8] as u16) + bytes[9] as u16;
        let version: u16 = 256 * (bytes[10] as u16) + bytes[11] as u16;
        Ok(Header { magic, quarter_note_time, ppqn, version })
    }

    /// The bytes that open the SEQ file of this sequence.
    pub fn seq_prefix(&self) -> (out: Vec<u8>)
        ensures
            out@ == seq_header(*self),
    {
        let tempo = tempo_of(self.quarter_note_time);
        let mut out: Vec<u8> = Vec::new();
        out.push(0x70);
        out.push(0x51);
        out.push(0x45);
        out.push(0x53);
        out.push(0x00);
        out.push(0x00);
        out.push(0x00);
        out.push(0x01);
        out.push((self.ppqn % 256) as u8);
        out.push((self.ppqn / 256) as u8);
        out.push(tempo[0]);
        out.push(tempo[1]);
        out.push(tempo[2]);
        out.push(0x04);
        out.push(0x02);
        assert(out@ =~= seq_header(*self));
        out
    }
}

} // verus!
