//! Reads an SND sound bank and the SMP sample file that goes with it.

use vstd::prelude::*;
use crate::bytes::{le16, le32, read_le16, read_le32};
use crate::reader::ByteReader;

verus! {

/// The tag `aSND` of an SND file, read low byte first.
pub const SND_MAGIC: u32 = 0x6153_4e44;

/// The tag `aSMP` of an SMP file, read low byte first.
pub const SMP_MAGIC: u32 = 0x6153_4d50;

/// The three layouts of the SND header.
#[derive(Clone, Copy, Debug, PartialEq, Eq)]
pub enum Version {
    SoulReaver,
    Prototype,
    Gex,
}

impl Default for Version {
    fn default() -> (version: Self)
        ensures
            version == Version::SoulReaver,
    {
        Version::SoulReaver
    }
}

/// A range of file offsets, from `start` up to but without `end`.
#[derive(Clone, Copy, Debug, PartialEq, Eq)]
pub struct Span {
    pub start: u32,
    pub end: u32,
}

/// The next four bytes.  When fewer are left, nothing is returned and the
/// reader is exhausted.
pub fn four_bytes(bytes: &mut ByteReader) -> (res: Option<[u8; 4]>)
    ensures
        final(bytes).source() == old(bytes).source(),
        match res {
            Some(four) => {
                &&& old(bytes).position() + 4 <= old(bytes).source().len()
                &&& four@ == old(bytes).source().subrange(
                    old(bytes).position() as int,
                    old(bytes).position() as int + 4,
                )
                &&& final(bytes).position() == old(bytes).position() + 4
            },
            None => {
                &&& old(bytes).position() + 4 > old(bytes).source().len()
                &&& final(bytes).position() == old(bytes).source().len()
            },
        },
{
    match bytes.take(4) {
        None => None,
        Some(chunk) => {
            let four = [chunk[0], chunk[1], chunk[2], chunk[3]];
            assert(four@ =~= chunk@);
            Some(four)
        },
    }
}

/// A header size, rounded up to a multiple of four.
#[derive(Clone, Copy, Debug, PartialEq, Eq)]
pub struct HeaderSize {
    /// The size in use: the next multiple of four.
    pub size: i64,
    /// The size as stored, when it was no multiple of four.
    pub original: Option<i64>,
}

/// The remainder of `x` by four, with the sign of `x`.
pub open spec fn rem4(x: int) -> int {
    if x >= 0 {
        x % 4
    } else {
        -((-x) % 4)
    }
}

/// The header size for a stored size of `x`.
pub open spec fn rounded(x: i64) -> HeaderSize {
    if rem4(x as int) == 0 {
        HeaderSize { size: x, original: None }
    } else {
        HeaderSize { size: (x - rem4(x as int) + 4) as i64, original: Some(x) }
    }
}

impl HeaderSize {
    /// Rounds a stored size up to the next multiple of four.
    pub fn new(x: i64) -> (res: Self)
        requires
            x <= i64::MAX - 3,
        ensures
            res == rounded(x),
    {
        if x % 4 == 0 {
            HeaderSize { size: x, original: None }
        } else {
            HeaderSize { size: x - x % 4 + 4, original: Some(x) }
        }
    }

    /// The size as text: the stored size with the size in use in brackets,
    /// or the size alone when both agree.
    pub open spec fn text(self) -> Seq<char> {
        match self.original {
            Some(original) => crate::text::decimal(original as int) + " ("@ + crate::text::decimal(
                self.size as int,
            ) + ") bytes"@,
            None => crate::text::decimal(self.size as int) + " bytes"@,
        }
    }

    /// Writes the size as text.
    pub fn fmt(&self) -> (out: String)
        ensures
            out@ == self.text(),
    {
        let mut out = String::new();
        match self.original {
            Some(original) => {
                crate::text::push_decimal(&mut out, original);
                assert(out@ =~= crate::text::decimal(original as int));
                vstd::string::StringExecFns::append(&mut out, " (");
                crate::text::push_decimal(&mut out, self.size);
                vstd::string::StringExecFns::append(&mut out, ") bytes");
            },
            None => {
                crate::text::push_decimal(&mut out, self.size);
                assert(out@ =~= crate::text::decimal(self.size as int));
                vstd::string::StringExecFns::append(&mut out, " bytes");
            },
        }
        out
    }
}

/// The header of an SND file.
#[derive(Clone, Copy, Debug, PartialEq, Eq)]
pub struct SndHeader {
    pub magic_number: u32,
    pub header_size: HeaderSize,
    pub bank_version: Option<u32>,
    pub num_programs: u32,
    pub num_zones: u32,
    pub num_waves: u32,
    pub num_sequences: u32,
    pub num_labels: u32,
    pub reverb_mode: u32,
    pub reverb_depth: u32,
}

/// Length in bytes of the header in each layout.
pub open spec fn header_len(version: Version) -> int {
    match version {
        Version::SoulReaver => 40,
        Version::Prototype => 24,
        Version::Gex => 20,
    }
}

/// The header that the bytes at `s[at..]` spell in the given layout.  The
/// first layout stores every field in 32 bits.  The second stores the bank
/// version and all that follows in 16 bits, but for the number of programs,
/// which is one byte behind one byte of padding.  The third is the second
/// with a header size of 16 bits and no bank version.
pub open spec fn header_at(s: Seq<u8>, at: int, version: Version) -> SndHeader {
    match version {
        Version::SoulReaver => SndHeader {
            magic_number: le32(s, at),
            header_size: rounded(le32(s, at + 4) as i64),
            bank_version: Some(le32(s, at + 8)),
            num_programs: le32(s, at + 12),
            num_zones: le32(s, at + 16),
            num_waves: le32(s, at + 20),
            num_sequences: le32(s, at + 24),
            num_labels: le32(s, at + 28),
            reverb_mode: le32(s, at + 32),
            reverb_depth: le32(s, at + 36),
        },
        Version::Prototype => SndHeader {
            magic_number: le32(s, at),
            header_size: rounded(le32(s, at + 4) as i64),
            bank_version: Some(le16(s, at + 8) as u32),
            num_programs: s[at + 11] as u32,
            num_zones: le16(s, at + 12) as u32,
            num_waves: le16(s, at + 14) as u32,
            num_sequences: le16(s, at + 16) as u32,
            num_labels: le16(s, at + 18) as u32,
            reverb_mode: le16(s, at + 20) as u32,
            reverb_depth: le16(s, at + 22) as u32,
        },
        Version::Gex => SndHeader {
            magic_number: le32(s, at),
            header_size: rounded(le16(s, at + 4) as i64),
            bank_version: None,
            num_programs: s[at + 7] as u32,
            num_zones: le16(s, at + 8) as u32,
            num_waves: le16(s, at + 10) as u32,
            num_sequences: le16(s, at + 12) as u32,
            num_labels: le16(s, at + 14) as u32,
            reverb_mode: le16(s, at + 16) as u32,
            reverb_depth: le16(s, at + 18) as u32,
        },
    }
}

impl SndHeader {
    /// Reads the header in the given layout.  When the header does not fit
    /// in what is left, nothing is returned and the reader is exhausted.
    pub fn parse(bytes: &mut ByteReader, version: Version) -> (res: Option<Self>)
        ensures
            final(bytes).source() == old(bytes).source(),
            match res {
                Some(header) => {
                    &&& old(bytes).position() + header_len(version) <= old(bytes).source().len()
                    &&& header == header_at(
                        old(bytes).source(),
                        old(bytes).position() as int,
                        version,
                    )
                    &&& final(bytes).position() == old(bytes).position() + header_len(version)
                },
                None => {
                    &&& old(bytes).position() + header_len(version) > old(bytes).source().len()
                    &&& final(bytes).position() == old(bytes).source().len()
                },
            },
    {
        match version {
            Version::SoulReaver => match bytes.take(40) {
                None => None,
                Some(c) => Some(
                    SndHeader {
                        magic_number: read_le32(c, 0),
                        header_size: HeaderSize::new(read_le32(c, 4) as i64),
                        bank_version: Some(read_le32(c, 8)),
                        num_programs: read_le32(c, 12),
                        num_zones: read_le32(c, 16),
                        num_waves: read_le32(c, 20),
                        num_sequences: read_le32(c, 24),
                        num_labels: read_le32(c, 28),
                        reverb_mode: read_le32(c, 32),
                        reverb_depth: read_le32(c, 36),
                    },
                ),
            },
            Version::Prototype => match bytes.take(24) {
                None => None,
                Some(c) => Some(
                    SndHeader {
                        magic_number: read_le32(c, 0),
                        header_size: HeaderSize::new(read_le32(c, 4) as i64),
                        bank_version: Some(read_le16(c, 8) as u32),
                        num_programs: c[11] as u32,
                        num_zones: read_le16(c, 12) as u32,
                        num_waves: read_le16(c, 14) as u32,
                        num_sequences: read_le16(c, 16) as u32,
                        num_labels: read_le16(c, 18) as u32,
                        reverb_mode: read_le16(c, 20) as u32,
                        reverb_depth: read_le16(c, 22) as u32,
                    },
                ),
            },
            Version::Gex => match bytes.take(20) {
                None => None,
                Some(c) => Some(
                    SndHeader {
                        magic_number: read_le32(c, 0),
                        header_size: HeaderSize::new(read_le16(c, 4) as i64),
                        bank_version: None,
                        num_programs: c[7] as u32,
                        num_zones: read_le16(c, 8) as u32,
                        num_waves: read_le16(c, 10) as u32,
                        num_sequences: read_le16(c, 12) as u32,
                        num_labels: read_le16(c, 14) as u32,
                        reverb_mode: read_le16(c, 16) as u32,
                        reverb_depth: read_le16(c, 18) as u32,
                    },
                ),
            },
        }
    }
}

/// One program of the bank.
#[derive(Clone, Copy, Debug, PartialEq, Eq)]
pub struct SndProgram {
    pub num_zones: u16,
    pub first_tone: u16,
    pub volume: u8,
    pub pan_pos: u8,
}

/// The program that the eight bytes at `s[at..]` spell; the last two are
/// padding.
pub open spec fn program_at(s: Seq<u8>, at: int) -> SndProgram {
    SndProgram {
        num_zones: le16(s, at),
        first_tone: le16(s, at + 2),
        volume: s[at + 4],
        pan_pos: s[at + 5],
    }
}

impl SndProgram {
    /// Reads one program.  When fewer than eight bytes are left, nothing is
    /// returned and the reader is exhausted.
    pub fn parse(bytes: &mut ByteReader) -> (res: Option<Self>)
        ensures
            final(bytes).source() == old(bytes).source(),
            match res {
                Some(program) => {
                    &&& old(bytes).position() + 8 <= old(bytes).source().len()
                    &&& program == program_at(old(bytes).source(), old(bytes).position() as int)
                    &&& final(bytes).position() == old(bytes).position() + 8
                },
                None => {
                    &&& old(bytes).position() + 8 > old(bytes).source().len()
                    &&& final(bytes).position() == old(bytes).source().len()
                },
            },
    {
        match bytes.take(8) {
            None => None,
            Some(c) => Some(
                SndProgram {
                    num_zones: read_le16(c, 0),
                    first_tone: read_le16(c, 2),
                    volume: c[4],
                    pan_pos: c[5],
                },
            ),
        }
    }
}

/// One zone of a program.
#[derive(Clone, Copy, Debug, PartialEq, Eq)]
pub struct SndZone {
    pub priority: u8,
    pub parent_program: u8,
    pub volume: u8,
    pub pan_pos: u8,
    pub root_key: u8,
    pub pitch_fine_tuning: u8,
    pub note_low: u8,
    pub note_high: u8,
    pub mode: u8,
    pub max_pitch_range: u8,
    pub adsr1: u16,
    pub adsr2: u16,
    pub wave_index: u16,
}

/// The wave index of a zone, which counts from one: the stored index plus
/// one, and one where that does not fit in 16 bits.
pub open spec fn wave_number(stored: u16) -> u16 {
    if stored == 0xffff {
        1
    } else {
        (stored + 1) as u16
    }
}

/// The zone that the sixteen bytes at `s[at..]` spell.
pub open spec fn zone_at(s: Seq<u8>, at: int) -> SndZone {
    SndZone {
        priority: s[at],
        parent_program: s[at + 1],
        volume: s[at + 2],
        pan_pos: s[at + 3],
        root_key: s[at + 4],
        pitch_fine_tuning: s[at + 5],
        note_low: s[at + 6],
        note_high: s[at + 7],
        mode: s[at + 8],
        max_pitch_range: s[at + 9],
        adsr1: le16(s, at + 10),
        adsr2: le16(s, at + 12),
        wave_index: wave_number(le16(s, at + 14)),
    }
}

impl SndZone {
    /// Reads one zone.  When fewer than sixteen bytes are left, nothing is
    /// returned and the reader is exhausted.
    pub fn parse(bytes: &mut ByteReader) -> (res: Option<Self>)
        ensures
            final(bytes).source() == old(bytes).source(),
            match res {
                Some(zone) => {
                    &&& old(bytes).position() + 16 <= old(bytes).source().len()
                    &&& zone == zone_at(old(bytes).source(), old(bytes).position() as int)
                    &&& final(bytes).position() == old(bytes).position() + 16
                },
                None => {
                    &&& old(bytes).position() + 16 > old(bytes).source().len()
                    &&& final(bytes).position() == old(bytes).source().len()
                },
            },
    {
        match bytes.take(16) {
            None => None,
            Some(c) => {
                let stored = read_le16(c, 14);
                Some(
                    SndZone {
                        priority: c[0],
                        parent_program: c[1],
                        volume: c[2],
                        pan_pos: c[3],
                        root_key: c[4],
                        pitch_fine_tuning: c[5],
                        note_low: c[6],
                        note_high: c[7],
                        mode: c[8],
                        max_pitch_range: c[9],
                        adsr1: read_le16(c, 10),
                        adsr2: read_le16(c, 12),
                        wave_index: if stored == 0xffff {
                            1
                        } else {
                            stored + 1
                        },
                    },
                )
            },
        }
    }
}

/// An SND file: its header and its tables.
#[derive(Debug, PartialEq, Eq)]
pub struct SndFile {
    pub header: SndHeader,
    pub programs: Vec<SndProgram>,
    pub zones: Vec<SndZone>,
    /// Where each wave starts, counted from the start of the first wave.
    pub wave_offsets: Vec<u32>,
    pub sequence_offsets: Vec<u32>,
    pub labels: Vec<u32>,
    /// Where each sequence lies in the file.
    pub sequences: Vec<Span>,
}

/// The header size in use, as the 32-bit number it is compared with.
pub open spec fn size_in_use(header: SndHeader) -> int {
    header.header_size.size as int % 0x1_0000_0000
}

/// Where the tables start: behind the header, and not before the header
/// size in use.
pub open spec fn tables_at(s: Seq<u8>, version: Version) -> int {
    let size = size_in_use(header_at(s, 0, version));
    if size > header_len(version) {
        size
    } else {
        header_len(version)
    }
}

/// Where the table of zones starts.
pub open spec fn zones_at(s: Seq<u8>, version: Version) -> int {
    tables_at(s, version) + 8 * header_at(s, 0, version).num_programs
}

/// Where the table of wave offsets starts.
pub open spec fn waves_at(s: Seq<u8>, version: Version) -> int {
    zones_at(s, version) + 16 * header_at(s, 0, version).num_zones
}

/// Where the table of sequence offsets starts.
pub open spec fn sequences_at(s: Seq<u8>, version: Version) -> int {
    waves_at(s, version) + 4 * header_at(s, 0, version).num_waves
}

/// Where the table of labels starts.
pub open spec fn labels_at(s: Seq<u8>, version: Version) -> int {
    sequences_at(s, version) + 4 * header_at(s, 0, version).num_sequences
}

/// Where the sequences themselves start: behind the last table.
pub open spec fn body_at(s: Seq<u8>, version: Version) -> int {
    labels_at(s, version) + 4 * header_at(s, 0, version).num_labels
}

/// Whether the header and all tables lie inside the file.
pub open spec fn holds_tables(s: Seq<u8>, version: Version) -> bool {
    header_len(version) <= s.len() && body_at(s, version) <= s.len()
}

/// The most zones that the programs may ask for together.
pub open spec fn zone_limit(s: Seq<u8>, version: Version) -> int {
    header_at(s, 0, version).num_zones as int % 0x1_0000
}

/// Number of zones granted to the first `count` programs.  A program is
/// granted the zones it asks for unless that takes the sum over the limit;
/// then it is granted none.
pub open spec fn granted(s: Seq<u8>, version: Version, count: int) -> int
    decreases count,
{
    if count <= 0 {
        0
    } else {
        let before = granted(s, version, count - 1);
        let asked = program_at(s, tables_at(s, version) + 8 * (count - 1)).num_zones as int;
        if before + asked > zone_limit(s, version) {
            before
        } else {
            before + asked
        }
    }
}

/// Program `i` of the file, with the zones it was granted.
pub open spec fn program_of(s: Seq<u8>, version: Version, i: int) -> SndProgram {
    let stored = program_at(s, tables_at(s, version) + 8 * i);
    if granted(s, version, i) + stored.num_zones > zone_limit(s, version) {
        SndProgram { num_zones: 0, ..stored }
    } else {
        stored
    }
}

/// The offset of wave `k` as stored.
pub open spec fn stored_wave(s: Seq<u8>, version: Version, k: int) -> u32 {
    le32(s, waves_at(s, version) + 4 * k)
}

/// The offset of sequence `k`, counted from the start of the sequences.
pub open spec fn sequence_offset(s: Seq<u8>, version: Version, k: int) -> u32 {
    le32(s, sequences_at(s, version) + 4 * k)
}

/// Where sequence `k` lies: from its offset to the offset of the next one,
/// the last one to the end of the file.
pub open spec fn sequence_span(s: Seq<u8>, version: Version, k: int) -> Span {
    Span {
        start: (body_at(s, version) + sequence_offset(s, version, k)) as u32,
        end: if k == header_at(s, 0, version).num_sequences - 1 {
            s.len() as u32
        } else {
            (body_at(s, version) + sequence_offset(s, version, k + 1)) as u32
        },
    }
}

/// Whether the file can be read without a fault: it is short enough for
/// 32-bit offsets; if it holds a header, the header bears the SND tag and
/// its size lies inside the file; no wave starts before the first one; and
/// every sequence starts at an offset that fits in 32 bits.
pub open spec fn well_formed(s: Seq<u8>, version: Version) -> bool {
    &&& s.len() <= u32::MAX
    &&& header_len(version) <= s.len() ==> {
        &&& header_at(s, 0, version).magic_number == SND_MAGIC
        &&& size_in_use(header_at(s, 0, version)) <= s.len()
        &&& forall|k: int|
            0 <= k < header_at(s, 0, version).num_waves && waves_at(s, version) + 4 * (k + 1)
                <= s.len() ==> #[trigger] stored_wave(s, version, k) >= stored_wave(s, version, 0)
        &&& holds_tables(s, version) ==> forall|k: int|
            0 <= k < header_at(s, 0, version).num_sequences ==> body_at(s, version)
                + #[trigger] sequence_offset(s, version, k) <= u32::MAX
    }
}

/// Whether `file` is what the bytes `s` spell.
pub open spec fn is_snd_file(file: SndFile, s: Seq<u8>, version: Version) -> bool {
    let header = header_at(s, 0, version);
    &&& file.header == header
    &&& file.programs@.len() == header.num_programs
    &&& forall|i: int|
        0 <= i < header.num_programs ==> #[trigger] file.programs@[i] == program_of(s, version, i)
    &&& file.zones@.len() == header.num_zones
    &&& forall|i: int|
        0 <= i < header.num_zones ==> #[trigger] file.zones@[i] == zone_at(
            s,
            zones_at(s, version) + 16 * i,
        )
    &&& file.wave_offsets@.len() == header.num_waves
    &&& forall|i: int|
        0 <= i < header.num_waves ==> #[trigger] file.wave_offsets@[i] == stored_wave(s, version, i)
            - stored_wave(s, version, 0)
    &&& file.sequence_offsets@.len() == header.num_sequences
    &&& forall|i: int|
        0 <= i < header.num_sequences ==> #[trigger] file.sequence_offsets@[i] == sequence_offset(
            s,
            version,
            i,
        )
    &&& file.labels@.len() == header.num_labels
    &&& forall|i: int|
        0 <= i < header.num_labels ==> #[trigger] file.labels@[i] == le32(
            s,
            labels_at(s, version) + 4 * i,
        )
    &&& file.sequences@.len() == header.num_sequences
    &&& forall|i: int|
        0 <= i < header.num_sequences ==> #[trigger] file.sequences@[i] == sequence_span(
            s,
            version,
            i,
        )
}

fn read_words(bytes: &mut ByteReader, count: u32) -> (res: Option<Vec<u32>>)
    ensures
        final(bytes).source() == old(bytes).source(),
        match res {
            Some(words) => {
                &&& old(bytes).position() + 4 * count <= old(bytes).source().len()
                &&& final(bytes).position() == old(bytes).position() + 4 * count
                &&& words@.len() == count
                &&& forall|i: int|
                    0 <= i < count ==> #[trigger] words@[i] == le32(
                        old(bytes).source(),
                        old(bytes).position() + 4 * i,
                    )
            },
            None => old(bytes).position() + 4 * count > old(bytes).source().len(),
        },
{
    let mut words: Vec<u32> = Vec::new();
    let mut i: u32 = 0;
    let _left = bytes.len();
    while i < count
        invariant
            i <= count,
            bytes.source() == old(bytes).source(),
            bytes.position() == old(bytes).position() + 4 * i,
            bytes.position() <= bytes.source().len(),
            words@.len() == i,
            forall|j: int|
                0 <= j < i ==> #[trigger] words@[j] == le32(
                    old(bytes).source(),
                    old(bytes).position() + 4 * j,
                ),
        decreases count - i,
    {
        match bytes.next_le32() {
            None => {
                return None;
            },
            Some(word) => {
                words.push(word);
            },
        }
        i = i + 1;
    }
    Some(words)
}

impl SndFile {
    /// Reads a whole SND file from its first byte; `file_size` is its
    /// length.  Nothing is returned when the header or a table runs past
    /// the end of the file.
    pub fn parse(bytes: &mut ByteReader, file_size: u32, version: Version) -> (res: Option<Self>)
        requires
            old(bytes).position() == 0,
            file_size == old(bytes).source().len(),
            well_formed(old(bytes).source(), version),
        ensures
            final(bytes).source() == old(bytes).source(),
            match res {
                Some(file) => {
                    &&& holds_tables(old(bytes).source(), version)
                    &&& is_snd_file(file, old(bytes).source(), version)
                    &&& final(bytes).position() == body_at(old(bytes).source(), version)
                },
                None => !holds_tables(old(bytes).source(), version),
            },
    {
        let ghost s = bytes.source();
        let header = match SndHeader::parse(bytes, version) {
            Some(header) => header,
            None => {
                return None;
            },
        };
        let size = (header.header_size.size % 0x1_0000_0000) as usize;
        let at = bytes.consumed();
        if at < size {
            bytes.skip(size - at);
        }
        let ghost tables = tables_at(s, version);
        assert(bytes.position() == tables);
        let limit: u32 = header.num_zones % 0x1_0000;
        let mut requested_zones: u32 = 0;
        let mut programs: Vec<SndProgram> = Vec::new();
        let mut i: u32 = 0;
        while i < header.num_programs
            invariant
                i <= header.num_programs,
                header == header_at(s, 0, version),
                tables == tables_at(s, version),
                limit == zone_limit(s, version),
                bytes.source() == s,
                s == old(bytes).source(),
                bytes.position() == tables + 8 * i,
                bytes.position() <= s.len(),
                requested_zones == granted(s, version, i as int),
                requested_zones <= limit,
                programs@.len() == i,
                forall|j: int| 0 <= j < i ==> #[trigger] programs@[j] == program_of(s, version, j),
            decreases header.num_programs - i,
        {
            let mut program = match SndProgram::parse(bytes) {
                Some(program) => program,
                None => {
                    return None;
                },
            };
            if requested_zones + program.num_zones as u32 > limit {
                program.num_zones = 0;
            } else {
                requested_zones = requested_zones + program.num_zones as u32;
            }
            programs.push(program);
            i = i + 1;
        }
        let mut zones: Vec<SndZone> = Vec::new();
        let mut i: u32 = 0;
        while i < header.num_zones
            invariant
                i <= header.num_zones,
                header == header_at(s, 0, version),
                bytes.source() == s,
                s == old(bytes).source(),
                bytes.position() == zones_at(s, version) + 16 * i,
                bytes.position() <= s.len(),
                zones@.len() == i,
                forall|j: int|
                    0 <= j < i ==> #[trigger] zones@[j] == zone_at(s, zones_at(s, version) + 16 * j),
            decreases header.num_zones - i,
        {
            match SndZone::parse(bytes) {
                Some(zone) => {
                    zones.push(zone);
                },
                None => {
                    return None;
                },
            }
            i = i + 1;
        }
        let mut wave_offsets: Vec<u32> = Vec::new();
        let mut first: u32 = 0;
        let mut i: u32 = 0;
        while i < header.num_waves
            invariant
                i <= header.num_waves,
                header == header_at(s, 0, version),
                well_formed(s, version),
                header_len(version) <= s.len(),
                bytes.source() == s,
                s == old(bytes).source(),
                bytes.position() == waves_at(s, version) + 4 * i,
                bytes.position() <= s.len(),
                i > 0 ==> first == stored_wave(s, version, 0),
                wave_offsets@.len() == i,
                forall|j: int|
                    0 <= j < i ==> #[trigger] wave_offsets@[j] == stored_wave(s, version, j)
                        - stored_wave(s, version, 0),
            decreases header.num_waves - i,
        {
            let num = match bytes.next_le32() {
                Some(num) => num,
                None => {
                    return None;
                },
            };
            if i == 0 {
                first = num;
            }
            assert(num == stored_wave(s, version, i as int));
            assert(stored_wave(s, version, i as int) >= stored_wave(s, version, 0));
            wave_offsets.push(num - first);
            i = i + 1;
        }
        let sequence_offsets = match read_words(bytes, header.num_sequences) {
            Some(words) => words,
            None => {
                return None;
            },
        };
        let labels = match read_words(bytes, header.num_labels) {
            Some(words) => words,
            None => {
                return None;
            },
        };
        let sequences_start = bytes.consumed() as u32;
        assert(sequences_start == body_at(s, version));
        let mut sequences: Vec<Span> = Vec::new();
        let mut i: usize = 0;
        while i < header.num_sequences as usize
            invariant
                i <= header.num_sequences,
                header == header_at(s, 0, version),
                well_formed(s, version),
                holds_tables(s, version),
                file_size == s.len(),
                sequences_start == body_at(s, version),
                sequence_offsets@.len() == header.num_sequences,
                forall|j: int|
                    0 <= j < header.num_sequences ==> #[trigger] sequence_offsets@[j]
                        == sequence_offset(s, version, j),
                sequences@.len() == i,
                forall|j: int|
                    0 <= j < i ==> #[trigger] sequences@[j] == sequence_span(s, version, j),
            decreases header.num_sequences - i,
        {
            assert(sequence_offsets@[i as int] == sequence_offset(s, version, i as int));
            let start = sequences_start + sequence_offsets[i];
            let end = if i == header.num_sequences as usize - 1 {
                file_size
            } else {
                assert(sequence_offsets@[i + 1] == sequence_offset(s, version, i + 1));
                sequences_start + sequence_offsets[i + 1]
            };
            sequences.push(Span { start, end });
            i = i + 1;
        }
        Some(SndFile { header, programs, zones, wave_offsets, sequence_offsets, labels, sequences })
    }
}

/// Tells whether [`SndFile::parse`] can read the file without a fault.
pub fn can_parse(file: &[u8], version: Version) -> (ok: bool)
    ensures
        ok == well_formed(file@, version),
{
    let ghost s = file@;
    let len = file.len();
    if len > 0xffff_ffff {
        return false;
    }
    let mut reader = ByteReader::new(file);
    let header = match SndHeader::parse(&mut reader, version) {
        Some(header) => header,
        None => {
            return true;
        },
    };
    if header.magic_number != SND_MAGIC {
        return false;
    }
    let size = (header.header_size.size % 0x1_0000_0000) as u64;
    let len = len as u64;
    if size > len {
        return false;
    }
    let tables: u64 = if size > reader.consumed() as u64 {
        size
    } else {
        reader.consumed() as u64
    };
    let waves: u64 = tables + 8 * (header.num_programs as u64) + 16 * (header.num_zones as u64);
    assert(waves == waves_at(s, version));
    let mut k: u32 = 0;
    while k < header.num_waves && waves + 4 * (k as u64 + 1) <= len
        invariant
            k <= header.num_waves,
            file@ == s,
            len == s.len(),
            len <= u32::MAX,
            header_len(version) <= s.len(),
            header == header_at(s, 0, version),
            waves == waves_at(s, version),
            waves <= 0x1f_0000_0000,
            forall|j: int|
                0 <= j < k ==> #[trigger] stored_wave(s, version, j) >= stored_wave(s, version, 0),
        decreases header.num_waves - k,
    {
        let first = read_le32(file, waves as usize);
        let word = read_le32(file, (waves + 4 * (k as u64)) as usize);
        if word < first {
            assert(!(stored_wave(s, version, k as int) >= stored_wave(s, version, 0)));
            return false;
        }
        k = k + 1;
    }
    let sequences: u64 = waves + 4 * (header.num_waves as u64);
    let body: u64 = sequences + 4 * (header.num_sequences as u64) + 4 * (header.num_labels as u64);
    assert(body == body_at(s, version));
    if body > len {
        return true;
    }
    let mut k: u32 = 0;
    while k < header.num_sequences
        invariant
            k <= header.num_sequences,
            file@ == s,
            len == s.len(),
            len <= u32::MAX,
            header == header_at(s, 0, version),
            sequences == sequences_at(s, version),
            body == body_at(s, version),
            body <= len,
            forall|j: int|
                0 <= j < k ==> body_at(s, version) + #[trigger] sequence_offset(s, version, j)
                    <= u32::MAX,
        decreases header.num_sequences - k,
    {
        let offset = read_le32(file, (sequences + 4 * (k as u64)) as usize);
        if body + offset as u64 > 0xffff_ffff {
            assert(!(body_at(s, version) + sequence_offset(s, version, k as int) <= u32::MAX));
            return false;
        }
        k = k + 1;
    }
    true
}

/// An SMP file: its header and where its waves lie.
#[derive(Debug, PartialEq, Eq)]
pub struct SmpFile {
    /// The tag, when the file opens with one.
    pub magic_number: Option<u32>,
    pub body_size: u32,
    pub waves: Vec<Span>,
}

/// Whether the SMP file that opens with `s` bears the SMP tag.
pub open spec fn has_smp_tag(s: Seq<u8>, at: int) -> bool {
    le32(s, at) == SMP_MAGIC
}

/// Length of the SMP header: eight bytes with the tag, four without.
pub open spec fn smp_header_len(s: Seq<u8>, at: int) -> int {
    if has_smp_tag(s, at) {
        8
    } else {
        4
    }
}

/// Where wave `k` lies in the SMP file: from its offset behind the header to
/// the offset of the next wave, the last one to the end of the file.
pub open spec fn wave_span(snd: SndFile, header: int, file_size: u32, k: int) -> Span {
    Span {
        start: (header + snd.wave_offsets@[k]) as u32,
        end: if k == snd.header.num_waves - 1 {
            file_size
        } else {
            (header + snd.wave_offsets@[k + 1]) as u32
        },
    }
}

/// Whether the waves of `snd` can be placed behind a header of `header`
/// bytes: there is an offset for each, and each fits in 32 bits behind the
/// header.
pub open spec fn placeable(snd: SndFile, header: int) -> bool {
    &&& snd.wave_offsets@.len() >= snd.header.num_waves
    &&& forall|k: int|
        0 <= k < snd.header.num_waves ==> header + #[trigger] snd.wave_offsets@[k] <= u32::MAX
}

/// Whether [`SmpFile::parse`] can read what is left of `s` behind `at`
/// without a fault.
pub open spec fn smp_readable(snd: SndFile, s: Seq<u8>, at: int) -> bool {
    at + 4 <= s.len() && at + smp_header_len(s, at) <= s.len() ==> placeable(
        snd,
        smp_header_len(s, at),
    )
}

/// Tells whether [`SmpFile::parse`] can read what is left.
pub fn can_parse_smp(snd: &SndFile, bytes: &ByteReader) -> (ok: bool)
    ensures
        ok == smp_readable(*snd, bytes.source(), bytes.position() as int),
{
    let rest = bytes.rest();
    let at = bytes.consumed();
    if rest.len() < 4 {
        return true;
    }
    assert(rest@[0] == bytes.source()[at as int]);
    assert(rest@[1] == bytes.source()[at + 1]);
    assert(rest@[2] == bytes.source()[at + 2]);
    assert(rest@[3] == bytes.source()[at + 3]);
    let header: u32 = if read_le32(rest, 0) == SMP_MAGIC {
        8
    } else {
        4
    };
    if rest.len() < header as usize {
        return true;
    }
    if snd.wave_offsets.len() < snd.header.num_waves as usize {
        return false;
    }
    let mut k: usize = 0;
    while k < snd.header.num_waves as usize
        invariant
            k <= snd.header.num_waves,
            header == 4 || header == 8,
            header == smp_header_len(bytes.source(), at as int),
            at == bytes.position(),
            at + header <= bytes.source().len(),
            snd.wave_offsets@.len() >= snd.header.num_waves,
            forall|j: int| 0 <= j < k ==> header + #[trigger] snd.wave_offsets@[j] <= u32::MAX,
        decreases snd.header.num_waves - k,
    {
        if snd.wave_offsets[k] > 0xffff_ffff - header {
            assert(!(header + snd.wave_offsets@[k as int] <= u32::MAX));
            return false;
        }
        k = k + 1;
    }
    true
}

impl SmpFile {
    /// Reads the header of an SMP file and places the waves of `snd` in
    /// it; `file_size` is the length of the SMP file.  Nothing is returned
    /// when the header runs past the end of the file.
    pub fn parse(snd: &SndFile, bytes: &mut ByteReader, file_size: u32) -> (res: Option<Self>)
        requires
            smp_readable(*snd, old(bytes).source(), old(bytes).position() as int),
        ensures
            final(bytes).source() == old(bytes).source(),
            match res {
                Some(smp) => {
                    let s = old(bytes).source();
                    let at = old(bytes).position() as int;
                    &&& at + 4 <= s.len()
                    &&& at + smp_header_len(s, at) <= s.len()
                    &&& final(bytes).position() == at + smp_header_len(s, at)
                    &&& smp.magic_number == if has_smp_tag(s, at) {
                        Some(SMP_MAGIC)
                    } else {
                        None
                    }
                    &&& smp.body_size == if has_smp_tag(s, at) {
                        le32(s, at + 4)
                    } else {
                        le32(s, at)
                    }
                    &&& smp.waves@.len() == snd.header.num_waves
                    &&& forall|k: int|
                        0 <= k < snd.header.num_waves ==> #[trigger] smp.waves@[k] == wave_span(
                            *snd,
                            smp_header_len(s, at),
                            file_size,
                            k,
                        )
                },
                None => {
                    let s = old(bytes).source();
                    let at = old(bytes).position() as int;
                    at + 4 > s.len() || at + smp_header_len(s, at) > s.len()
                },
            },
    {
        let first_bytes = match bytes.next_le32() {
            Some(word) => word,
            None => {
                return None;
            },
        };
        let (magic_number, body_size, header_size): (Option<u32>, u32, u32) = if first_bytes
            == SMP_MAGIC {
            match bytes.next_le32() {
                Some(word) => (Some(first_bytes), word, 8),
                None => {
                    return None;
                },
            }
        } else {
            (None, first_bytes, 4)
        };
        let count = snd.header.num_waves as usize;
        let mut waves: Vec<Span> = Vec::new();
        let mut i: usize = 0;
        while i < count
            invariant
                i <= count,
                count == snd.header.num_waves,
                placeable(*snd, header_size as int),
                header_size == 4 || header_size == 8,
                waves@.len() == i,
                forall|k: int|
                    0 <= k < i ==> #[trigger] waves@[k] == wave_span(
                        *snd,
                        header_size as int,
                        file_size,
                        k,
                    ),
            decreases count - i,
        {
            assert(header_size + snd.wave_offsets@[i as int] <= u32::MAX);
            let start = header_size + snd.wave_offsets[i];
            let end = if i == count - 1 {
                file_size
            } else {
                assert(header_size + snd.wave_offsets@[i + 1] <= u32::MAX);
                header_size + snd.wave_offsets[i + 1]
            };
            waves.push(Span { start, end });
            i = i + 1;
        }
        Some(SmpFile { magic_number, body_size, waves })
    }
}

} // verus!
