//! Reads an SND sound bank and its SMP sample file, for files known to be
//! whole.

use vstd::prelude::*;
use crate::bytes::{be16, le32, read_be16, read_le32};
use crate::desnd::{
    body_at, header_len, holds_tables, labels_at, sequence_offset, sequence_span, sequences_at,
    size_in_use, smp_header_len, stored_wave, tables_at, waves_at, zone_at, zones_at, Span, Version,
    SMP_MAGIC,
};
use crate::reader::ByteReader;

verus! {

/// The remainder of `x` by four, with the sign of `x`.
pub open spec fn rem4(x: int) -> int {
    crate::desnd::rem4(x)
}

/// `x` rounded up to a multiple of four.
pub open spec fn aligned(x: i64) -> int {
    if rem4(x as int) == 0 {
        x as int
    } else {
        x - rem4(x as int) + 4
    }
}

/// Rounds `x` up to the next multiple of four.
pub fn align(x: i64) -> (res: i64)
    requires
        x <= i64::MAX - 3,
    ensures
        res == aligned(x),
{
    if x % 4 == 0 {
        x
    } else {
        x - x % 4 + 4
    }
}

/// The next four bytes of a reader that holds them.
pub fn four_bytes(bytes: &mut ByteReader) -> (four: [u8; 4])
    requires
        old(bytes).position() + 4 <= old(bytes).source().len(),
    ensures
        final(bytes).source() == old(bytes).source(),
        final(bytes).position() == old(bytes).position() + 4,
        four@ == old(bytes).source().subrange(
            old(bytes).position() as int,
            old(bytes).position() as int + 4,
        ),
{
    let chunk = bytes.take(4).unwrap();
    let four = [chunk[0], chunk[1], chunk[2], chunk[3]];
    assert(four@ =~= chunk@);
    four
}

/// The header of an SND file, its size rounded up to a multiple of four.
#[derive(Clone, Copy, Debug, PartialEq, Eq)]
pub struct SndHeader {
    pub magic_number: u32,
    pub header_size: u32,
    pub bank_version: Option<u32>,
    pub num_programs: u32,
    pub num_zones: u32,
    pub num_waves: u32,
    pub num_sequences: u32,
    pub num_labels: u32,
    pub reverb_mode: u32,
    pub reverb_depth: u32,
}

/// The header that the bytes at `s[at..]` spell in the given layout.
pub open spec fn header_at(s: Seq<u8>, at: int, version: Version) -> SndHeader {
    let header = crate::desnd::header_at(s, at, version);
    SndHeader {
        magic_number: header.magic_number,
        header_size: size_in_use(header) as u32,
        bank_version: header.bank_version,
        num_programs: header.num_programs,
        num_zones: header.num_zones,
        num_waves: header.num_waves,
        num_sequences: header.num_sequences,
        num_labels: header.num_labels,
        reverb_mode: header.reverb_mode,
        reverb_depth: header.reverb_depth,
    }
}

impl SndHeader {
    /// Reads the header in the given layout from a reader that holds it.
    pub fn parse(bytes: &mut ByteReader, version: Version) -> (header: Self)
        requires
            old(bytes).position() + header_len(version) <= old(bytes).source().len(),
        ensures
            final(bytes).source() == old(bytes).source(),
            final(bytes).position() == old(bytes).position() + header_len(version),
            header == header_at(old(bytes).source(), old(bytes).position() as int, version),
    {
        let header = crate::desnd::SndHeader::parse(bytes, version).unwrap();
        SndHeader {
            magic_number: header.magic_number,
            header_size: (header.header_size.size % 0x1_0000_0000) as u32,
            bank_version: header.bank_version,
            num_programs: header.num_programs,
            num_zones: header.num_zones,
            num_waves: header.num_waves,
            num_sequences: header.num_sequences,
            num_labels: header.num_labels,
            reverb_mode: header.reverb_mode,
            reverb_depth: header.reverb_depth,
        }
    }
}

/// One program of the bank.
#[derive(Clone, Copy, Debug, PartialEq, Eq)]
pub struct SndProgram {
    pub num_zones: u16,
    pub first_tone: u16,
    pub volume: u8,
    pub pan_pos: u8,
}

/// The program that the eight bytes at `s[at..]` spell, its two numbers
/// read high byte first; the last two bytes are padding.
pub open spec fn program_at(s: Seq<u8>, at: int) -> SndProgram {
    SndProgram {
        num_zones: be16(s, at),
        first_tone: be16(s, at + 2),
        volume: s[at + 4],
        pan_pos: s[at + 5],
    }
}

impl SndProgram {
    /// Reads one program from a reader that holds it.
    pub fn parse(bytes: &mut ByteReader) -> (program: Self)
        requires
            old(bytes).position() + 8 <= old(bytes).source().len(),
        ensures
            final(bytes).source() == old(bytes).source(),
            final(bytes).position() == old(bytes).position() + 8,
            program == program_at(old(bytes).source(), old(bytes).position() as int),
    {
        let c = bytes.take(8).unwrap();
        SndProgram {
            num_zones: read_be16(c, 0),
            first_tone: read_be16(c, 2),
            volume: c[4],
            pan_pos: c[5],
        }
    }
}

/// One zone of a program.
#[derive(Clone, Copy, Debug, PartialEq, Eq)]
pub struct SndZone {
    pub priority: u8,
    pub parent_program: u8,
    pub volume: u8,
    pub pan_pos: u8,
    pub root_key: u8,
    pub pitch_fine_tuning: u8,
    pub note_low: u8,
    pub note_high: u8,
    pub mode: u8,
    pub max_pitch_range: u8,
    pub adsr1: u16,
    pub adsr2: u16,
    pub wave_index: u16,
}

/// The zone that the sixteen bytes at `s[at..]` spell.
pub open spec fn sound_zone_at(s: Seq<u8>, at: int) -> SndZone {
    let zone = zone_at(s, at);
    SndZone {
        priority: zone.priority,
        parent_program: zone.parent_program,
        volume: zone.volume,
        pan_pos: zone.pan_pos,
        root_key: zone.root_key,
        pitch_fine_tuning: zone.pitch_fine_tuning,
        note_low: zone.note_low,
        note_high: zone.note_high,
        mode: zone.mode,
        max_pitch_range: zone.max_pitch_range,
        adsr1: zone.adsr1,
        adsr2: zone.adsr2,
        wave_index: zone.wave_index,
    }
}

impl SndZone {
    /// Reads one zone from a reader that holds it.
    pub fn parse(bytes: &mut ByteReader) -> (zone: Self)
        requires
            old(bytes).position() + 16 <= old(bytes).source().len(),
        ensures
            final(bytes).source() == old(bytes).source(),
            final(bytes).position() == old(bytes).position() + 16,
            zone == sound_zone_at(old(bytes).source(), old(bytes).position() as int),
    {
        let zone = crate::desnd::SndZone::parse(bytes).unwrap();
        SndZone {
            priority: zone.priority,
            parent_program: zone.parent_program,
            volume: zone.volume,
            pan_pos: zone.pan_pos,
            root_key: zone.root_key,
            pitch_fine_tuning: zone.pitch_fine_tuning,
            note_low: zone.note_low,
            note_high: zone.note_high,
            mode: zone.mode,
            max_pitch_range: zone.max_pitch_range,
            adsr1: zone.adsr1,
            adsr2: zone.adsr2,
            wave_index: zone.wave_index,
        }
    }
}

/// An SND file: its header and its tables.
#[derive(Debug, PartialEq, Eq)]
pub struct SndFile {
    pub header: SndHeader,
    pub programs: Vec<SndProgram>,
    pub zones: Vec<SndZone>,
    /// Where each wave starts, counted from the start of the first wave.
    pub wave_offsets: Vec<u32>,
    pub sequence_offsets: Vec<u32>,
    pub labels: Vec<u32>,
    /// Where each sequence lies in the file.
    pub sequences: Vec<Span>,
}

/// Whether the file can be read: it well formed as a bank is, and it holds
/// its header and all its tables.
pub open spec fn readable(s: Seq<u8>, version: Version) -> bool {
    crate::desnd::well_formed(s, version) && holds_tables(s, version)
}

/// Whether `file` is what the bytes `s` spell.
pub open spec fn is_snd_file(file: SndFile, s: Seq<u8>, version: Version) -> bool {
    let header = header_at(s, 0, version);
    &&& file.header == header
    &&& file.programs@.len() == header.num_programs
    &&& forall|i: int|
        0 <= i < header.num_programs ==> #[trigger] file.programs@[i] == program_at(
            s,
            tables_at(s, version) + 8 * i,
        )
    &&& file.zones@.len() == header.num_zones
    &&& forall|i: int|
        0 <= i < header.num_zones ==> #[trigger] file.zones@[i] == sound_zone_at(
            s,
            zones_at(s, version) + 16 * i,
        )
    &&& file.wave_offsets@.len() == header.num_waves
    &&& forall|i: int|
        0 <= i < header.num_waves ==> #[trigger] file.wave_offsets@[i] == stored_wave(s, version, i)
            - stored_wave(s, version, 0)
    &&& file.sequence_offsets@.len() == header.num_sequences
    &&& forall|i: int|
        0 <= i < header.num_sequences ==> #[trigger] file.sequence_offsets@[i] == sequence_offset(
            s,
            version,
            i,
        )
    &&& file.labels@.len() == header.num_labels
    &&& forall|i: int|
        0 <= i < header.num_labels ==> #[trigger] file.labels@[i] == le32(
            s,
            labels_at(s, version) + 4 * i,
        )
    &&& file.sequences@.len() == header.num_sequences
    &&& forall|i: int|
        0 <= i < header.num_sequences ==> #[trigger] file.sequences@[i] == sequence_span(
            s,
            version,
            i,
        )
}

/// Tells whether [`SndFile::parse`] can read the file.
pub fn can_parse(file: &[u8], version: Version) -> (ok: bool)
    ensures
        ok == readable(file@, version),
{
    if !crate::desnd::can_parse(file, version) {
        return false;
    }
    let mut reader = ByteReader::new(file);
    let header = match crate::desnd::SndHeader::parse(&mut reader, version) {
        Some(header) => header,
        None => {
            return false;
        },
    };
    let size = (header.header_size.size % 0x1_0000_0000) as u64;
    let tables: u64 = if size > reader.consumed() as u64 {
        size
    } else {
        reader.consumed() as u64
    };
    let body: u64 = tables + 8 * (header.num_programs as u64) + 16 * (header.num_zones as u64) + 4
        * (header.num_waves as u64) + 4 * (header.num_sequences as u64) + 4 * (
    header.num_labels as u64);
    body <= file.len() as u64
}

impl SndFile {
    /// Reads a whole SND file from its first byte; `file_size` is its
    /// length.
    pub fn parse(bytes: &mut ByteReader, file_size: u32, version: Version) -> (file: Self)
        requires
            old(bytes).position() == 0,
            file_size == old(bytes).source().len(),
            readable(old(bytes).source(), version),
        ensures
            final(bytes).source() == old(bytes).source(),
            final(bytes).position() == body_at(old(bytes).source(), version),
            is_snd_file(file, old(bytes).source(), version),
    {
        let ghost s = bytes.source();
        let header = SndHeader::parse(bytes, version);
        let at = bytes.consumed();
        if at < header.header_size as usize {
            bytes.skip(header.header_size as usize - at);
        }
        let ghost tables = tables_at(s, version);
        assert(bytes.position() == tables);
        let mut programs: Vec<SndProgram> = Vec::new();
        let mut i: u32 = 0;
        while i < header.num_programs
            invariant
                i <= header.num_programs,
                header == header_at(s, 0, version),
                holds_tables(s, version),
                tables == tables_at(s, version),
                bytes.source() == s,
                bytes.position() == tables + 8 * i,
                programs@.len() == i,
                forall|j: int|
                    0 <= j < i ==> #[trigger] programs@[j] == program_at(s, tables + 8 * j),
            decreases header.num_programs - i,
        {
            programs.push(SndProgram::parse(bytes));
            i = i + 1;
        }
        let mut zones: Vec<SndZone> = Vec::new();
        let mut i: u32 = 0;
        while i < header.num_zones
            invariant
                i <= header.num_zones,
                header == header_at(s, 0, version),
                holds_tables(s, version),
                bytes.source() == s,
                bytes.position() == zones_at(s, version) + 16 * i,
                zones@.len() == i,
                forall|j: int|
                    0 <= j < i ==> #[trigger] zones@[j] == sound_zone_at(
                        s,
                        zones_at(s, version) + 16 * j,
                    ),
            decreases header.num_zones - i,
        {
            zones.push(SndZone::parse(bytes));
            i = i + 1;
        }
        let mut wave_offsets: Vec<u32> = Vec::new();
        let mut first: u32 = 0;
        let mut i: u32 = 0;
        while i < header.num_waves
            invariant
                i <= header.num_waves,
                header == header_at(s, 0, version),
                readable(s, version),
                bytes.source() == s,
                bytes.position() == waves_at(s, version) + 4 * i,
                i > 0 ==> first == stored_wave(s, version, 0),
                wave_offsets@.len() == i,
                forall|j: int|
                    0 <= j < i ==> #[trigger] wave_offsets@[j] == stored_wave(s, version, j)
                        - stored_wave(s, version, 0),
            decreases header.num_waves - i,
        {
            let num = bytes.next_le32().unwrap();
            if i == 0 {
                first = num;
            }
            assert(num == stored_wave(s, version, i as int));
            assert(stored_wave(s, version, i as int) >= stored_wave(s, version, 0));
            wave_offsets.push(num - first);
            i = i + 1;
        }
        let mut sequence_offsets: Vec<u32> = Vec::new();
        let mut i: u32 = 0;
        while i < header.num_sequences
            invariant
                i <= header.num_sequences,
                header == header_at(s, 0, version),
                holds_tables(s, version),
                bytes.source() == s,
                bytes.position() == sequences_at(s, version) + 4 * i,
                sequence_offsets@.len() == i,
                forall|j: int|
                    0 <= j < i ==> #[trigger] sequence_offsets@[j] == sequence_offset(s, version, j),
            decreases header.num_sequences - i,
        {
            sequence_offsets.push(bytes.next_le32().unwrap());
            i = i + 1;
        }
        let mut labels: Vec<u32> = Vec::new();
        let mut i: u32 = 0;
        while i < header.num_labels
            invariant
                i <= header.num_labels,
                header == header_at(s, 0, version),
                holds_tables(s, version),
                bytes.source() == s,
                bytes.position() == labels_at(s, version) + 4 * i,
                labels@.len() == i,
                forall|j: int|
                    0 <= j < i ==> #[trigger] labels@[j] == le32(s, labels_at(s, version) + 4 * j),
            decreases header.num_labels - i,
        {
            labels.push(bytes.next_le32().unwrap());
            i = i + 1;
        }
        let sequences_start = bytes.consumed() as u32;
        let mut sequences: Vec<Span> = Vec::new();
        let mut i: usize = 0;
        while i < header.num_sequences as usize
            invariant
                i <= header.num_sequences,
                header == header_at(s, 0, version),
                readable(s, version),
                file_size == s.len(),
                sequences_start == body_at(s, version),
                sequence_offsets@.len() == header.num_sequences,
                forall|j: int|
                    0 <= j < header.num_sequences ==> #[trigger] sequence_offsets@[j]
                        == sequence_offset(s, version, j),
                sequences@.len() == i,
                forall|j: int|
                    0 <= j < i ==> #[trigger] sequences@[j] == sequence_span(s, version, j),
            decreases header.num_sequences - i,
        {
            assert(sequence_offsets@[i as int] == sequence_offset(s, version, i as int));
            let start = sequences_start + sequence_offsets[i];
            let end = if i == header.num_sequences as usize - 1 {
                file_size
            } else {
                assert(sequence_offsets@[i + 1] == sequence_offset(s, version, i + 1));
                sequences_start + sequence_offsets[i + 1]
            };
            sequences.push(Span { start, end });
            i = i + 1;
        }
        SndFile { header, programs, zones, wave_offsets, sequence_offsets, labels, sequences }
    }
}

/// An SMP file: its header and where its waves lie.
#[derive(Debug, PartialEq, Eq)]
pub struct SmpFile {
    /// The tag, when the file opens with one.
    pub magic_number: Option<u32>,
    pub body_size: u32,
    pub waves: Vec<Span>,
}

/// Where wave `k` lies in the SMP file: from its offset behind the header to
/// the offset of the next wave, the last one to the end of the file.
pub open spec fn wave_span(snd: SndFile, header: int, file_size: u32, k: int) -> Span {
    Span {
        start: (header + snd.wave_offsets@[k]) as u32,
        end: if k == snd.header.num_waves - 1 {
            file_size
        } else {
            (header + snd.wave_offsets@[k + 1]) as u32
        },
    }
}

/// Whether the SMP header lies inside what is left of `s` behind `at`, and
/// the waves of `snd` can be placed behind it: there is an offset for each,
/// and each fits in 32 bits behind the header.
pub open spec fn smp_readable(snd: SndFile, s: Seq<u8>, at: int) -> bool {
    &&& at + 4 <= s.len()
    &&& at + smp_header_len(s, at) <= s.len()
    &&& snd.wave_offsets@.len() >= snd.header.num_waves
    &&& forall|k: int|
        0 <= k < snd.header.num_waves ==> smp_header_len(s, at) + #[trigger] snd.wave_offsets@[k]
            <= u32::MAX
}

/// Tells whether [`SmpFile::parse`] can read what is left.
pub fn can_parse_smp(snd: &SndFile, bytes: &ByteReader) -> (ok: bool)
    ensures
        ok == smp_readable(*snd, bytes.source(), bytes.position() as int),
{
    let rest = bytes.rest();
    let at = bytes.consumed();
    if rest.len() < 4 {
        return false;
    }
    assert(rest@[0] == bytes.source()[at as int]);
    assert(rest@[1] == bytes.source()[at + 1]);
    assert(rest@[2] == bytes.source()[at + 2]);
    assert(rest@[3] == bytes.source()[at + 3]);
    let header: u32 = if read_le32(rest, 0) == SMP_MAGIC {
        8
    } else {
        4
    };
    if rest.len() < header as usize {
        return false;
    }
    if snd.wave_offsets.len() < snd.header.num_waves as usize {
        return false;
    }
    let mut k: usize = 0;
    while k < snd.header.num_waves as usize
        invariant
            k <= snd.header.num_waves,
            header == smp_header_len(bytes.source(), at as int),
            at == bytes.position(),
            at + header <= bytes.source().len(),
            snd.wave_offsets@.len() >= snd.header.num_waves,
            forall|j: int| 0 <= j < k ==> header + #[trigger] snd.wave_offsets@[j] <= u32::MAX,
        decreases snd.header.num_waves - k,
    {
        if snd.wave_offsets[k] > 0xffff_ffff - header {
            assert(!(header + snd.wave_offsets@[k as int] <= u32::MAX));
            return false;
        }
        k = k + 1;
    }
    true
}

impl SmpFile {
    /// Reads the header of an SMP file and places the waves of `snd` in
    /// it; `file_size` is the length of the SMP file.
    pub fn parse(snd: &SndFile, bytes: &mut ByteReader, file_size: u32) -> (smp: Self)
        requires
            smp_readable(*snd, old(bytes).source(), old(bytes).position() as int),
        ensures
            final(bytes).source() == old(bytes).source(),
            final(bytes).position() == old(bytes).position() + smp_header_len(
                old(bytes).source(),
                old(bytes).position() as int,
            ),
            smp.magic_number == if le32(old(bytes).source(), old(bytes).position() as int)
                == SMP_MAGIC {
                Some(SMP_MAGIC)
            } else {
                None
            },
            smp.body_size == if le32(old(bytes).source(), old(bytes).position() as int)
                == SMP_MAGIC {
                le32(old(bytes).source(), old(bytes).position() as int + 4)
            } else {
                le32(old(bytes).source(), old(bytes).position() as int)
            },
            smp.waves@.len() == snd.header.num_waves,
            forall|k: int|
                0 <= k < snd.header.num_waves ==> #[trigger] smp.waves@[k] == wave_span(
                    *snd,
                    smp_header_len(old(bytes).source(), old(bytes).position() as int),
                    file_size,
                    k,
                ),
    {
        let first_bytes = bytes.next_le32().unwrap();
        let (magic_number, body_size, header_size): (Option<u32>, u32, u32) = if first_bytes
            == SMP_MAGIC {
            (Some(first_bytes), bytes.next_le32().unwrap(), 8)
        } else {
            (None, first_bytes, 4)
        };
        let count = snd.header.num_waves as usize;
        let mut waves: Vec<Span> = Vec::new();
        let mut i: usize = 0;
        while i < count
            invariant
                i <= count,
                count == snd.header.num_waves,
                snd.wave_offsets@.len() >= snd.header.num_waves,
                forall|k: int|
                    0 <= k < snd.header.num_waves ==> header_size + #[trigger] snd.wave_offsets@[k]
                        <= u32::MAX,
                waves@.len() == i,
                forall|k: int|
                    0 <= k < i ==> #[trigger] waves@[k] == wave_span(
                        *snd,
                        header_size as int,
                        file_size,
                        k,
                    ),
            decreases count - i,
        {
            assert(header_size + snd.wave_offsets@[i as int] <= u32::MAX);
            let start = header_size + snd.wave_offsets[i];
            let end = if i == count - 1 {
                file_size
            } else {
                assert(header_size + snd.wave_offsets@[i + 1] <= u32::MAX);
                header_size + snd.wave_offsets[i + 1]
            };
            waves.push(Span { start, end });
            i = i + 1;
        }
        SmpFile { magic_number, body_size, waves }
    }
}

} // verus!
