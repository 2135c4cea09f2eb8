//! Reads the tables of a MUS sound bank: sequences, waves, programs and
//! presets.

use vstd::prelude::*;
use crate::bytes::{le32, read_le32, to_signed};
use crate::demus::{
    can_parse_header, header_len, header_of, header_readable, le_i32, name_of, parse_name, MusHeader,
    WaveEntry,
};
use crate::reader::ByteReader;

verus! {

/// One entry of the table of sequences.
#[derive(Clone, Copy, Debug, PartialEq, Eq)]
pub struct MsqTable {
    pub index: i32,
    pub offset: i32,
}

/// The envelope of a zone.  Each field holds the bits of a 32-bit float.
#[derive(Clone, Copy, Debug, PartialEq, Eq)]
pub struct Envelope {
    pub delay: u32,
    pub attack: u32,
    pub hold: u32,
    pub decay: u32,
    pub sustain: u32,
    pub release: u32,
}

/// One zone of a program.  The fields whose names end in `_bits` hold the
/// bits of a 32-bit float.
#[derive(Clone, Copy, Debug, PartialEq, Eq)]
pub struct ProgramZone {
    pub pitch_finetuning: i32,
    pub reverb: i32,
    pub pan_position_bits: u32,
    pub keynum_hold: i32,
    pub keynum_decay: i32,
    pub volume_env: Envelope,
    pub volume_env_atten_bits: u32,
    pub vib_delay_bits: u32,
    pub vib_frequency_bits: u32,
    pub vib_to_pitch_bits: u32,
    pub root_key: i32,
    pub note_low: u8,
    pub note_high: u8,
    pub velocity_low: u8,
    pub velocity_high: u8,
    pub wave_index: i32,
    pub base_priority_bits: u32,
    pub modul_env: Envelope,
    pub modul_env_to_pitch_bits: u32,
}

/// The head of a program: its name and the number of its zones.
#[derive(Clone, Copy, Debug, PartialEq, Eq)]
pub struct ProgramEntry {
    pub name: [char; 20],
    pub num_zones: i32,
}

/// One zone of a preset.
#[derive(Clone, Copy, Debug, PartialEq, Eq)]
pub struct PresetZone {
    pub root_key: i32,
    pub note_low: u8,
    pub note_high: u8,
    pub velocity_low: u8,
    pub velocity_high: u8,
    pub program_index: i32,
}

/// The head of a preset.
#[derive(Clone, Copy, Debug, PartialEq, Eq)]
pub struct PresetEntry {
    pub name: [char; 20],
    pub midi_bank_number: i32,
    pub midi_preset_number: i32,
    pub num_zones: i32,
}

/// The entry that the eight bytes at `s[at..]` spell.
pub open spec fn msq_table_at(s: Seq<u8>, at: int) -> MsqTable {
    MsqTable { index: le_i32(s, at), offset: le_i32(s, at + 4) }
}

/// The envelope that the twenty-four bytes at `s[at..]` spell.
pub open spec fn envelope_at(s: Seq<u8>, at: int) -> Envelope {
    Envelope {
        delay: le32(s, at),
        attack: le32(s, at + 4),
        hold: le32(s, at + 8),
        decay: le32(s, at + 12),
        sustain: le32(s, at + 16),
        release: le32(s, at + 20),
    }
}

/// The zone that the 104 bytes at `s[at..]` spell.
pub open spec fn program_zone_at(s: Seq<u8>, at: int) -> ProgramZone {
    ProgramZone {
        pitch_finetuning: le_i32(s, at),
        reverb: le_i32(s, at + 4),
        pan_position_bits: le32(s, at + 8),
        keynum_hold: le_i32(s, at + 12),
        keynum_decay: le_i32(s, at + 16),
        volume_env: envelope_at(s, at + 20),
        volume_env_atten_bits: le32(s, at + 44),
        vib_delay_bits: le32(s, at + 48),
        vib_frequency_bits: le32(s, at + 52),
        vib_to_pitch_bits: le32(s, at + 56),
        root_key: le_i32(s, at + 60),
        note_low: s[at + 64],
        note_high: s[at + 65],
        velocity_low: s[at + 66],
        velocity_high: s[at + 67],
        wave_index: le_i32(s, at + 68),
        base_priority_bits: le32(s, at + 72),
        modul_env: envelope_at(s, at + 76),
        modul_env_to_pitch_bits: le32(s, at + 100),
    }
}

/// The zone that the twelve bytes at `s[at..]` spell.
pub open spec fn preset_zone_at(s: Seq<u8>, at: int) -> PresetZone {
    PresetZone {
        root_key: le_i32(s, at),
        note_low: s[at + 4],
        note_high: s[at + 5],
        velocity_low: s[at + 6],
        velocity_high: s[at + 7],
        program_index: le_i32(s, at + 8),
    }
}

/// Whether `wave` is the entry that the fifty-two bytes at `s[at..]` spell.
/// The size is stored in units of two bytes.
pub open spec fn is_wave_at(wave: WaveEntry, s: Seq<u8>, at: int) -> bool {
    &&& wave.name@ == name_of(s.skip(at))
    &&& wave.offset == le_i32(s, at + 20)
    &&& wave.loop_begin == le_i32(s, at + 24)
    &&& wave.size == le_i32(s, at + 28) * 2
    &&& wave.loop_end == le_i32(s, at + 32)
    &&& wave.sample_rate == le_i32(s, at + 36)
    &&& wave.original_pitch == le_i32(s, at + 40)
    &&& wave.loop_info == le_i32(s, at + 44)
    &&& wave.snd_handle == le_i32(s, at + 48)
}

/// Whether `entry` is the head that the twenty-four bytes at `s[at..]`
/// spell.
pub open spec fn is_program_at(entry: ProgramEntry, s: Seq<u8>, at: int) -> bool {
    entry.name@ == name_of(s.skip(at)) && entry.num_zones == le_i32(s, at + 20)
}

/// Whether `entry` is the head that the thirty-two bytes at `s[at..]`
/// spell.
pub open spec fn is_preset_at(entry: PresetEntry, s: Seq<u8>, at: int) -> bool {
    &&& entry.name@ == name_of(s.skip(at))
    &&& entry.midi_bank_number == le_i32(s, at + 20)
    &&& entry.midi_preset_number == le_i32(s, at + 24)
    &&& entry.num_zones == le_i32(s, at + 28)
}

fn field(chunk: &[u8], at: usize) -> (v: i32)
    requires
        at + 4 <= chunk@.len(),
    ensures
        v == le_i32(chunk@, at as int),
{
    to_signed(read_le32(chunk, at))
}

fn envelope(chunk: &[u8], at: usize) -> (env: Envelope)
    requires
        at + 24 <= chunk@.len(),
    ensures
        env == envelope_at(chunk@, at as int),
{
    let len = chunk.len();
    Envelope {
        delay: read_le32(chunk, at),
        attack: read_le32(chunk, at + 4),
        hold: read_le32(chunk, at + 8),
        decay: read_le32(chunk, at + 12),
        sustain: read_le32(chunk, at + 16),
        release: read_le32(chunk, at + 20),
    }
}

impl MsqTable {
    /// Reads one entry.  When fewer than eight bytes are left, nothing is
    /// returned and the reader is exhausted.
    pub fn parse(bytes: &mut ByteReader) -> (res: Option<Self>)
        ensures
            final(bytes).source() == old(bytes).source(),
            match res {
                Some(entry) => {
                    &&& old(bytes).position() + 8 <= old(bytes).source().len()
                    &&& entry == msq_table_at(old(bytes).source(), old(bytes).position() as int)
                    &&& final(bytes).position() == old(bytes).position() + 8
                },
                None => {
                    &&& old(bytes).position() + 8 > old(bytes).source().len()
                    &&& final(bytes).position() == old(bytes).source().len()
                },
            },
    {
        match bytes.take(8) {
            None => None,
            Some(c) => Some(MsqTable { index: field(c, 0), offset: field(c, 4) }),
        }
    }
}

impl Envelope {
    /// Reads one envelope.  When fewer than twenty-four bytes are left,
    /// nothing is returned and the reader is exhausted.
    pub fn parse(bytes: &mut ByteReader) -> (res: Option<Self>)
        ensures
            final(bytes).source() == old(bytes).source(),
            match res {
                Some(env) => {
                    &&& old(bytes).position() + 24 <= old(bytes).source().len()
                    &&& env == envelope_at(old(bytes).source(), old(bytes).position() as int)
                    &&& final(bytes).position() == old(bytes).position() + 24
                },
                None => {
                    &&& old(bytes).position() + 24 > old(bytes).source().len()
                    &&& final(bytes).position() == old(bytes).source().len()
                },
            },
    {
        match bytes.take(24) {
            None => None,
            Some(c) => Some(envelope(c, 0)),
        }
    }
}

impl ProgramZone {
    /// Reads one zone.  When fewer than 104 bytes are left, nothing is
    /// returned and the reader is exhausted.
    pub fn parse(bytes: &mut ByteReader) -> (res: Option<Self>)
        ensures
            final(bytes).source() == old(bytes).source(),
            match res {
                Some(zone) => {
                    &&& old(bytes).position() + 104 <= old(bytes).source().len()
                    &&& zone == program_zone_at(old(bytes).source(), old(bytes).position() as int)
                    &&& final(bytes).position() == old(bytes).position() + 104
                },
                None => {
                    &&& old(bytes).position() + 104 > old(bytes).source().len()
                    &&& final(bytes).position() == old(bytes).source().len()
                },
            },
    {
        match bytes.take(104) {
            None => None,
            Some(c) => Some(
                ProgramZone {
                    pitch_finetuning: field(c, 0),
                    reverb: field(c, 4),
                    pan_position_bits: read_le32(c, 8),
                    keynum_hold: field(c, 12),
                    keynum_decay: field(c, 16),
                    volume_env: envelope(c, 20),
                    volume_env_atten_bits: read_le32(c, 44),
                    vib_delay_bits: read_le32(c, 48),
                    vib_frequency_bits: read_le32(c, 52),
                    vib_to_pitch_bits: read_le32(c, 56),
                    root_key: field(c, 60),
                    note_low: c[64],
                    note_high: c[65],
                    velocity_low: c[66],
                    velocity_high: c[67],
                    wave_index: field(c, 68),
                    base_priority_bits: read_le32(c, 72),
                    modul_env: envelope(c, 76),
                    modul_env_to_pitch_bits: read_le32(c, 100),
                },
            ),
        }
    }
}

impl PresetZone {
    /// Reads one zone.  When fewer than twelve bytes are left, nothing is
    /// returned and the reader is exhausted.
    pub fn parse(bytes: &mut ByteReader) -> (res: Option<Self>)
        ensures
            final(bytes).source() == old(bytes).source(),
            match res {
                Some(zone) => {
                    &&& old(bytes).position() + 12 <= old(bytes).source().len()
                    &&& zone == preset_zone_at(old(bytes).source(), old(bytes).position() as int)
                    &&& final(bytes).position() == old(bytes).position() + 12
                },
                None => {
                    &&& old(bytes).position() + 12 > old(bytes).source().len()
                    &&& final(bytes).position() == old(bytes).source().len()
                },
            },
    {
        match bytes.take(12) {
            None => None,
            Some(c) => Some(
                PresetZone {
                    root_key: field(c, 0),
                    note_low: c[4],
                    note_high: c[5],
                    velocity_low: c[6],
                    velocity_high: c[7],
                    program_index: field(c, 8),
                },
            ),
        }
    }
}

/// Whether the stored size of the wave at `s[at..]`, doubled, fits in 32
/// bits.
pub open spec fn wave_size_fits(s: Seq<u8>, at: int) -> bool {
    -0x4000_0000 <= le_i32(s, at + 28) < 0x4000_0000
}

impl WaveEntry {
    /// Reads one entry of the wave table.  Nothing is returned when fewer
    /// than fifty-two bytes are left, and the reader is then exhausted; nor
    /// when the size does not fit.
    pub fn parse(bytes: &mut ByteReader) -> (res: Option<Self>)
        ensures
            final(bytes).source() == old(bytes).source(),
            match res {
                Some(wave) => {
                    &&& old(bytes).position() + 52 <= old(bytes).source().len()
                    &&& wave_size_fits(old(bytes).source(), old(bytes).position() as int)
                    &&& is_wave_at(wave, old(bytes).source(), old(bytes).position() as int)
                    &&& final(bytes).position() == old(bytes).position() + 52
                },
                None => {
                    if old(bytes).position() + 52 > old(bytes).source().len() {
                        final(bytes).position() == old(bytes).source().len()
                    } else {
                        &&& !wave_size_fits(old(bytes).source(), old(bytes).position() as int)
                        &&& final(bytes).position() == old(bytes).position() + 52
                    }
                },
            },
    {
        let ghost s = bytes.source();
        let ghost at = bytes.position() as int;
        if bytes.len() < 52 {
            bytes.exhaust();
            return None;
        }
        assert(bytes.remaining() =~= s.skip(at));
        let name = parse_name(bytes);
        let c = bytes.take(32).unwrap();
        let stored = field(c, 8);
        if stored < -0x4000_0000 || stored >= 0x4000_0000 {
            return None;
        }
        Some(
            WaveEntry {
                name,
                offset: field(c, 0),
                loop_begin: field(c, 4),
                size: stored * 2,
                loop_end: field(c, 12),
                sample_rate: field(c, 16),
                original_pitch: field(c, 20),
                loop_info: field(c, 24),
                snd_handle: field(c, 28),
            },
        )
    }
}

impl ProgramEntry {
    /// Reads the head of a program.  When fewer than twenty-four bytes are
    /// left, nothing is returned and the reader is exhausted.
    pub fn parse(bytes: &mut ByteReader) -> (res: Option<Self>)
        ensures
            final(bytes).source() == old(bytes).source(),
            match res {
                Some(entry) => {
                    &&& old(bytes).position() + 24 <= old(bytes).source().len()
                    &&& is_program_at(entry, old(bytes).source(), old(bytes).position() as int)
                    &&& final(bytes).position() == old(bytes).position() + 24
                },
                None => {
                    &&& old(bytes).position() + 24 > old(bytes).source().len()
                    &&& final(bytes).position() == old(bytes).source().len()
                },
            },
    {
        let ghost s = bytes.source();
        let ghost at = bytes.position() as int;
        if bytes.len() < 24 {
            bytes.exhaust();
            return None;
        }
        assert(bytes.remaining() =~= s.skip(at));
        let name = parse_name(bytes);
        let c = bytes.take(4).unwrap();
        Some(ProgramEntry { name, num_zones: field(c, 0) })
    }
}

impl PresetEntry {
    /// Reads the head of a preset.  When fewer than thirty-two bytes are
    /// left, nothing is returned and the reader is exhausted.
    pub fn parse(bytes: &mut ByteReader) -> (res: Option<Self>)
        ensures
            final(bytes).source() == old(bytes).source(),
            match res {
                Some(entry) => {
                    &&& old(bytes).position() + 32 <= old(bytes).source().len()
                    &&& is_preset_at(entry, old(bytes).source(), old(bytes).position() as int)
                    &&& final(bytes).position() == old(bytes).position() + 32
                },
                None => {
                    &&& old(bytes).position() + 32 > old(bytes).source().len()
                    &&& final(bytes).position() == old(bytes).source().len()
                },
            },
    {
        let ghost s = bytes.source();
        let ghost at = bytes.position() as int;
        if bytes.len() < 32 {
            bytes.exhaust();
            return None;
        }
        assert(bytes.remaining() =~= s.skip(at));
        let name = parse_name(bytes);
        let c = bytes.take(12).unwrap();
        Some(
            PresetEntry {
                name,
                midi_bank_number: field(c, 0),
                midi_preset_number: field(c, 4),
                num_zones: field(c, 8),
            },
        )
    }
}

/// A MUS file: its header and its tables.
#[derive(Debug, PartialEq, Eq)]
pub struct MusFile {
    pub header: MusHeader,
    pub msq_tables: Vec<MsqTable>,
    pub layers: Vec<i32>,
    pub wave_entries: Vec<WaveEntry>,
    pub program_entries: Vec<ProgramEntry>,
    pub program_zones: Vec<Vec<ProgramZone>>,
    pub preset_entries: Vec<PresetEntry>,
    pub preset_zones: Vec<Vec<PresetZone>>,
}

/// A count as the tables use it: a negative count stands for none.
pub open spec fn count_of(n: i32) -> int {
    if n < 0 {
        0
    } else {
        n as int
    }
}

/// Where the table of layers starts: behind the table of sequences.
pub open spec fn layers_at(s: Seq<u8>) -> int {
    header_len(s) + 8 * count_of(header_of(s).num_sequences)
}

/// Where the table of waves starts.
pub open spec fn waves_at(s: Seq<u8>) -> int {
    layers_at(s) + 4 * (header_of(s).num_presets + header_of(s).num_programs)
}

/// Where entry `k` of the table of waves starts.
pub open spec fn wave_at(s: Seq<u8>, k: int) -> int {
    waves_at(s) + 52 * k
}

/// Where the programs start.
pub open spec fn programs_at(s: Seq<u8>) -> int {
    waves_at(s) + 52 * count_of(header_of(s).num_waves)
}

/// Where program `i` starts: behind the programs before it, each with its
/// head and its zones.
pub open spec fn program_start(s: Seq<u8>, i: int) -> int
    decreases i,
{
    if i <= 0 {
        programs_at(s)
    } else {
        program_start(s, i - 1) + 24 + 104 * count_of(le_i32(s, program_start(s, i - 1) + 20))
    }
}

/// Where the presets start: behind the last program.
pub open spec fn presets_at(s: Seq<u8>) -> int {
    program_start(s, header_of(s).num_programs as int)
}

/// Where preset `i` starts: behind the presets before it, each with its
/// head and its zones.
pub open spec fn preset_start(s: Seq<u8>, i: int) -> int
    decreases i,
{
    if i <= 0 {
        presets_at(s)
    } else {
        preset_start(s, i - 1) + 32 + 12 * count_of(le_i32(s, preset_start(s, i - 1) + 28))
    }
}

/// Where the tables end.
pub open spec fn tables_end(s: Seq<u8>) -> int {
    preset_start(s, header_of(s).num_presets as int)
}

/// Whether the counts of the header can be used: none of the sequences,
/// programs and presets is counted below zero.
pub open spec fn counts_valid(s: Seq<u8>) -> bool {
    &&& header_of(s).num_sequences >= 0
    &&& header_of(s).num_programs >= 0
    &&& header_of(s).num_presets >= 0
    &&& header_of(s).num_presets + header_of(s).num_programs <= i32::MAX
}

/// Whether the file holds its header and all its tables, with counts and
/// sizes that can be used: no program and no preset counts its zones below
/// zero, and the size of each wave, doubled, fits in 32 bits.
pub open spec fn tables_whole(s: Seq<u8>) -> bool {
    &&& header_readable(s)
    &&& counts_valid(s)
    &&& tables_end(s) <= s.len()
    &&& forall|k: int| 0 <= k < header_of(s).num_waves ==> wave_size_fits(s, #[trigger] wave_at(s, k))
    &&& forall|i: int|
        0 <= i < header_of(s).num_programs ==> le_i32(s, #[trigger] program_start(s, i) + 20) >= 0
    &&& forall|i: int|
        0 <= i < header_of(s).num_presets ==> le_i32(s, #[trigger] preset_start(s, i) + 28) >= 0
}

/// Whether `file` is what the bytes `s` spell.
pub open spec fn is_mus_file(file: MusFile, s: Seq<u8>) -> bool {
    let header = header_of(s);
    &&& file.header == header
    &&& file.msq_tables@.len() == header.num_sequences
    &&& forall|k: int|
        0 <= k < header.num_sequences ==> #[trigger] file.msq_tables@[k] == msq_table_at(
            s,
            header_len(s) + 8 * k,
        )
    &&& file.layers@.len() == header.num_presets + header.num_programs
    &&& forall|k: int|
        0 <= k < header.num_presets + header.num_programs ==> #[trigger] file.layers@[k] == le_i32(
            s,
            layers_at(s) + 4 * k,
        )
    &&& file.wave_entries@.len() == count_of(header.num_waves)
    &&& forall|k: int|
        0 <= k < header.num_waves ==> is_wave_at(#[trigger] file.wave_entries@[k], s, wave_at(s, k))
    &&& file.program_entries@.len() == header.num_programs
    &&& file.program_zones@.len() == header.num_programs
    &&& forall|i: int|
        0 <= i < header.num_programs ==> is_program_at(
            #[trigger] file.program_entries@[i],
            s,
            program_start(s, i),
        )
    &&& forall|i: int|
        0 <= i < header.num_programs ==> (#[trigger] file.program_zones@[i])@.len()
            == file.program_entries@[i].num_zones
    &&& forall|i: int, j: int|
        0 <= i < header.num_programs && 0 <= j < file.program_entries@[i].num_zones ==> #[trigger] file.program_zones@[i]@[j]
            == program_zone_at(s, program_start(s, i) + 24 + 104 * j)
    &&& file.preset_entries@.len() == header.num_presets
    &&& file.preset_zones@.len() == header.num_presets
    &&& forall|i: int|
        0 <= i < header.num_presets ==> is_preset_at(
            #[trigger] file.preset_entries@[i],
            s,
            preset_start(s, i),
        )
    &&& forall|i: int|
        0 <= i < header.num_presets ==> (#[trigger] file.preset_zones@[i])@.len()
            == file.preset_entries@[i].num_zones
    &&& forall|i: int, j: int|
        0 <= i < header.num_presets && 0 <= j < file.preset_entries@[i].num_zones ==> #[trigger] file.preset_zones@[i]@[j]
            == preset_zone_at(s, preset_start(s, i) + 32 + 12 * j)
}

proof fn lemma_program_start_grows(s: Seq<u8>, i: int, n: int)
    requires
        0 <= i <= n,
    ensures
        program_start(s, i) <= program_start(s, n),
    decreases n - i,
{
    if i < n {
        lemma_program_start_grows(s, i, n - 1);
    }
}

proof fn lemma_preset_start_grows(s: Seq<u8>, i: int, n: int)
    requires
        0 <= i <= n,
    ensures
        preset_start(s, i) <= preset_start(s, n),
    decreases n - i,
{
    if i < n {
        lemma_preset_start_grows(s, i, n - 1);
    }
}

impl MusFile {
    /// Reads the header and the tables of a MUS file from its first byte.
    /// Nothing is returned when the file does not hold them whole.
    pub fn parse(mus_file: &[u8]) -> (res: Option<Self>)
        ensures
            match res {
                Some(file) => tables_whole(mus_file@) && is_mus_file(file, mus_file@),
                None => !tables_whole(mus_file@),
            },
    {
        let ghost s = mus_file@;
        let mut bytes = ByteReader::new(mus_file);
        assert(bytes.remaining() =~= s);
        if !can_parse_header(&bytes) {
            return None;
        }
        let header = MusHeader::parse(&mut bytes);
        if header.num_sequences < 0 || header.num_programs < 0 || header.num_presets < 0 {
            return None;
        }
        if header.num_presets > i32::MAX - header.num_programs {
            return None;
        }
        let left = bytes.len();
        proof {
            lemma_program_start_grows(s, 0, header.num_programs as int);
            lemma_preset_start_grows(s, 0, header.num_presets as int);
        }
        let mut msq_tables: Vec<MsqTable> = Vec::new();
        let mut k: i32 = 0;
        while k < header.num_sequences
            invariant
                0 <= k <= header.num_sequences,
                header == header_of(s),
                header_readable(s),
                counts_valid(s),
                programs_at(s) <= tables_end(s),
                bytes.source() == s,
                mus_file@ == s,
                bytes.position() == header_len(s) + 8 * k,
                bytes.position() <= s.len(),
                msq_tables@.len() == k,
                forall|j: int|
                    0 <= j < k ==> #[trigger] msq_tables@[j] == msq_table_at(s, header_len(s) + 8 * j),
            decreases header.num_sequences - k,
        {
            match MsqTable::parse(&mut bytes) {
                Some(entry) => {
                    msq_tables.push(entry);
                },
                None => {
                    return None;
                },
            }
            k = k + 1;
        }
        let count = header.num_presets + header.num_programs;
        let mut layers: Vec<i32> = Vec::new();
        let mut k: i32 = 0;
        while k < count
            invariant
                0 <= k <= count,
                count == header.num_presets + header.num_programs,
                header == header_of(s),
                header_readable(s),
                counts_valid(s),
                programs_at(s) <= tables_end(s),
                bytes.source() == s,
                mus_file@ == s,
                bytes.position() == layers_at(s) + 4 * k,
                bytes.position() <= s.len(),
                layers@.len() == k,
                forall|j: int| 0 <= j < k ==> #[trigger] layers@[j] == le_i32(s, layers_at(s) + 4 * j),
            decreases count - k,
        {
            match bytes.next_le32() {
                Some(word) => {
                    layers.push(to_signed(word));
                },
                None => {
                    return None;
                },
            }
            k = k + 1;
        }
        let mut wave_entries: Vec<WaveEntry> = Vec::new();
        let mut k: i32 = 0;
        while k < header.num_waves
            invariant
                0 <= k,
                header.num_waves >= 0 ==> k <= header.num_waves,
                header.num_waves < 0 ==> k == 0,
                header == header_of(s),
                header_readable(s),
                counts_valid(s),
                programs_at(s) <= tables_end(s),
                bytes.source() == s,
                mus_file@ == s,
                bytes.position() == waves_at(s) + 52 * k,
                bytes.position() <= s.len(),
                wave_entries@.len() == k,
                forall|j: int| 0 <= j < k ==> wave_size_fits(s, #[trigger] wave_at(s, j)),
                forall|j: int|
                    0 <= j < k ==> is_wave_at(#[trigger] wave_entries@[j], s, wave_at(s, j)),
            decreases header.num_waves - k,
        {
            match WaveEntry::parse(&mut bytes) {
                Some(wave) => {
                    wave_entries.push(wave);
                },
                None => {
                    assert(wave_at(s, k as int) + 52 > s.len() || !wave_size_fits(
                        s,
                        wave_at(s, k as int),
                    ));
                    return None;
                },
            }
            k = k + 1;
        }
        let mut program_entries: Vec<ProgramEntry> = Vec::new();
        let mut program_zones: Vec<Vec<ProgramZone>> = Vec::new();
        let mut i: i32 = 0;
        while i < header.num_programs
            invariant
                0 <= i <= header.num_programs,
                header == header_of(s),
                header_readable(s),
                counts_valid(s),
                bytes.source() == s,
                mus_file@ == s,
                bytes.position() == program_start(s, i as int),
                bytes.position() <= s.len(),
                forall|j: int|
                    0 <= j < header.num_waves ==> wave_size_fits(s, #[trigger] wave_at(s, j)),
                program_entries@.len() == i,
                program_zones@.len() == i,
                forall|j: int| 0 <= j < i ==> le_i32(s, #[trigger] program_start(s, j) + 20) >= 0,
                forall|j: int|
                    0 <= j < i ==> is_program_at(
                        #[trigger] program_entries@[j],
                        s,
                        program_start(s, j),
                    ),
                forall|j: int|
                    0 <= j < i ==> (#[trigger] program_zones@[j])@.len()
                        == program_entries@[j].num_zones,
                forall|j: int, z: int|
                    0 <= j < i && 0 <= z < program_entries@[j].num_zones ==> #[trigger] program_zones@[j]@[z]
                        == program_zone_at(s, program_start(s, j) + 24 + 104 * z),
            decreases header.num_programs - i,
        {
            let ghost start = program_start(s, i as int);
            proof {
                lemma_program_start_grows(s, i + 1, header.num_programs as int);
                lemma_preset_start_grows(s, 0, header.num_presets as int);
            }
            let entry = match ProgramEntry::parse(&mut bytes) {
                Some(entry) => entry,
                None => {
                    return None;
                },
            };
            if entry.num_zones < 0 {
                return None;
            }
            let mut zones: Vec<ProgramZone> = Vec::new();
            let mut z: i32 = 0;
            while z < entry.num_zones
                invariant
                    0 <= z <= entry.num_zones,
                    0 <= i,
                    entry.num_zones == le_i32(s, start + 20),
                    start == program_start(s, i as int),
                    program_start(s, i + 1) <= tables_end(s),
                    bytes.source() == s,
                mus_file@ == s,
                    bytes.position() == start + 24 + 104 * z,
                    bytes.position() <= s.len(),
                    zones@.len() == z,
                    forall|j: int|
                        0 <= j < z ==> #[trigger] zones@[j] == program_zone_at(
                            s,
                            start + 24 + 104 * j,
                        ),
                decreases entry.num_zones - z,
            {
                match ProgramZone::parse(&mut bytes) {
                    Some(zone) => {
                        zones.push(zone);
                    },
                    None => {
                        assert(program_start(s, i + 1) > s.len());
                        return None;
                    },
                }
                z = z + 1;
            }
            program_entries.push(entry);
            program_zones.push(zones);
            i = i + 1;
        }
        let mut preset_entries: Vec<PresetEntry> = Vec::new();
        let mut preset_zones: Vec<Vec<PresetZone>> = Vec::new();
        let mut i: i32 = 0;
        while i < header.num_presets
            invariant
                0 <= i <= header.num_presets,
                header == header_of(s),
                bytes.source() == s,
                mus_file@ == s,
                bytes.position() == preset_start(s, i as int),
                bytes.position() <= s.len(),
                preset_entries@.len() == i,
                preset_zones@.len() == i,
                forall|j: int| 0 <= j < i ==> le_i32(s, #[trigger] preset_start(s, j) + 28) >= 0,
                forall|j: int|
                    0 <= j < i ==> is_preset_at(#[trigger] preset_entries@[j], s, preset_start(s, j)),
                forall|j: int|
                    0 <= j < i ==> (#[trigger] preset_zones@[j])@.len()
                        == preset_entries@[j].num_zones,
                forall|j: int, z: int|
                    0 <= j < i && 0 <= z < preset_entries@[j].num_zones ==> #[trigger] preset_zones@[j]@[z]
                        == preset_zone_at(s, preset_start(s, j) + 32 + 12 * z),
            decreases header.num_presets - i,
        {
            let ghost start = preset_start(s, i as int);
            proof {
                lemma_preset_start_grows(s, i + 1, header.num_presets as int);
            }
            let entry = match PresetEntry::parse(&mut bytes) {
                Some(entry) => entry,
                None => {
                    return None;
                },
            };
            if entry.num_zones < 0 {
                return None;
            }
            let mut zones: Vec<PresetZone> = Vec::new();
            let mut z: i32 = 0;
            while z < entry.num_zones
                invariant
                    0 <= z <= entry.num_zones,
                    0 <= i,
                    entry.num_zones == le_i32(s, start + 28),
                    start == preset_start(s, i as int),
                    preset_start(s, i + 1) <= tables_end(s),
                    bytes.source() == s,
                mus_file@ == s,
                    bytes.position() == start + 32 + 12 * z,
                    bytes.position() <= s.len(),
                    zones@.len() == z,
                    forall|j: int|
                        0 <= j < z ==> #[trigger] zones@[j] == preset_zone_at(s, start + 32 + 12 * j),
                decreases entry.num_zones - z,
            {
                match PresetZone::parse(&mut bytes) {
                    Some(zone) => {
                        zones.push(zone);
                    },
                    None => {
                        assert(preset_start(s, i + 1) > s.len());
                        return None;
                    },
                }
                z = z + 1;
            }
            preset_entries.push(entry);
            preset_zones.push(zones);
            i = i + 1;
        }
        Some(
            MusFile {
                header,
                msq_tables,
                layers,
                wave_entries,
                program_entries,
                program_zones,
                preset_entries,
                preset_zones,
            },
        )
    }
}

} // verus!
