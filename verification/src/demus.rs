//! Reads the header and the names of a MUS sound bank.

use vstd::prelude::*;
use vstd::string::StringExecFns;
use crate::bytes::{be32, le32, read_be32, read_le32, signed32, to_signed};
use crate::reader::ByteReader;
use crate::text::{decimal, push_char, push_decimal, push_digits};

verus! {

/// The header version of MUS 1.14.
pub const HEADER_VERSION_114: i32 = 270;

/// The header version of MUS 1.20, which adds the stream fields.
pub const HEADER_VERSION_120: i32 = 276;

/// The machine a sound bank was made for.
#[derive(Clone, Copy, Debug, PartialEq, Eq)]
pub enum Platform {
    Console,
    PC,
}

impl Default for Platform {
    fn default() -> (platform: Self)
        ensures
            platform == Platform::PC,
    {
        Platform::PC
    }
}

/// The quotient of `a` by the positive `b`, rounded towards zero.
pub open spec fn quotient(a: int, b: int) -> int
    recommends
        b > 0,
{
    if a >= 0 {
        a / b
    } else {
        -((-a) / b)
    }
}

/// The remainder that goes with [`quotient`]; it has the sign of `a`.
pub open spec fn remainder(a: int, b: int) -> int
    recommends
        b > 0,
{
    a - b * quotient(a, b)
}

/// The whole semitones of a pitch given in 256ths of a semitone.
pub fn semitone_tuning(note: i32) -> (semitones: i32)
    ensures
        semitones == quotient(note as int, 256),
{
    note / 256
}

/// What a pitch given in 256ths of a semitone has beyond its whole
/// semitones, in cents.
pub fn cents_tuning(note: i32) -> (cents: i32)
    ensures
        cents == quotient(remainder(note as int, 256) * 100, 256),
{
    (note % 256) * 100 / 256
}

/// One entry of the wave table.
#[derive(Clone, Copy, Debug, PartialEq, Eq)]
pub struct WaveEntry {
    pub name: [char; 20],
    pub offset: i32,
    pub loop_begin: i32,
    pub size: i32,
    pub loop_end: i32,
    pub sample_rate: i32,
    pub original_pitch: i32,
    pub loop_info: i32,
    pub snd_handle: i32,
}

/// Whether a byte may stand in a name: printable ASCII, but for the
/// characters that file systems refuse.
pub open spec fn name_byte(c: u8) -> bool {
    &&& 32 <= c <= 126
    &&& c != 34 && c != 36 && c != 42 && c != 47 && c != 58 && c != 59 && c != 60 && c != 62
    &&& c != 63 && c != 92 && c != 94 && c != 96
}

impl WaveEntry {
    /// Tells whether a byte may stand in a name.
    pub fn valid_char(c: &u8) -> (ok: bool)
        ensures
            ok == name_byte(*c),
    {
        let c = *c;
        if c == 34 || c == 36 || c == 42 || c == 47 || c == 58 || c == 59 || c == 60 || c == 62
            || c == 63 || c == 92 || c == 94 || c == 96 {
            false
        } else {
            32 <= c && c <= 126
        }
    }
}

/// Number of bytes at the start of `s`, up to `limit`, that may all stand in
/// a name.
pub open spec fn valid_prefix(s: Seq<u8>, limit: int) -> int
    decreases limit,
{
    if limit <= 0 {
        0
    } else if valid_prefix(s, limit - 1) == limit - 1 && name_byte(s[limit - 1]) {
        limit
    } else {
        valid_prefix(s, limit - 1)
    }
}

/// The length of `s[..end]` without the spaces at its end.
pub open spec fn trimmed(s: Seq<u8>, end: int) -> int
    decreases end,
{
    if end > 0 && s[end - 1] == 32 {
        trimmed(s, end - 1)
    } else {
        end
    }
}

/// The name that twenty bytes spell: the bytes up to the first one that may
/// not stand in a name, without the spaces at their end, filled up with
/// NUL.
pub open spec fn name_of(s: Seq<u8>) -> Seq<char>
    recommends
        s.len() >= 20,
{
    Seq::new(
        20,
        |k: int|
            if k < trimmed(s, valid_prefix(s, 20)) {
                s[k] as char
            } else {
                '\0'
            },
    )
}

proof fn lemma_valid_prefix(s: Seq<u8>, limit: int)
    requires
        0 <= limit,
    ensures
        0 <= valid_prefix(s, limit) <= limit,
        forall|k: int| 0 <= k < valid_prefix(s, limit) ==> name_byte(s[k]),
        valid_prefix(s, limit) < limit ==> !name_byte(s[valid_prefix(s, limit)]),
    decreases limit,
{
    if limit > 0 {
        lemma_valid_prefix(s, limit - 1);
    }
}

proof fn lemma_trimmed(s: Seq<u8>, end: int)
    requires
        0 <= end,
    ensures
        0 <= trimmed(s, end) <= end,
    decreases end,
{
    if end > 0 && s[end - 1] == 32 {
        lemma_trimmed(s, end - 1);
    }
}

/// Reads a name of twenty bytes.
pub fn parse_name(bytes: &mut ByteReader) -> (name: [char; 20])
    requires
        old(bytes).position() + 20 <= old(bytes).source().len(),
    ensures
        final(bytes).source() == old(bytes).source(),
        final(bytes).position() == old(bytes).position() + 20,
        name@ == name_of(old(bytes).remaining()),
{
    let ghost s = bytes.remaining();
    let chunk = bytes.take(20).unwrap();
    assert(forall|k: int| 0 <= k < 20 ==> chunk@[k] == s[k]);
    let mut name: [char; 20] = ['\0'; 20];
    let mut k: usize = 0;
    while k < 20 && WaveEntry::valid_char(&chunk[k])
        invariant
            k <= 20,
            chunk@.len() == 20,
            forall|j: int| 0 <= j < 20 ==> chunk@[j] == s[j],
            k == valid_prefix(s, k as int),
            forall|j: int| 0 <= j < k ==> name@[j] == s[j] as char,
            forall|j: int| k <= j < 20 ==> name@[j] == '\0',
        decreases 20 - k,
    {
        name[k] = chunk[k] as char;
        k = k + 1;
    }
    proof {
        lemma_valid_prefix(s, 20);
        lemma_prefix_stops(s, k as int, 20);
    }
    let ghost kept = k;
    while k > 0 && chunk[k - 1] == 32
        invariant
            k <= kept <= 20,
            chunk@.len() == 20,
            forall|j: int| 0 <= j < 20 ==> chunk@[j] == s[j],
            trimmed(s, kept as int) == trimmed(s, k as int),
            forall|j: int| 0 <= j < k ==> name@[j] == s[j] as char,
            forall|j: int| k <= j < 20 ==> name@[j] == '\0',
        decreases k,
    {
        k = k - 1;
        name[k] = '\0';
    }
    assert(name@ =~= name_of(s));
    name
}

proof fn lemma_prefix_stops(s: Seq<u8>, k: int, limit: int)
    requires
        0 <= k <= limit,
        k == valid_prefix(s, k),
        k < limit ==> !name_byte(s[k]),
    ensures
        valid_prefix(s, limit) == k,
    decreases limit - k,
{
    if k < limit {
        lemma_prefix_stops(s, k, limit - 1);
    }
}

/// Number of chars of `name` before its first NUL.
pub open spec fn text_len(name: Seq<char>, limit: int) -> int
    decreases limit,
{
    if limit <= 0 {
        0
    } else if text_len(name, limit - 1) == limit - 1 && name[limit - 1] != '\0' {
        limit
    } else {
        text_len(name, limit - 1)
    }
}

/// The text of a name: its chars up to the first NUL.
pub open spec fn name_text(name: Seq<char>) -> Seq<char> {
    name.take(text_len(name, name.len() as int))
}

proof fn lemma_text_stops(name: Seq<char>, k: int, limit: int)
    requires
        0 <= k <= limit,
        k == text_len(name, k),
        k < limit ==> name[k] == '\0',
    ensures
        text_len(name, limit) == k,
    decreases limit - k,
{
    if k < limit {
        lemma_text_stops(name, k, limit - 1);
    }
}

/// The text of a name as a string.
pub fn name_to_str(name: &[char; 20]) -> (text: String)
    ensures
        text@ == name_text(name@),
{
    let mut text = String::new();
    let mut k: usize = 0;
    assert(text@ =~= name@.take(0));
    while k < 20 && name[k] != '\0'
        invariant
            k <= 20,
            k == text_len(name@, k as int),
            text@ == name@.take(k as int),
        decreases 20 - k,
    {
        push_char(&mut text, name[k]);
        k = k + 1;
        assert(text@ =~= name@.take(k as int));
    }
    proof {
        lemma_text_stops(name@, k as int, 20);
    }
    text
}

/// The header of a MUS file.
#[derive(Clone, Copy, Debug, PartialEq, Eq)]
pub struct MusHeader {
    pub magic: i32,
    pub header_size: i32,
    pub version_number: i32,
    pub reverb_volume: i32,
    pub reverb_type: i32,
    pub reverb_multiply: i32,
    pub num_sequences: i32,
    pub num_streams: Option<i32>,
    pub stream_bpm: Option<i32>,
    pub stream_info_pointer: Option<i32>,
    pub num_labels: i32,
    pub offset_to_labels_offsets_table: i32,
    pub num_waves: i32,
    pub num_programs: i32,
    pub num_presets: i32,
}

/// The signed 32-bit number at `s[i..i + 4]`, low byte first.
pub open spec fn le_i32(s: Seq<u8>, i: int) -> i32 {
    signed32(le32(s, i))
}

/// Whether the header at the start of `s` is of the version with stream
/// fields.
pub open spec fn has_streams(s: Seq<u8>) -> bool {
    le_i32(s, 8) == HEADER_VERSION_120
}

/// Length of the header at the start of `s`.
pub open spec fn header_len(s: Seq<u8>) -> int {
    if has_streams(s) {
        60
    } else {
        48
    }
}

/// The header that the bytes at the start of `s` spell.  The tag is stored
/// high byte first, every other field low byte first; the three stream
/// fields are there in version 1.20 only.
pub open spec fn header_of(s: Seq<u8>) -> MusHeader {
    let shift = if has_streams(s) {
        12int
    } else {
        0int
    };
    MusHeader {
        magic: signed32(be32(s, 0)),
        header_size: le_i32(s, 4),
        version_number: le_i32(s, 8),
        reverb_volume: le_i32(s, 12),
        reverb_type: le_i32(s, 16),
        reverb_multiply: le_i32(s, 20),
        num_sequences: le_i32(s, 24),
        num_streams: if has_streams(s) {
            Some(le_i32(s, 28))
        } else {
            None
        },
        stream_bpm: if has_streams(s) {
            Some(le_i32(s, 32))
        } else {
            None
        },
        stream_info_pointer: if has_streams(s) {
            Some(le_i32(s, 36))
        } else {
            None
        },
        num_labels: le_i32(s, 28 + shift),
        offset_to_labels_offsets_table: le_i32(s, 32 + shift),
        num_waves: le_i32(s, 36 + shift),
        num_programs: le_i32(s, 40 + shift),
        num_presets: le_i32(s, 44 + shift),
    }
}

/// Whether a whole header lies at the start of `s`.
pub open spec fn header_readable(s: Seq<u8>) -> bool {
    s.len() >= 12 && s.len() >= header_len(s)
}

/// Tells whether [`MusHeader::parse`] finds a whole header in what is left
/// to read.
pub fn can_parse_header(bytes: &ByteReader) -> (ok: bool)
    ensures
        ok == header_readable(bytes.remaining()),
{
    let rest = bytes.rest();
    if rest.len() < 12 {
        return false;
    }
    if to_signed(read_le32(rest, 8)) == HEADER_VERSION_120 {
        rest.len() >= 60
    } else {
        rest.len() >= 48
    }
}

fn field(chunk: &[u8], at: usize) -> (v: i32)
    requires
        at + 4 <= chunk@.len(),
    ensures
        v == le_i32(chunk@, at as int),
{
    to_signed(read_le32(chunk, at))
}

impl MusHeader {
    /// Reads the header.
    pub fn parse(bytes: &mut ByteReader) -> (header: Self)
        requires
            header_readable(old(bytes).remaining()),
        ensures
            final(bytes).source() == old(bytes).source(),
            final(bytes).position() == old(bytes).position() + header_len(old(bytes).remaining()),
            header == header_of(old(bytes).remaining()),
    {
        let ghost s = bytes.remaining();
        let left = bytes.len();
        let rest = bytes.rest();
        let streams = field(rest, 8) == HEADER_VERSION_120;
        let shift: usize = if streams {
            12
        } else {
            0
        };
        let header = MusHeader {
            magic: to_signed(read_be32(rest, 0)),
            header_size: field(rest, 4),
            version_number: field(rest, 8),
            reverb_volume: field(rest, 12),
            reverb_type: field(rest, 16),
            reverb_multiply: field(rest, 20),
            num_sequences: field(rest, 24),
            num_streams: if streams {
                Some(field(rest, 28))
            } else {
                None
            },
            stream_bpm: if streams {
                Some(field(rest, 32))
            } else {
                None
            },
            stream_info_pointer: if streams {
                Some(field(rest, 36))
            } else {
                None
            },
            num_labels: field(rest, 28 + shift),
            offset_to_labels_offsets_table: field(rest, 32 + shift),
            num_waves: field(rest, 36 + shift),
            num_programs: field(rest, 40 + shift),
            num_presets: field(rest, 44 + shift),
        };
        bytes.skip(48 + shift);
        header
    }

    /// The name of the header version.
    pub open spec fn version_name(self) -> Seq<char> {
        if self.version_number == HEADER_VERSION_114 {
            "1.14"@
        } else if self.version_number == HEADER_VERSION_120 {
            "1.20"@
        } else {
            "UNKNOWN"@
        }
    }

    /// The line on streams, when the header holds their number.
    pub open spec fn streams_line(self) -> Seq<char> {
        match self.num_streams {
            Some(n) => "Streams: "@ + decimal(n as int) + "\n"@,
            None => Seq::empty(),
        }
    }

    /// The line on the tempo of streams, when the header holds it.
    pub open spec fn stream_bpm_line(self) -> Seq<char> {
        match self.stream_bpm {
            Some(n) => "Streams BPM: "@ + decimal(n as int) + "\n"@,
            None => Seq::empty(),
        }
    }

    /// The summary of the bank, one fact to a line.
    pub open spec fn summary(self, platform: Platform, sequence_zones: usize, preset_zones: usize) -> Seq<
        char,
    > {
        "MUS header\nHeader bytes: "@ + decimal(self.header_size as int) + " bytes\nMUS version: "@
            + self.version_name() + "\nSystem: "@ + (match platform {
            Platform::PC => "PC"@,
            Platform::Console => "Console"@,
        }) + "\nReverb volume: "@ + decimal(self.reverb_volume as int) + "\nReverb type: "@
            + decimal(self.reverb_type as int) + "\nSequences: "@ + decimal(
            self.num_sequences as int,
        ) + "\n"@ + self.streams_line() + self.stream_bpm_line() + "Labels: "@ + decimal(
            self.num_labels as int,
        ) + "\nSamples: "@ + decimal(self.num_waves as int) + " ("@ + (match platform {
            Platform::PC => "PCM16LE"@,
            Platform::Console => "SONY_4BIT_ADPCM"@,
        }) + ")\nInstruments: "@ + decimal(self.num_programs as int) + "\nInstrument Zones: "@
            + decimal(sequence_zones as int) + "\nPresets: "@ + decimal(self.num_presets as int)
            + "\nPreset zones: "@ + decimal(preset_zones as int) + "\n"@
    }

    /// Writes the summary of the bank.
    pub fn display(&self, platform: Platform, sequence_zones: usize, preset_zones: usize) -> (text:
        String)
        ensures
            text@ == self.summary(platform, sequence_zones, preset_zones),
    {
        let mut text = String::new();
        text.append("MUS header\nHeader bytes: ");
        assert(text@ =~= "MUS header\nHeader bytes: "@);
        push_decimal(&mut text, self.header_size as i64);
        text.append(" bytes\nMUS version: ");
        if self.version_number == HEADER_VERSION_114 {
            text.append("1.14");
        } else if self.version_number == HEADER_VERSION_120 {
            text.append("1.20");
        } else {
            text.append("UNKNOWN");
        }
        text.append("\nSystem: ");
        match platform {
            Platform::PC => text.append("PC"),
            Platform::Console => text.append("Console"),
        }
        text.append("\nReverb volume: ");
        push_decimal(&mut text, self.reverb_volume as i64);
        text.append("\nReverb type: ");
        push_decimal(&mut text, self.reverb_type as i64);
        text.append("\nSequences: ");
        push_decimal(&mut text, self.num_sequences as i64);
        text.append("\n");
        let ghost before = text@;
        match self.num_streams {
            Some(n) => {
                text.append("Streams: ");
                push_decimal(&mut text, n as i64);
                text.append("\n");
            },
            None => {},
        }
        assert(text@ =~= before + self.streams_line());
        let ghost before = text@;
        match self.stream_bpm {
            Some(n) => {
                text.append("Streams BPM: ");
                push_decimal(&mut text, n as i64);
                text.append("\n");
            },
            None => {},
        }
        assert(text@ =~= before + self.stream_bpm_line());
        text.append("Labels: ");
        push_decimal(&mut text, self.num_labels as i64);
        text.append("\nSamples: ");
        push_decimal(&mut text, self.num_waves as i64);
        text.append(" (");
        match platform {
            Platform::PC => text.append("PCM16LE"),
            Platform::Console => text.append("SONY_4BIT_ADPCM"),
        }
        text.append(")\nInstruments: ");
        push_decimal(&mut text, self.num_programs as i64);
        text.append("\nInstrument Zones: ");
        push_digits(&mut text, sequence_zones as u64);
        text.append("\nPresets: ");
        push_decimal(&mut text, self.num_presets as i64);
        text.append("\nPreset zones: ");
        push_digits(&mut text, preset_zones as u64);
        text.append("\n");
        text
    }
}

} // verus!
