//! Reads a VAB sound bank and cuts its samples out as VAG or ADS files.

use vstd::prelude::*;
use crate::bytes::{le16, le32, len32, low32, push_range, read_le16, read_le32};
use crate::reader::ByteReader;

verus! {

/// The header of a VAB file.
#[derive(Clone, Copy, Debug, PartialEq, Eq)]
pub struct VabHeader {
    pub magic_number: u32,
    pub version: u32,
    pub vab_id: u32,
    pub total_size: u32,
    pub _pad0: u16,
    pub programs_number: u16,
    pub tones_number: u16,
    pub vags_number: u16,
    pub master_volume: u8,
    pub master_pan: u8,
    pub bank_attributes_1: u8,
    pub bank_attributes_2: u8,
    pub _pad1: u32,
}

/// The header that the thirty-two bytes at `s[at..]` spell.
pub open spec fn header_at(s: Seq<u8>, at: int) -> VabHeader {
    VabHeader {
        magic_number: le32(s, at),
        version: le32(s, at + 4),
        vab_id: le32(s, at + 8),
        total_size: le32(s, at + 12),
        _pad0: le16(s, at + 16),
        programs_number: le16(s, at + 18),
        tones_number: le16(s, at + 20),
        vags_number: le16(s, at + 22),
        master_volume: s[at + 24],
        master_pan: s[at + 25],
        bank_attributes_1: s[at + 26],
        bank_attributes_2: s[at + 27],
        _pad1: le32(s, at + 28),
    }
}

impl VabHeader {
    /// Reads the header.  When fewer than thirty-two bytes are left,
    /// nothing is returned and the reader is exhausted.
    pub fn parse(bytes: &mut ByteReader) -> (res: Option<Self>)
        ensures
            final(bytes).source() == old(bytes).source(),
            match res {
                Some(header) => {
                    &&& old(bytes).position() + 32 <= old(bytes).source().len()
                    &&& header == header_at(old(bytes).source(), old(bytes).position() as int)
                    &&& final(bytes).position() == old(bytes).position() + 32
                },
                None => {
                    &&& old(bytes).position() + 32 > old(bytes).source().len()
                    &&& final(bytes).position() == old(bytes).source().len()
                },
            },
    {
        match bytes.take(32) {
            None => None,
            Some(c) => Some(
                VabHeader {
                    magic_number: read_le32(c, 0),
                    version: read_le32(c, 4),
                    vab_id: read_le32(c, 8),
                    total_size: read_le32(c, 12),
                    _pad0: read_le16(c, 16),
                    programs_number: read_le16(c, 18),
                    tones_number: read_le16(c, 20),
                    vags_number: read_le16(c, 22),
                    master_volume: c[24],
                    master_pan: c[25],
                    bank_attributes_1: c[26],
                    bank_attributes_2: c[27],
                    _pad1: read_le32(c, 28),
                },
            ),
        }
    }
}

/// One program of the bank.
#[derive(Clone, Copy, Debug, PartialEq, Eq)]
pub struct Program {
    pub tones_number: u8,
    pub volume: u8,
    pub priority: u8,
    pub mode: u8,
    pub pan: u8,
    pub _pad0: u8,
    pub attribute: u16,
    pub _pad1: u32,
    pub _pad2: u32,
}

/// The program that the sixteen bytes at `s[at..]` spell.
pub open spec fn program_at(s: Seq<u8>, at: int) -> Program {
    Program {
        tones_number: s[at],
        volume: s[at + 1],
        priority: s[at + 2],
        mode: s[at + 3],
        pan: s[at + 4],
        _pad0: s[at + 5],
        attribute: le16(s, at + 6),
        _pad1: le32(s, at + 8),
        _pad2: le32(s, at + 12),
    }
}

impl Program {
    /// Reads one program slot.  Nothing is returned for a slot without
    /// tones, and for a slot that runs past the end; the reader moves
    /// behind the slot, or to the end.
    pub fn parse(bytes: &mut ByteReader) -> (res: Option<Self>)
        ensures
            final(bytes).source() == old(bytes).source(),
            final(bytes).position() == if old(bytes).position() + 16 <= old(bytes).source().len() {
                old(bytes).position() as int + 16
            } else {
                old(bytes).source().len() as int
            },
            match res {
                Some(program) => {
                    &&& old(bytes).position() + 16 <= old(bytes).source().len()
                    &&& program == program_at(old(bytes).source(), old(bytes).position() as int)
                    &&& program.tones_number != 0
                },
                None => old(bytes).position() + 16 > old(bytes).source().len() || old(
                    bytes,
                ).source()[old(bytes).position() as int] == 0,
            },
    {
        match bytes.take(16) {
            None => None,
            Some(c) => {
                let program = Program {
                    tones_number: c[0],
                    volume: c[1],
                    priority: c[2],
                    mode: c[3],
                    pan: c[4],
                    _pad0: c[5],
                    attribute: read_le16(c, 6),
                    _pad1: read_le32(c, 8),
                    _pad2: read_le32(c, 12),
                };
                if program.tones_number == 0 {
                    None
                } else {
                    Some(program)
                }
            },
        }
    }
}

/// One tone of a program.
#[derive(Clone, Copy, Debug, PartialEq, Eq)]
pub struct Tone {
    pub priority: u8,
    pub reverb_mode: u8,
    pub volume: u8,
    pub pan: u8,
    pub unity_key: u8,
    pub pitch_tune: u8,
    pub key_low: u8,
    pub key_high: u8,
    pub vibrato_width: u8,
    pub vibrato_time: u8,
    pub port_width: u8,
    pub port_hold: u8,
    pub pitch_bend_minimum: u8,
    pub pitch_bend_maximum: u8,
    pub _pad0: u8,
    pub _pad1: u8,
    pub adsr1: u16,
    pub adsr2: u16,
    pub parent_program: u16,
    pub sample_number: u16,
    pub _pad2: u16,
    pub _pad3: u16,
    pub _pad4: u16,
    pub _pad5: u16,
}

/// The tone that the thirty-two bytes at `s[at..]` spell.
pub open spec fn tone_at(s: Seq<u8>, at: int) -> Tone {
    Tone {
        priority: s[at],
        reverb_mode: s[at + 1],
        volume: s[at + 2],
        pan: s[at + 3],
        unity_key: s[at + 4],
        pitch_tune: s[at + 5],
        key_low: s[at + 6],
        key_high: s[at + 7],
        vibrato_width: s[at + 8],
        vibrato_time: s[at + 9],
        port_width: s[at + 10],
        port_hold: s[at + 11],
        pitch_bend_minimum: s[at + 12],
        pitch_bend_maximum: s[at + 13],
        _pad0: s[at + 14],
        _pad1: s[at + 15],
        adsr1: le16(s, at + 16),
        adsr2: le16(s, at + 18),
        parent_program: le16(s, at + 20),
        sample_number: le16(s, at + 22),
        _pad2: le16(s, at + 24),
        _pad3: le16(s, at + 26),
        _pad4: le16(s, at + 28),
        _pad5: le16(s, at + 30),
    }
}

impl Tone {
    /// Reads one tone.  When fewer than thirty-two bytes are left, nothing
    /// is returned and the reader is exhausted.
    pub fn parse(bytes: &mut ByteReader) -> (res: Option<Self>)
        ensures
            final(bytes).source() == old(bytes).source(),
            match res {
                Some(tone) => {
                    &&& old(bytes).position() + 32 <= old(bytes).source().len()
                    &&& tone == tone_at(old(bytes).source(), old(bytes).position() as int)
                    &&& final(bytes).position() == old(bytes).position() + 32
                },
                None => {
                    &&& old(bytes).position() + 32 > old(bytes).source().len()
                    &&& final(bytes).position() == old(bytes).source().len()
                },
            },
    {
        match bytes.take(32) {
            None => None,
            Some(c) => Some(
                Tone {
                    priority: c[0],
                    reverb_mode: c[1],
                    volume: c[2],
                    pan: c[3],
                    unity_key: c[4],
                    pitch_tune: c[5],
                    key_low: c[6],
                    key_high: c[7],
                    vibrato_width: c[8],
                    vibrato_time: c[9],
                    port_width: c[10],
                    port_hold: c[11],
                    pitch_bend_minimum: c[12],
                    pitch_bend_maximum: c[13],
                    _pad0: c[14],
                    _pad1: c[15],
                    adsr1: read_le16(c, 16),
                    adsr2: read_le16(c, 18),
                    parent_program: read_le16(c, 20),
                    sample_number: read_le16(c, 22),
                    _pad2: read_le16(c, 24),
                    _pad3: read_le16(c, 26),
                    _pad4: read_le16(c, 28),
                    _pad5: read_le16(c, 30),
                },
            ),
        }
    }
}

/// A range of file offsets, from `start` up to but without `end`.
#[derive(Clone, Copy, Debug, PartialEq, Eq)]
pub struct Span {
    pub start: usize,
    pub end: usize,
}

/// A VAB file: its header, its programs with their tones, and where its
/// samples lie.
#[derive(Debug, PartialEq, Eq)]
pub struct VabFile {
    pub header: VabHeader,
    pub programs: Vec<Program>,
    pub tones: Vec<Vec<Tone>>,
    pub vag_sizes: Vec<usize>,
    pub vag_ranges: Vec<Span>,
}

/// Where program slot `k` starts.
pub open spec fn slot_at(k: int) -> int {
    32 + 16 * k
}

/// Whether program slot `k` lies inside the file and holds a program with
/// tones.
pub open spec fn slot_used(s: Seq<u8>, k: int) -> bool {
    0 <= k && slot_at(k) + 16 <= s.len() && s[slot_at(k)] != 0
}

/// The first used slot at or after `k`, and 128 when there is none among
/// the 128 slots.
pub open spec fn next_used(s: Seq<u8>, k: int) -> int
    decreases 128 - k,
{
    if k >= 128 {
        128
    } else if slot_used(s, k) {
        k
    } else {
        next_used(s, k + 1)
    }
}

/// The slot of program `i`, the programs counted in the order of their
/// slots; 128 when the slots hold fewer programs.
pub open spec fn nth_used(s: Seq<u8>, i: int) -> int
    decreases i,
{
    if i <= 0 {
        next_used(s, 0)
    } else {
        next_used(s, nth_used(s, i - 1) + 1)
    }
}

/// Program `i` of the file.
pub open spec fn program_of(s: Seq<u8>, i: int) -> Program {
    program_at(s, slot_at(nth_used(s, i)))
}

/// Where the tones of program `i` start: behind the 128 program slots, 512
/// bytes for each program before it.
pub open spec fn tones_at(i: int) -> int {
    2080 + 512 * i
}

/// Where the table of sample sizes starts: behind the tones of the last
/// program.
pub open spec fn sizes_at(s: Seq<u8>) -> int {
    tones_at(header_at(s, 0).programs_number as int)
}

/// Where the samples start: behind the table of sample sizes.
pub open spec fn samples_at(s: Seq<u8>) -> int {
    sizes_at(s) + 512
}

/// The size of sample `k` in bytes: eight times the stored number.  The
/// first entry of the table is not in use.
pub open spec fn sample_size(s: Seq<u8>, k: int) -> int {
    le16(s, sizes_at(s) + 2 + 2 * k) as int * 8
}

/// Where sample `k` starts: behind the samples before it.
pub open spec fn sample_start(s: Seq<u8>, k: int) -> int
    decreases k,
{
    if k <= 0 {
        samples_at(s)
    } else {
        sample_start(s, k - 1) + sample_size(s, k - 1)
    }
}

/// Whether the file holds a header whose total size does not exceed the
/// size of the file.
pub open spec fn header_accepted(s: Seq<u8>) -> bool {
    s.len() >= 32 && low32(s.len()) >= header_at(s, 0).total_size
}

/// Whether each of the first `count` programs has at most sixteen tones.
pub open spec fn tones_fit(s: Seq<u8>, count: int) -> bool {
    forall|j: int| 0 <= j < count ==> (#[trigger] program_of(s, j)).tones_number <= 16
}

/// Whether the 128 slots hold as many programs as the header counts.
pub open spec fn programs_found(s: Seq<u8>) -> bool {
    header_at(s, 0).programs_number == 0 || nth_used(s, header_at(s, 0).programs_number - 1) < 128
}

/// Whether the file holds everything up to its samples: an accepted header,
/// all its programs with no more than sixteen tones each, and the table of
/// the sizes of no more than 255 samples.
pub open spec fn whole(s: Seq<u8>) -> bool {
    &&& header_accepted(s)
    &&& programs_found(s)
    &&& tones_fit(s, header_at(s, 0).programs_number as int)
    &&& header_at(s, 0).vags_number <= 255
    &&& samples_at(s) <= s.len()
}

/// Whether the file can be read without a fault.  With an accepted header,
/// the 128 slots hold as many programs as the header counts; the first
/// program with more than sixteen tones does not have them all inside the
/// file; a file that holds its table of sample sizes counts at most 255
/// samples; and the samples of a whole file end at an offset the machine
/// can hold.
pub open spec fn readable(s: Seq<u8>) -> bool {
    header_accepted(s) ==> {
        let header = header_at(s, 0);
        &&& programs_found(s)
        &&& forall|i: int|
            0 <= i < header.programs_number && tones_fit(s, i) && tones_at(i) + 32 * (
            #[trigger] program_of(s, i)).tones_number <= s.len() ==> program_of(s, i).tones_number
                <= 16
        &&& tones_fit(s, header.programs_number as int) && sizes_at(s) + 2 + 2 * header.vags_number
            <= s.len() ==> header.vags_number <= 255
        &&& whole(s) ==> sample_start(s, header.vags_number as int) <= usize::MAX
    }
}

/// Whether `file` is what the bytes `s` spell.
pub open spec fn is_vab_file(file: VabFile, s: Seq<u8>) -> bool {
    let header = header_at(s, 0);
    &&& file.header == header
    &&& file.programs@.len() == header.programs_number
    &&& forall|i: int|
        0 <= i < header.programs_number ==> #[trigger] file.programs@[i] == program_of(s, i)
    &&& file.tones@.len() == header.programs_number
    &&& forall|i: int|
        0 <= i < header.programs_number ==> (#[trigger] file.tones@[i])@.len() == program_of(
            s,
            i,
        ).tones_number
    &&& forall|i: int, j: int|
        0 <= i < header.programs_number && 0 <= j < program_of(s, i).tones_number ==> #[trigger] file.tones@[i]@[j]
            == tone_at(s, tones_at(i) + 32 * j)
    &&& file.vag_sizes@.len() == header.vags_number
    &&& forall|k: int|
        0 <= k < header.vags_number ==> #[trigger] file.vag_sizes@[k] == sample_size(s, k)
    &&& file.vag_ranges@.len() == header.vags_number
    &&& forall|k: int|
        0 <= k < header.vags_number ==> (#[trigger] file.vag_ranges@[k]).start == sample_start(s, k)
            && file.vag_ranges@[k].end == sample_start(s, k + 1)
}

/// Why a file cannot be read.
#[derive(Clone, Copy, Debug, PartialEq, Eq)]
pub struct Malformed;

proof fn lemma_next_used(s: Seq<u8>, k: int)
    requires
        0 <= k,
    ensures
        k <= next_used(s, k) || next_used(s, k) == 128,
        next_used(s, k) <= 128 || next_used(s, k) == k,
        next_used(s, k) < 128 ==> slot_used(s, next_used(s, k)),
        forall|j: int| k <= j < next_used(s, k) && j < 128 ==> !slot_used(s, j),
    decreases 128 - k,
{
    if k < 128 && !slot_used(s, k) {
        lemma_next_used(s, k + 1);
    }
}

proof fn lemma_nth_used_grows(s: Seq<u8>, i: int, j: int)
    requires
        0 <= i <= j,
        nth_used(s, j) < 128,
    ensures
        0 <= nth_used(s, i) <= nth_used(s, j),
        i < j ==> nth_used(s, i) < nth_used(s, j),
        slot_used(s, nth_used(s, i)),
    decreases j - i,
{
    lemma_nth_used_at_least(s, i);
    if i < j {
        lemma_nth_used_at_least(s, j - 1);
        lemma_next_used(s, nth_used(s, j - 1) + 1);
        lemma_nth_used_grows(s, i, j - 1);
    } else {
        if i == 0 {
            lemma_next_used(s, 0);
        } else {
            lemma_nth_used_at_least(s, i - 1);
            lemma_next_used(s, nth_used(s, i - 1) + 1);
        }
    }
}

proof fn lemma_nth_used_at_least(s: Seq<u8>, i: int)
    ensures
        nth_used(s, i) >= 0,
        i >= 0 ==> nth_used(s, i) >= i || nth_used(s, i) == 128,
    decreases i,
{
    if i <= 0 {
        lemma_next_used(s, 0);
    } else {
        lemma_nth_used_at_least(s, i - 1);
        lemma_next_used(s, nth_used(s, i - 1) + 1);
    }
}

fn program_from(file: &[u8], at: usize) -> (program: Program)
    requires
        at + 16 <= file@.len(),
    ensures
        program == program_at(file@, at as int),
{
    let len = file.len();
    Program {
        tones_number: file[at],
        volume: file[at + 1],
        priority: file[at + 2],
        mode: file[at + 3],
        pan: file[at + 4],
        _pad0: file[at + 5],
        attribute: read_le16(file, at + 6),
        _pad1: read_le32(file, at + 8),
        _pad2: read_le32(file, at + 12),
    }
}

fn tone_from(file: &[u8], at: usize) -> (tone: Tone)
    requires
        at + 32 <= file@.len(),
    ensures
        tone == tone_at(file@, at as int),
{
    let mut reader = ByteReader::new(file);
    reader.skip(at);
    Tone::parse(&mut reader).unwrap()
}

/// The programs of the file, in the order of their slots; nothing when the
/// slots hold fewer than `count`.
fn find_programs(file: &[u8], count: u16) -> (res: Option<Vec<Program>>)
    requires
        file@.len() >= 32,
        count == header_at(file@, 0).programs_number,
    ensures
        match res {
            Some(programs) => {
                &&& programs_found(file@)
                &&& programs@.len() == count
                &&& forall|i: int| 0 <= i < count ==> #[trigger] programs@[i] == program_of(file@, i)
            },
            None => !programs_found(file@),
        },
{
    let ghost s = file@;
    let len = file.len();
    let mut programs: Vec<Program> = Vec::new();
    let mut slot: usize = 0;
    while programs.len() < count as usize
        invariant
            file@ == s,
            len == s.len(),
            len >= 32,
            count == header_at(s, 0).programs_number,
            slot <= 128,
            programs@.len() <= count,
            programs@.len() < count ==> nth_used(s, programs@.len() as int) == next_used(
                s,
                slot as int,
            ),
            programs@.len() > 0 ==> nth_used(s, programs@.len() - 1) < 128,
            forall|i: int| 0 <= i < programs@.len() ==> #[trigger] programs@[i] == program_of(s, i),
        decreases 128 - slot,
    {
        if slot >= 128 {
            proof {
                let found = programs@.len() as int;
                if nth_used(s, count - 1) < 128 {
                    lemma_nth_used_grows(s, found, count - 1);
                }
            }
            return None;
        }
        let at = 32 + 16 * slot;
        if at <= len && len - at >= 16 && file[at] != 0 {
            programs.push(program_from(file, at));
        }
        slot = slot + 1;
    }
    Some(programs)
}

impl VabFile {
    /// Reads a whole VAB file from its first byte.  The file is malformed
    /// where reading it would run into a fault; nothing is returned where
    /// it is cut short or its header is not accepted.
    pub fn try_parse(file: &[u8]) -> (res: Result<Option<VabFile>, Malformed>)
        ensures
            match res {
                Err(_) => !readable(file@),
                Ok(Some(vab)) => readable(file@) && whole(file@) && is_vab_file(vab, file@),
                Ok(None) => readable(file@) && !whole(file@),
            },
    {
        let ghost s = file@;
        let len = file.len();
        let mut reader = ByteReader::new(file);
        let header = match VabHeader::parse(&mut reader) {
            Some(header) => header,
            None => {
                return Ok(None);
            },
        };
        if len32(len) < header.total_size {
            return Ok(None);
        }
        let programs = match find_programs(file, header.programs_number) {
            Some(programs) => programs,
            None => {
                return Err(Malformed);
            },
        };
        let count = header.programs_number as usize;
        let mut tones: Vec<Vec<Tone>> = Vec::new();
        let mut i: usize = 0;
        while i < count
            invariant
                file@ == s,
                len == s.len(),
                header_accepted(s),
                header == header_at(s, 0),
                count == header.programs_number,
                programs_found(s),
                programs@.len() == count,
                forall|j: int| 0 <= j < count ==> #[trigger] programs@[j] == program_of(s, j),
                i <= count,
                tones_fit(s, i as int),
                i > 0 ==> tones_at(i as int) <= len,
                tones@.len() == i,
                forall|j: int|
                    0 <= j < i ==> (#[trigger] tones@[j])@.len() == program_of(s, j).tones_number,
                forall|j: int, t: int|
                    0 <= j < i && 0 <= t < program_of(s, j).tones_number ==> #[trigger] tones@[j]@[t]
                        == tone_at(s, tones_at(j) + 32 * t),
            decreases count - i,
        {
            let wanted = programs[i].tones_number as usize;
            let base = 2080 + 512 * i;
            assert(programs@[i as int] == program_of(s, i as int));
            if len < base || len - base < 32 * wanted {
                proof {
                    assert forall|j: int|
                        0 <= j < header.programs_number && tones_fit(s, j) && tones_at(j) + 32 * (
                        #[trigger] program_of(s, j)).tones_number <= s.len() implies program_of(
                        s,
                        j,
                    ).tones_number <= 16 by {
                        if j > i {
                            assert(program_of(s, i as int).tones_number <= 16);
                        }
                    }
                    if tones_fit(s, count as int) {
                        assert(program_of(s, i as int).tones_number <= 16);
                    }
                }
                return Ok(None);
            }
            if wanted > 16 {
                return Err(Malformed);
            }
            let mut list: Vec<Tone> = Vec::new();
            let mut t: usize = 0;
            while t < wanted
                invariant
                    file@ == s,
                    len == s.len(),
                    t <= wanted <= 16,
                    base == tones_at(i as int),
                    base + 32 * wanted <= len,
                    list@.len() == t,
                    forall|u: int| 0 <= u < t ==> #[trigger] list@[u] == tone_at(s, base + 32 * u),
                decreases wanted - t,
            {
                list.push(tone_from(file, base + 32 * t));
                t = t + 1;
            }
            if len - base < 512 {
                proof {
                    assert(tones_fit(s, i + 1));
                    assert forall|j: int|
                        0 <= j < header.programs_number && tones_fit(s, j) && tones_at(j) + 32 * (
                        #[trigger] program_of(s, j)).tones_number <= s.len() implies program_of(
                        s,
                        j,
                    ).tones_number <= 16 by {
                        if j > i {
                            assert(tones_at(j) >= base + 512);
                        }
                    }
                }
                return Ok(None);
            }
            tones.push(list);
            i = i + 1;
        }
        proof {
            assert(tones_fit(s, count as int));
            assert forall|j: int|
                0 <= j < header.programs_number && tones_fit(s, j) && tones_at(j) + 32 * (
                #[trigger] program_of(s, j)).tones_number <= s.len() implies program_of(
                s,
                j,
            ).tones_number <= 16 by {}
        }
        let table = 2080 + 512 * count;
        let samples = header.vags_number as usize;
        if len < table || len - table < 2 + 2 * samples {
            return Ok(None);
        }
        if samples > 255 {
            return Err(Malformed);
        }
        if len - table < 512 {
            return Ok(None);
        }
        let mut vag_sizes: Vec<usize> = Vec::new();
        let mut k: usize = 0;
        while k < samples
            invariant
                file@ == s,
                len == s.len(),
                k <= samples <= 255,
                samples == header_at(s, 0).vags_number,
                table == sizes_at(s),
                table + 512 <= len,
                vag_sizes@.len() == k,
                forall|j: int| 0 <= j < k ==> #[trigger] vag_sizes@[j] == sample_size(s, j),
            decreases samples - k,
        {
            vag_sizes.push(read_le16(file, table + 2 + 2 * k) as usize * 8);
            k = k + 1;
        }
        let mut vag_ranges: Vec<Span> = Vec::new();
        let mut cursor: usize = table + 512;
        let mut k: usize = 0;
        while k < samples
            invariant
                k <= samples,
                file@ == s,
                samples == header_at(s, 0).vags_number,
                whole(s),
                cursor == sample_start(s, k as int),
                vag_sizes@.len() == samples,
                forall|j: int| 0 <= j < samples ==> #[trigger] vag_sizes@[j] == sample_size(s, j),
                vag_ranges@.len() == k,
                forall|j: int|
                    0 <= j < k ==> (#[trigger] vag_ranges@[j]).start == sample_start(s, j)
                        && vag_ranges@[j].end == sample_start(s, j + 1),
            decreases samples - k,
        {
            let size = vag_sizes[k];
            assert(size == sample_size(s, k as int));
            if size > usize::MAX - cursor {
                proof {
                    lemma_sample_start_grows(s, k + 1, samples as int);
                    assert(sample_start(s, k + 1) == cursor + size);
                    assert(sample_start(s, header_at(s, 0).vags_number as int) > usize::MAX);
                }
                return Err(Malformed);
            }
            vag_ranges.push(Span { start: cursor, end: cursor + size });
            cursor = cursor + size;
            k = k + 1;
        }
        Ok(Some(VabFile { header, programs, tones, vag_sizes, vag_ranges }))
    }

    /// Reads a whole VAB file from its first byte; `file_len` is its
    /// length.  Nothing is returned where the file is cut short or its
    /// header is not accepted.
    pub fn parse(bytes: &mut ByteReader, file_len: usize) -> (res: Option<Self>)
        requires
            old(bytes).position() == 0,
            file_len == old(bytes).source().len(),
            readable(old(bytes).source()),
        ensures
            final(bytes).source() == old(bytes).source(),
            match res {
                Some(vab) => {
                    &&& whole(old(bytes).source())
                    &&& is_vab_file(vab, old(bytes).source())
                    &&& final(bytes).position() == samples_at(old(bytes).source())
                },
                None => !whole(old(bytes).source()),
            },
    {
        let file = bytes.rest();
        assert(file@ =~= bytes.source());
        match VabFile::try_parse(file) {
            Ok(Some(vab)) => {
                bytes.skip(2080 + 512 * (vab.header.programs_number as usize) + 512);
                Some(vab)
            },
            _ => {
                bytes.exhaust();
                None
            },
        }
    }
}

proof fn lemma_sample_start_grows(s: Seq<u8>, k: int, n: int)
    requires
        0 <= k <= n,
    ensures
        sample_start(s, k) <= sample_start(s, n),
    decreases n - k,
{
    if k < n {
        lemma_sample_start_grows(s, k, n - 1);
    }
}

/// Tells whether [`VabFile::parse`] can read the file without a fault.
pub fn can_parse(file: &[u8]) -> (ok: bool)
    ensures
        ok == readable(file@),
{
    VabFile::try_parse(file).is_ok()
}

/// The fields of the ADS header of a sample cut from a bank: ADPCM data on
/// one channel, not interleaved.
pub open spec fn ads_args(sample_rate: u32) -> crate::adsheader::Args {
    crate::adsheader::Args { channels: 1, sample_rate: sample_rate, interleave: 0, format: 0x10 }
}

/// The fields of the VAG header of a sample cut from a bank: the short
/// header.
pub open spec fn vag_args(sample_rate: u32) -> crate::vagheader::Args {
    crate::vagheader::Args { sample_rate: sample_rate, long: false, short: true }
}

/// The file made of the sample at `file[start..end]`: the sample behind an
/// ADS or a VAG header.
pub open spec fn sample_file(file: Seq<u8>, span: Span, sample_rate: u32, ads: bool) -> Seq<u8> {
    let body = file.subrange(span.start as int, span.end as int);
    if ads {
        crate::adsheader::ads_header(ads_args(sample_rate), body.len()) + body
    } else {
        crate::vagheader::vag_header(vag_args(sample_rate), body.len()) + body
    }
}

impl VabFile {
    /// Whether every sample of the bank lies inside `file`.
    pub open spec fn samples_inside(self, file: Seq<u8>) -> bool {
        forall|k: int|
            0 <= k < self.vag_ranges@.len() ==> (#[trigger] self.vag_ranges@[k]).start
                <= self.vag_ranges@[k].end <= file.len()
    }

    /// Tells whether every sample of the bank lies inside `file`.
    pub fn can_create(&self, file: &[u8]) -> (ok: bool)
        ensures
            ok == self.samples_inside(file@),
    {
        let mut k: usize = 0;
        while k < self.vag_ranges.len()
            invariant
                k <= self.vag_ranges@.len(),
                forall|j: int|
                    0 <= j < k ==> (#[trigger] self.vag_ranges@[j]).start <= self.vag_ranges@[j].end
                        <= file@.len(),
            decreases self.vag_ranges@.len() - k,
        {
            let span = self.vag_ranges[k];
            if span.start > span.end || span.end > file.len() {
                return false;
            }
            k = k + 1;
        }
        true
    }

    /// Cuts the samples out of `file` and gives each its own header: an
    /// ADS header when `ads` is set, a VAG header otherwise.
    pub fn create(&self, file: &[u8], sample_rate: u32, ads: bool) -> (samples: Vec<Vec<u8>>)
        requires
            self.samples_inside(file@),
        ensures
            samples@.len() == self.vag_ranges@.len(),
            forall|k: int|
                0 <= k < samples@.len() ==> (#[trigger] samples@[k])@ == sample_file(
                    file@,
                    self.vag_ranges@[k],
                    sample_rate,
                    ads,
                ),
    {
        let mut samples: Vec<Vec<u8>> = Vec::new();
        let mut k: usize = 0;
        while k < self.vag_ranges.len()
            invariant
                k <= self.vag_ranges@.len(),
                self.samples_inside(file@),
                samples@.len() == k,
                forall|j: int|
                    0 <= j < k ==> (#[trigger] samples@[j])@ == sample_file(
                        file@,
                        self.vag_ranges@[j],
                        sample_rate,
                        ads,
                    ),
            decreases self.vag_ranges@.len() - k,
        {
            let span = self.vag_ranges[k];
            assert(self.vag_ranges@[k as int].start <= self.vag_ranges@[k as int].end <= file@.len());
            let mut body: Vec<u8> = Vec::new();
            push_range(&mut body, file, span.start, span.end);
            assert(body@ =~= file@.subrange(span.start as int, span.end as int));
            let sample = if ads {
                let args = crate::adsheader::Args {
                    channels: 1,
                    sample_rate,
                    interleave: 0,
                    format: 0x10,
                };
                crate::adsheader::add_header(&args, &mut body);
                body
            } else {
                let args = crate::vagheader::Args { sample_rate, long: false, short: true };
                crate::vagheader::add_header(body.as_slice(), &args)
            };
            samples.push(sample);
            k = k + 1;
        }
        samples
    }
}

} // verus!
