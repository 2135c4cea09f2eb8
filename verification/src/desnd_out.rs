//! Writes what an SND sound bank holds as VAB header, VAG samples and
//! label file.

use vstd::prelude::*;
use crate::bytes::{le32_bytes, push_fill, push_le32, push_range};
use crate::desnd::{SmpFile, SndFile, SndProgram, SndZone, Span};

verus! {

/// The two bytes of `v`, low byte first.
pub open spec fn le16_bytes(v: u16) -> Seq<u8> {
    seq![(v as int % 256) as u8, (v as int / 256) as u8]
}

/// `count` zero bytes.
pub open spec fn zeros(count: int) -> Seq<u8> {
    Seq::new(count as nat, |k: int| 0u8)
}

fn push_le16(out: &mut Vec<u8>, v: u16)
    ensures
        final(out)@ == old(out)@ + le16_bytes(v),
{
    out.push((v % 256) as u8);
    out.push((v / 256) as u8);
    assert(out@ =~= old(out)@ + le16_bytes(v));
}

/// The kind of a sequence, told by its tag.
#[derive(Clone, Copy, Debug, PartialEq, Eq)]
pub enum SequenceKind {
    Msq,
    Cds,
}

/// The kind of the sequence that opens with the bytes `s`, if its tag is
/// known.
pub open spec fn kind_of(s: Seq<u8>) -> Option<SequenceKind> {
    if s.len() >= 4 && s[0] == 0x51 && s[1] == 0x53 && s[2] == 0x4d && s[3] == 0x61 {
        Some(SequenceKind::Msq)
    } else if s.len() >= 4 && s[0] == 0x51 && s[1] == 0x45 && s[2] == 0x53 && s[3] == 0x61 {
        Some(SequenceKind::Cds)
    } else {
        None
    }
}

/// Tells the kind of a sequence by its tag.
pub fn sequence_kind(bytes: &[u8]) -> (kind: Option<SequenceKind>)
    ensures
        kind == kind_of(bytes@),
{
    if bytes.len() < 4 {
        None
    } else if bytes[0] == 0x51 && bytes[1] == 0x53 && bytes[2] == 0x4d && bytes[3] == 0x61 {
        Some(SequenceKind::Msq)
    } else if bytes[0] == 0x51 && bytes[1] == 0x45 && bytes[2] == 0x53 && bytes[3] == 0x61 {
        Some(SequenceKind::Cds)
    } else {
        None
    }
}

/// Whether a span lies inside a file of `len` bytes.
pub open spec fn inside(span: Span, len: int) -> bool {
    span.start <= span.end <= len
}

/// Tells whether a span lies inside a file of `len` bytes.
pub fn is_inside(span: &Span, len: usize) -> (ok: bool)
    ensures
        ok == inside(*span, len as int),
{
    span.start <= span.end && span.end as usize <= len
}

/// The bytes of a file that a span covers.
pub fn cut(file: &[u8], span: &Span) -> (out: Vec<u8>)
    requires
        inside(*span, file@.len() as int),
    ensures
        out@ == file@.subrange(span.start as int, span.end as int),
{
    let mut out: Vec<u8> = Vec::new();
    push_range(&mut out, file, span.start as usize, span.end as usize);
    assert(out@ =~= file@.subrange(span.start as int, span.end as int));
    out
}

/// The fields of the VAG header of a sample cut from a bank: the short
/// header, at 44100 samples per second.
pub open spec fn vag_args() -> crate::vagheader::Args {
    crate::vagheader::Args { sample_rate: 44100, long: false, short: true }
}

/// The sample file of one wave: the wave as it is for the Dreamcast, and
/// behind a VAG header otherwise.
pub open spec fn wave_file_of(smp: Seq<u8>, wave: Span, dreamcast: bool) -> Seq<u8> {
    let body = smp.subrange(wave.start as int, wave.end as int);
    if dreamcast {
        body
    } else {
        crate::vagheader::vag_header(vag_args(), body.len()) + body
    }
}

/// Writes the sample file of one wave.
pub fn wave_file(smp_bytes: &[u8], wave: &Span, dreamcast: bool) -> (out: Vec<u8>)
    requires
        inside(*wave, smp_bytes@.len() as int),
    ensures
        out@ == wave_file_of(smp_bytes@, *wave, dreamcast),
{
    let body = cut(smp_bytes, wave);
    if dreamcast {
        body
    } else {
        let args = crate::vagheader::Args { sample_rate: 44100, long: false, short: true };
        crate::vagheader::add_header(body.as_slice(), &args)
    }
}

/// Number of programs among the first `count` that have zones.
pub open spec fn programs_in_use(programs: Seq<SndProgram>, count: int) -> int
    decreases count,
{
    if count <= 0 {
        0
    } else {
        programs_in_use(programs, count - 1) + if programs[count - 1].num_zones > 0 {
            1int
        } else {
            0int
        }
    }
}

/// Number of zones of the first `count` programs together.
pub open spec fn zones_before(programs: Seq<SndProgram>, count: int) -> int
    decreases count,
{
    if count <= 0 {
        0
    } else {
        zones_before(programs, count - 1) + programs[count - 1].num_zones
    }
}

/// Number of bytes of the first `count` waves together.
pub open spec fn waves_len(waves: Seq<Span>, count: int) -> int
    decreases count,
{
    if count <= 0 {
        0
    } else {
        waves_len(waves, count - 1) + (waves[count - 1].end - waves[count - 1].start)
    }
}

/// The size that the VAB header states: the header, the program table, 512
/// bytes of tones for each program in use, the table of sample sizes, and
/// the samples.
pub open spec fn vab_size(snd: SndFile, smp: SmpFile) -> int {
    32 + 2048 + programs_in_use(snd.programs@, snd.programs@.len() as int) * 512 + 512 + waves_len(
        smp.waves@,
        smp.waves@.len() as int,
    )
}

/// Whether the VAB header of the bank can be written: the bank has at most
/// 128 programs of at most sixteen zones each, there is a zone for each
/// zone of a program, there are at most 255 waves, none ends before it
/// starts, and the whole fits in 32 bits.
pub open spec fn writable(snd: SndFile, smp: SmpFile) -> bool {
    &&& snd.header.num_programs <= 128
    &&& snd.programs@.len() <= 128
    &&& forall|i: int| 0 <= i < snd.programs@.len() ==> (#[trigger] snd.programs@[i]).num_zones <= 16
    &&& zones_before(snd.programs@, snd.programs@.len() as int) <= snd.zones@.len()
    &&& smp.waves@.len() <= 255
    &&& forall|k: int|
        0 <= k < smp.waves@.len() ==> (#[trigger] smp.waves@[k]).start <= smp.waves@[k].end
    &&& vab_size(snd, smp) <= u32::MAX
}

/// The bank number of program `count - 1`: banks count from zero, and a new
/// bank begins with each program whose first zone names program zero.
pub open spec fn bank_of(snd: SndFile, count: int) -> int
    decreases count,
{
    if count <= 0 {
        -1
    } else {
        let first = zones_before(snd.programs@, count - 1);
        bank_of(snd, count - 1) + if first < snd.zones@.len() && snd.zones@[first].parent_program == 0 {
            1int
        } else {
            0int
        }
    }
}

/// A bank number as the two bytes of a signed 16-bit number, low byte
/// first.
pub open spec fn bank_bytes(bank: int) -> Seq<u8> {
    if bank < 0 {
        le16_bytes((bank + 0x1_0000) as u16)
    } else {
        le16_bytes(bank as u16)
    }
}

/// The thirty-two bytes that open the VAB header.
pub open spec fn vh_head(snd: SndFile, smp: SmpFile) -> Seq<u8> {
    let in_use = programs_in_use(snd.programs@, snd.programs@.len() as int);
    seq![0x70u8, 0x42u8, 0x41u8, 0x56u8, 7u8, 0u8, 0u8, 0u8, 0u8, 0u8, 0u8, 0u8] + le32_bytes(
        vab_size(snd, smp) as u32,
    ) + seq![0u8, 0u8] + le16_bytes(in_use as u16) + le16_bytes(
        (snd.header.num_zones as int % 0x1_0000) as u16,
    ) + le16_bytes((snd.header.num_waves as int % 0x1_0000) as u16) + seq![
        0x7fu8,
        0x40u8,
        0u8,
        0u8,
        0u8,
        0u8,
        0u8,
        0u8,
    ]
}

/// The sixteen bytes of program `i` in the program table.
pub open spec fn program_row(snd: SndFile, i: int) -> Seq<u8> {
    let program = snd.programs@[i];
    seq![(program.num_zones as int % 256) as u8, program.volume, 0u8, 0u8, program.pan_pos, 0u8]
        + bank_bytes(bank_of(snd, i + 1)) + zeros(8)
}

/// The rows of the first `count` programs.
pub open spec fn program_rows(snd: SndFile, count: int) -> Seq<u8>
    decreases count,
{
    if count <= 0 {
        Seq::empty()
    } else {
        program_rows(snd, count - 1) + program_row(snd, count - 1)
    }
}

/// The thirty-two bytes of a zone in the tone table.
pub open spec fn zone_row(zone: SndZone) -> Seq<u8> {
    seq![
        zone.priority,
        zone.mode,
        zone.volume,
        zone.pan_pos,
        zone.root_key,
        zone.pitch_fine_tuning,
        zone.note_low,
        zone.note_high,
        0u8,
        0u8,
        0u8,
        0u8,
        zone.max_pitch_range,
        zone.max_pitch_range,
        0u8,
        0u8,
    ] + le16_bytes(zone.adsr1) + le16_bytes(zone.adsr2) + seq![zone.parent_program, 0u8]
        + le16_bytes(zone.wave_index) + zeros(8)
}

/// The rows of the zones `from` to `from + count - 1`.
pub open spec fn zone_rows(zones: Seq<SndZone>, from: int, count: int) -> Seq<u8>
    decreases count,
{
    if count <= 0 {
        Seq::empty()
    } else {
        zone_rows(zones, from, count - 1) + zone_row(zones[from + count - 1])
    }
}

/// The tones of program `i`: the rows of its zones, filled up to sixteen
/// rows; nothing for a program without zones.
pub open spec fn program_tones(snd: SndFile, i: int) -> Seq<u8> {
    let count = snd.programs@[i].num_zones as int;
    if count > 0 {
        zone_rows(snd.zones@, zones_before(snd.programs@, i), count) + zeros(32 * (16 - count))
    } else {
        Seq::empty()
    }
}

/// The tones of the first `count` programs.
pub open spec fn tone_table(snd: SndFile, count: int) -> Seq<u8>
    decreases count,
{
    if count <= 0 {
        Seq::empty()
    } else {
        tone_table(snd, count - 1) + program_tones(snd, count - 1)
    }
}

/// The size of a wave as the table of sample sizes holds it: in units of
/// eight bytes, in 16 bits.
pub open spec fn size_entry(wave: Span) -> Seq<u8> {
    le16_bytes((((wave.end - wave.start) / 8) % 0x1_0000) as u16)
}

/// The entries of the first `count` waves.
pub open spec fn size_entries(waves: Seq<Span>, count: int) -> Seq<u8>
    decreases count,
{
    if count <= 0 {
        Seq::empty()
    } else {
        size_entries(waves, count - 1) + size_entry(waves[count - 1])
    }
}

/// The VAB header of the bank: the head, the program table of 128 rows, the
/// tones of each program in use, and the table of sample sizes of 512
/// bytes, whose first entry is empty.
pub open spec fn vh_file_of(snd: SndFile, smp: SmpFile) -> Seq<u8> {
    vh_head(snd, smp) + program_rows(snd, snd.programs@.len() as int) + zeros(
        16 * (128 - snd.header.num_programs),
    ) + tone_table(snd, snd.programs@.len() as int) + zeros(2) + size_entries(
        smp.waves@,
        smp.waves@.len() as int,
    ) + zeros(512 - (1 + smp.waves@.len()) * 2)
}

fn count_in_use(snd: &SndFile) -> (count: u32)
    requires
        snd.programs@.len() <= 128,
    ensures
        count == programs_in_use(snd.programs@, snd.programs@.len() as int),
        count <= snd.programs@.len(),
{
    let mut count: u32 = 0;
    let mut i: usize = 0;
    while i < snd.programs.len()
        invariant
            i <= snd.programs@.len() <= 128,
            count == programs_in_use(snd.programs@, i as int),
            count <= i,
        decreases snd.programs@.len() - i,
    {
        if snd.programs[i].num_zones > 0 {
            count = count + 1;
        }
        i = i + 1;
    }
    count
}

fn total_waves(smp: &SmpFile) -> (total: u64)
    requires
        smp.waves@.len() <= 255,
        forall|k: int|
            0 <= k < smp.waves@.len() ==> (#[trigger] smp.waves@[k]).start <= smp.waves@[k].end,
    ensures
        total == waves_len(smp.waves@, smp.waves@.len() as int),
        total <= 255 * 0xffff_ffff,
{
    let mut total: u64 = 0;
    let mut k: usize = 0;
    while k < smp.waves.len()
        invariant
            k <= smp.waves@.len() <= 255,
            forall|j: int|
                0 <= j < smp.waves@.len() ==> (#[trigger] smp.waves@[j]).start <= smp.waves@[j].end,
            total == waves_len(smp.waves@, k as int),
            total <= k * 0xffff_ffff,
        decreases smp.waves@.len() - k,
    {
        let wave = smp.waves[k];
        total = total + (wave.end - wave.start) as u64;
        k = k + 1;
    }
    total
}

/// Tells whether the VAB header of the bank can be written.
pub fn can_write(snd: &SndFile, smp: &SmpFile) -> (ok: bool)
    ensures
        ok == writable(*snd, *smp),
{
    if snd.header.num_programs > 128 || snd.programs.len() > 128 || smp.waves.len() > 255 {
        return false;
    }
    let mut zones: usize = 0;
    let mut i: usize = 0;
    while i < snd.programs.len()
        invariant
            i <= snd.programs@.len() <= 128,
            zones == zones_before(snd.programs@, i as int),
            zones <= 16 * i,
            forall|j: int| 0 <= j < i ==> (#[trigger] snd.programs@[j]).num_zones <= 16,
        decreases snd.programs@.len() - i,
    {
        if snd.programs[i].num_zones > 16 {
            return false;
        }
        zones = zones + snd.programs[i].num_zones as usize;
        i = i + 1;
    }
    if zones > snd.zones.len() {
        return false;
    }
    let mut k: usize = 0;
    while k < smp.waves.len()
        invariant
            k <= smp.waves@.len(),
            forall|j: int| 0 <= j < k ==> (#[trigger] smp.waves@[j]).start <= smp.waves@[j].end,
        decreases smp.waves@.len() - k,
    {
        if smp.waves[k].start > smp.waves[k].end {
            return false;
        }
        k = k + 1;
    }
    let in_use = count_in_use(snd);
    let total = total_waves(smp);
    32 + 2048 + in_use as u64 * 512 + 512 + total <= 0xffff_ffff
}

fn push_program_rows(out: &mut Vec<u8>, snd: &SndFile)
    requires
        snd.programs@.len() <= 128,
        forall|i: int| 0 <= i < snd.programs@.len() ==> (#[trigger] snd.programs@[i]).num_zones <= 16,
    ensures
        final(out)@ == old(out)@ + program_rows(*snd, snd.programs@.len() as int),
{
    let mut bank: i16 = -1;
    let mut zone_index: usize = 0;
    let mut i: usize = 0;
    assert(out@ + program_rows(*snd, 0) =~= out@);
    while i < snd.programs.len()
        invariant
            i <= snd.programs@.len() <= 128,
            forall|j: int|
                0 <= j < snd.programs@.len() ==> (#[trigger] snd.programs@[j]).num_zones <= 16,
            bank == bank_of(*snd, i as int),
            -1 <= bank < i,
            zone_index == zones_before(snd.programs@, i as int),
            zone_index <= 16 * i,
            out@ == old(out)@ + program_rows(*snd, i as int),
        decreases snd.programs@.len() - i,
    {
        let ghost before = out@;
        let program = snd.programs[i];
        if zone_index < snd.zones.len() && snd.zones[zone_index].parent_program == 0 {
            bank = bank + 1;
        }
        zone_index = zone_index + program.num_zones as usize;
        out.push((program.num_zones % 256) as u8);
        out.push(program.volume);
        out.push(0);
        out.push(0);
        out.push(program.pan_pos);
        out.push(0);
        let stored: u16 = if bank < 0 {
            (bank as i32 + 0x1_0000) as u16
        } else {
            bank as u16
        };
        push_le16(out, stored);
        push_fill(out, 0, 8);
        i = i + 1;
        assert(out@ =~= before + program_row(*snd, i - 1));
        assert(out@ =~= old(out)@ + program_rows(*snd, i as int));
    }
}

fn push_zone_row(out: &mut Vec<u8>, zone: &SndZone)
    ensures
        final(out)@ == old(out)@ + zone_row(*zone),
{
    out.push(zone.priority);
    out.push(zone.mode);
    out.push(zone.volume);
    out.push(zone.pan_pos);
    out.push(zone.root_key);
    out.push(zone.pitch_fine_tuning);
    out.push(zone.note_low);
    out.push(zone.note_high);
    out.push(0);
    out.push(0);
    out.push(0);
    out.push(0);
    out.push(zone.max_pitch_range);
    out.push(zone.max_pitch_range);
    out.push(0);
    out.push(0);
    push_le16(out, zone.adsr1);
    push_le16(out, zone.adsr2);
    out.push(zone.parent_program);
    out.push(0);
    push_le16(out, zone.wave_index);
    push_fill(out, 0, 8);
    assert(out@ =~= old(out)@ + zone_row(*zone));
}

proof fn lemma_zones_before_grows(programs: Seq<SndProgram>, i: int, n: int)
    requires
        0 <= i <= n,
    ensures
        zones_before(programs, i) <= zones_before(programs, n),
    decreases n - i,
{
    if i < n {
        lemma_zones_before_grows(programs, i, n - 1);
    }
}

fn push_tone_table(out: &mut Vec<u8>, snd: &SndFile)
    requires
        snd.programs@.len() <= 128,
        forall|i: int| 0 <= i < snd.programs@.len() ==> (#[trigger] snd.programs@[i]).num_zones <= 16,
        zones_before(snd.programs@, snd.programs@.len() as int) <= snd.zones@.len(),
    ensures
        final(out)@ == old(out)@ + tone_table(*snd, snd.programs@.len() as int),
{
    let mut next: usize = 0;
    let mut i: usize = 0;
    assert(out@ + tone_table(*snd, 0) =~= out@);
    while i < snd.programs.len()
        invariant
            i <= snd.programs@.len() <= 128,
            forall|j: int|
                0 <= j < snd.programs@.len() ==> (#[trigger] snd.programs@[j]).num_zones <= 16,
            zones_before(snd.programs@, snd.programs@.len() as int) <= snd.zones@.len(),
            next == zones_before(snd.programs@, i as int),
            out@ == old(out)@ + tone_table(*snd, i as int),
        decreases snd.programs@.len() - i,
    {
        let ghost before = out@;
        let count = snd.programs[i].num_zones as usize;
        proof {
            lemma_zones_before_grows(snd.programs@, i + 1, snd.programs@.len() as int);
            assert(zones_before(snd.programs@, i + 1) == next + count);
        }
        let zones = snd.zones.len();
        let mut k: usize = 0;
        assert(out@ + zone_rows(snd.zones@, next as int, 0) =~= out@);
        while k < count
            invariant
                k <= count <= 16,
                zones == snd.zones@.len(),
                next + count <= snd.zones@.len(),
                out@ == before + zone_rows(snd.zones@, next as int, k as int),
            decreases count - k,
        {
            push_zone_row(out, &snd.zones[next + k]);
            k = k + 1;
            assert(out@ =~= before + zone_rows(snd.zones@, next as int, k as int));
        }
        if count > 0 {
            push_fill(out, 0, 32 * (16 - count));
        }
        next = next + count;
        i = i + 1;
        assert(out@ =~= before + program_tones(*snd, i - 1));
        assert(out@ =~= old(out)@ + tone_table(*snd, i as int));
    }
}

fn push_size_entries(out: &mut Vec<u8>, smp: &SmpFile)
    requires
        forall|k: int|
            0 <= k < smp.waves@.len() ==> (#[trigger] smp.waves@[k]).start <= smp.waves@[k].end,
    ensures
        final(out)@ == old(out)@ + size_entries(smp.waves@, smp.waves@.len() as int),
{
    let mut k: usize = 0;
    assert(out@ + size_entries(smp.waves@, 0) =~= out@);
    while k < smp.waves.len()
        invariant
            k <= smp.waves@.len(),
            forall|j: int|
                0 <= j < smp.waves@.len() ==> (#[trigger] smp.waves@[j]).start <= smp.waves@[j].end,
            out@ == old(out)@ + size_entries(smp.waves@, k as int),
        decreases smp.waves@.len() - k,
    {
        let ghost before = out@;
        let wave = smp.waves[k];
        let size = (wave.end - wave.start) / 8;
        push_le16(out, (size % 0x1_0000) as u16);
        k = k + 1;
        assert(out@ =~= before + size_entry(smp.waves@[k - 1]));
        assert(out@ =~= old(out)@ + size_entries(smp.waves@, k as int));
    }
}

/// Writes the VAB header of the bank.
pub fn vh_file(snd: &SndFile, smp: &SmpFile) -> (out: Vec<u8>)
    requires
        writable(*snd, *smp),
    ensures
        out@ == vh_file_of(*snd, *smp),
{
    let in_use = count_in_use(snd);
    let total = total_waves(smp);
    assert(32 + 2048 + in_use * 512 + 512 + total == vab_size(*snd, *smp));
    let size = (32 + 2048 + in_use as u64 * 512 + 512 + total) as u32;
    let mut out: Vec<u8> = Vec::new();
    out.push(0x70);
    out.push(0x42);
    out.push(0x41);
    out.push(0x56);
    out.push(7);
    push_fill(&mut out, 0, 7);
    push_le32(&mut out, size);
    out.push(0);
    out.push(0);
    push_le16(&mut out, in_use as u16);
    push_le16(&mut out, (snd.header.num_zones % 0x1_0000) as u16);
    push_le16(&mut out, (snd.header.num_waves % 0x1_0000) as u16);
    out.push(0x7f);
    out.push(0x40);
    push_fill(&mut out, 0, 6);
    assert(out@ =~= vh_head(*snd, *smp));
    push_program_rows(&mut out, snd);
    push_fill(&mut out, 0, 16 * (128 - snd.header.num_programs as usize));
    push_tone_table(&mut out, snd);
    push_fill(&mut out, 0, 2);
    push_size_entries(&mut out, smp);
    push_fill(&mut out, 0, 512 - (1 + smp.waves.len()) * 2);
    out
}

/// The samples of the bank, one after the other.
pub open spec fn vb_file_of(smp_bytes: Seq<u8>, waves: Seq<Span>, count: int) -> Seq<u8>
    decreases count,
{
    if count <= 0 {
        Seq::empty()
    } else {
        vb_file_of(smp_bytes, waves, count - 1) + smp_bytes.subrange(
            waves[count - 1].start as int,
            waves[count - 1].end as int,
        )
    }
}

/// Whether every wave lies inside a sample file of `len` bytes.
pub open spec fn waves_inside(waves: Seq<Span>, len: int) -> bool {
    forall|k: int| 0 <= k < waves.len() ==> inside(#[trigger] waves[k], len)
}

/// Tells whether every wave lies inside a sample file of `len` bytes.
pub fn are_waves_inside(waves: &Vec<Span>, len: usize) -> (ok: bool)
    ensures
        ok == waves_inside(waves@, len as int),
{
    let mut k: usize = 0;
    while k < waves.len()
        invariant
            k <= waves@.len(),
            forall|j: int| 0 <= j < k ==> inside(#[trigger] waves@[j], len as int),
        decreases waves@.len() - k,
    {
        if !is_inside(&waves[k], len) {
            return false;
        }
        k = k + 1;
    }
    true
}

/// Writes the samples of the bank one after the other.
pub fn vb_file(smp_bytes: &[u8], waves: &Vec<Span>) -> (out: Vec<u8>)
    requires
        waves_inside(waves@, smp_bytes@.len() as int),
    ensures
        out@ == vb_file_of(smp_bytes@, waves@, waves@.len() as int),
{
    let mut out: Vec<u8> = Vec::new();
    let mut k: usize = 0;
    while k < waves.len()
        invariant
            k <= waves@.len(),
            waves_inside(waves@, smp_bytes@.len() as int),
            out@ == vb_file_of(smp_bytes@, waves@, k as int),
        decreases waves@.len() - k,
    {
        let wave = waves[k];
        assert(inside(waves@[k as int], smp_bytes@.len() as int));
        push_range(&mut out, smp_bytes, wave.start as usize, wave.end as usize);
        k = k + 1;
    }
    out
}

/// The labels as 32-bit numbers, low byte first.
pub open spec fn label_bytes(labels: Seq<u32>, count: int) -> Seq<u8>
    decreases count,
{
    if count <= 0 {
        Seq::empty()
    } else {
        label_bytes(labels, count - 1) + le32_bytes(labels[count - 1])
    }
}

/// The label file of the bank: the tag `LBLa`, the number of labels, and
/// the labels.
pub open spec fn label_file_of(snd: SndFile) -> Seq<u8> {
    seq![0x4cu8, 0x42u8, 0x4cu8, 0x61u8] + le32_bytes(snd.header.num_labels) + label_bytes(
        snd.labels@,
        snd.labels@.len() as int,
    )
}

/// Writes the label file of the bank; a bank without labels has none.
pub fn label_file(snd: &SndFile) -> (out: Option<Vec<u8>>)
    ensures
        match out {
            Some(file) => snd.header.num_labels != 0 && file@ == label_file_of(*snd),
            None => snd.header.num_labels == 0,
        },
{
    if snd.header.num_labels == 0 {
        return None;
    }
    let mut file: Vec<u8> = Vec::new();
    file.push(0x4c);
    file.push(0x42);
    file.push(0x4c);
    file.push(0x61);
    push_le32(&mut file, snd.header.num_labels);
    let ghost head = file@;
    assert(head =~= seq![0x4cu8, 0x42u8, 0x4cu8, 0x61u8] + le32_bytes(snd.header.num_labels));
    let mut k: usize = 0;
    assert(file@ + label_bytes(snd.labels@, 0) =~= file@);
    while k < snd.labels.len()
        invariant
            k <= snd.labels@.len(),
            file@ == head + label_bytes(snd.labels@, k as int),
        decreases snd.labels@.len() - k,
    {
        push_le32(&mut file, snd.labels[k]);
        k = k + 1;
        assert(file@ =~= head + label_bytes(snd.labels@, k as int));
    }
    Some(file)
}

} // verus!
