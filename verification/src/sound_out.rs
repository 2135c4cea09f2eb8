//! Writes what an SND sound bank holds as VAB header, for banks read whole.

use vstd::prelude::*;
use crate::bytes::{le32_bytes, push_fill, push_le32};
use crate::desnd::Span;
use crate::desnd_out::{le16_bytes, size_entries, waves_len, zeros};
use crate::sound::{SmpFile, SndFile, SndZone};

verus! {

fn push_le16(out: &mut Vec<u8>, v: u16)
    ensures
        final(out)@ == old(out)@ + le16_bytes(v),
{
    out.push((v % 256) as u8);
    out.push((v / 256) as u8);
    assert(out@ =~= old(out)@ + le16_bytes(v));
}

/// The size that the VAB header states: the header, the program table, 512
/// bytes of tones for each program, the table of sample sizes, and the
/// samples.
pub open spec fn vab_size(snd: SndFile, smp: SmpFile) -> int {
    32 + 2048 + snd.header.num_programs * 512 + 512 + waves_len(
        smp.waves@,
        smp.waves@.len() as int,
    )
}

/// The program of the zone before zone `count`; program zero before the
/// first zone.
pub open spec fn current_program(zones: Seq<SndZone>, count: int) -> u8 {
    if count <= 0 {
        0
    } else {
        zones[count - 1].parent_program
    }
}

/// Number of zones at the end of the first `count` zones that belong to one
/// program.
pub open spec fn streak(zones: Seq<SndZone>, count: int) -> int
    decreases count,
{
    if count <= 0 {
        0
    } else if zones[count - 1].parent_program != current_program(zones, count - 1) {
        1
    } else {
        streak(zones, count - 1) + 1
    }
}

/// Whether zone `i` begins the zones of another program than the zone
/// before it.
pub open spec fn begins_program(zones: Seq<SndZone>, i: int) -> bool {
    zones[i].parent_program != current_program(zones, i)
}

/// Whether the VAB header of the bank can be written: the bank has at most
/// 128 programs, no program has more than sixteen zones in a row, there
/// are at most 255 waves, none ends before it starts, and the whole fits
/// in 32 bits.
pub open spec fn writable(snd: SndFile, smp: SmpFile) -> bool {
    &&& snd.header.num_programs <= 128
    &&& forall|i: int| 0 <= i <= snd.zones@.len() ==> #[trigger] streak(snd.zones@, i) <= 16
    &&& smp.waves@.len() <= 255
    &&& forall|k: int|
        0 <= k < smp.waves@.len() ==> (#[trigger] smp.waves@[k]).start <= smp.waves@[k].end
    &&& vab_size(snd, smp) <= u32::MAX
}

/// The thirty-two bytes that open the VAB header.
pub open spec fn vh_head(snd: SndFile, smp: SmpFile) -> Seq<u8> {
    seq![0x70u8, 0x42u8, 0x41u8, 0x56u8, 7u8, 0u8, 0u8, 0u8, 0u8, 0u8, 0u8, 0u8] + le32_bytes(
        vab_size(snd, smp) as u32,
    ) + seq![0u8, 0u8] + le16_bytes((snd.header.num_programs as int % 0x1_0000) as u16)
        + le16_bytes((snd.header.num_zones as int % 0x1_0000) as u16) + le16_bytes(
        (snd.header.num_waves as int % 0x1_0000) as u16,
    ) + seq![0x7fu8, 0x40u8, 0u8, 0u8, 0u8, 0u8, 0u8, 0u8]
}

/// The sixteen bytes of program `i` in the program table.
pub open spec fn program_row(snd: SndFile, i: int) -> Seq<u8> {
    let program = snd.programs@[i];
    seq![(program.num_zones as int / 256) as u8, program.volume, 0u8, 0u8, program.pan_pos, 0u8]
        + zeros(10)
}

/// The rows of the first `count` programs.
pub open spec fn program_rows(snd: SndFile, count: int) -> Seq<u8>
    decreases count,
{
    if count <= 0 {
        Seq::empty()
    } else {
        program_rows(snd, count - 1) + program_row(snd, count - 1)
    }
}

/// The thirty-two bytes of a zone in the tone table.
pub open spec fn zone_row(zone: SndZone) -> Seq<u8> {
    seq![
        zone.priority,
        zone.mode,
        zone.volume,
        zone.pan_pos,
        zone.root_key,
        zone.pitch_fine_tuning,
        zone.note_low,
        zone.note_high,
        0u8,
        0u8,
        0u8,
        0u8,
        zone.max_pitch_range,
        zone.max_pitch_range,
        0u8,
        0u8,
    ] + le16_bytes(zone.adsr1) + le16_bytes(zone.adsr2) + seq![zone.parent_program, 0u8]
        + le16_bytes(zone.wave_index) + zeros(8)
}

/// The tone table up to zone `count`: the rows of the zones, and before
/// each zone that begins another program, what fills the rows of the
/// program before it up to sixteen.
pub open spec fn tone_rows(zones: Seq<SndZone>, count: int) -> Seq<u8>
    decreases count,
{
    if count <= 0 {
        Seq::empty()
    } else {
        tone_rows(zones, count - 1) + (if begins_program(zones, count - 1) {
            zeros(32 * (16 - streak(zones, count - 1)))
        } else {
            Seq::empty()
        }) + zone_row(zones[count - 1])
    }
}

/// The VAB header of the bank: the head, the program table of 128 rows, the
/// tone table with the rows of the last program filled up, and the table
/// of sample sizes of 512 bytes, whose first entry is empty.
pub open spec fn vh_file_of(snd: SndFile, smp: SmpFile) -> Seq<u8> {
    vh_head(snd, smp) + program_rows(snd, snd.programs@.len() as int) + zeros(
        16 * (128 - snd.header.num_programs),
    ) + tone_rows(snd.zones@, snd.zones@.len() as int) + zeros(
        32 * (16 - streak(snd.zones@, snd.zones@.len() as int)),
    ) + zeros(2) + size_entries(smp.waves@, smp.waves@.len() as int) + zeros(
        512 - (1 + smp.waves@.len()) * 2,
    )
}

fn total_waves(smp: &SmpFile) -> (total: u64)
    requires
        smp.waves@.len() <= 255,
        forall|k: int|
            0 <= k < smp.waves@.len() ==> (#[trigger] smp.waves@[k]).start <= smp.waves@[k].end,
    ensures
        total == waves_len(smp.waves@, smp.waves@.len() as int),
        total <= 255 * 0xffff_ffff,
{
    let mut total: u64 = 0;
    let mut k: usize = 0;
    while k < smp.waves.len()
        invariant
            k <= smp.waves@.len() <= 255,
            forall|j: int|
                0 <= j < smp.waves@.len() ==> (#[trigger] smp.waves@[j]).start <= smp.waves@[j].end,
            total == waves_len(smp.waves@, k as int),
            total <= k * 0xffff_ffff,
        decreases smp.waves@.len() - k,
    {
        let wave = smp.waves[k];
        total = total + (wave.end - wave.start) as u64;
        k = k + 1;
    }
    total
}

/// Tells whether the VAB header of the bank can be written.
pub fn can_write(snd: &SndFile, smp: &SmpFile) -> (ok: bool)
    ensures
        ok == writable(*snd, *smp),
{
    if snd.header.num_programs > 128 || smp.waves.len() > 255 {
        return false;
    }
    let mut run: usize = 0;
    let mut i: usize = 0;
    while i < snd.zones.len()
        invariant
            i <= snd.zones@.len(),
            run == streak(snd.zones@, i as int),
            forall|j: int| 0 <= j <= i ==> #[trigger] streak(snd.zones@, j) <= 16,
        decreases snd.zones@.len() - i,
    {
        let current: u8 = if i == 0 {
            0
        } else {
            snd.zones[i - 1].parent_program
        };
        if snd.zones[i].parent_program != current {
            run = 1;
        } else {
            run = run + 1;
        }
        i = i + 1;
        if run > 16 {
            assert(!(streak(snd.zones@, i as int) <= 16));
            return false;
        }
    }
    let mut k: usize = 0;
    while k < smp.waves.len()
        invariant
            k <= smp.waves@.len(),
            forall|j: int| 0 <= j < k ==> (#[trigger] smp.waves@[j]).start <= smp.waves@[j].end,
        decreases smp.waves@.len() - k,
    {
        if smp.waves[k].start > smp.waves[k].end {
            return false;
        }
        k = k + 1;
    }
    let total = total_waves(smp);
    32 + 2048 + snd.header.num_programs as u64 * 512 + 512 + total <= 0xffff_ffff
}

fn push_zone_row(out: &mut Vec<u8>, zone: &SndZone)
    ensures
        final(out)@ == old(out)@ + zone_row(*zone),
{
    out.push(zone.priority);
    out.push(zone.mode);
    out.push(zone.volume);
    out.push(zone.pan_pos);
    out.push(zone.root_key);
    out.push(zone.pitch_fine_tuning);
    out.push(zone.note_low);
    out.push(zone.note_high);
    out.push(0);
    out.push(0);
    out.push(0);
    out.push(0);
    out.push(zone.max_pitch_range);
    out.push(zone.max_pitch_range);
    out.push(0);
    out.push(0);
    push_le16(out, zone.adsr1);
    push_le16(out, zone.adsr2);
    out.push(zone.parent_program);
    out.push(0);
    push_le16(out, zone.wave_index);
    push_fill(out, 0, 8);
    assert(out@ =~= old(out)@ + zone_row(*zone));
}

fn push_sizes(out: &mut Vec<u8>, waves: &Vec<Span>)
    requires
        forall|k: int| 0 <= k < waves@.len() ==> (#[trigger] waves@[k]).start <= waves@[k].end,
    ensures
        final(out)@ == old(out)@ + size_entries(waves@, waves@.len() as int),
{
    let mut k: usize = 0;
    assert(out@ + size_entries(waves@, 0) =~= out@);
    while k < waves.len()
        invariant
            k <= waves@.len(),
            forall|j: int| 0 <= j < waves@.len() ==> (#[trigger] waves@[j]).start <= waves@[j].end,
            out@ == old(out)@ + size_entries(waves@, k as int),
        decreases waves@.len() - k,
    {
        let ghost before = out@;
        let wave = waves[k];
        let size = (wave.end - wave.start) / 8;
        push_le16(out, (size % 0x1_0000) as u16);
        k = k + 1;
        assert(out@ =~= before + crate::desnd_out::size_entry(waves@[k - 1]));
        assert(out@ =~= old(out)@ + size_entries(waves@, k as int));
    }
}

/// Writes the VAB header of the bank.
pub fn vh_file(snd: &SndFile, smp: &SmpFile) -> (out: Vec<u8>)
    requires
        writable(*snd, *smp),
    ensures
        out@ == vh_file_of(*snd, *smp),
{
    let total = total_waves(smp);
    let size = (32 + 2048 + snd.header.num_programs as u64 * 512 + 512 + total) as u32;
    let mut out: Vec<u8> = Vec::new();
    out.push(0x70);
    out.push(0x42);
    out.push(0x41);
    out.push(0x56);
    out.push(7);
    push_fill(&mut out, 0, 7);
    push_le32(&mut out, size);
    out.push(0);
    out.push(0);
    push_le16(&mut out, (snd.header.num_programs % 0x1_0000) as u16);
    push_le16(&mut out, (snd.header.num_zones % 0x1_0000) as u16);
    push_le16(&mut out, (snd.header.num_waves % 0x1_0000) as u16);
    out.push(0x7f);
    out.push(0x40);
    push_fill(&mut out, 0, 6);
    assert(out@ =~= vh_head(*snd, *smp));
    let ghost head = out@;
    let mut i: usize = 0;
    assert(out@ + program_rows(*snd, 0) =~= out@);
    while i < snd.programs.len()
        invariant
            i <= snd.programs@.len(),
            out@ == head + program_rows(*snd, i as int),
        decreases snd.programs@.len() - i,
    {
        let ghost before = out@;
        let program = snd.programs[i];
        out.push((program.num_zones / 256) as u8);
        out.push(program.volume);
        out.push(0);
        out.push(0);
        out.push(program.pan_pos);
        out.push(0);
        push_fill(&mut out, 0, 10);
        i = i + 1;
        assert(out@ =~= before + program_row(*snd, i - 1));
        assert(out@ =~= head + program_rows(*snd, i as int));
    }
    push_fill(&mut out, 0, 16 * (128 - snd.header.num_programs as usize));
    let ghost tables = out@;
    let mut run: usize = 0;
    let mut i: usize = 0;
    assert(out@ + tone_rows(snd.zones@, 0) =~= out@);
    while i < snd.zones.len()
        invariant
            i <= snd.zones@.len(),
            writable(*snd, *smp),
            run == streak(snd.zones@, i as int),
            out@ == tables + tone_rows(snd.zones@, i as int),
        decreases snd.zones@.len() - i,
    {
        let current: u8 = if i == 0 {
            0
        } else {
            snd.zones[i - 1].parent_program
        };
        assert(streak(snd.zones@, i as int) <= 16);
        assert(streak(snd.zones@, i + 1) <= 16);
        if snd.zones[i].parent_program != current {
            push_fill(&mut out, 0, 32 * (16 - run));
            run = 0;
        } else {
            assert(out@ + Seq::<u8>::empty() =~= out@);
        }
        push_zone_row(&mut out, &snd.zones[i]);
        run = run + 1;
        i = i + 1;
        assert(out@ =~= tables + tone_rows(snd.zones@, i as int));
    }
    assert(streak(snd.zones@, snd.zones@.len() as int) <= 16);
    push_fill(&mut out, 0, 32 * (16 - run));
    push_fill(&mut out, 0, 2);
    push_sizes(&mut out, &smp.waves);
    push_fill(&mut out, 0, 512 - (1 + smp.waves.len()) * 2);
    out
}

} // verus!
