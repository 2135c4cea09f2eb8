//! Cuts the sequences and the samples out of a MUS sound bank.

use vstd::prelude::*;
use vstd::string::StringExecFns;
use crate::adsheader::{ads_header, Args};
use crate::bytes::push_range;
use crate::demus::{name_text, name_to_str, Platform, WaveEntry};
use crate::demus_tables::MusFile;
use crate::text::{decimal, push_decimal};

verus! {

/// A range of file offsets, from `start` up to but without `end`.
#[derive(Clone, Copy, Debug, PartialEq, Eq)]
pub struct Span {
    pub start: usize,
    pub end: usize,
}

/// Where sequence `i` ends: where the next one starts, and for the last one
/// where the table of label offsets starts.
pub open spec fn sequence_end(file: MusFile, i: int) -> int {
    if i + 1 < file.msq_tables@.len() {
        file.msq_tables@[i + 1].offset as int
    } else {
        file.header.offset_to_labels_offsets_table as int
    }
}

/// Whether every sequence lies inside a file of `len` bytes and does not
/// end before it starts.
pub open spec fn sequences_inside(file: MusFile, len: int) -> bool {
    forall|i: int|
        0 <= i < file.msq_tables@.len() ==> 0 <= (#[trigger] file.msq_tables@[i]).offset
            <= sequence_end(file, i) <= len
}

/// Where the sequences of the bank lie in a MUS file of `len` bytes, or
/// nothing when one of them does not lie inside the file.
pub fn sequence_spans(file: &MusFile, len: usize) -> (res: Option<Vec<Span>>)
    ensures
        match res {
            Some(spans) => {
                &&& sequences_inside(*file, len as int)
                &&& spans@.len() == file.msq_tables@.len()
                &&& forall|i: int|
                    0 <= i < spans@.len() ==> (#[trigger] spans@[i]).start
                        == file.msq_tables@[i].offset && spans@[i].end == sequence_end(*file, i)
            },
            None => !sequences_inside(*file, len as int),
        },
{
    let count = file.msq_tables.len();
    let mut spans: Vec<Span> = Vec::new();
    let mut i: usize = 0;
    while i < count
        invariant
            i <= count,
            count == file.msq_tables@.len(),
            spans@.len() == i,
            forall|j: int|
                0 <= j < i ==> 0 <= (#[trigger] file.msq_tables@[j]).offset <= sequence_end(*file, j)
                    <= len,
            forall|j: int|
                0 <= j < i ==> (#[trigger] spans@[j]).start == file.msq_tables@[j].offset
                    && spans@[j].end == sequence_end(*file, j),
        decreases count - i,
    {
        let start = file.msq_tables[i].offset;
        let end = if i + 1 < count {
            file.msq_tables[i + 1].offset
        } else {
            file.header.offset_to_labels_offsets_table
        };
        if start < 0 || end < start || end as u64 > len as u64 {
            assert(!(0 <= file.msq_tables@[i as int].offset <= sequence_end(*file, i as int) <= len));
            return None;
        }
        spans.push(Span { start: start as usize, end: end as usize });
        i = i + 1;
    }
    Some(spans)
}

/// Whether a wave lies inside a sample file of `len` bytes.
pub open spec fn wave_inside(wave: WaveEntry, len: int) -> bool {
    0 <= wave.offset && 0 <= wave.size && wave.offset + wave.size <= len
}

/// Where a wave lies in a sample file of `len` bytes, or nothing when it
/// does not lie inside the file.
pub fn wave_span(wave: &WaveEntry, len: usize) -> (res: Option<Span>)
    ensures
        match res {
            Some(span) => {
                &&& wave_inside(*wave, len as int)
                &&& span.start == wave.offset
                &&& span.end == wave.offset + wave.size
            },
            None => !wave_inside(*wave, len as int),
        },
{
    if wave.offset < 0 || wave.size < 0 {
        return None;
    }
    let end = wave.offset as u64 + wave.size as u64;
    if end > len as u64 {
        return None;
    }
    Some(Span { start: wave.offset as usize, end: end as usize })
}

/// Whether the sixteen bytes before `end` are the end marker of a console
/// sample with its flag byte cleared: `07 00`, then fourteen times `77`.
pub open spec fn cleared_end_marker(s: Seq<u8>, end: int) -> bool {
    &&& s[end - 16] == 0x07
    &&& s[end - 15] == 0x00
    &&& forall|k: int| end - 14 <= k < end ==> #[trigger] s[k] == 0x77
}

/// Sets the flag byte of the end marker before `end` again, if it was
/// cleared, and tells whether it did.
pub fn fix_end_marker(sam_file: &mut [u8], end: usize) -> (fixed: bool)
    requires
        16 <= end <= old(sam_file)@.len(),
    ensures
        fixed == cleared_end_marker(old(sam_file)@, end as int),
        final(sam_file)@ == if fixed {
            old(sam_file)@.update(end - 15, 0x07u8)
        } else {
            old(sam_file)@
        },
{
    let check = end - 16;
    if sam_file[check] != 0x07 || sam_file[check + 1] != 0x00 {
        return false;
    }
    let mut k: usize = check + 2;
    while k < end
        invariant
            check + 2 <= k <= end <= sam_file@.len(),
            check == end - 16,
            sam_file@ == old(sam_file)@,
            forall|j: int| end - 14 <= j < k ==> #[trigger] sam_file@[j] == 0x77,
        decreases end - k,
    {
        if sam_file[k] != 0x77 {
            return false;
        }
        k = k + 1;
    }
    sam_file[check + 1] = 0x07;
    true
}

/// A signed 32-bit number as the pattern of its bits.
pub open spec fn bits_of(v: i32) -> u32 {
    if v < 0 {
        (v + 0x1_0000_0000) as u32
    } else {
        v as u32
    }
}

fn to_bits(v: i32) -> (bits: u32)
    ensures
        bits == bits_of(v),
{
    if v < 0 {
        (v as i64 + 0x1_0000_0000) as u32
    } else {
        v as u32
    }
}

/// The fields of the ADS header of a sample: one channel, not interleaved,
/// 16-bit PCM for the PC and ADPCM for the console.
pub open spec fn sample_args(wave: WaveEntry, platform: Platform) -> Args {
    Args {
        channels: 1,
        sample_rate: bits_of(wave.sample_rate),
        interleave: 0,
        format: match platform {
            Platform::PC => 0x01,
            Platform::Console => 0x10,
        },
    }
}

/// The ADS file of a sample: the header, then the sample.
pub fn sample_file(wave: &WaveEntry, platform: Platform, sam_file: &[u8], span: &Span) -> (out: Vec<
    u8,
>)
    requires
        span.start <= span.end <= sam_file@.len(),
    ensures
        out@ == ads_header(sample_args(*wave, platform), (span.end - span.start) as nat)
            + sam_file@.subrange(span.start as int, span.end as int),
{
    let mut out: Vec<u8> = Vec::new();
    push_range(&mut out, sam_file, span.start, span.end);
    assert(out@ =~= sam_file@.subrange(span.start as int, span.end as int));
    let args = Args {
        channels: 1,
        sample_rate: to_bits(wave.sample_rate),
        interleave: 0,
        format: match platform {
            Platform::PC => 0x01,
            Platform::Console => 0x10,
        },
    };
    crate::adsheader::add_header(&args, &mut out);
    out
}

/// The line that tells the loop of a sample: where it begins, where it
/// ends, and the name of the sample's WAV file.
pub open spec fn loop_line_of(wave: WaveEntry) -> Seq<char> {
    decimal(wave.loop_begin as int) + " "@ + decimal(wave.loop_end - 1) + " "@ + name_text(
        wave.name@,
    ) + ".wav\r\n"@
}

/// Writes the line that tells the loop of a sample; a sample without loop
/// has none.
pub fn loop_line(wave: &WaveEntry) -> (res: Option<String>)
    ensures
        match res {
            Some(line) => wave.loop_info != 0 && line@ == loop_line_of(*wave),
            None => wave.loop_info == 0,
        },
{
    if wave.loop_info == 0 {
        return None;
    }
    let mut line = String::new();
    push_decimal(&mut line, wave.loop_begin as i64);
    assert(line@ =~= decimal(wave.loop_begin as int));
    line.append(" ");
    push_decimal(&mut line, wave.loop_end as i64 - 1);
    line.append(" ");
    let name = name_to_str(&wave.name);
    line.append(name.as_str());
    line.append(".wav\r\n");
    Some(line)
}

} // verus!
