//! Converts the fine tuning of every tone of a VAB sound bank between the
//! console's scale of 128 steps to the semitone and cents.

use vstd::prelude::*;
use crate::vabsmp::{
    header_at, program_of, readable, sample_size, sample_start, tone_at, tones_at, whole, Program,
    Span, VabHeader,
};

verus! {

/// One tone of a program, with its fine tuning converted.
#[derive(Clone, Copy, Debug, PartialEq, Eq)]
pub struct Tone {
    pub priority: u8,
    pub reverb_mode: u8,
    pub volume: u8,
    pub pan: u8,
    pub unity_key: u8,
    pub pitch_tune: u8,
    pub key_low: u8,
    pub key_high: u8,
    pub vibrato_width: u8,
    pub vibrato_time: u8,
    pub port_width: u8,
    pub port_hold: u8,
    pub pitch_bend_minimum: u8,
    pub pitch_bend_maximum: u8,
    pub _pad0: u8,
    pub _pad1: u8,
    pub adsr1: u16,
    pub adsr2: u16,
    pub parent_program: u16,
    pub sample_number: u16,
    pub _pad2: u16,
    pub _pad3: u16,
    pub _pad4: u16,
    pub _pad5: u16,
}

/// A VAB file whose tones have their fine tuning converted.
#[derive(Debug, PartialEq, Eq)]
pub struct VabFile {
    pub header: VabHeader,
    pub programs: Vec<Program>,
    pub tones: Vec<Vec<Tone>>,
    pub vag_sizes: Vec<usize>,
    pub vag_ranges: Vec<Span>,
}

/// A fine tuning on the other scale, rounded to the nearest step, a half
/// step upwards: from cents to the console's steps when `psx` is set, and
/// the other way otherwise.  What exceeds a byte becomes 255.
pub open spec fn retuned(byte: u8, psx: bool) -> u8 {
    if psx {
        if (byte as int * 128 + 50) / 100 > 255 {
            255
        } else {
            ((byte as int * 128 + 50) / 100) as u8
        }
    } else {
        ((byte as int * 100 + 64) / 128) as u8
    }
}

/// The tone that a stored tone becomes when its fine tuning is converted.
pub open spec fn fine_tone(stored: crate::vabsmp::Tone, psx: bool) -> Tone {
    Tone {
        priority: stored.priority,
        reverb_mode: stored.reverb_mode,
        volume: stored.volume,
        pan: stored.pan,
        unity_key: stored.unity_key,
        pitch_tune: retuned(stored.pitch_tune, psx),
        key_low: stored.key_low,
        key_high: stored.key_high,
        vibrato_width: stored.vibrato_width,
        vibrato_time: stored.vibrato_time,
        port_width: stored.port_width,
        port_hold: stored.port_hold,
        pitch_bend_minimum: stored.pitch_bend_minimum,
        pitch_bend_maximum: stored.pitch_bend_maximum,
        _pad0: stored._pad0,
        _pad1: stored._pad1,
        adsr1: stored.adsr1,
        adsr2: stored.adsr2,
        parent_program: stored.parent_program,
        sample_number: stored.sample_number,
        _pad2: stored._pad2,
        _pad3: stored._pad3,
        _pad4: stored._pad4,
        _pad5: stored._pad5,
    }
}

/// Whether `j` is the fine-tuning byte of a tone of the bank: byte 5 of a
/// tone that its program counts.
pub open spec fn pitch_byte(s: Seq<u8>, j: int) -> bool {
    &&& j >= 2080
    &&& (j - 2080) / 512 < header_at(s, 0).programs_number
    &&& (j - 2080) % 32 == 5
    &&& ((j - 2080) % 512) / 32 < program_of(s, (j - 2080) / 512).tones_number
}

/// The file with the fine tuning converted in every tone that starts
/// before `end`.
pub open spec fn tuned_before(s: Seq<u8>, psx: bool, end: int) -> Seq<u8> {
    Seq::new(
        s.len(),
        |j: int|
            if pitch_byte(s, j) && j < end {
                retuned(s[j], psx)
            } else {
                s[j]
            },
    )
}

/// The file with the fine tuning of every tone converted.
pub open spec fn fine_tuned(s: Seq<u8>, psx: bool) -> Seq<u8> {
    tuned_before(s, psx, s.len() as int)
}

/// Whether `file` is what the bytes `s` spell, with the fine tuning of
/// every tone converted.
pub open spec fn is_fine_file(file: VabFile, s: Seq<u8>, psx: bool) -> bool {
    let header = header_at(s, 0);
    &&& file.header == header
    &&& file.programs@.len() == header.programs_number
    &&& forall|i: int|
        0 <= i < header.programs_number ==> #[trigger] file.programs@[i] == program_of(s, i)
    &&& file.tones@.len() == header.programs_number
    &&& forall|i: int|
        0 <= i < header.programs_number ==> (#[trigger] file.tones@[i])@.len() == program_of(
            s,
            i,
        ).tones_number
    &&& forall|i: int, j: int|
        0 <= i < header.programs_number && 0 <= j < program_of(s, i).tones_number ==> #[trigger] file.tones@[i]@[j]
            == fine_tone(tone_at(s, tones_at(i) + 32 * j), psx)
    &&& file.vag_sizes@.len() == header.vags_number
    &&& forall|k: int|
        0 <= k < header.vags_number ==> #[trigger] file.vag_sizes@[k] == sample_size(s, k)
    &&& file.vag_ranges@.len() == header.vags_number
    &&& forall|k: int|
        0 <= k < header.vags_number ==> (#[trigger] file.vag_ranges@[k]).start == sample_start(s, k)
            && file.vag_ranges@[k].end == sample_start(s, k + 1)
}

fn with_pitch(stored: &crate::vabsmp::Tone, pitch_tune: u8) -> (tone: Tone)
    ensures
        tone == (Tone { pitch_tune: pitch_tune, ..fine_tone(*stored, false) }),
{
    Tone {
        priority: stored.priority,
        reverb_mode: stored.reverb_mode,
        volume: stored.volume,
        pan: stored.pan,
        unity_key: stored.unity_key,
        pitch_tune,
        key_low: stored.key_low,
        key_high: stored.key_high,
        vibrato_width: stored.vibrato_width,
        vibrato_time: stored.vibrato_time,
        port_width: stored.port_width,
        port_hold: stored.port_hold,
        pitch_bend_minimum: stored.pitch_bend_minimum,
        pitch_bend_maximum: stored.pitch_bend_maximum,
        _pad0: stored._pad0,
        _pad1: stored._pad1,
        adsr1: stored.adsr1,
        adsr2: stored.adsr2,
        parent_program: stored.parent_program,
        sample_number: stored.sample_number,
        _pad2: stored._pad2,
        _pad3: stored._pad3,
        _pad4: stored._pad4,
        _pad5: stored._pad5,
    }
}

impl Tone {
    /// Converts a fine tuning in place and returns the new value.
    pub fn convert(byte: &mut u8, psx: bool) -> (out: u8)
        ensures
            out == retuned(*old(byte), psx),
            *final(byte) == out,
    {
        let value = *byte as u32;
        let scaled: u32 = if psx {
            (value * 128 + 50) / 100
        } else {
            (value * 100 + 64) / 128
        };
        *byte = if scaled > 255 {
            255
        } else {
            scaled as u8
        };
        *byte
    }

    /// Reads the tone at `file[at..]` and converts its fine tuning in the
    /// file.  Nothing is read or changed when the tone runs past the end.
    pub fn parse(file: &mut [u8], at: usize, psx: bool) -> (res: Option<Self>)
        ensures
            match res {
                Some(tone) => {
                    &&& at + 32 <= old(file)@.len()
                    &&& tone == fine_tone(tone_at(old(file)@, at as int), psx)
                    &&& final(file)@ == old(file)@.update(at + 5, retuned(old(file)@[at + 5], psx))
                },
                None => at + 32 > old(file)@.len() && final(file)@ == old(file)@,
            },
    {
        let len = file.len();
        if at > len || len - at < 32 {
            return None;
        }
        let mut reader = crate::reader::ByteReader::new(file);
        reader.skip(at);
        let stored = crate::vabsmp::Tone::parse(&mut reader).unwrap();
        let mut pitch = file[at + 5];
        let converted = Tone::convert(&mut pitch, psx);
        file[at + 5] = pitch;
        Some(with_pitch(&stored, converted))
    }
}

proof fn lemma_pitch_byte_of_tone(s: Seq<u8>, i: int, t: int, r: int)
    requires
        0 <= i,
        0 <= t < 16,
        0 <= r < 32,
    ensures
        (tones_at(i) + 32 * t + r - 2080) / 512 == i,
        (tones_at(i) + 32 * t + r - 2080) % 32 == r,
        ((tones_at(i) + 32 * t + r - 2080) % 512) / 32 == t,
{
}

impl VabFile {
    /// Reads a whole VAB file and converts the fine tuning of each of its
    /// tones in the file; `file_len` is the length of the file.  Where the
    /// file is cut short or its header is not accepted, nothing is
    /// returned and the file is left as it was.
    pub fn parse(file: &mut [u8], file_len: usize, psx: bool) -> (res: Option<Self>)
        requires
            file_len == old(file)@.len(),
            readable(old(file)@),
        ensures
            match res {
                Some(vab) => {
                    &&& whole(old(file)@)
                    &&& is_fine_file(vab, old(file)@, psx)
                    &&& final(file)@ == fine_tuned(old(file)@, psx)
                },
                None => !whole(old(file)@) && final(file)@ == old(file)@,
            },
    {
        let ghost s = file@;
        let stored = match crate::vabsmp::VabFile::try_parse(&*file) {
            Ok(Some(stored)) => stored,
            _ => {
                return None;
            },
        };
        let crate::vabsmp::VabFile { header, programs, tones: _, vag_sizes, vag_ranges } = stored;
        let count = programs.len();
        let mut tones: Vec<Vec<Tone>> = Vec::new();
        let mut i: usize = 0;
        assert(file@ =~= tuned_before(s, psx, tones_at(0)));
        while i < count
            invariant
                whole(s),
                header == header_at(s, 0),
                count == header.programs_number,
                programs@.len() == count,
                forall|j: int| 0 <= j < count ==> #[trigger] programs@[j] == program_of(s, j),
                i <= count,
                file@.len() == s.len(),
                file@ == tuned_before(s, psx, tones_at(i as int)),
                tones@.len() == i,
                forall|j: int|
                    0 <= j < i ==> (#[trigger] tones@[j])@.len() == program_of(s, j).tones_number,
                forall|j: int, t: int|
                    0 <= j < i && 0 <= t < program_of(s, j).tones_number ==> #[trigger] tones@[j]@[t]
                        == fine_tone(tone_at(s, tones_at(j) + 32 * t), psx),
            decreases count - i,
        {
            let wanted = programs[i].tones_number as usize;
            let base = 2080 + 512 * i;
            assert(programs@[i as int] == program_of(s, i as int));
            assert(program_of(s, i as int).tones_number <= 16);
            assert(tones_at(i + 1) <= s.len());
            let mut list: Vec<Tone> = Vec::new();
            let mut t: usize = 0;
            while t < wanted
                invariant
                    whole(s),
                    i < count,
                    count == header_at(s, 0).programs_number,
                    wanted == program_of(s, i as int).tones_number,
                    t <= wanted <= 16,
                    base == tones_at(i as int),
                    base + 512 <= s.len(),
                    file@.len() == s.len(),
                    file@ == tuned_before(s, psx, base + 32 * t),
                    list@.len() == t,
                    forall|u: int|
                        0 <= u < t ==> #[trigger] list@[u] == fine_tone(
                            tone_at(s, base + 32 * u),
                            psx,
                        ),
                decreases wanted - t,
            {
                let at = base + 32 * t;
                let ghost before = file@;
                let tone = Tone::parse(file, at, psx).unwrap();
                proof {
                    assert forall|j: int| at <= j < at + 32 implies #[trigger] before[j] == s[j] by {}
                    assert(tone_at(before, at as int) == tone_at(s, at as int));
                    assert(file@ =~= tuned_before(s, psx, at + 32)) by {
                        assert forall|j: int| 0 <= j < s.len() implies file@[j] == tuned_before(
                            s,
                            psx,
                            at + 32,
                        )[j] by {
                            if at <= j < at + 32 {
                                lemma_pitch_byte_of_tone(s, i as int, t as int, j - at);
                            }
                        }
                    }
                }
                list.push(tone);
                t = t + 1;
            }
            proof {
                assert(file@ =~= tuned_before(s, psx, tones_at(i + 1))) by {
                    assert forall|j: int| 0 <= j < s.len() implies file@[j] == tuned_before(
                        s,
                        psx,
                        tones_at(i + 1),
                    )[j] by {
                        if base + 32 * wanted <= j < base + 512 {
                            let r = j - base;
                            lemma_pitch_byte_of_tone(s, i as int, r / 32, r % 32);
                        }
                    }
                }
            }
            tones.push(list);
            i = i + 1;
        }
        proof {
            assert(file@ =~= fine_tuned(s, psx)) by {
                assert forall|j: int| 0 <= j < s.len() implies file@[j] == fine_tuned(s, psx)[j] by {
                    if j >= tones_at(count as int) {
                        assert((j - 2080) / 512 >= count);
                    }
                }
            }
        }
        Some(VabFile { header, programs, tones, vag_sizes, vag_ranges })
    }
}

} // verus!
