use std::slice::Iter;

use unlokable::demus::name_to_str;
use unlokable::demus_tables::MusFile;
use unlokable::desnd::{can_parse, can_parse_smp, SmpFile, SndFile, Version};
use unlokable::reader::ByteReader;
use unlokable::vabsmp::VabFile;

/// A small generator of numbers.
struct Numbers(u64);

impl Numbers {
    fn next(&mut self) -> u64 {
        self.0 = self.0.wrapping_mul(6364136223846793005).wrapping_add(1442695040888963407);
        self.0 >> 33
    }

    fn below(&mut self, limit: u64) -> u64 {
        self.next() % limit
    }

    fn bytes(&mut self, len: usize) -> Vec<u8> {
        (0..len).map(|_| self.next() as u8).collect()
    }
}

fn four(bytes: &mut Iter<u8>) -> Option<[u8; 4]> {
    Some([*bytes.next()?, *bytes.next()?, *bytes.next()?, *bytes.next()?])
}

fn half(bytes: &mut Iter<u8>) -> Option<u16> {
    Some(u16::from_le_bytes([*bytes.next()?, *bytes.next()?]))
}

#[derive(Debug, PartialEq)]
struct Bank {
    header: [u32; 8],
    header_size: i64,
    bank_version: Option<u32>,
    programs: Vec<(u16, u16, u8, u8)>,
    zones: Vec<Vec<u16>>,
    wave_offsets: Vec<u32>,
    sequence_offsets: Vec<u32>,
    labels: Vec<u32>,
    sequences: Vec<(u32, u32)>,
}

/// Reads a bank byte by byte from an iterator.
fn bank_by_iterator(bytes: &mut Iter<u8>, file_size: u32, version: Version) -> Option<Bank> {
    let magic_number = u32::from_le_bytes(four(bytes)?);
    let (stored_size, bank_version, counts) = match version {
        Version::SoulReaver => {
            let size = u32::from_le_bytes(four(bytes)?) as i64;
            let bank_version = Some(u32::from_le_bytes(four(bytes)?));
            let mut counts = [0u32; 7];
            for count in counts.iter_mut() {
                *count = u32::from_le_bytes(four(bytes)?);
            }
            (size, bank_version, counts)
        }
        Version::Prototype | Version::Gex => {
            let (size, bank_version) = if version == Version::Prototype {
                let size = u32::from_le_bytes(four(bytes)?) as i64;
                (size, Some(half(bytes)? as u32))
            } else {
                (half(bytes)? as i64, None)
            };
            let _pad = bytes.next();
            let mut counts = [0u32; 7];
            counts[0] = *bytes.next()? as u32;
            for count in counts.iter_mut().skip(1) {
                *count = half(bytes)? as u32;
            }
            (size, bank_version, counts)
        }
    };
    let header_size = if stored_size % 4 == 0 {
        stored_size
    } else {
        stored_size - stored_size % 4 + 4
    };
    let [num_programs, num_zones, num_waves, num_sequences, num_labels, reverb_mode, reverb_depth] =
        counts;

    while file_size - (bytes.as_slice().len() as u32) < header_size as u32 {
        bytes.next();
    }

    let mut requested_zones = 0;
    let programs = (0..num_programs)
        .map(|_| {
            let mut program = (half(bytes)?, half(bytes)?, *bytes.next()?, *bytes.next()?);
            bytes.next()?;
            bytes.next()?;
            if requested_zones + program.0 > num_zones as u16 {
                program.0 = 0;
            } else {
                requested_zones += program.0;
            }
            Some(program)
        })
        .collect::<Option<Vec<_>>>()?;
    let zones = (0..num_zones)
        .map(|_| {
            let mut zone = vec![];
            for _ in 0..10 {
                zone.push(*bytes.next()? as u16);
            }
            zone.push(half(bytes)?);
            zone.push(half(bytes)?);
            zone.push(half(bytes)?.checked_add(1).unwrap_or(1));
            Some(zone)
        })
        .collect::<Option<Vec<_>>>()?;
    let mut wave_offsets_start = None;
    let wave_offsets = (0..num_waves)
        .map(|_| {
            let num = u32::from_le_bytes(four(bytes)?);
            if wave_offsets_start.is_none() {
                wave_offsets_start = Some(num);
            }
            Some(num - wave_offsets_start.unwrap())
        })
        .collect::<Option<Vec<_>>>()?;
    let sequence_offsets = (0..num_sequences)
        .map(|_| Some(u32::from_le_bytes(four(bytes)?)))
        .collect::<Option<Vec<_>>>()?;
    let labels = (0..num_labels)
        .map(|_| Some(u32::from_le_bytes(four(bytes)?)))
        .collect::<Option<Vec<_>>>()?;

    let sequences_start = file_size - bytes.as_slice().len() as u32;
    let mut sequences = vec![];
    for i in (0..num_sequences).map(|i| i as usize) {
        let start = sequences_start + sequence_offsets[i];
        let end = if i == num_sequences as usize - 1 {
            file_size
        } else {
            sequences_start + sequence_offsets[i + 1]
        };
        sequences.push((start, end));
    }

    Some(Bank {
        header: [
            magic_number,
            num_programs,
            num_zones,
            num_waves,
            num_sequences,
            num_labels,
            reverb_mode,
            reverb_depth,
        ],
        header_size,
        bank_version,
        programs,
        zones,
        wave_offsets,
        sequence_offsets,
        labels,
        sequences,
    })
}

fn bank_of(file: &SndFile) -> Bank {
    let header = &file.header;
    Bank {
        header: [
            header.magic_number,
            header.num_programs,
            header.num_zones,
            header.num_waves,
            header.num_sequences,
            header.num_labels,
            header.reverb_mode,
            header.reverb_depth,
        ],
        header_size: header.header_size.size,
        bank_version: header.bank_version,
        programs: file
            .programs
            .iter()
            .map(|p| (p.num_zones, p.first_tone, p.volume, p.pan_pos))
            .collect(),
        zones: file
            .zones
            .iter()
            .map(|z| {
                vec![
                    z.priority as u16,
                    z.parent_program as u16,
                    z.volume as u16,
                    z.pan_pos as u16,
                    z.root_key as u16,
                    z.pitch_fine_tuning as u16,
                    z.note_low as u16,
                    z.note_high as u16,
                    z.mode as u16,
                    z.max_pitch_range as u16,
                    z.adsr1,
                    z.adsr2,
                    z.wave_index,
                ]
            })
            .collect(),
        wave_offsets: file.wave_offsets.clone(),
        sequence_offsets: file.sequence_offsets.clone(),
        labels: file.labels.clone(),
        sequences: file.sequences.iter().map(|s| (s.start, s.end)).collect(),
    }
}

#[test]
fn banks_agree_with_reading_by_iterator() {
    let mut numbers = Numbers(11);
    let mut read = 0;
    let mut whole = 0;
    for round in 0..6000u64 {
        let version = [Version::SoulReaver, Version::Prototype, Version::Gex][(round % 3) as usize];
        let mut file = vec![0x44, 0x4e, 0x53, 0x61];
        let size = numbers.below(60) as u32;
        let counts: Vec<u32> = (0..5).map(|_| numbers.below(4) as u32).collect();
        match version {
            Version::SoulReaver => {
                file.extend_from_slice(&size.to_le_bytes());
                file.extend_from_slice(&0x0103u32.to_le_bytes());
                for count in &counts {
                    file.extend_from_slice(&count.to_le_bytes());
                }
                file.extend_from_slice(&[5, 0, 0, 0, 6, 0, 0, 0]);
            }
            Version::Prototype | Version::Gex => {
                if version == Version::Prototype {
                    file.extend_from_slice(&size.to_le_bytes());
                    file.extend_from_slice(&[3, 1]);
                } else {
                    file.extend_from_slice(&(size as u16).to_le_bytes());
                }
                file.push(0xee);
                file.push(counts[0] as u8);
                for count in &counts[1..] {
                    file.extend_from_slice(&(*count as u16).to_le_bytes());
                }
                file.extend_from_slice(&[5, 0, 6, 0]);
            }
        }
        let body = numbers.below(160) as usize;
        let mut rest = numbers.bytes(body);
        for byte in rest.iter_mut() {
            // Small numbers, so that offsets grow and zones are asked for.
            *byte %= 3;
        }
        file.extend(rest);
        if round % 5 == 0 {
            let cut = numbers.below(file.len() as u64 + 1) as usize;
            file.truncate(cut);
        }
        if !can_parse(&file, version) {
            continue;
        }
        read += 1;
        let by_iterator = bank_by_iterator(&mut file.iter(), file.len() as u32, version);
        let parsed = SndFile::parse(&mut ByteReader::new(&file), file.len() as u32, version);
        assert_eq!(parsed.as_ref().map(bank_of), by_iterator, "{file:?} {version:?}");
        if let Some(snd) = parsed {
            whole += 1;
            let smp_len = numbers.below(12) as usize;
            let mut smp = numbers.bytes(smp_len);
            if round % 2 == 0 && smp.len() >= 4 {
                smp[..4].copy_from_slice(&0x6153_4d50u32.to_le_bytes());
            }
            let reader = ByteReader::new(&smp);
            assert!(can_parse_smp(&snd, &reader));
            let file_size = smp.len() as u32;
            let expected = (|| {
                let bytes = &mut smp.iter();
                let first_bytes = u32::from_le_bytes(four(bytes)?);
                let (magic_number, body_size, header_size) = if first_bytes == 0x61534d50 {
                    (Some(first_bytes), u32::from_le_bytes(four(bytes)?), 8)
                } else {
                    (None, first_bytes, 4)
                };
                let waves = (0..snd.header.num_waves as usize)
                    .map(|i| {
                        let start = header_size + snd.wave_offsets[i];
                        let end = if i == snd.header.num_waves as usize - 1 {
                            file_size
                        } else {
                            header_size + snd.wave_offsets[i + 1]
                        };
                        (start, end)
                    })
                    .collect::<Vec<_>>();
                Some((magic_number, body_size, waves))
            })();
            let placed = SmpFile::parse(&snd, &mut ByteReader::new(&smp), file_size).map(|smp| {
                (
                    smp.magic_number,
                    smp.body_size,
                    smp.waves.iter().map(|w| (w.start, w.end)).collect::<Vec<_>>(),
                )
            });
            assert_eq!(placed, expected);
        }
    }
    assert!(read > 2000);
    assert!(whole > 500);
}

#[derive(Debug, PartialEq)]
struct Vab {
    header: Vec<u32>,
    programs: Vec<Vec<u32>>,
    tones: Vec<Vec<Vec<u16>>>,
    vag_sizes: Vec<usize>,
    vag_ranges: Vec<(usize, usize)>,
}

/// Reads a VAB file byte by byte from an iterator.
fn vab_by_iterator(bytes: &mut Iter<u8>, file_len: usize) -> Option<Vab> {
    let mut header = vec![];
    for _ in 0..4 {
        header.push(u32::from_le_bytes(four(bytes)?));
    }
    for _ in 0..4 {
        header.push(half(bytes)? as u32);
    }
    for _ in 0..4 {
        header.push(*bytes.next()? as u32);
    }
    header.push(u32::from_le_bytes(four(bytes)?));
    let (total_size, programs_number, vags_number) = (header[3], header[5], header[7]);
    if (file_len as u32) < total_size {
        return None;
    }

    let program = |bytes: &mut Iter<u8>| -> Option<Vec<u32>> {
        let mut program = vec![];
        for _ in 0..6 {
            program.push(*bytes.next()? as u32);
        }
        program.push(half(bytes)? as u32);
        program.push(u32::from_le_bytes(four(bytes)?));
        program.push(u32::from_le_bytes(four(bytes)?));
        if program[0] == 0 {
            None
        } else {
            Some(program)
        }
    };
    let mut programs = Vec::new();
    let mut program_space = 0;
    while programs.len() < programs_number as usize {
        if let Some(program) = program(bytes) {
            programs.push(program);
        }
        program_space += 1;
    }
    for _ in 0..16 * (128 - program_space) {
        bytes.next()?;
    }

    let tones = programs
        .iter()
        .map(|program| {
            let tones = (0..program[0])
                .map(|_| {
                    let mut tone = vec![];
                    for _ in 0..16 {
                        tone.push(*bytes.next()? as u16);
                    }
                    for _ in 0..8 {
                        tone.push(half(bytes)?);
                    }
                    Some(tone)
                })
                .collect::<Option<Vec<_>>>()?;

            for _ in 0..32 * (16 - program[0] as usize) {
                bytes.next()?;
            }

            Some(tones)
        })
        .collect::<Option<Vec<_>>>()?;

    bytes.next()?;
    bytes.next()?;

    let vag_sizes: Vec<usize> = (0..vags_number)
        .map(|_| Some(half(bytes)? as usize * 8))
        .collect::<Option<Vec<_>>>()?;
    for _ in 0..512 - vag_sizes.len() * 2 - 2 {
        bytes.next()?;
    }

    let start_of_samples = file_len - bytes.as_ref().len();
    let vag_ranges = vag_sizes
        .iter()
        .fold((vec![], start_of_samples), |(mut acc, cursor), size| {
            acc.push((cursor, cursor + *size));
            (acc, cursor + *size)
        })
        .0;

    Some(Vab {
        header,
        programs,
        tones,
        vag_sizes,
        vag_ranges,
    })
}

fn vab_of(file: &VabFile) -> Vab {
    let h = &file.header;
    Vab {
        header: vec![
            h.magic_number,
            h.version,
            h.vab_id,
            h.total_size,
            h._pad0 as u32,
            h.programs_number as u32,
            h.tones_number as u32,
            h.vags_number as u32,
            h.master_volume as u32,
            h.master_pan as u32,
            h.bank_attributes_1 as u32,
            h.bank_attributes_2 as u32,
            h._pad1,
        ],
        programs: file
            .programs
            .iter()
            .map(|p| {
                vec![
                    p.tones_number as u32,
                    p.volume as u32,
                    p.priority as u32,
                    p.mode as u32,
                    p.pan as u32,
                    p._pad0 as u32,
                    p.attribute as u32,
                    p._pad1,
                    p._pad2,
                ]
            })
            .collect(),
        tones: file
            .tones
            .iter()
            .map(|tones| {
                tones
                    .iter()
                    .map(|t| {
                        vec![
                            t.priority as u16,
                            t.reverb_mode as u16,
                            t.volume as u16,
                            t.pan as u16,
                            t.unity_key as u16,
                            t.pitch_tune as u16,
                            t.key_low as u16,
                            t.key_high as u16,
                            t.vibrato_width as u16,
                            t.vibrato_time as u16,
                            t.port_width as u16,
                            t.port_hold as u16,
                            t.pitch_bend_minimum as u16,
                            t.pitch_bend_maximum as u16,
                            t._pad0 as u16,
                            t._pad1 as u16,
                            t.adsr1,
                            t.adsr2,
                            t.parent_program,
                            t.sample_number,
                            t._pad2,
                            t._pad3,
                            t._pad4,
                            t._pad5,
                        ]
                    })
                    .collect()
            })
            .collect(),
        vag_sizes: file.vag_sizes.clone(),
        vag_ranges: file.vag_ranges.iter().map(|r| (r.start, r.end)).collect(),
    }
}

#[test]
fn vab_files_agree_with_reading_by_iterator() {
    let mut numbers = Numbers(12);
    let mut read = 0;
    let mut whole = 0;
    for round in 0..1500u64 {
        let programs = numbers.below(4) as usize;
        let samples = numbers.below(5) as u16;
        let mut file = numbers.bytes(32);
        file[18..20].copy_from_slice(&(programs as u16).to_le_bytes());
        file[22..24].copy_from_slice(&samples.to_le_bytes());
        let mut placed = 0;
        for slot in 0..128 {
            let mut program = numbers.bytes(16);
            program[0] = if placed < programs && (numbers.below(3) == 0 || 128 - slot <= programs - placed) {
                placed += 1;
                1 + numbers.below(if round % 7 == 0 { 17 } else { 16 }) as u8
            } else {
                0
            };
            file.extend(program);
        }
        let tail = numbers.below(64) as usize;
        file.extend(numbers.bytes(512 * programs + 512 + tail));
        if round % 4 == 0 {
            let cut = 2000 + numbers.below(file.len() as u64 - 1999) as usize;
            file.truncate(cut);
        }
        let total = if round % 9 == 0 { file.len() as u32 + 1 } else { numbers.below(file.len() as u64 + 1) as u32 };
        file[12..16].copy_from_slice(&total.to_le_bytes());
        if !unlokable::vabsmp::can_parse(&file) {
            continue;
        }
        read += 1;
        let by_iterator = vab_by_iterator(&mut file.iter(), file.len());
        let parsed = VabFile::parse(&mut ByteReader::new(&file), file.len());
        if parsed.is_some() {
            whole += 1;
        }
        assert_eq!(parsed.as_ref().map(vab_of), by_iterator);
    }
    assert!(read > 800);
    assert!(whole > 300);
}

/// Reads numbers from an iterator as the tables of a MUS file hold them.
struct Fields<'a>(Iter<'a, u8>);

impl Fields<'_> {
    fn le(&mut self) -> Option<i32> {
        Some(i32::from_le_bytes(four(&mut self.0)?))
    }

    fn float(&mut self) -> Option<f32> {
        Some(f32::from_le_bytes(four(&mut self.0)?))
    }

    fn byte(&mut self) -> Option<u8> {
        self.0.next().copied()
    }

    fn name(&mut self) -> Option<String> {
        let valid = |c: u8| {
            !matches!(c, 34 | 36 | 42 | 47 | 58 | 59 | 60 | 62 | 63 | 92 | 94 | 96)
                && (32..=126).contains(&c)
        };
        let mut bytes = [0u8; 20];
        for byte in bytes.iter_mut() {
            *byte = self.byte()?;
        }
        let mut encountered_garbage = false;
        let mut chars = bytes.map(|c| {
            if !encountered_garbage && !valid(c) {
                encountered_garbage = true;
            }
            if encountered_garbage {
                '\0'
            } else {
                c as char
            }
        });
        for c in chars.iter_mut().rev() {
            if *c == ' ' {
                *c = '\0';
            } else if valid(*c as u8) {
                break;
            }
        }
        Some(chars.iter().take_while(|x| **x != '\0').collect())
    }
}

#[test]
fn mus_tables_agree_with_reading_by_iterator() {
    let mut numbers = Numbers(13);
    let mut whole = 0;
    for round in 0..3000u64 {
        let streams = round % 2 == 0;
        let counts: Vec<i32> = (0..4).map(|_| numbers.below(3) as i32).collect();
        let (sequences, waves, programs, presets) = (counts[0], counts[1], counts[2], counts[3]);
        let mut file = vec![0x4d, 0x75, 0x73, 0x21];
        let mut fields = vec![48, if streams { 276 } else { 270 }, 1, 2, 3, sequences];
        if streams {
            fields.extend_from_slice(&[7, 120, 0x1000]);
        }
        fields.extend_from_slice(&[5, 0x2000, waves, programs, presets]);
        for field in fields {
            file.extend_from_slice(&field.to_le_bytes());
        }
        let body_len = numbers.below(700) as usize;
        let mut body = numbers.bytes(body_len);
        for (at, byte) in body.iter_mut().enumerate() {
            // Names of letters and spaces, and numbers that are small.
            *byte = match (at % 4, *byte % 8) {
                (_, 0) => b' ',
                (_, 1) => b'a' + *byte % 26,
                (_, 2) => 0,
                (0, _) => *byte % 3,
                _ => 0,
            };
        }
        file.extend(body);

        let expected = (|| {
            let mut fields = Fields(file[if streams { 60 } else { 48 }..].iter());
            let tables = (0..sequences)
                .map(|_| Some((fields.le()?, fields.le()?)))
                .collect::<Option<Vec<_>>>()?;
            let layers = (0..presets + programs)
                .map(|_| fields.le())
                .collect::<Option<Vec<_>>>()?;
            let wave_entries = (0..waves)
                .map(|_| {
                    let name = fields.name()?;
                    let mut rest = [0i32; 8];
                    for field in rest.iter_mut() {
                        *field = fields.le()?;
                    }
                    rest[2] = rest[2].checked_mul(2)?;
                    Some((name, rest))
                })
                .collect::<Option<Vec<_>>>()?;
            let mut program_entries = vec![];
            for _ in 0..programs {
                let name = fields.name()?;
                let num_zones = fields.le()?;
                if num_zones < 0 {
                    return None;
                }
                let mut zones = vec![];
                for _ in 0..num_zones {
                    let mut zone = vec![];
                    zone.push(fields.le()? as f32);
                    zone.push(fields.le()? as f32);
                    zone.push(fields.float()?);
                    zone.push(fields.le()? as f32);
                    zone.push(fields.le()? as f32);
                    for _ in 0..10 {
                        zone.push(fields.float()?);
                    }
                    zone.push(fields.le()? as f32);
                    for _ in 0..4 {
                        zone.push(fields.byte()? as f32);
                    }
                    zone.push(fields.le()? as f32);
                    for _ in 0..8 {
                        zone.push(fields.float()?);
                    }
                    zones.push(zone);
                }
                program_entries.push((name, zones));
            }
            let mut preset_entries = vec![];
            for _ in 0..presets {
                let name = fields.name()?;
                let (bank, preset, num_zones) = (fields.le()?, fields.le()?, fields.le()?);
                if num_zones < 0 {
                    return None;
                }
                let mut zones = vec![];
                for _ in 0..num_zones {
                    zones.push((
                        fields.le()?,
                        fields.byte()?,
                        fields.byte()?,
                        fields.byte()?,
                        fields.byte()?,
                        fields.le()?,
                    ));
                }
                preset_entries.push((name, bank, preset, zones));
            }
            Some((tables, layers, wave_entries, program_entries, preset_entries))
        })();

        let parsed = MusFile::parse(&file).map(|mus| {
            (
                mus.msq_tables.iter().map(|t| (t.index, t.offset)).collect::<Vec<_>>(),
                mus.layers.clone(),
                mus.wave_entries
                    .iter()
                    .map(|w| {
                        (
                            name_to_str(&w.name),
                            [
                                w.offset,
                                w.loop_begin,
                                w.size,
                                w.loop_end,
                                w.sample_rate,
                                w.original_pitch,
                                w.loop_info,
                                w.snd_handle,
                            ],
                        )
                    })
                    .collect::<Vec<_>>(),
                mus.program_entries
                    .iter()
                    .zip(&mus.program_zones)
                    .map(|(entry, zones)| {
                        assert_eq!(entry.num_zones as usize, zones.len());
                        (
                            name_to_str(&entry.name),
                            zones
                                .iter()
                                .map(|z| {
                                    let float = f32::from_bits;
                                    let v = &z.volume_env;
                                    let m = &z.modul_env;
                                    vec![
                                        z.pitch_finetuning as f32,
                                        z.reverb as f32,
                                        float(z.pan_position_bits),
                                        z.keynum_hold as f32,
                                        z.keynum_decay as f32,
                                        float(v.delay),
                                        float(v.attack),
                                        float(v.hold),
                                        float(v.decay),
                                        float(v.sustain),
                                        float(v.release),
                                        float(z.volume_env_atten_bits),
                                        float(z.vib_delay_bits),
                                        float(z.vib_frequency_bits),
                                        float(z.vib_to_pitch_bits),
                                        z.root_key as f32,
                                        z.note_low as f32,
                                        z.note_high as f32,
                                        z.velocity_low as f32,
                                        z.velocity_high as f32,
                                        z.wave_index as f32,
                                        float(z.base_priority_bits),
                                        float(m.delay),
                                        float(m.attack),
                                        float(m.hold),
                                        float(m.decay),
                                        float(m.sustain),
                                        float(m.release),
                                        float(z.modul_env_to_pitch_bits),
                                    ]
                                })
                                .collect::<Vec<_>>(),
                        )
                    })
                    .collect::<Vec<_>>(),
                mus.preset_entries
                    .iter()
                    .zip(&mus.preset_zones)
                    .map(|(entry, zones)| {
                        assert_eq!(entry.num_zones as usize, zones.len());
                        (
                            name_to_str(&entry.name),
                            entry.midi_bank_number,
                            entry.midi_preset_number,
                            zones
                                .iter()
                                .map(|z| {
                                    (
                                        z.root_key,
                                        z.note_low,
                                        z.note_high,
                                        z.velocity_low,
                                        z.velocity_high,
                                        z.program_index,
                                    )
                                })
                                .collect::<Vec<_>>(),
                        )
                    })
                    .collect::<Vec<_>>(),
            )
        });
        if parsed.is_some() {
            whole += 1;
        }
        let same = match (&parsed, &expected) {
            (Some(a), Some(b)) => format!("{a:?}") == format!("{b:?}"),
            (None, None) => true,
            _ => false,
        };
        assert!(same, "{parsed:?} {expected:?}");
    }
    assert!(whole > 300);
}
