use unlokable::cds2seq::header::Header;
use unlokable::cds2seq::report::{local_loops, swap_bytes};
use unlokable::cds2seq::error::ConvertError;
use unlokable::demul::{audio_of_channel, can_demux, demux, is_whole};
use unlokable::demus::{name_to_str, Platform};
use unlokable::demus_out::{
    fix_end_marker, loop_line, sample_file, sequence_spans, wave_span,
};
use unlokable::demus_tables::{
    Envelope, MsqTable, MusFile, PresetEntry, PresetZone, ProgramEntry, ProgramZone,
};
use unlokable::demus::WaveEntry;
use unlokable::desnd::{SmpFile, SndFile, Span, Version};
use unlokable::desnd_out::{
    are_waves_inside, can_write, cut, is_inside, label_file, sequence_kind, vb_file, vh_file,
    wave_file, SequenceKind,
};
use unlokable::msqsplit::{track_file, MsqHeader};
use unlokable::reader::ByteReader;
use unlokable::sf2panlaw::{
    pan_units, parse_signed, parse_unsigned, u16_to_i16, Function,
};

#[test]
fn description_of_a_converted_file() {
    let bytes = [0x51, 0x45, 0x53, 0x61, 0x20, 0xa1, 0x07, 0x00, 0xe0, 0x01, 0x03, 0x00];
    let header = Header::parse(&bytes).unwrap();
    assert_eq!(header.bpm(), 120);
    assert_eq!(
        header.describe(2),
        "CDS file\nQuarter note time: 500000\nPPQN: 480\nBPM: 120\nVersion: 0.3\nLocal loops: 2\n"
    );
    assert_eq!(swap_bytes(0x1234), 0x3412);
}

#[test]
fn loops_are_counted_after_balancing() {
    assert_eq!(local_loops(&[0x90, 0xff, 0x2f, 0x00, 0x91, 0xff, 0x2f, 0x00]), Ok(2));
    assert_eq!(local_loops(&[0xff, 0x2e, 0x01, 0x02, 0x90, 0xff, 0x2f, 0x00]), Ok(1));
    assert_eq!(local_loops(&[0x90]), Ok(0));
    assert_eq!(local_loops(&[0x90, 0xff]), Err(ConvertError::TruncatedBuffer));
}

#[test]
fn track_gets_a_cds_header() {
    let header = MsqHeader {
        magic: 0x614d_5351,
        quarter_note_time: 0x0007_a120,
        ppqn: 0x01e0,
        version: 0x0102,
        num_tracks: 1,
        _padding: 0,
    };
    assert_eq!(
        track_file(&header, &[9, 8, 7]),
        vec![0x51, 0x45, 0x53, 0x61, 0x20, 0xa1, 0x07, 0x00, 0xe0, 0x01, 0x02, 0x01, 9, 8, 7]
    );
}

fn mul_file(channels: u32) -> Vec<u8> {
    let mut file = vec![0u8; 0x800];
    file[0..4].copy_from_slice(&44100u32.to_le_bytes());
    file[12..16].copy_from_slice(&channels.to_le_bytes());
    let mut chunk = |kind: u32, size: u32, content: &[u8]| {
        file.extend_from_slice(&kind.to_le_bytes());
        file.extend_from_slice(&size.to_le_bytes());
        file.extend_from_slice(&[0xee; 8]);
        if kind == 0 {
            file.extend_from_slice(&[0xdd; 16]);
        }
        file.extend_from_slice(content);
    };
    chunk(0, 16 + 4, &[1, 2, 3, 4]);
    chunk(1, 3, &[0xa1, 0xa2, 0xa3]);
    chunk(2, 2, &[0, 0]);
    chunk(0, 16 + 6, &[5, 6, 7, 8, 9, 10]);
    chunk(1, 1, &[0xa4]);
    file
}

#[test]
fn mul_file_is_taken_apart() {
    let file = mul_file(2);
    assert!(can_demux(&file));
    let parts = demux(&file);
    assert_eq!(parts.sample_rate, 44100);
    assert_eq!(parts.channels, 2);
    assert_eq!(parts.audio, vec![vec![1, 2, 5, 6, 7], vec![3, 4, 8, 9, 10]]);
    assert_eq!(parts.data, vec![0xa1, 0xa2, 0xa3, 0xa4]);
    assert_eq!((parts.audio_chunks, parts.data_chunks, parts.padding_chunks), (2, 2, 1));
    assert_eq!(audio_of_channel(&file[0x800..], 2, 1), vec![3, 4, 8, 9, 10]);

    let mono = mul_file(1);
    assert_eq!(demux(&mono).audio, vec![vec![1, 2, 3, 4, 5, 6, 7, 8, 9, 10]]);
}

#[test]
fn mul_files_that_cannot_be_taken_apart() {
    assert!(!can_demux(&[0u8; 0x7ff]));
    assert!(can_demux(&[0u8; 0x800]));
    assert!(!can_demux(&mul_file(0)));
    assert!(!can_demux(&mul_file(4)));
    let file = mul_file(2);
    assert!(!can_demux(&file[..file.len() - 1]));
    assert!(is_whole(&[], 0));
    assert!(is_whole(&[1, 0, 0], 0));
    let mut empty_audio = vec![0u8; 0x800];
    empty_audio[12] = 1;
    empty_audio.extend_from_slice(&0u32.to_le_bytes());
    empty_audio.extend_from_slice(&16u32.to_le_bytes());
    empty_audio.extend_from_slice(&[0; 24]);
    assert!(!can_demux(&empty_audio));
}

fn words(values: &[u32]) -> Vec<u8> {
    values.iter().flat_map(|v| v.to_le_bytes()).collect()
}

fn halves(values: &[u16]) -> Vec<u8> {
    values.iter().flat_map(|v| v.to_le_bytes()).collect()
}

/// A bank of two programs with one and two zones, and two waves.
fn bank() -> (SndFile, SmpFile, Vec<u8>) {
    let mut file = words(&[0x6153_4e44, 40, 0x0103, 2, 3, 2, 1, 2, 5, 6]);
    file.extend_from_slice(&halves(&[1, 0]));
    file.extend_from_slice(&[100, 64, 0, 0]);
    file.extend_from_slice(&halves(&[2, 1]));
    file.extend_from_slice(&[90, 32, 0, 0]);
    for zone in 0u8..3 {
        file.extend_from_slice(&[zone + 1, 0, 2, 3, 4, 5, 6, 7, 8, 9]);
        file.extend_from_slice(&halves(&[0x1234, 0x5678, zone as u16]));
    }
    file.extend_from_slice(&words(&[0x100, 0x110]));
    file.extend_from_slice(&words(&[0]));
    file.extend_from_slice(&words(&[0xabcd, 0x1234_5678]));
    file.extend_from_slice(&[0x51, 0x45, 0x53, 0x61, 9]);
    let snd = SndFile::parse(&mut ByteReader::new(&file), file.len() as u32, Version::SoulReaver).unwrap();
    let mut smp_bytes = words(&[0x6153_4d50, 0x30]);
    smp_bytes.extend((0..0x30).map(|k| k as u8));
    let smp = SmpFile::parse(&snd, &mut ByteReader::new(&smp_bytes), smp_bytes.len() as u32).unwrap();
    (snd, smp, smp_bytes)
}

#[test]
fn vab_header_of_a_bank() {
    let (snd, smp, _) = bank();
    assert_eq!(smp.waves, vec![Span { start: 8, end: 0x18 }, Span { start: 0x18, end: 0x38 }]);
    assert!(can_write(&snd, &smp));
    let vh = vh_file(&snd, &smp);
    assert_eq!(vh.len(), 32 + 2048 + 2 * 512 + 512);
    let size = 32 + 2048 + 2 * 512 + 512 + 0x30u32;
    let mut head = vec![0x70, 0x42, 0x41, 0x56, 7, 0, 0, 0, 0, 0, 0, 0];
    head.extend_from_slice(&size.to_le_bytes());
    head.extend_from_slice(&[0, 0, 2, 0, 3, 0, 2, 0, 0x7f, 0x40, 0, 0, 0, 0, 0, 0]);
    assert_eq!(&vh[..32], &head[..]);
    // Both programs open a bank, for their first zones name program zero.
    assert_eq!(&vh[32..48], &[1, 100, 0, 0, 64, 0, 0, 0, 0, 0, 0, 0, 0, 0, 0, 0]);
    assert_eq!(&vh[48..64], &[2, 90, 0, 0, 32, 0, 1, 0, 0, 0, 0, 0, 0, 0, 0, 0]);
    assert!(vh[64..2080].iter().all(|b| *b == 0));
    let row = |zone: u8, wave: u16| {
        let mut row = vec![zone, 8, 2, 3, 4, 5, 6, 7, 0, 0, 0, 0, 9, 9, 0, 0, 0x34, 0x12, 0x78, 0x56, 0, 0];
        row.extend_from_slice(&wave.to_le_bytes());
        row.extend_from_slice(&[0; 8]);
        row
    };
    assert_eq!(&vh[2080..2112], &row(1, 1)[..]);
    assert!(vh[2112..2592].iter().all(|b| *b == 0));
    assert_eq!(&vh[2592..2624], &row(2, 2)[..]);
    assert_eq!(&vh[2624..2656], &row(3, 3)[..]);
    assert!(vh[2656..3104].iter().all(|b| *b == 0));
    assert_eq!(&vh[3104..3110], &[0, 0, 2, 0, 4, 0]);
    assert!(vh[3110..].iter().all(|b| *b == 0));
}

#[test]
fn banks_too_large_for_a_vab_header() {
    let (mut snd, mut smp, _) = bank();
    snd.programs[1].num_zones = 17;
    assert!(!can_write(&snd, &smp));
    snd.programs[1].num_zones = 3;
    assert!(!can_write(&snd, &smp));
    snd.programs[1].num_zones = 2;
    assert!(can_write(&snd, &smp));
    snd.header.num_programs = 129;
    assert!(!can_write(&snd, &smp));
    snd.header.num_programs = 2;
    smp.waves[0] = Span { start: 9, end: 8 };
    assert!(!can_write(&snd, &smp));
    smp.waves = vec![Span { start: 0, end: 8 }; 256];
    assert!(!can_write(&snd, &smp));
    smp.waves = vec![Span { start: 0, end: 0xffff_ffff }; 2];
    assert!(!can_write(&snd, &smp));
}

#[test]
fn samples_and_labels_of_a_bank() {
    let (snd, smp, smp_bytes) = bank();
    assert!(are_waves_inside(&smp.waves, smp_bytes.len()));
    assert!(!are_waves_inside(&smp.waves, smp_bytes.len() - 1));
    assert_eq!(vb_file(&smp_bytes, &smp.waves), smp_bytes[8..].to_vec());
    assert_eq!(wave_file(&smp_bytes, &smp.waves[0], true), smp_bytes[8..0x18].to_vec());
    let vag = wave_file(&smp_bytes, &smp.waves[0], false);
    assert_eq!(vag.len(), 48 + 16);
    assert_eq!(&vag[..20], &[0x56, 0x41, 0x47, 0x70, 0, 0, 0, 3, 0, 0, 0, 0, 0, 0, 0, 16, 0, 0, 0xac, 0x44]);
    assert_eq!(&vag[48..], &smp_bytes[8..0x18]);

    let mut labels = vec![0x4c, 0x42, 0x4c, 0x61, 2, 0, 0, 0];
    labels.extend_from_slice(&words(&[0xabcd, 0x1234_5678]));
    assert_eq!(label_file(&snd), Some(labels));
    let (mut none, _, _) = bank();
    none.header.num_labels = 0;
    assert_eq!(label_file(&none), None);
}

#[test]
fn sequences_of_a_bank() {
    assert_eq!(sequence_kind(&[0x51, 0x53, 0x4d, 0x61, 1]), Some(SequenceKind::Msq));
    assert_eq!(sequence_kind(&[0x51, 0x45, 0x53, 0x61]), Some(SequenceKind::Cds));
    assert_eq!(sequence_kind(&[0x51, 0x45, 0x53]), None);
    assert_eq!(sequence_kind(&[0x51, 0x45, 0x53, 0x62]), None);
    let span = Span { start: 2, end: 5 };
    assert!(is_inside(&span, 5));
    assert!(!is_inside(&span, 4));
    assert!(!is_inside(&Span { start: 3, end: 2 }, 9));
    assert_eq!(cut(&[0, 1, 2, 3, 4, 5], &span), vec![2, 3, 4]);
}

#[test]
fn sound_vab_header() {
    let mut file = words(&[0x6153_4e44, 40, 0x0103, 1, 3, 1, 0, 0, 5, 6]);
    file.extend_from_slice(&[0x01, 0x02, 0, 0, 100, 64, 0, 0]);
    for (zone, program) in [(1u8, 0u8), (2, 3), (3, 3)] {
        file.extend_from_slice(&[zone, program, 2, 3, 4, 5, 6, 7, 8, 9]);
        file.extend_from_slice(&halves(&[0x1234, 0x5678, 0]));
    }
    file.extend_from_slice(&words(&[0x100]));
    assert!(unlokable::sound::can_parse(&file, Version::SoulReaver));
    let snd = unlokable::sound::SndFile::parse(&mut ByteReader::new(&file), file.len() as u32, Version::SoulReaver);
    let smp_bytes = words(&[0x20, 1, 2, 3, 4]);
    let reader = ByteReader::new(&smp_bytes);
    assert!(unlokable::sound::can_parse_smp(&snd, &reader));
    let smp = unlokable::sound::SmpFile::parse(&snd, &mut ByteReader::new(&smp_bytes), smp_bytes.len() as u32);
    assert_eq!(smp.waves, vec![Span { start: 4, end: 20 }]);

    assert!(unlokable::sound_out::can_write(&snd, &smp));
    let vh = unlokable::sound_out::vh_file(&snd, &smp);
    // The tone table holds sixteen rows for program zero and sixteen for
    // program three.
    assert_eq!(vh.len(), 32 + 2048 + 2 * 512 + 512);
    let size = 32 + 2048 + 512 + 512 + 16u32;
    assert_eq!(&vh[12..16], &size.to_le_bytes());
    assert_eq!(&vh[16..24], &[0, 0, 1, 0, 3, 0, 1, 0]);
    assert_eq!(&vh[32..48], &[0x01, 100, 0, 0, 64, 0, 0, 0, 0, 0, 0, 0, 0, 0, 0, 0]);
    assert_eq!(vh[2080], 1);
    assert!(vh[2112..2592].iter().all(|b| *b == 0));
    assert_eq!(vh[2592], 2);
    assert_eq!(vh[2592 + 20], 3);
    assert_eq!(vh[2624], 3);
    assert!(vh[2656..3104].iter().all(|b| *b == 0));
    assert_eq!(&vh[3104..3108], &[0, 0, 2, 0]);
}

fn le(values: &[i32]) -> Vec<u8> {
    values.iter().flat_map(|v| v.to_le_bytes()).collect()
}

fn name(text: &str) -> Vec<u8> {
    let mut bytes = text.as_bytes().to_vec();
    bytes.resize(20, 0);
    bytes
}

/// A bank with two sequences, one wave, one program of one zone and one
/// preset of two zones.
fn mus_file() -> Vec<u8> {
    let mut file = vec![0x4d, 0x75, 0x73, 0x21];
    file.extend_from_slice(&le(&[48, 270, 1, 2, 3, 2, 0, 0x200, 1, 1, 1]));
    file.extend_from_slice(&le(&[0, 0x100, 1, 0x180]));
    file.extend_from_slice(&le(&[7, 8]));
    file.extend_from_slice(&name("Kick"));
    file.extend_from_slice(&le(&[32, 10, 24, 40, 22050, 60 * 256 + 128, 1, 0]));
    file.extend_from_slice(&name("Drums   "));
    file.extend_from_slice(&le(&[1]));
    let mut zone = le(&[300, 5]);
    zone.extend_from_slice(&0.5f32.to_le_bytes());
    zone.extend_from_slice(&le(&[1, 2]));
    for k in 0..6 {
        zone.extend_from_slice(&(k as f32).to_le_bytes());
    }
    for k in 0..4 {
        zone.extend_from_slice(&(10.0 + k as f32).to_le_bytes());
    }
    zone.extend_from_slice(&le(&[-1]));
    zone.extend_from_slice(&[0, 127, 1, 126]);
    zone.extend_from_slice(&le(&[0]));
    zone.extend_from_slice(&2.5f32.to_le_bytes());
    for k in 0..6 {
        zone.extend_from_slice(&(20.0 + k as f32).to_le_bytes());
    }
    zone.extend_from_slice(&9.0f32.to_le_bytes());
    assert_eq!(zone.len(), 104);
    file.extend_from_slice(&zone);
    file.extend_from_slice(&name("Kit"));
    file.extend_from_slice(&le(&[0, 5, 2]));
    for key in [36, 38] {
        file.extend_from_slice(&le(&[key]));
        file.extend_from_slice(&[0, 60, 0, 127]);
        file.extend_from_slice(&le(&[0]));
    }
    file.resize(0x200, 0xcc);
    file
}

#[test]
fn mus_tables() {
    let bytes = mus_file();
    let file = MusFile::parse(&bytes).unwrap();
    assert_eq!(file.header.num_sequences, 2);
    assert_eq!(
        file.msq_tables,
        vec![MsqTable { index: 0, offset: 0x100 }, MsqTable { index: 1, offset: 0x180 }]
    );
    assert_eq!(file.layers, vec![7, 8]);
    assert_eq!(file.wave_entries.len(), 1);
    let wave = &file.wave_entries[0];
    assert_eq!(name_to_str(&wave.name), "Kick");
    assert_eq!((wave.offset, wave.loop_begin, wave.size, wave.loop_end), (32, 10, 48, 40));
    assert_eq!((wave.sample_rate, wave.original_pitch, wave.loop_info), (22050, 15488, 1));
    assert_eq!(file.program_entries.len(), 1);
    assert_eq!(name_to_str(&file.program_entries[0].name), "Drums");
    assert_eq!(file.program_zones[0].len(), 1);
    let zone = &file.program_zones[0][0];
    assert_eq!((zone.pitch_finetuning, zone.reverb), (300, 5));
    assert_eq!(f32::from_bits(zone.pan_position_bits), 0.5);
    assert_eq!(f32::from_bits(zone.volume_env.release), 5.0);
    assert_eq!(f32::from_bits(zone.vib_to_pitch_bits), 13.0);
    assert_eq!(zone.root_key, -1);
    assert_eq!((zone.note_low, zone.note_high, zone.velocity_low, zone.velocity_high), (0, 127, 1, 126));
    assert_eq!(f32::from_bits(zone.base_priority_bits), 2.5);
    assert_eq!(f32::from_bits(zone.modul_env.delay), 20.0);
    assert_eq!(f32::from_bits(zone.modul_env_to_pitch_bits), 9.0);
    assert_eq!(file.preset_entries.len(), 1);
    assert_eq!(name_to_str(&file.preset_entries[0].name), "Kit");
    assert_eq!(file.preset_entries[0].midi_preset_number, 5);
    assert_eq!(
        file.preset_zones[0],
        vec![
            PresetZone { root_key: 36, note_low: 0, note_high: 60, velocity_low: 0, velocity_high: 127, program_index: 0 },
            PresetZone { root_key: 38, note_low: 0, note_high: 60, velocity_low: 0, velocity_high: 127, program_index: 0 },
        ]
    );

    let tables_end = 48 + 16 + 8 + 52 + 24 + 104 + 32 + 24;
    assert!(MusFile::parse(&bytes[..tables_end]).is_some());
    assert!(MusFile::parse(&bytes[..tables_end - 1]).is_none());
    assert!(MusFile::parse(&bytes[..40]).is_none());
    let mut negative = bytes.clone();
    negative[40..44].copy_from_slice(&(-1i32).to_le_bytes());
    assert!(MusFile::parse(&negative).is_none());
    let mut large = bytes.clone();
    large[72 + 28..72 + 32].copy_from_slice(&0x4000_0000i32.to_le_bytes());
    assert!(MusFile::parse(&large).is_none());
}

#[test]
fn mus_records() {
    let bytes = mus_file();
    let mut reader = ByteReader::new(&bytes[48..]);
    assert_eq!(MsqTable::parse(&mut reader), Some(MsqTable { index: 0, offset: 0x100 }));
    assert_eq!(reader.consumed(), 8);
    reader.skip(16);
    let wave = WaveEntry::parse(&mut reader).unwrap();
    assert_eq!(wave.size, 48);
    let program = ProgramEntry::parse(&mut reader).unwrap();
    assert_eq!(program.num_zones, 1);
    let mark = reader.consumed();
    let zone = ProgramZone::parse(&mut reader).unwrap();
    assert_eq!(reader.consumed(), mark + 104);
    let envelope = Envelope::parse(&mut ByteReader::new(&bytes[48 + mark + 20..])).unwrap();
    assert_eq!(envelope, zone.volume_env);
    let preset = PresetEntry::parse(&mut reader).unwrap();
    assert_eq!((preset.midi_bank_number, preset.num_zones), (0, 2));
    assert_eq!(PresetZone::parse(&mut reader).unwrap().root_key, 36);
    assert!(MsqTable::parse(&mut ByteReader::new(&[0; 7])).is_none());
    assert!(Envelope::parse(&mut ByteReader::new(&[0; 23])).is_none());
    assert!(ProgramZone::parse(&mut ByteReader::new(&[0; 103])).is_none());
    assert!(PresetZone::parse(&mut ByteReader::new(&[0; 11])).is_none());
    assert!(WaveEntry::parse(&mut ByteReader::new(&[0; 51])).is_none());
    assert!(ProgramEntry::parse(&mut ByteReader::new(&[0; 23])).is_none());
    assert!(PresetEntry::parse(&mut ByteReader::new(&[0; 31])).is_none());
}

#[test]
fn mus_sequences_and_samples() {
    let bytes = mus_file();
    let file = MusFile::parse(&bytes).unwrap();
    let spans = sequence_spans(&file, bytes.len()).unwrap();
    assert_eq!(spans.len(), 2);
    assert_eq!((spans[0].start, spans[0].end), (0x100, 0x180));
    assert_eq!((spans[1].start, spans[1].end), (0x180, 0x200));
    assert!(sequence_spans(&file, 0x1ff).is_none());

    let wave = &file.wave_entries[0];
    let mut sam = vec![0x11u8; 80];
    let span = wave_span(wave, sam.len()).unwrap();
    assert_eq!((span.start, span.end), (32, 80));
    assert!(wave_span(wave, 79).is_none());
    sam[64..80].copy_from_slice(&[7, 0, 0x77, 0x77, 0x77, 0x77, 0x77, 0x77, 0x77, 0x77, 0x77, 0x77, 0x77, 0x77, 0x77, 0x77]);
    assert!(fix_end_marker(&mut sam, 80));
    assert_eq!(&sam[64..67], &[7, 7, 0x77]);
    assert!(!fix_end_marker(&mut sam, 80));
    assert!(!fix_end_marker(&mut sam, 64));

    let ads = sample_file(wave, Platform::Console, &sam, &span);
    assert_eq!(ads.len(), 40 + 48);
    assert_eq!(&ads[..16], &[0x53, 0x53, 0x68, 0x64, 0x18, 0, 0, 0, 0x10, 0, 0, 0, 0x22, 0x56, 0, 0]);
    assert_eq!(&ads[16..24], &[1, 0, 0, 0, 0, 0, 0, 0]);
    assert_eq!(&ads[36..40], &48u32.to_le_bytes());
    assert_eq!(&ads[40..], &sam[32..]);
    let pcm = sample_file(wave, Platform::PC, &sam, &span);
    assert_eq!(pcm[8], 1);

    assert_eq!(loop_line(wave), Some("10 39 Kick.wav\r\n".to_string()));
    let mut silent = *wave;
    silent.loop_info = 0;
    assert_eq!(loop_line(&silent), None);
}

#[test]
fn pan_values() {
    assert_eq!(u16_to_i16(0), 0);
    assert_eq!(u16_to_i16(0x7fff), 32767);
    assert_eq!(u16_to_i16(0x8000), -32768);
    assert_eq!(u16_to_i16(65036), -500);
    assert_eq!(pan_units(b"500"), Some(500));
    assert_eq!(pan_units(b"65036"), Some(-500));
    assert_eq!(pan_units(b"-500"), Some(-500));
    assert_eq!(pan_units(b"40000"), Some(-25536));
    assert_eq!(pan_units(b"-40000"), None);
    assert_eq!(pan_units(b"65536"), None);
    assert_eq!(pan_units(b"fifty"), None);
    assert_eq!(Function::Amplify.fmt(), "amplify");
    assert_eq!(Function::Attenuate.fmt(), "attenuate");
}

#[test]
fn numbers_are_read_as_the_standard_library_reads_them() {
    let texts = [
        "", "+", "-", "0", "+0", "-0", "00017", "65535", "65536", "+65535", "-1", "32767",
        "32768", "-32768", "-32769", "+32767", "12a", " 12", "12 ", "1_0", "99999999999", "--1",
        "+-1", "0x10", "٣",
    ];
    for text in texts {
        assert_eq!(parse_unsigned(text.as_bytes()), text.parse::<u16>().ok(), "{text:?}");
        assert_eq!(parse_signed(text.as_bytes()), text.parse::<i16>().ok(), "{text:?}");
        let expected = text
            .parse::<u16>()
            .map(|x| x as i16)
            .or_else(|_| text.parse::<i16>())
            .ok();
        assert_eq!(pan_units(text.as_bytes()), expected, "{text:?}");
    }
}
