use unlokable::demus::{
    can_parse_header, cents_tuning, name_to_str, parse_name, semitone_tuning, MusHeader, Platform,
    WaveEntry,
};
use unlokable::desnd::{
    can_parse, can_parse_smp, four_bytes, HeaderSize, SmpFile, SndFile, SndHeader, SndProgram,
    SndZone, Span, Version,
};
use unlokable::reader::ByteReader;
use unlokable::sound::align;

fn name(text: &str) -> [char; 20] {
    parse_name(&mut ByteReader::new(text.as_bytes()))
}

#[test]
fn test_parse_name() {
    assert_eq!(
        parse_name(&mut ByteReader::new(
            "C Hit          \0\0\0\0\0\0\0\0\0\0\0\0\0\0\0".as_bytes()
        ))[6],
        '\0'
    );
    assert_eq!(
        parse_name(&mut ByteReader::new(
            "C Hit\0\0\0\0\0\0\0\0\0\0\0\0\0\0\0\0\0\0\0\0".as_bytes()
        ))[2],
        'H'
    );
}

#[test]
fn names_are_cut_and_trimmed() {
    assert_eq!(name_to_str(&name("C Hit          \0\0\0\0\0")), "C Hit");
    assert_eq!(name_to_str(&name("Snare  /garbage     ")), "Snare");
    assert_eq!(name_to_str(&name("abcdefghijklmnopqrst")), "abcdefghijklmnopqrst");
    assert_eq!(name_to_str(&name("                    ")), "");
    assert_eq!(name_to_str(&name("\0hidden             ")), "");
    let kept = name("ab cd  \u{1}zzzzzzzzzzzz");
    assert_eq!(&kept[..6], &['a', 'b', ' ', 'c', 'd', '\0']);
    assert!(kept[5..].iter().all(|c| *c == '\0'));
}

#[test]
fn name_leaves_the_reader_behind_it() {
    let bytes = "Kick                next".as_bytes();
    let mut reader = ByteReader::new(bytes);
    let first = parse_name(&mut reader);
    assert_eq!(name_to_str(&first), "Kick");
    assert_eq!(reader.consumed(), 20);
    assert_eq!(reader.rest(), "next".as_bytes());
}

#[test]
fn valid_chars() {
    for c in 0u8..=255 {
        let refused = [34, 36, 42, 47, 58, 59, 60, 62, 63, 92, 94, 96].contains(&c);
        assert_eq!(WaveEntry::valid_char(&c), (32..=126).contains(&c) && !refused);
    }
}

#[test]
fn tunings() {
    assert_eq!(semitone_tuning(0), 0);
    assert_eq!(semitone_tuning(60 * 256 + 128), 60);
    assert_eq!(semitone_tuning(-1), 0);
    assert_eq!(semitone_tuning(-257), -1);
    assert_eq!(cents_tuning(60 * 256 + 128), 50);
    assert_eq!(cents_tuning(255), 99);
    assert_eq!(cents_tuning(-128), -50);
    assert_eq!(cents_tuning(i32::MIN), 0);
    assert_eq!(semitone_tuning(i32::MAX), 8388607);
}

fn mus_header(version: i32) -> Vec<u8> {
    let mut bytes = vec![0x4d, 0x75, 0x73, 0x21];
    let mut fields = vec![100, version, -3, 2, 1, 4];
    if version == 276 {
        fields.extend_from_slice(&[7, 120, 0x1000]);
    }
    fields.extend_from_slice(&[5, 0x2000, 9, 8, 6]);
    for field in fields {
        bytes.extend_from_slice(&(field as i32).to_le_bytes());
    }
    bytes
}

#[test]
fn mus_header_of_each_version() {
    let old = mus_header(270);
    let mut reader = ByteReader::new(&old);
    assert!(can_parse_header(&reader));
    let header = MusHeader::parse(&mut reader);
    assert_eq!(reader.consumed(), 48);
    assert_eq!(header.magic, 0x4D75_7321);
    assert_eq!(header.header_size, 100);
    assert_eq!(header.version_number, 270);
    assert_eq!(header.reverb_volume, -3);
    assert_eq!(header.num_sequences, 4);
    assert_eq!(header.num_streams, None);
    assert_eq!(header.stream_bpm, None);
    assert_eq!(header.stream_info_pointer, None);
    assert_eq!(header.num_labels, 5);
    assert_eq!(header.offset_to_labels_offsets_table, 0x2000);
    assert_eq!(header.num_waves, 9);
    assert_eq!(header.num_programs, 8);
    assert_eq!(header.num_presets, 6);

    let new = mus_header(276);
    let mut reader = ByteReader::new(&new);
    assert!(can_parse_header(&reader));
    let header = MusHeader::parse(&mut reader);
    assert_eq!(reader.consumed(), 60);
    assert_eq!(header.num_streams, Some(7));
    assert_eq!(header.stream_bpm, Some(120));
    assert_eq!(header.stream_info_pointer, Some(0x1000));
    assert_eq!(header.num_labels, 5);
    assert_eq!(header.num_presets, 6);

    assert!(!can_parse_header(&ByteReader::new(&new[..59])));
    assert!(!can_parse_header(&ByteReader::new(&old[..11])));
    assert!(can_parse_header(&ByteReader::new(&old[..48])));
}

#[test]
fn mus_summary() {
    let bytes = mus_header(276);
    let header = MusHeader::parse(&mut ByteReader::new(&bytes));
    assert_eq!(
        header.display(Platform::Console, 12, 3),
        "MUS header\nHeader bytes: 100 bytes\nMUS version: 1.20\nSystem: Console\n\
         Reverb volume: -3\nReverb type: 2\nSequences: 4\nStreams: 7\nStreams BPM: 120\n\
         Labels: 5\nSamples: 9 (SONY_4BIT_ADPCM)\nInstruments: 8\nInstrument Zones: 12\n\
         Presets: 6\nPreset zones: 3\n"
    );
    let bytes = mus_header(270);
    let header = MusHeader::parse(&mut ByteReader::new(&bytes));
    assert_eq!(
        header.display(Platform::default(), 0, 1000),
        "MUS header\nHeader bytes: 100 bytes\nMUS version: 1.14\nSystem: PC\n\
         Reverb volume: -3\nReverb type: 2\nSequences: 4\n\
         Labels: 5\nSamples: 9 (PCM16LE)\nInstruments: 8\nInstrument Zones: 0\n\
         Presets: 6\nPreset zones: 1000\n"
    );
    let bytes = mus_header(1);
    let header = MusHeader::parse(&mut ByteReader::new(&bytes));
    assert!(header.display(Platform::PC, 0, 0).contains("MUS version: UNKNOWN\n"));
}

#[test]
fn rounding() {
    assert_eq!(HeaderSize::new(40).size, 40);
    assert_eq!(HeaderSize::new(41u8.into()).size, 44);
    assert_eq!(HeaderSize::new(42u16.into()).size, 44);
    assert_eq!(HeaderSize::new(43u32.into()).size, 44);
    assert_eq!(HeaderSize::new(44).size, 44);
    assert_eq!(HeaderSize::new(45).size, 48);
}

#[test]
fn main_rounding() {
    assert_eq!(align(40), 40);
    assert_eq!(align(41u8.into()), 44);
    assert_eq!(align(42u16.into()), 44);
    assert_eq!(align(43u32.into()), 44);
    assert_eq!(align(44), 44);
    assert_eq!(align(45), 48);
}

#[test]
fn header_size_remembers_the_stored_size() {
    assert_eq!(HeaderSize::new(40).original, None);
    assert_eq!(HeaderSize::new(41).original, Some(41));
    assert_eq!(HeaderSize::new(-1).size, 4);
    assert_eq!(HeaderSize::new(-4).size, -4);
    assert_eq!(align(-5), 0);
    assert_eq!(HeaderSize::new(41).fmt(), "41 (44) bytes");
    assert_eq!(HeaderSize::new(40).fmt(), "40 bytes");
}

#[test]
fn four_bytes_or_nothing() {
    let bytes = [1, 2, 3, 4, 5, 6];
    let mut reader = ByteReader::new(&bytes);
    assert_eq!(four_bytes(&mut reader), Some([1, 2, 3, 4]));
    assert_eq!(reader.consumed(), 4);
    assert_eq!(four_bytes(&mut reader), None);
    assert_eq!(reader.len(), 0);
    let mut whole = ByteReader::new(&bytes);
    assert_eq!(unlokable::sound::four_bytes(&mut whole), [1, 2, 3, 4]);
}

fn words(values: &[u32]) -> Vec<u8> {
    values.iter().flat_map(|v| v.to_le_bytes()).collect()
}

fn halves(values: &[u16]) -> Vec<u8> {
    values.iter().flat_map(|v| v.to_le_bytes()).collect()
}

/// A bank in the first layout: two programs, three zones, two waves, two
/// sequences and one label, with a header size of 41.
fn snd_file() -> Vec<u8> {
    let mut file = words(&[0x6153_4e44, 41, 0x0103, 2, 3, 2, 2, 1, 5, 6]);
    file.extend_from_slice(&[0; 4]);
    file.extend_from_slice(&halves(&[2, 7]));
    file.extend_from_slice(&[100, 64, 0, 0]);
    file.extend_from_slice(&halves(&[2, 9]));
    file.extend_from_slice(&[90, 32, 0, 0]);
    for zone in 0u8..3 {
        file.extend_from_slice(&[zone, 1, 2, 3, 4, 5, 6, 7, 8, 9]);
        file.extend_from_slice(&halves(&[0x1234, 0x5678, if zone == 2 { 0xffff } else { zone as u16 }]));
    }
    file.extend_from_slice(&words(&[0x100, 0x180]));
    file.extend_from_slice(&words(&[0, 6]));
    file.extend_from_slice(&words(&[0xabcd]));
    file.extend_from_slice(&[0x51, 0x45, 0x53, 0x61, 0, 0, 0x51, 0x53, 0x4d, 0x61]);
    file
}

#[test]
fn snd_header_layouts() {
    let first = words(&[0x6153_4e44, 40, 0x0103, 2, 3, 4, 5, 6, 7, 8]);
    let header = SndHeader::parse(&mut ByteReader::new(&first), Version::SoulReaver).unwrap();
    assert_eq!(header.magic_number, 0x6153_4e44);
    assert_eq!(header.header_size, HeaderSize { size: 40, original: None });
    assert_eq!(header.bank_version, Some(0x0103));
    assert_eq!(
        (header.num_programs, header.num_zones, header.num_waves, header.num_sequences),
        (2, 3, 4, 5)
    );
    assert_eq!((header.num_labels, header.reverb_mode, header.reverb_depth), (6, 7, 8));
    assert!(SndHeader::parse(&mut ByteReader::new(&first[..39]), Version::SoulReaver).is_none());

    let mut second = words(&[0x6153_4e44, 22]);
    second.extend_from_slice(&halves(&[0x0102]));
    second.extend_from_slice(&[0xee, 2]);
    second.extend_from_slice(&halves(&[3, 4, 5, 6, 7, 8]));
    let mut reader = ByteReader::new(&second);
    let header = SndHeader::parse(&mut reader, Version::Prototype).unwrap();
    assert_eq!(reader.consumed(), 24);
    assert_eq!(header.header_size, HeaderSize { size: 24, original: Some(22) });
    assert_eq!(header.bank_version, Some(0x0102));
    assert_eq!(
        (header.num_programs, header.num_zones, header.num_waves, header.num_sequences),
        (2, 3, 4, 5)
    );
    assert_eq!((header.num_labels, header.reverb_mode, header.reverb_depth), (6, 7, 8));

    let mut third = words(&[0x6153_4e44]);
    third.extend_from_slice(&halves(&[20]));
    third.extend_from_slice(&[0xee, 2]);
    third.extend_from_slice(&halves(&[3, 4, 5, 6, 7, 8]));
    let mut reader = ByteReader::new(&third);
    let header = SndHeader::parse(&mut reader, Version::Gex).unwrap();
    assert_eq!(reader.consumed(), 20);
    assert_eq!(header.header_size.size, 20);
    assert_eq!(header.bank_version, None);
    assert_eq!(
        (header.num_programs, header.num_zones, header.num_waves, header.num_sequences),
        (2, 3, 4, 5)
    );
    assert_eq!(Version::default(), Version::SoulReaver);
}

#[test]
fn snd_program_and_zone() {
    let bytes = [2, 1, 7, 0, 100, 64, 0xaa, 0xbb, 0xcc];
    let mut reader = ByteReader::new(&bytes);
    let program = SndProgram::parse(&mut reader).unwrap();
    assert_eq!(
        program,
        SndProgram { num_zones: 0x0102, first_tone: 7, volume: 100, pan_pos: 64 }
    );
    assert_eq!(reader.consumed(), 8);
    assert_eq!(SndProgram::parse(&mut reader), None);
    let old = unlokable::sound::SndProgram::parse(&mut ByteReader::new(&bytes));
    assert_eq!(old.num_zones, 0x0201);
    assert_eq!(old.first_tone, 0x0700);

    let mut bytes = vec![1, 2, 3, 4, 5, 6, 7, 8, 9, 10];
    bytes.extend_from_slice(&halves(&[0x1234, 0x5678, 0x00ff]));
    let zone = SndZone::parse(&mut ByteReader::new(&bytes)).unwrap();
    assert_eq!((zone.priority, zone.parent_program, zone.max_pitch_range), (1, 2, 10));
    assert_eq!((zone.adsr1, zone.adsr2, zone.wave_index), (0x1234, 0x5678, 0x0100));
    bytes[14] = 0xff;
    bytes[15] = 0xff;
    let zone = SndZone::parse(&mut ByteReader::new(&bytes)).unwrap();
    assert_eq!(zone.wave_index, 1);
    assert!(SndZone::parse(&mut ByteReader::new(&bytes[..15])).is_none());
}

#[test]
fn snd_file_tables() {
    let file = snd_file();
    assert!(can_parse(&file, Version::SoulReaver));
    let mut reader = ByteReader::new(&file);
    let snd = SndFile::parse(&mut reader, file.len() as u32, Version::SoulReaver).unwrap();
    assert_eq!(snd.header.header_size, HeaderSize { size: 44, original: Some(41) });
    assert_eq!(snd.programs.len(), 2);
    // The second program asks for more zones than are left.
    assert_eq!(snd.programs[0].num_zones, 2);
    assert_eq!(snd.programs[1].num_zones, 0);
    assert_eq!(snd.programs[1].first_tone, 9);
    assert_eq!(snd.zones.len(), 3);
    assert_eq!(snd.zones[1].wave_index, 2);
    assert_eq!(snd.zones[2].wave_index, 1);
    assert_eq!(snd.wave_offsets, vec![0, 0x80]);
    assert_eq!(snd.sequence_offsets, vec![0, 6]);
    assert_eq!(snd.labels, vec![0xabcd]);
    let start = (file.len() - 10) as u32;
    assert_eq!(
        snd.sequences,
        vec![Span { start, end: start + 6 }, Span { start: start + 6, end: file.len() as u32 }]
    );
    assert_eq!(reader.consumed(), file.len() - 10);

    let cut = &file[..file.len() - 11];
    assert!(can_parse(cut, Version::SoulReaver));
    assert!(SndFile::parse(&mut ByteReader::new(cut), cut.len() as u32, Version::SoulReaver).is_none());
    let mut wrong = file.clone();
    wrong[0] = 0;
    assert!(!can_parse(&wrong, Version::SoulReaver));
    let mut far = file.clone();
    far[4..8].copy_from_slice(&0x1000u32.to_le_bytes());
    assert!(!can_parse(&far, Version::SoulReaver));
    let mut backwards = snd_file();
    let waves = 44 + 16 + 48;
    backwards[waves + 4..waves + 8].copy_from_slice(&0x80u32.to_le_bytes());
    assert!(!can_parse(&backwards, Version::SoulReaver));
}

#[test]
fn sound_reads_whole_files() {
    let file = snd_file();
    assert!(unlokable::sound::can_parse(&file, Version::SoulReaver));
    let mut reader = ByteReader::new(&file);
    let snd = unlokable::sound::SndFile::parse(&mut reader, file.len() as u32, Version::SoulReaver);
    assert_eq!(snd.header.header_size, 44);
    assert_eq!(snd.programs[1].num_zones, 0x0200);
    assert_eq!(snd.zones.len(), 3);
    assert_eq!(snd.wave_offsets, vec![0, 0x80]);
    assert_eq!(snd.sequences.len(), 2);
    assert!(!unlokable::sound::can_parse(&file[..file.len() - 11], Version::SoulReaver));

    let smp = words(&[0x6153_4d50, 0x300, 0xdead_beef]);
    let mut reader = ByteReader::new(&smp);
    assert!(unlokable::sound::can_parse_smp(&snd, &reader));
    let parsed = unlokable::sound::SmpFile::parse(&snd, &mut reader, 0x308);
    assert_eq!(parsed.magic_number, Some(0x6153_4d50));
    assert_eq!(parsed.body_size, 0x300);
    assert_eq!(parsed.waves, vec![Span { start: 8, end: 0x88 }, Span { start: 0x88, end: 0x308 }]);
    assert!(!unlokable::sound::can_parse_smp(&snd, &ByteReader::new(&smp[..7])));
}

#[test]
fn smp_file_places_the_waves() {
    let file = snd_file();
    let snd = SndFile::parse(&mut ByteReader::new(&file), file.len() as u32, Version::SoulReaver).unwrap();

    let tagged = words(&[0x6153_4d50, 0x300, 0xdead_beef]);
    let mut reader = ByteReader::new(&tagged);
    assert!(can_parse_smp(&snd, &reader));
    let smp = SmpFile::parse(&snd, &mut reader, 0x308).unwrap();
    assert_eq!(smp.magic_number, Some(0x6153_4d50));
    assert_eq!(smp.body_size, 0x300);
    assert_eq!(smp.waves, vec![Span { start: 8, end: 0x88 }, Span { start: 0x88, end: 0x308 }]);
    assert_eq!(reader.consumed(), 8);

    let bare = words(&[0x300, 0xdead_beef]);
    let mut reader = ByteReader::new(&bare);
    let smp = SmpFile::parse(&snd, &mut reader, 0x304).unwrap();
    assert_eq!(smp.magic_number, None);
    assert_eq!(smp.body_size, 0x300);
    assert_eq!(smp.waves, vec![Span { start: 4, end: 0x84 }, Span { start: 0x84, end: 0x304 }]);
    assert_eq!(reader.consumed(), 4);

    assert!(SmpFile::parse(&snd, &mut ByteReader::new(&tagged[..6]), 6).is_none());
    assert!(SmpFile::parse(&snd, &mut ByteReader::new(&[1, 2, 3]), 3).is_none());
}
