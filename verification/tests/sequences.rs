use unlokable::demul::{can_parse_chunk, get_bytes, parse_u32, Chunk};
use unlokable::msqsplit::{can_convert, convert, MsqHeader};
use unlokable::reader::ByteReader;
use unlokable::seqrepeat::{can_repeat, find_loops, repeat_file, Args, Header, MAGIC};

/// A SEQ file of `len` bytes: the header, filler, and the given bytes at the
/// given places.
fn seq_file(len: usize, marks: &[(usize, &[u8])]) -> Vec<u8> {
    let mut file = vec![0x40u8; len];
    file[..15].copy_from_slice(&[0x70, 0x51, 0x45, 0x53, 0, 0, 0, 1, 0x01, 0xe0, 0x07, 0xa1, 0x20, 0x04, 0x02]);
    for (at, bytes) in marks {
        file[*at..*at + bytes.len()].copy_from_slice(bytes);
    }
    file
}

#[test]
fn with_loop_normal() {
    let args = Args {
        count: 3,
        tempo_marker: false,
        loop_marker: true,
    };
    let input = seq_file(259, &[(20, &[0xb0, 0x63, 0x14]), (251, &[0xb0, 0x63, 0x1e]), (255, &[0xff, 0x2f, 0x00])]);
    assert!(can_repeat(&input, &args));
    assert_eq!(repeat_file(&input, &args).unwrap().len(), 715);
}

#[test]
fn with_loop_tempo() {
    let args = Args {
        count: 3,
        tempo_marker: true,
        loop_marker: false,
    };
    let input = seq_file(
        250,
        &[(15, &[0xff, 0x51, 0x07, 0xa1, 0x20]), (100, &[0xb1, 0x63, 0x14]), (242, &[0xff, 0x2f, 0x00])],
    );
    assert!(can_repeat(&input, &args));
    assert_eq!(repeat_file(&input, &args).unwrap().len(), 699);
}

#[test]
fn no_loops() {
    let args = Args {
        count: 3,
        tempo_marker: true,
        loop_marker: false,
    };
    let input = seq_file(335, &[(332, &[0xff, 0x2f, 0x00])]);
    assert!(can_repeat(&input, &args));
    assert_eq!(repeat_file(&input, &args).unwrap().len(), 979);
}

#[test]
fn repeated_bytes_between_loop_markers() {
    let args = Args { count: 3, tempo_marker: false, loop_marker: true };
    let input = seq_file(
        32,
        &[(15, &[1, 2]), (17, &[0xb3, 0x63, 0x14, 9, 9, 9]), (23, &[0xaa, 0xbb]), (25, &[0xb3, 0x63, 0x1e]), (28, &[0xff, 0x2f, 0x00, 0x77])],
    );
    let output = repeat_file(&input, &args).unwrap();
    let mut expected = input[..23].to_vec();
    // Each pass ends with the loop-end marker; behind a pass that is not
    // the last, the marker is written anew on the channel of the loop start.
    expected.extend_from_slice(&[0xaa, 0xbb, 0xb3, 0x63, 0x1e]);
    expected.extend_from_slice(&[0xaa, 0xbb, 0xb3, 0x63, 0x1e]);
    expected.extend_from_slice(&[0xaa, 0xbb, 0xb3, 0x63, 0x1e]);
    expected.extend_from_slice(&[0xff, 0x2f, 0x00, 0x77]);
    assert_eq!(output, expected);
    assert_eq!(find_loops(&input), (Some(17), Some(25)));
}

#[test]
fn repeated_bytes_up_to_the_terminator() {
    let args = Args { count: 2, tempo_marker: false, loop_marker: false };
    let input = seq_file(22, &[(15, &[1, 2, 3]), (18, &[0xff, 0x2f, 0x00]), (21, &[0x99])]);
    let output = repeat_file(&input, &args).unwrap();
    let mut expected = input[..15].to_vec();
    expected.extend_from_slice(&[1, 2, 3, 0xff, 0x51, 0x07, 0xa1, 0x20]);
    expected.extend_from_slice(&[1, 2, 3, 0xff, 0x2f, 0x00]);
    assert_eq!(output, expected);

    let looping = Args { count: 2, tempo_marker: false, loop_marker: true };
    let output = repeat_file(&input, &looping).unwrap();
    let mut expected = input[..15].to_vec();
    expected.extend_from_slice(&[1, 2, 3, 0xb0, 0x63, 0x1e]);
    expected.extend_from_slice(&[1, 2, 3, 0xff, 0x2f, 0x00]);
    assert_eq!(output, expected);
}

#[test]
fn other_files_are_not_repeated() {
    let args = Args { count: 3, tempo_marker: false, loop_marker: true };
    let mut input = seq_file(40, &[(30, &[0xff, 0x2f, 0x00])]);
    input[0] = 0x71;
    assert!(can_repeat(&input, &args));
    assert_eq!(repeat_file(&input, &args), None);
    let short = seq_file(15, &[]);
    assert!(can_repeat(&short[..14], &args));
    assert_eq!(repeat_file(&short[..14], &args), None);
}

#[test]
fn files_that_cannot_be_cut_are_told() {
    let args = Args { count: 3, tempo_marker: false, loop_marker: false };
    let no_end = seq_file(40, &[]);
    assert!(!can_repeat(&no_end, &args));
    let early_end = seq_file(40, &[(4, &[0xff, 0x2f, 0x00])]);
    assert!(!can_repeat(&early_end, &args));
    let tempo = Args { count: 3, tempo_marker: true, loop_marker: false };
    let late_tempo = seq_file(40, &[(20, &[0xff, 0x2f, 0x00]), (37, &[0xff, 0x51])]);
    assert!(!can_repeat(&late_tempo, &tempo));
    let looping = Args { count: 3, tempo_marker: false, loop_marker: true };
    let end_first = seq_file(40, &[(16, &[0xb0, 0x63, 0x1e]), (20, &[0xb0, 0x63, 0x14])]);
    assert!(!can_repeat(&end_first, &looping));
    let none = Args { count: 0, tempo_marker: false, loop_marker: false };
    assert!(!can_repeat(&seq_file(40, &[(30, &[0xff, 0x2f, 0x00])]), &none));
}

#[test]
fn seq_header_and_dummy_bytes() {
    let input = seq_file(20, &[(16, &[0xb5, 0x63, 0x14])]);
    let mut reader = ByteReader::new(&input);
    let header = Header::load(&mut reader).unwrap();
    assert_eq!(reader.consumed(), 15);
    assert_eq!(header.magic, MAGIC);
    assert_eq!(header.tempo, [0x07, 0xa1, 0x20]);
    assert_eq!(header._version, 0x0100_0000);
    assert_eq!(header._ppqn, 0xe001);
    assert_eq!(header._time_signature, 0x0204);
    assert_eq!(header.dummy_string(&input, true, Some(16)), vec![0xb5, 0x63, 0x1e]);
    assert_eq!(header.dummy_string(&input, true, None), vec![0xb0, 0x63, 0x1e]);
    assert_eq!(header.dummy_string(&input, false, None), vec![0xff, 0x51, 0x07, 0xa1, 0x20]);
    assert!(Header::load(&mut ByteReader::new(&input[..14])).is_none());
}

#[test]
fn last_loop_markers_count() {
    let input = [0xb0, 0x63, 0x14, 0xbf, 0x63, 0x14, 0xc0, 0x63, 0x14, 0xb2, 0x63, 0x1e, 0xb2, 0x63];
    assert_eq!(find_loops(&input), (Some(3), Some(9)));
    assert_eq!(find_loops(&[0xb0, 0x63]), (None, None));
    assert_eq!(find_loops(&[]), (None, None));
}

fn msq_file() -> Vec<u8> {
    let mut file = vec![0x51, 0x53, 0x4d, 0x61];
    file.extend_from_slice(&500_000u32.to_le_bytes());
    file.extend_from_slice(&480u16.to_le_bytes());
    file.extend_from_slice(&0x0102u16.to_le_bytes());
    file.extend_from_slice(&3u16.to_le_bytes());
    file.extend_from_slice(&0u16.to_le_bytes());
    for offset in [28u32, 31, 31] {
        file.extend_from_slice(&offset.to_le_bytes());
    }
    file.extend_from_slice(&[1, 2, 3, 4, 5]);
    file
}

#[test]
fn msq_tracks_are_split() {
    let file = msq_file();
    assert!(can_convert(&file));
    let (header, tracks) = convert(file.clone()).unwrap();
    assert_eq!(
        header,
        MsqHeader {
            magic: 0x614d_5351,
            quarter_note_time: 500_000,
            ppqn: 480,
            version: 0x0102,
            num_tracks: 3,
            _padding: 0
        }
    );
    assert_eq!(tracks, vec![vec![1, 2, 3], vec![], vec![4, 5]]);
    assert_eq!(unlokable::sequence::convert(file), tracks);
}

#[test]
fn msq_files_that_cannot_be_split() {
    assert!(can_convert(&[0x51, 0x53]));
    assert_eq!(convert(vec![0x51, 0x53]), None);
    let mut wrong = msq_file();
    wrong[0] = 0x50;
    assert!(!can_convert(&wrong));
    let mut backwards = msq_file();
    backwards[20..24].copy_from_slice(&20u32.to_le_bytes());
    assert!(!can_convert(&backwards));
    let mut beyond = msq_file();
    beyond[24..28].copy_from_slice(&99u32.to_le_bytes());
    assert!(!can_convert(&beyond));
    let file = msq_file();
    assert!(!can_convert(&file[..26]));
    // A table cut between two entries counts the entries it holds.
    let cut = &file[..24];
    assert!(!can_convert(cut));
    let mut cds = msq_file();
    cds[1] = 0x45;
    cds[2] = 0x53;
    assert!(can_convert(&cds));
}

#[test]
fn sequence_header() {
    let file = msq_file();
    let header = unlokable::sequence::MsqHeader::parse(&mut ByteReader::new(&file));
    assert_eq!(header.magic, 0x614d_5351);
    assert_eq!(header.num_tracks, 3);
    assert_eq!(header.padding, 0);
    assert!(MsqHeader::parse(&mut ByteReader::new(&file[..15])).is_none());
}

#[test]
fn mul_chunks() {
    let mut stream = vec![];
    stream.extend_from_slice(&0u32.to_le_bytes());
    stream.extend_from_slice(&48u32.to_le_bytes());
    stream.extend_from_slice(&[0xee; 24]);
    stream.extend_from_slice(&[7; 32]);
    stream.extend_from_slice(&1u32.to_le_bytes());
    stream.extend_from_slice(&3u32.to_le_bytes());
    stream.extend_from_slice(&[0xee; 8]);
    stream.extend_from_slice(&[8; 3]);
    stream.extend_from_slice(&2u32.to_le_bytes());
    stream.extend_from_slice(&5u32.to_le_bytes());
    stream.extend_from_slice(&[0xee; 8]);
    stream.extend_from_slice(&[0; 5]);
    stream.extend_from_slice(&[1, 0]);

    let mut body = &stream[..];
    assert!(can_parse_chunk(body));
    assert_eq!(Chunk::parse(&mut body), Some(Chunk::Audio { size: 32 }));
    assert_eq!(get_bytes(&mut body, 32), &[7; 32]);
    assert!(can_parse_chunk(body));
    assert_eq!(Chunk::parse(&mut body), Some(Chunk::Data { size: 3 }));
    assert_eq!(get_bytes(&mut body, 3), &[8; 3]);
    assert_eq!(Chunk::parse(&mut body), Some(Chunk::Padding { size: 5 }));
    assert_eq!(get_bytes(&mut body, 5), &[0; 5]);
    assert!(can_parse_chunk(body));
    assert_eq!(Chunk::parse(&mut body), None);
    assert_eq!(body, &[1, 0]);
}

#[test]
fn mul_chunks_that_cannot_be_read() {
    assert!(!can_parse_chunk(&[3, 0, 0, 0]));
    assert!(can_parse_chunk(&[2, 0, 0, 0, 1]));
    let mut body: &[u8] = &[2, 0, 0, 0, 1];
    assert_eq!(Chunk::parse(&mut body), None);
    assert_eq!(body, &[1]);
    let mut small = vec![];
    small.extend_from_slice(&0u32.to_le_bytes());
    small.extend_from_slice(&15u32.to_le_bytes());
    small.extend_from_slice(&[0; 24]);
    assert!(!can_parse_chunk(&small));
    small[4] = 16;
    assert!(can_parse_chunk(&small));
    assert!(!can_parse_chunk(&small[..31]));
    let mut data = vec![];
    data.extend_from_slice(&1u32.to_le_bytes());
    data.extend_from_slice(&0u32.to_le_bytes());
    data.extend_from_slice(&[0; 7]);
    assert!(!can_parse_chunk(&data));
}

#[test]
fn words_and_bytes_off_the_front() {
    let bytes = [0x78, 0x56, 0x34, 0x12, 9, 8, 7];
    let mut rest = &bytes[..];
    assert_eq!(parse_u32(&mut rest), Some(0x1234_5678));
    assert_eq!(rest, &[9, 8, 7]);
    assert_eq!(parse_u32(&mut rest), None);
    assert_eq!(rest, &[9, 8, 7]);
    assert_eq!(get_bytes(&mut rest, 2), &[9, 8]);
    assert_eq!(rest, &[7]);
    assert_eq!(get_bytes(&mut rest, 0), &[] as &[u8]);
}
