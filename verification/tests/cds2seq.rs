use unlokable::cds2seq::assemble::{assemble, find_terminator};
use unlokable::cds2seq::convert::convert;
use unlokable::cds2seq::dictionary::{
    classify, count_sentinels, dictionary, tempo_of, MessageClass,
};
use unlokable::cds2seq::error::ConvertError;
use unlokable::cds2seq::header::{Header, CDS_MAGIC, MSQ_MAGIC};
use unlokable::cds2seq::lexeme::{lex_file, write_lexeme, Lexeme};
use unlokable::cds2seq::token::{balance, count_loops, parse_file, Token};
use unlokable::cds2seq::unroll::{collapse_repeats, unroll};

const SENTINEL: [u8; 3] = [0xff, 0x2f, 0x00];

fn cds_header(quarter_note_time: u32, ppqn: u16) -> Vec<u8> {
    let mut bytes = vec![0x51, 0x45, 0x53, 0x61];
    bytes.extend_from_slice(&quarter_note_time.to_le_bytes());
    bytes.extend_from_slice(&ppqn.to_be_bytes());
    bytes.extend_from_slice(&[0x00, 0x01]);
    bytes
}

fn flatten(lexemes: &[Lexeme], out: &mut Vec<u8>) {
    for lexeme in lexemes {
        match lexeme {
            Lexeme::Data(bytes) => out.extend_from_slice(bytes),
            Lexeme::Loop(_, body) => flatten(body, out),
        }
    }
}

fn kinds(tokens: &[Token]) -> Vec<String> {
    tokens
        .iter()
        .map(|token| match token {
            Token::LoopStart(count) => format!("start {count}"),
            Token::Data(bytes) => format!("data {bytes:02x?}"),
            Token::LoopFinish => "finish".to_string(),
            Token::GlobalEnding => "ending".to_string(),
        })
        .collect()
}

#[test]
fn header_fields_are_read() {
    let mut file = cds_header(0x0003_0d40, 0x0001);
    file.extend_from_slice(&SENTINEL);
    let header = Header::parse(&file).unwrap();
    assert_eq!(header.magic, CDS_MAGIC);
    assert_eq!(header.quarter_note_time, 0x0003_0d40);
    assert_eq!(header.ppqn, 0x0001);
    assert_eq!(header.version, 0x0001);
}

#[test]
fn header_accepts_both_tags() {
    let mut file = cds_header(500_000, 480);
    file[1] = 0x53;
    file[2] = 0x4d;
    let header = Header::parse(&file).unwrap();
    assert_eq!(header.magic, MSQ_MAGIC);
    assert_eq!(header.quarter_note_time, 500_000);
    assert_eq!(header.ppqn, 480);
}

#[test]
fn header_with_wrong_tag_is_malformed() {
    let mut file = cds_header(500_000, 480);
    file[0] = 0x52;
    assert_eq!(Header::parse(&file), Err(ConvertError::MalformedHeader));
    file.extend_from_slice(&[0xff, 0x2e]);
    assert_eq!(convert(&file), Err(ConvertError::MalformedHeader));
}

#[test]
fn short_header_is_truncated() {
    let file = cds_header(500_000, 480);
    assert_eq!(Header::parse(&file[..11]), Err(ConvertError::TruncatedBuffer));
    assert_eq!(Header::parse(&[]), Err(ConvertError::TruncatedBuffer));
    assert_eq!(convert(&file[..5]), Err(ConvertError::TruncatedBuffer));
}

#[test]
fn seq_prefix_layout() {
    let header = Header::parse(&cds_header(0x0003_0d40, 0x01e0)).unwrap();
    assert_eq!(
        header.seq_prefix(),
        vec![0x70, 0x51, 0x45, 0x53, 0, 0, 0, 1, 0xe0, 0x01, 0x03, 0x0d, 0x40, 0x04, 0x02]
    );
}

#[test]
fn tempo_is_the_low_three_bytes() {
    assert_eq!(tempo_of(0x0003_0d40), [0x03, 0x0d, 0x40]);
    assert_eq!(tempo_of(0xaabb_ccdd), [0xbb, 0xcc, 0xdd]);
    assert_eq!(tempo_of(0), [0, 0, 0]);
}

#[test]
fn tokenizer_finds_markers_and_runs() {
    let body = [0x90, 0x40, 0xff, 0x2e, 0x01, 0x05, 0x7f, 0xff, 0x2f, 0x00, 0xff, 0x44, 0x00, 0x01];
    let tokens = parse_file(&body).unwrap();
    assert_eq!(
        kinds(&tokens),
        vec!["data [90, 40]", "start 5", "data [7f]", "finish", "ending", "data [01]"]
    );
}

#[test]
fn tokenizer_takes_unknown_lead_as_data() {
    let body = [0xff, 0x51, 0x01, 0xff, 0x2e, 0x02, 0xff, 0x2f, 0x01, 0xff, 0x44, 0x09];
    let tokens = parse_file(&body).unwrap();
    assert_eq!(tokens.len(), 1);
    match tokens[0] {
        Token::Data(bytes) => assert_eq!(bytes, &body[..]),
        _ => panic!("one data token is owed"),
    }
}

#[test]
fn tokenizer_of_nothing() {
    assert!(parse_file(&[]).unwrap().is_empty());
}

#[test]
fn tokenizer_refuses_cut_marker() {
    assert_eq!(parse_file(&[0x01, 0xff]).err(), Some(ConvertError::TruncatedBuffer));
    assert_eq!(parse_file(&[0xff, 0x2e]).err(), Some(ConvertError::TruncatedBuffer));
    assert_eq!(parse_file(&[0xff, 0x2e, 0x01]).err(), Some(ConvertError::TruncatedBuffer));
    assert_eq!(parse_file(&[0xff, 0x2f]).err(), Some(ConvertError::TruncatedBuffer));
    assert_eq!(parse_file(&[0xff, 0x44]).err(), Some(ConvertError::TruncatedBuffer));
    assert!(parse_file(&[0xff, 0x30]).is_ok());
    assert!(parse_file(&[0xff, 0x2e, 0x02]).is_ok());
}

#[test]
fn tokens_cover_the_body() {
    let body = [0x01, 0xff, 0x2e, 0x01, 0x03, 0x02, 0x03, 0xff, 0x2f, 0x00, 0xff, 0x44, 0x00];
    let tokens = parse_file(&body).unwrap();
    let mut again = vec![];
    for token in &tokens {
        match token {
            Token::LoopStart(count) => again.extend_from_slice(&[0xff, 0x2e, 0x01, *count]),
            Token::Data(bytes) => again.extend_from_slice(bytes),
            Token::LoopFinish => again.extend_from_slice(&[0xff, 0x2f, 0x00]),
            Token::GlobalEnding => again.extend_from_slice(&[0xff, 0x44, 0x00]),
        }
    }
    assert_eq!(again, body);
}

#[test]
fn balancing_adds_missing_starts_in_front() {
    let body = [0x90, 0xff, 0x2f, 0x00, 0x91, 0xff, 0x2f, 0x00];
    let mut tokens = parse_file(&body).unwrap();
    balance(&mut tokens);
    assert_eq!(
        kinds(&tokens),
        vec![
            "data [00]", "start 0", "data [00]", "start 0", "data [90]", "finish", "data [91]",
            "finish"
        ]
    );
    assert_eq!(count_loops(&tokens), (2, 2));
}

#[test]
fn balancing_adds_missing_finishes_before_the_last_token() {
    let body = [0xff, 0x2e, 0x01, 0x02, 0xff, 0x2e, 0x01, 0x03, 0x90, 0xff, 0x44, 0x00];
    let mut tokens = parse_file(&body).unwrap();
    balance(&mut tokens);
    assert_eq!(
        kinds(&tokens),
        vec![
            "start 2", "start 3", "data [90]", "data [00]", "finish", "data [00]", "finish",
            "ending"
        ]
    );
    assert_eq!(count_loops(&tokens), (2, 2));
}

#[test]
fn balancing_leaves_balanced_tokens() {
    let body = [0xff, 0x2e, 0x01, 0x02, 0x90, 0xff, 0x2f, 0x00];
    let mut tokens = parse_file(&body).unwrap();
    balance(&mut tokens);
    assert_eq!(kinds(&tokens), vec!["start 2", "data [90]", "finish"]);
    let mut none: Vec<Token> = vec![];
    balance(&mut none);
    assert!(none.is_empty());
}

#[test]
fn lexer_pairs_innermost_first() {
    let tokens = [
        Token::Data(&[1]),
        Token::LoopStart(2),
        Token::Data(&[2]),
        Token::LoopStart(3),
        Token::Data(&[3]),
        Token::LoopFinish,
        Token::GlobalEnding,
        Token::LoopFinish,
        Token::Data(&[4]),
    ];
    let lexemes = lex_file(&tokens).unwrap();
    assert_eq!(lexemes.len(), 3);
    match &lexemes[0] {
        Lexeme::Data(bytes) => assert_eq!(bytes, &vec![1]),
        _ => panic!("data is owed"),
    }
    match &lexemes[1] {
        Lexeme::Loop(count, body) => {
            assert_eq!(*count, 2);
            assert_eq!(body.len(), 3);
            match &body[0] {
                Lexeme::Data(bytes) => assert_eq!(bytes, &vec![2]),
                _ => panic!("data is owed"),
            }
            match &body[1] {
                Lexeme::Loop(count, inner) => {
                    assert_eq!(*count, 3);
                    assert_eq!(inner.len(), 1);
                }
                _ => panic!("a loop is owed"),
            }
            match &body[2] {
                Lexeme::Data(bytes) => assert_eq!(bytes, &vec![0xff, 0x44, 0x00]),
                _ => panic!("data is owed"),
            }
        }
        _ => panic!("a loop is owed"),
    }
    match &lexemes[2] {
        Lexeme::Data(bytes) => assert_eq!(bytes, &vec![4]),
        _ => panic!("data is owed"),
    }
}

#[test]
fn lexer_refuses_unpaired_finish() {
    let tokens = [Token::Data(&[1]), Token::LoopFinish, Token::LoopStart(2)];
    assert_eq!(lex_file(&tokens).err(), Some(ConvertError::UnpairedLoopTerminator));
}

#[test]
fn unpaired_finish_stops_the_conversion() {
    // After balancing, the finish still comes before its start.
    let mut file = cds_header(500_000, 480);
    file.extend_from_slice(&[0x90, 0xff, 0x2f, 0x00, 0xff, 0x2e, 0x01, 0x02, 0x91]);
    let tokens = parse_file(&file[12..]).unwrap();
    assert_eq!(lex_file(&tokens).err(), Some(ConvertError::UnpairedLoopTerminator));
    assert_eq!(convert(&file), Err(ConvertError::UnpairedLoopTerminator));
}

#[test]
fn loop_of_three_is_written_three_times() {
    let data = vec![0x90, 0x40, 0x7f];
    let lexeme = Lexeme::Loop(3, vec![Lexeme::Data(data.clone())]);
    let mut out = vec![];
    let infinite = write_lexeme(&mut out, &lexeme);
    let mut expected = vec![];
    for _ in 0..3 {
        expected.extend_from_slice(&data);
        expected.extend_from_slice(&SENTINEL);
    }
    assert_eq!(out, expected);
    assert!(!infinite);
}

#[test]
fn endless_loop_is_written_once() {
    let data = vec![0x90, 0x40, 0x7f];
    let lexeme = Lexeme::Loop(0, vec![Lexeme::Data(data.clone())]);
    let mut out = vec![0x11];
    let infinite = write_lexeme(&mut out, &lexeme);
    assert_eq!(out, vec![0x11, 0x90, 0x40, 0x7f, 0xff, 0x2f, 0x00]);
    assert!(infinite);
}

#[test]
fn nested_loops_multiply() {
    let inner = Lexeme::Loop(2, vec![Lexeme::Data(vec![0xaa])]);
    let outer = Lexeme::Loop(2, vec![Lexeme::Data(vec![0xbb]), inner]);
    let (out, infinite) = unroll(&vec![outer, Lexeme::Data(vec![0xcc])]);
    let once = [0xbb, 0xaa, 0xff, 0x2f, 0x00, 0xaa, 0xff, 0x2f, 0x00, 0xff, 0x2f, 0x00];
    let mut expected = vec![];
    expected.extend_from_slice(&once);
    expected.extend_from_slice(&once);
    expected.push(0xcc);
    assert_eq!(out, expected);
    assert!(!infinite);
}

#[test]
fn endless_loop_inside_a_loop_is_flagged() {
    let inner = Lexeme::Loop(0, vec![Lexeme::Data(vec![0xaa])]);
    let outer = Lexeme::Loop(1, vec![inner]);
    let (out, infinite) = unroll(&vec![outer]);
    assert_eq!(out, vec![0xaa, 0xff, 0x2f, 0x00, 0xff, 0x2f, 0x00]);
    assert!(infinite);
}

#[test]
fn repeat_opcode_collapses_to_terminator() {
    let mut stream = vec![0x01, 0xff, 0x32, 0x01, 0x09, 0x02, 0xff, 0x32, 0x02];
    assert_eq!(collapse_repeats(&mut stream), Ok(true));
    assert_eq!(stream, vec![0x01, 0xff, 0x2f, 0x00, 0x02, 0xff, 0x32, 0x02]);
    let mut plain = vec![0x01, 0x02, 0xff, 0x2f, 0x00];
    assert_eq!(collapse_repeats(&mut plain), Ok(false));
    assert_eq!(plain, vec![0x01, 0x02, 0xff, 0x2f, 0x00]);
}

#[test]
fn cut_repeat_opcode_is_refused() {
    for cut in [vec![0x01, 0xff], vec![0xff, 0x32], vec![0xff, 0x32, 0x01]] {
        let mut stream = cut.clone();
        assert_eq!(collapse_repeats(&mut stream), Err(ConvertError::TruncatedBuffer));
        assert_eq!(stream, cut);
    }
}

#[test]
fn classes_of_the_dictionary() {
    let class = |bytes: &[u8]| classify(bytes, 0);
    assert_eq!(class(&[0x90, 0x40, 0x7f]), MessageClass::Plain);
    assert_eq!(class(&[0xff, 0xf1, 0x04]), MessageClass::Message(7));
    assert_eq!(class(&[0xff, 0x39, 0x03]), MessageClass::Message(6));
    assert_eq!(class(&[0xff, 0x3f, 0x03]), MessageClass::Message(6));
    assert_eq!(class(&[0xff, 0x4c, 0x02]), MessageClass::Message(5));
    assert_eq!(class(&[0xff, 0x36, 0x02]), MessageClass::Message(5));
    assert_eq!(class(&[0xff, 0x2e, 0x01]), MessageClass::Message(4));
    assert_eq!(class(&[0xff, 0x31, 0x01]), MessageClass::Message(4));
    assert_eq!(class(&[0xff, 0x03, 0x00]), MessageClass::Message(3));
    assert_eq!(class(&[0xff, 0x49, 0x00, 0x01]), MessageClass::Message(3));
    assert_eq!(class(&[0xff, 0x49, 0x00, 0xff]), MessageClass::Plain);
    assert_eq!(class(&[0xff, 0x05, 0x03]), MessageClass::Tempo);
    assert_eq!(class(&[0xff, 0x2f, 0x00]), MessageClass::Sentinel);
    assert_eq!(class(&[0xff, 0x44, 0x00]), MessageClass::Sentinel);
    assert_eq!(class(&[0xff, 0xf0, 0x02]), MessageClass::Message(5));
    assert_eq!(class(&[0xff, 0xf0, 0xff]), MessageClass::Message(258));
    assert_eq!(class(&[0xff, 0x51, 0x03]), MessageClass::Plain);
    assert_eq!(class(&[0xff, 0x2f, 0x01]), MessageClass::Plain);
}

#[test]
fn sentinels_are_counted_wherever_they_stand() {
    assert_eq!(count_sentinels(&[]), 0);
    assert_eq!(count_sentinels(&[0xff, 0x2f]), 0);
    assert_eq!(count_sentinels(&[0xff, 0x2f, 0x00]), 1);
    assert_eq!(
        count_sentinels(&[0xff, 0xf1, 0x04, 0xff, 0x44, 0x00, 0x01, 0xff, 0x2f, 0x00]),
        2
    );
}

#[test]
fn only_the_last_sentinel_survives() {
    let mut stream = vec![0x90, 0x40, 0x7f, 0xff, 0x2f, 0x00, 0x90, 0x40, 0x7f, 0xff, 0x2f, 0x00];
    assert_eq!(dictionary(&mut stream, 0x0003_0d40, false), Ok(()));
    assert_eq!(
        stream,
        vec![
            0x90, 0x40, 0x7f, 0x51, 0xff, 0x03, 0x0d, 0x40, 0x90, 0x40, 0x7f, 0xff, 0x2f, 0x00
        ]
    );
}

#[test]
fn endless_loop_keeps_the_sentinel_before_the_last() {
    let mut stream = vec![0x01, 0xff, 0x2f, 0x00, 0x02, 0xff, 0x2f, 0x00, 0x03, 0xff, 0x44, 0x00];
    assert_eq!(dictionary(&mut stream, 0x0000_0001, true), Ok(()));
    assert_eq!(
        stream,
        vec![
            0x01, 0x51, 0xff, 0x00, 0x00, 0x01, 0x02, 0xff, 0x2f, 0x00, 0x03, 0x51, 0xff, 0x00,
            0x00, 0x01
        ]
    );
}

#[test]
fn global_ending_is_normalised_when_kept() {
    let mut stream = vec![0x01, 0xff, 0x44, 0x00];
    assert_eq!(dictionary(&mut stream, 7, false), Ok(()));
    assert_eq!(stream, vec![0x01, 0xff, 0x2f, 0x00]);
}

#[test]
fn sole_terminator_is_kept() {
    let mut stream = vec![0x90, 0xff, 0x4c, 0x02, 0x01, 0x02, 0x91, 0xff, 0x2f, 0x00];
    assert_eq!(count_sentinels(&stream), 1);
    assert_eq!(dictionary(&mut stream, 0x0012_3456, false), Ok(()));
    assert_eq!(
        stream,
        vec![0x90, 0x51, 0xff, 0x12, 0x34, 0x56, 0x91, 0xff, 0x2f, 0x00]
    );
    let once = stream.clone();
    assert_eq!(dictionary(&mut stream, 0x0012_3456, false), Ok(()));
    assert_eq!(stream, once);
}

#[test]
fn tempo_message_becomes_tempo_prefix() {
    let mut stream = vec![0x01, 0xff, 0x05, 0x03, 0x0a, 0x0b, 0x0c, 0xff, 0x2f, 0x00];
    assert_eq!(dictionary(&mut stream, 9, false), Ok(()));
    assert_eq!(stream, vec![0x01, 0xff, 0x51, 0x0a, 0x0b, 0x0c, 0xff, 0x2f, 0x00]);
    let mut at_end = vec![0xff, 0x05, 0x03, 0x0a];
    assert_eq!(dictionary(&mut at_end, 9, false), Ok(()));
    assert_eq!(at_end, vec![0xff, 0x51, 0x0a]);
}

#[test]
fn messages_become_placeholders() {
    let mut stream = vec![
        0xff, 0xf1, 0x04, 1, 2, 3, 4, 0xff, 0xf0, 0x01, 9, 0xff, 0x03, 0x00, 0x55, 0xff, 0x2f,
        0x00, 0x77,
    ];
    assert_eq!(dictionary(&mut stream, 0x00a1_b2c3, false), Ok(()));
    let placeholder = [0x51, 0xff, 0xa1, 0xb2, 0xc3];
    let mut expected = vec![];
    expected.extend_from_slice(&placeholder);
    expected.extend_from_slice(&placeholder);
    expected.extend_from_slice(&placeholder);
    expected.extend_from_slice(&[0x55, 0xff, 0x2f, 0x00, 0x77]);
    assert_eq!(stream, expected);
}

#[test]
fn short_streams_are_copied() {
    for stream in [vec![], vec![0xff], vec![0xff, 0x2f]] {
        let mut copy = stream.clone();
        assert_eq!(dictionary(&mut copy, 1, false), Ok(()));
        assert_eq!(copy, stream);
    }
}

#[test]
fn cut_message_is_refused() {
    let cut = vec![0x01, 0xff, 0xf1, 0x04, 0x00];
    let mut stream = cut.clone();
    assert_eq!(dictionary(&mut stream, 1, false), Err(ConvertError::TruncatedBuffer));
    assert_eq!(stream, cut);
}

#[test]
fn first_terminator_ends_the_output() {
    let header = Header::parse(&cds_header(0x0003_0d40, 1)).unwrap();
    let body = [0x01, 0xff, 0x2f, 0x00, 0x02, 0xff, 0x2f, 0x00];
    assert_eq!(find_terminator(&body), Some(1));
    let out = assemble(&header, &body).unwrap();
    assert_eq!(out.len(), 15 + 4);
    assert_eq!(&out[15..], &[0x01, 0xff, 0x2f, 0x00]);
    assert_eq!(&out[..15], &header.seq_prefix()[..]);
}

#[test]
fn missing_terminator_is_refused() {
    let header = Header::parse(&cds_header(0x0003_0d40, 1)).unwrap();
    assert_eq!(find_terminator(&[0xff, 0x2f]), None);
    assert_eq!(assemble(&header, &[0x01, 0x02, 0xff, 0x44, 0x00]), Err(ConvertError::NoTerminatorFound));
    let file = cds_header(500_000, 480);
    assert_eq!(convert(&file), Err(ConvertError::NoTerminatorFound));
}

#[test]
fn loop_of_two_is_converted() {
    let mut file = cds_header(0x0003_0d40, 0x0001);
    file.extend_from_slice(&[0xff, 0x2e, 0x01, 0x02, 0x90, 0x40, 0x7f, 0xff, 0x2f, 0x00]);

    let mut tokens = parse_file(&file[12..]).unwrap();
    balance(&mut tokens);
    let lexemes = lex_file(&tokens).unwrap();
    let (mut unrolled, infinite) = unroll(&lexemes);
    assert_eq!(
        unrolled,
        vec![0x90, 0x40, 0x7f, 0xff, 0x2f, 0x00, 0x90, 0x40, 0x7f, 0xff, 0x2f, 0x00]
    );
    assert!(!infinite);
    assert_eq!(collapse_repeats(&mut unrolled), Ok(false));
    assert_eq!(dictionary(&mut unrolled, 0x0003_0d40, false), Ok(()));
    assert_eq!(&unrolled[3..5], &[0x51, 0xff]);
    assert_eq!(unrolled.len(), 14);
    assert_eq!(&unrolled[11..], &SENTINEL);

    let out = convert(&file).unwrap();
    let mut expected = vec![0x70, 0x51, 0x45, 0x53, 0, 0, 0, 1, 0x01, 0x00, 0x03, 0x0d, 0x40, 0x04, 0x02];
    expected.extend_from_slice(&[0x90, 0x40, 0x7f, 0x51, 0xff, 0x03, 0x0d, 0x40]);
    expected.extend_from_slice(&[0x90, 0x40, 0x7f, 0xff, 0x2f, 0x00]);
    assert_eq!(out, expected);
}

#[test]
fn implicit_file_loop_is_converted() {
    let mut file = cds_header(0x0007_a120, 0x01e0);
    file.extend_from_slice(&[0x90, 0x40, 0x7f, 0xff, 0x2f, 0x00, 0xff, 0x44, 0x00]);
    let out = convert(&file).unwrap();
    // One start is put in front, behind its zero byte.  The loop never
    // ends, so the sentinel before the last is the terminator.
    let mut expected = vec![0x70, 0x51, 0x45, 0x53, 0, 0, 0, 1, 0xe0, 0x01, 0x07, 0xa1, 0x20, 0x04, 0x02];
    expected.extend_from_slice(&[0x00, 0x90, 0x40, 0x7f, 0xff, 0x2f, 0x00]);
    assert_eq!(out, expected);
}

#[test]
fn lone_endless_loop_has_no_terminator() {
    // The only sentinel is the last one, and with an endless loop the one
    // before the last is kept.
    let mut file = cds_header(0x0007_a120, 0x01e0);
    file.extend_from_slice(&[0x90, 0x40, 0x7f, 0xff, 0x2f, 0x00]);
    assert_eq!(convert(&file), Err(ConvertError::NoTerminatorFound));
}

#[test]
fn repeat_opcode_flags_an_endless_loop() {
    let mut file = cds_header(0x0003_0d40, 0x0001);
    file.extend_from_slice(&[0x90, 0xff, 0x32, 0x01, 0x05, 0x91, 0xff, 0x44, 0x00]);
    let out = convert(&file).unwrap();
    assert_eq!(&out[15..], &[0x90, 0xff, 0x2f, 0x00]);
}

#[test]
fn round_trip_without_loops() {
    let lexemes = vec![
        Lexeme::Data(vec![0x90, 0x40]),
        Lexeme::Data(vec![0xff, 0x44, 0x00]),
        Lexeme::Data(vec![0x7f, 0xff, 0x51]),
    ];
    let mut direct = vec![];
    flatten(&lexemes, &mut direct);
    let (written, _) = unroll(&lexemes);
    let tokens = parse_file(&written).unwrap();
    let again = lex_file(&tokens).unwrap();
    let mut round = vec![];
    flatten(&again, &mut round);
    assert_eq!(round, direct);
}

#[test]
fn tree_as_text() {
    let inner = Lexeme::Loop(0, vec![Lexeme::Data(vec![0x0a])]);
    let outer = Lexeme::Loop(12, vec![Lexeme::Data(vec![0x90, 0x40, 0xff]), inner]);
    assert_eq!(
        outer.visualise(1),
        Some("\tLoop: 12x\n\t\tData: 0x90 .. 0xff\n\t\tLoop: 0x\n\t\t\tData: 0x0a .. 0x0a\n".to_string())
    );
    assert_eq!(Lexeme::Data(vec![0x01, 0x02]).visualise(0), Some("Data: 0x01 .. 0x02\n".to_string()));
    assert_eq!(Lexeme::Loop(3, vec![]).visualise(0), Some("Loop: 3x\n".to_string()));
    assert_eq!(Lexeme::Data(vec![]).visualise(0), None);
    assert_eq!(Lexeme::Loop(1, vec![Lexeme::Data(vec![])]).visualise(0), None);
    assert_eq!(Lexeme::Loop(1, vec![]).visualise(usize::MAX), None);
}

#[test]
fn trees_keep_the_event_bytes() {
    let body = [
        0x01, 0xff, 0x2e, 0x01, 0x03, 0x02, 0xff, 0x2e, 0x01, 0x00, 0x03, 0xff, 0x2f, 0x00, 0xff,
        0x44, 0x00, 0xff, 0x2f, 0x00, 0x04,
    ];
    let tokens = parse_file(&body).unwrap();
    let lexemes = lex_file(&tokens).unwrap();
    let mut bytes = vec![];
    flatten(&lexemes, &mut bytes);
    assert_eq!(bytes, vec![0x01, 0x02, 0x03, 0xff, 0x44, 0x00, 0x04]);
}
