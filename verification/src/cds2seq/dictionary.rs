//! The dictionary pass: meta-events of the unrolled stream become tempo
//! placeholders, and only the true terminator stays a terminator.

use vstd::prelude::*;
use super::error::ConvertError;

verus! {

/// What the pass sees in the three-byte window at the cursor.
#[derive(Clone, Copy, Debug, PartialEq, Eq)]
pub enum MessageClass {
    /// No message starts here; the byte is copied.
    Plain,
    /// The short tempo message `FF 05 03`.
    Tempo,
    /// A loop or track ending, `FF 2F 00` or `FF 44 00`.
    Sentinel,
    /// Any other message, with its length in bytes.
    Message(usize),
}

/// How a stretch of the source was emitted.
pub enum PieceTag {
    /// A byte that starts no message, copied.
    Plain,
    /// The short tempo message, rewritten to the tempo prefix.
    Tempo,
    /// The bytes behind a short tempo message, copied without a look at
    /// them: they are the payload of the tempo.
    Payload,
    /// A sentinel, kept as the terminator or replaced by the placeholder.
    Sentinel,
    /// Another message, replaced by the placeholder.
    Message,
    /// The last bytes of the stream, too few to hold a window, copied.
    Tail,
}

/// One step of the pass: the cursor stood at `at`, consumed `width` bytes and
/// emitted `out`.
pub struct Piece {
    pub at: int,
    pub width: int,
    pub tag: PieceTag,
    pub out: Seq<u8>,
}

/// The terminator triplet `FF 2F 00`.
pub open spec fn terminator() -> Seq<u8> {
    seq![0xffu8, 0x2fu8, 0x00u8]
}

/// The three tempo bytes of a quarter-note time: its low three bytes, highest first.
pub open spec fn tempo_bytes(quarter_note_time: u32) -> Seq<u8> {
    seq![
        ((quarter_note_time as int / 65536) % 256) as u8,
        ((quarter_note_time as int / 256) % 256) as u8,
        (quarter_note_time as int % 256) as u8,
    ]
}

/// The five-byte placeholder: the marker `51 FF`, then the tempo bytes.
pub open spec fn placeholder(quarter_note_time: u32) -> Seq<u8> {
    seq![0x51u8, 0xffu8] + tempo_bytes(quarter_note_time)
}

/// Opcodes of the messages that are five bytes long.
pub open spec fn five_byte_opcode(op: u8) -> bool {
    op == 0x4c || op == 0x4d || op == 0x14 || op == 0x15 || op == 0x18 || (0x33 <= op <= 0x36)
}

/// Opcodes of the messages that are four bytes long.
pub open spec fn four_byte_opcode(op: u8) -> bool {
    op == 0x00 || op == 0x0e || op == 0x01 || op == 0x1a || op == 0x1c || op == 0x02 || op == 0x2e
        || op == 0x06 || op == 0x07 || op == 0x10 || op == 0x24 || op == 0x31
}

/// Opcodes of the messages that are three bytes long.
pub open spec fn three_byte_opcode(op: u8) -> bool {
    op == 0x03 || op == 0x08 || op == 0x09 || (0x41 <= op <= 0x43) || op == 0x49
}

/// Whether a sentinel triplet stands at `i`.
pub open spec fn sentinel_at(s: Seq<u8>, i: int) -> bool {
    &&& 0 <= i
    &&& i + 3 <= s.len()
    &&& s[i] == 0xff
    &&& (s[i + 1] == 0x2f || s[i + 1] == 0x44)
    &&& s[i + 2] == 0x00
}

/// The class of the window that starts at `i`.
pub open spec fn class_at(s: Seq<u8>, i: int) -> MessageClass
    recommends
        0 <= i,
        i + 3 <= s.len(),
{
    let op = s[i + 1];
    let arg = s[i + 2];
    if s[i] != 0xff {
        MessageClass::Plain
    } else if op == 0xf1 && arg == 0x04 {
        MessageClass::Message(7)
    } else if 0x39 <= op <= 0x3f && arg == 0x03 {
        MessageClass::Message(6)
    } else if five_byte_opcode(op) && arg == 0x02 {
        MessageClass::Message(5)
    } else if four_byte_opcode(op) && arg == 0x01 {
        MessageClass::Message(4)
    } else if three_byte_opcode(op) && arg == 0x00 {
        if i + 3 < s.len() && s[i + 3] == 0xff {
            MessageClass::Plain
        } else {
            MessageClass::Message(3)
        }
    } else if op == 0x05 && arg == 0x03 {
        MessageClass::Tempo
    } else if (op == 0x2f || op == 0x44) && arg == 0x00 {
        MessageClass::Sentinel
    } else if op == 0xf0 {
        MessageClass::Message((arg as int + 3) as usize)
    } else {
        MessageClass::Plain
    }
}

/// Number of sentinel triplets that start at `i` or later.
pub open spec fn sentinels_from(s: Seq<u8>, i: int) -> nat
    decreases s.len() - i,
{
    if i < 0 || i + 3 > s.len() {
        0
    } else {
        (if sentinel_at(s, i) { 1nat } else { 0nat }) + sentinels_from(s, i + 1)
    }
}

/// Number of sentinel triplets in the whole stream.
pub open spec fn sentinel_count(s: Seq<u8>) -> nat {
    sentinels_from(s, 0)
}

/// Which sentinel, counted from one in the order the cursor meets them, is
/// the true terminator: the last one, or the one before it when an endless
/// loop was flagged.
pub open spec fn kept_ordinal(s: Seq<u8>, has_infinite_loop: bool) -> int {
    if has_infinite_loop {
        sentinel_count(s) - 1
    } else {
        sentinel_count(s) as int
    }
}

/// Number of bytes behind the short tempo message at `i` that are copied
/// without a look at them: two, or what is left of the stream.
pub open spec fn payload_len(s: Seq<u8>, i: int) -> int {
    if i + 5 <= s.len() {
        2
    } else {
        s.len() - (i + 3)
    }
}

/// Puts one piece in front of the pieces that follow, if there are any.
pub open spec fn piece_then(first: Piece, rest: Option<Seq<Piece>>) -> Option<Seq<Piece>> {
    match rest {
        Some(pieces) => Some(seq![first] + pieces),
        None => None,
    }
}

/// The steps of the pass from cursor `i` on, after `seen` sentinels; `None`
/// when a message runs past the end of the stream.
pub open spec fn pieces_from(s: Seq<u8>, i: int, seen: int, keep: int, tempo: u32) -> Option<
    Seq<Piece>,
>
    decreases s.len() - i,
{
    if i < 0 || i >= s.len() {
        Some(Seq::empty())
    } else if i + 3 > s.len() {
        Some(seq![Piece { at: i, width: s.len() - i, tag: PieceTag::Tail, out: s.skip(i) }])
    } else {
        match class_at(s, i) {
            MessageClass::Plain => piece_then(
                Piece { at: i, width: 1, tag: PieceTag::Plain, out: seq![s[i]] },
                pieces_from(s, i + 1, seen, keep, tempo),
            ),
            MessageClass::Tempo => piece_then(
                Piece { at: i, width: 3, tag: PieceTag::Tempo, out: seq![0xffu8, 0x51u8] },
                if i + 3 == s.len() {
                    Some(Seq::empty())
                } else {
                    piece_then(
                        Piece {
                            at: i + 3,
                            width: payload_len(s, i),
                            tag: PieceTag::Payload,
                            out: s.subrange(i + 3, i + 3 + payload_len(s, i)),
                        },
                        pieces_from(s, i + 3 + payload_len(s, i), seen, keep, tempo),
                    )
                },
            ),
            MessageClass::Sentinel => piece_then(
                Piece {
                    at: i,
                    width: 3,
                    tag: PieceTag::Sentinel,
                    out: if seen + 1 == keep { terminator() } else { placeholder(tempo) },
                },
                pieces_from(s, i + 3, seen + 1, keep, tempo),
            ),
            MessageClass::Message(n) => if i + n > s.len() {
                None
            } else {
                piece_then(
                    Piece { at: i, width: n as int, tag: PieceTag::Message, out: placeholder(tempo) },
                    pieces_from(s, i + n, seen, keep, tempo),
                )
            },
        }
    }
}

/// All that the pieces emit, in order.
pub open spec fn joined(pieces: Seq<Piece>) -> Seq<u8>
    decreases pieces.len(),
{
    if pieces.len() == 0 {
        Seq::empty()
    } else {
        joined(pieces.drop_last()) + pieces.last().out
    }
}

/// The stream after the pass; `None` when a message runs past its end.
pub open spec fn rewritten(s: Seq<u8>, quarter_note_time: u32, has_infinite_loop: bool) -> Option<
    Seq<u8>,
> {
    match pieces_from(s, 0, 0, kept_ordinal(s, has_infinite_loop), quarter_note_time) {
        Some(pieces) => Some(joined(pieces)),
        None => None,
    }
}

/// Extends the pieces already emitted by those still to come.
pub open spec fn pieces_after(done: Seq<Piece>, rest: Option<Seq<Piece>>) -> Option<Seq<Piece>> {
    match rest {
        Some(pieces) => Some(done + pieces),
        None => None,
    }
}

proof fn lemma_piece_moves_over(done: Seq<Piece>, first: Piece, rest: Option<Seq<Piece>>)
    ensures
        pieces_after(done, piece_then(first, rest)) == pieces_after(done.push(first), rest),
        joined(done.push(first)) == joined(done) + first.out,
{
    match rest {
        Some(pieces) => {
            assert(done + (seq![first] + pieces) =~= done.push(first) + pieces);
        },
        None => {},
    }
    assert(done.push(first).drop_last() =~= done);
}

fn is_five_byte_opcode(op: u8) -> (b: bool)
    ensures
        b == five_byte_opcode(op),
{
    op == 0x4c || op == 0x4d || op == 0x14 || op == 0x15 || op == 0x18 || (0x33 <= op && op <= 0x36)
}

fn is_four_byte_opcode(op: u8) -> (b: bool)
    ensures
        b == four_byte_opcode(op),
{
    op == 0x00 || op == 0x0e || op == 0x01 || op == 0x1a || op == 0x1c || op == 0x02 || op == 0x2e
        || op == 0x06 || op == 0x07 || op == 0x10 || op == 0x24 || op == 0x31
}

fn is_three_byte_opcode(op: u8) -> (b: bool)
    ensures
        b == three_byte_opcode(op),
{
    op == 0x03 || op == 0x08 || op == 0x09 || (0x41 <= op && op <= 0x43) || op == 0x49
}

/// Classifies the window at `i`.
pub fn classify(file: &[u8], i: usize) -> (class: MessageClass)
    requires
        i + 3 <= file@.len(),
    ensures
        class == class_at(file@, i as int),
{
    let len = file.len();
    let op = file[i + 1];
    let arg = file[i + 2];
    if file[i] != 0xff {
        MessageClass::Plain
    } else if op == 0xf1 && arg == 0x04 {
        MessageClass::Message(7)
    } else if 0x39 <= op && op <= 0x3f && arg == 0x03 {
        MessageClass::Message(6)
    } else if is_five_byte_opcode(op) && arg == 0x02 {
        MessageClass::Message(5)
    } else if is_four_byte_opcode(op) && arg == 0x01 {
        MessageClass::Message(4)
    } else if is_three_byte_opcode(op) && arg == 0x00 {
        if i + 3 < len && file[i + 3] == 0xff {
            MessageClass::Plain
        } else {
            MessageClass::Message(3)
        }
    } else if op == 0x05 && arg == 0x03 {
        MessageClass::Tempo
    } else if (op == 0x2f || op == 0x44) && arg == 0x00 {
        MessageClass::Sentinel
    } else if op == 0xf0 {
        MessageClass::Message(arg as usize + 3)
    } else {
        MessageClass::Plain
    }
}

/// Counts the sentinel triplets of a stream, wherever they stand.
pub fn count_sentinels(file: &[u8]) -> (count: usize)
    ensures
        count == sentinel_count(file@),
{
    let len = file.len();
    if len < 3 {
        return 0;
    }
    let mut count: usize = 0;
    let mut i: usize = len - 2;
    while i > 0
        invariant
            len == file@.len(),
            len >= 3,
            i <= len - 2,
            count == sentinels_from(file@, i as int),
            count <= len - 2 - i,
        decreases i,
    {
        i = i - 1;
        if file[i] == 0xff && (file[i + 1] == 0x2f || file[i + 1] == 0x44) && file[i + 2] == 0x00 {
            count = count + 1;
        }
    }
    count
}

/// The three tempo bytes of a quarter-note time.
pub fn tempo_of(quarter_note_time: u32) -> (bytes: [u8; 3])
    ensures
        bytes@ == tempo_bytes(quarter_note_time),
{
    let bytes = [
        ((quarter_note_time / 65536) % 256) as u8,
        ((quarter_note_time / 256) % 256) as u8,
        (quarter_note_time % 256) as u8,
    ];
    assert(bytes@ =~= tempo_bytes(quarter_note_time));
    bytes
}

fn push_placeholder(out: &mut Vec<u8>, tempo: &[u8; 3])
    ensures
        final(out)@ == old(out)@ + (seq![0x51u8, 0xffu8] + tempo@),
{
    out.push(0x51);
    out.push(0xff);
    out.push(tempo[0]);
    out.push(tempo[1]);
    out.push(tempo[2]);
    assert(out@ =~= old(out)@ + (seq![0x51u8, 0xffu8] + tempo@));
}

/// Rewrites the unrolled stream in place.  The short tempo message becomes
/// the tempo prefix `FF 51`, and the two bytes behind it are copied without
/// a look at them; the sentinel that ends the track is normalised to
/// `FF 2F 00` and kept; every other sentinel and every other known message
/// is replaced by the placeholder; all else is copied.  A message that runs
/// past the end of the stream is an error, and the stream is then left as
/// it was.
pub fn dictionary(file: &mut Vec<u8>, quarter_note_time: u32, has_infinite_loop: bool) -> (res:
    Result<(), ConvertError>)
    ensures
        match res {
            Ok(()) => rewritten(old(file)@, quarter_note_time, has_infinite_loop) == Some(
                final(file)@,
            ),
            Err(e) => {
                &&& e == ConvertError::TruncatedBuffer
                &&& rewritten(old(file)@, quarter_note_time, has_infinite_loop) is None
                &&& final(file)@ == old(file)@
            },
        },
{
    let count = count_sentinels(file.as_slice());
    let tempo = tempo_of(quarter_note_time);
    let len = file.len();
    let ghost s = file@;
    let ghost keep = kept_ordinal(s, has_infinite_loop);
    let ghost all = pieces_from(s, 0, 0, keep, quarter_note_time);
    let ghost mut done: Seq<Piece> = Seq::empty();
    let mut out: Vec<u8> = Vec::new();
    let mut seen: usize = 0;
    let mut i: usize = 0;
    while len - i >= 3
        invariant
            file@ == s,
            len == s.len(),
            i <= len,
            3 * seen <= i,
            count == sentinel_count(s),
            keep == kept_ordinal(s, has_infinite_loop),
            tempo@ == tempo_bytes(quarter_note_time),
            out@ == joined(done),
            all == pieces_from(s, 0, 0, keep, quarter_note_time),
            all == pieces_after(done, pieces_from(s, i as int, seen as int, keep, quarter_note_time)),
        decreases len - i,
    {
        let ghost rest = pieces_from(s, i as int, seen as int, keep, quarter_note_time);
        match classify(file.as_slice(), i) {
            MessageClass::Plain => {
                let ghost piece = Piece {
                    at: i as int,
                    width: 1,
                    tag: PieceTag::Plain,
                    out: seq![s[i as int]],
                };
                out.push(file[i]);
                proof {
                    lemma_piece_moves_over(
                        done,
                        piece,
                        pieces_from(s, i + 1, seen as int, keep, quarter_note_time),
                    );
                    done = done.push(piece);
                }
                i = i + 1;
            },
            MessageClass::Tempo => {
                let ghost prefix = Piece {
                    at: i as int,
                    width: 3,
                    tag: PieceTag::Tempo,
                    out: seq![0xffu8, 0x51u8],
                };
                out.push(0xff);
                out.push(0x51);
                proof {
                    lemma_piece_moves_over(
                        done,
                        prefix,
                        if i + 3 == len {
                            Some(Seq::empty())
                        } else {
                            piece_then(
                                Piece {
                                    at: i + 3,
                                    width: payload_len(s, i as int),
                                    tag: PieceTag::Payload,
                                    out: s.subrange(i + 3, i + 3 + payload_len(s, i as int)),
                                },
                                pieces_from(
                                    s,
                                    i + 3 + payload_len(s, i as int),
                                    seen as int,
                                    keep,
                                    quarter_note_time,
                                ),
                            )
                        },
                    );
                    assert(out@ =~= joined(done) + prefix.out);
                    done = done.push(prefix);
                }
                i = i + 3;
                if i < len {
                    let width: usize = if len - i >= 2 { 2 } else { len - i };
                    let ghost payload = Piece {
                        at: i as int,
                        width: width as int,
                        tag: PieceTag::Payload,
                        out: s.subrange(i as int, i + width),
                    };
                    let mut k: usize = 0;
                    while k < width
                        invariant
                            file@ == s,
                            len == s.len(),
                            k <= width,
                            i + width <= len,
                            out@ == joined(done) + s.subrange(i as int, i + k),
                        decreases width - k,
                    {
                        out.push(file[i + k]);
                        assert(s.subrange(i as int, i + k).push(s[i + k]) =~= s.subrange(
                            i as int,
                            i + k + 1,
                        ));
                        k = k + 1;
                    }
                    proof {
                        lemma_piece_moves_over(
                            done,
                            payload,
                            pieces_from(s, i + width, seen as int, keep, quarter_note_time),
                        );
                        done = done.push(payload);
                    }
                    i = i + width;
                } else {
                    proof {
                        assert(pieces_from(s, i as int, seen as int, keep, quarter_note_time)
                            == Some(Seq::<Piece>::empty()));
                    }
                }
            },
            MessageClass::Sentinel => {
                let is_terminator = if has_infinite_loop {
                    seen + 2 == count
                } else {
                    seen + 1 == count
                };
                let ghost piece = Piece {
                    at: i as int,
                    width: 3,
                    tag: PieceTag::Sentinel,
                    out: if seen + 1 == keep { terminator() } else { placeholder(quarter_note_time) },
                };
                if is_terminator {
                    out.push(0xff);
                    out.push(0x2f);
                    out.push(0x00);
                } else {
                    push_placeholder(&mut out, &tempo);
                }
                proof {
                    lemma_piece_moves_over(
                        done,
                        piece,
                        pieces_from(s, i + 3, seen + 1, keep, quarter_note_time),
                    );
                    assert(seq![0x51u8, 0xffu8] + tempo@ == placeholder(quarter_note_time));
                    assert(out@ =~= joined(done) + piece.out);
                    done = done.push(piece);
                }
                seen = seen + 1;
                i = i + 3;
            },
            MessageClass::Message(n) => {
                if n > len - i {
                    assert(rest is None);
                    return Err(ConvertError::TruncatedBuffer);
                }
                let ghost piece = Piece {
                    at: i as int,
                    width: n as int,
                    tag: PieceTag::Message,
                    out: placeholder(quarter_note_time),
                };
                push_placeholder(&mut out, &tempo);
                proof {
                    lemma_piece_moves_over(
                        done,
                        piece,
                        pieces_from(s, i + n, seen as int, keep, quarter_note_time),
                    );
                    assert(seq![0x51u8, 0xffu8] + tempo@ == placeholder(quarter_note_time));
                    done = done.push(piece);
                }
                i = i + n;
            },
        }
    }
    if i < len {
        let ghost piece = Piece {
            at: i as int,
            width: len - i,
            tag: PieceTag::Tail,
            out: s.skip(i as int),
        };
        let start = i;
        while i < len
            invariant
                file@ == s,
                len == s.len(),
                start <= i <= len,
                out@ == joined(done) + s.subrange(start as int, i as int),
            decreases len - i,
        {
            out.push(file[i]);
            assert(s.subrange(start as int, i as int).push(s[i as int]) =~= s.subrange(
                start as int,
                i + 1,
            ));
            i = i + 1;
        }
        proof {
            lemma_piece_moves_over(done, piece, Some(Seq::empty()));
            assert(s.subrange(start as int, len as int) =~= s.skip(start as int));
            assert(done + seq![piece] =~= done.push(piece));
            assert(done.push(piece) + Seq::<Piece>::empty() =~= done.push(piece));
            done = done.push(piece);
        }
    } else {
        proof {
            assert(done + Seq::<Piece>::empty() =~= done);
        }
    }
    *file = out;
    Ok(())
}

/// Every sentinel piece was emitted as the terminator triplet.
pub open spec fn sentinels_kept(pieces: Seq<Piece>) -> bool {
    forall|k: int| 0 <= k < pieces.len() && pieces[k].tag is Sentinel ==> pieces[k].out == terminator()
}

proof fn lemma_sentinels_thin_out(s: Seq<u8>, i: int, j: int)
    requires
        0 <= i < j,
    ensures
        sentinels_from(s, j) + (if sentinel_at(s, i) { 1nat } else { 0nat }) <= sentinels_from(s, i),
    decreases j - i,
{
    if i + 3 <= s.len() {
        if i + 1 < j {
            lemma_sentinels_thin_out(s, i + 1, j);
        }
    }
}

proof fn lemma_last_sentinel_is_kept(s: Seq<u8>, i: int, seen: int, tempo: u32)
    requires
        0 <= i,
        0 <= seen,
        seen + sentinels_from(s, i) <= 1,
    ensures
        match pieces_from(s, i, seen, 1, tempo) {
            Some(pieces) => sentinels_kept(pieces),
            None => true,
        },
    decreases s.len() - i,
{
    if i + 3 <= s.len() {
        let (width, next_seen) = match class_at(s, i) {
            MessageClass::Plain => (1int, seen),
            MessageClass::Tempo => (3 + payload_len(s, i), seen),
            MessageClass::Sentinel => (3int, seen + 1),
            MessageClass::Message(n) => (n as int, seen),
        };
        if i + width <= s.len() {
            lemma_sentinels_thin_out(s, i, i + width);
            lemma_last_sentinel_is_kept(s, i + width, next_seen, tempo);
            match (pieces_from(s, i, seen, 1, tempo), pieces_from(s, i + width, next_seen, 1, tempo)) {
                (Some(pieces), Some(rest)) => {
                    let lead = pieces.len() - rest.len();
                    assert forall|k: int|
                        0 <= k < pieces.len() && pieces[k].tag is Sentinel implies pieces[k].out
                        == terminator() by {
                        if k >= lead {
                            assert(pieces[k] == rest[k - lead]);
                        }
                    }
                },
                _ => {},
            }
        }
    }
}

/// A stream that holds a single sentinel, converted with no endless loop
/// flagged, keeps its terminator: whenever the cursor meets a sentinel, the
/// pass emits the terminator triplet for it and never the placeholder.
pub proof fn lemma_sole_terminator_is_kept(s: Seq<u8>, quarter_note_time: u32)
    requires
        sentinel_count(s) == 1,
    ensures
        match pieces_from(s, 0, 0, kept_ordinal(s, false), quarter_note_time) {
            Some(pieces) => sentinels_kept(pieces),
            None => true,
        },
{
    lemma_last_sentinel_is_kept(s, 0, 0, quarter_note_time);
}

/// Whether the pieces follow each other from `from` to `to`: each starts
/// where the one before it ended and consumes at least one byte.
pub open spec fn tiles(pieces: Seq<Piece>, from: int, to: int) -> bool
    decreases pieces.len(),
{
    if pieces.len() == 0 {
        from == to
    } else {
        &&& pieces[0].at == from
        &&& pieces[0].width >= 1
        &&& tiles(pieces.skip(1), from + pieces[0].width, to)
    }
}

/// The cursor advances by what each step consumes: the pieces of the pass
/// tile the stream from the cursor to its end, without gap or overlap.
pub proof fn lemma_pieces_tile(s: Seq<u8>, i: int, seen: int, keep: int, tempo: u32)
    requires
        0 <= i <= s.len(),
    ensures
        match pieces_from(s, i, seen, keep, tempo) {
            Some(pieces) => tiles(pieces, i, s.len() as int),
            None => true,
        },
    decreases s.len() - i,
{
    if i < s.len() {
        if i + 3 > s.len() {
            let pieces = pieces_from(s, i, seen, keep, tempo).unwrap();
            assert(pieces.skip(1) =~= Seq::<Piece>::empty());
            assert(tiles(pieces.skip(1), s.len() as int, s.len() as int));
            assert(pieces[0].at == i && pieces[0].width == s.len() - i);
        } else {
            let (width, next_seen) = match class_at(s, i) {
                MessageClass::Plain => (1int, seen),
                MessageClass::Tempo => (3 + payload_len(s, i), seen),
                MessageClass::Sentinel => (3int, seen + 1),
                MessageClass::Message(n) => (n as int, seen),
            };
            if i + width <= s.len() {
                lemma_pieces_tile(s, i + width, next_seen, keep, tempo);
                match (pieces_from(s, i, seen, keep, tempo), pieces_from(s, i + width, next_seen, keep, tempo)) {
                    (Some(pieces), Some(rest)) => {
                        if class_at(s, i) is Tempo && width > 3 {
                            let middle = pieces.skip(1);
                            assert(middle.skip(1) =~= rest);
                            assert(middle[0].at == i + 3 && middle[0].width == width - 3);
                            assert(tiles(middle.skip(1), i + width, s.len() as int));
                            assert(tiles(middle, i + 3, s.len() as int));
                            assert(pieces[0].at == i && pieces[0].width == 3);
                        } else {
                            assert(pieces.skip(1) =~= rest);
                            assert(pieces[0].at == i && pieces[0].width == width);
                            assert(tiles(pieces.skip(1), i + width, s.len() as int));
                        }
                    },
                    _ => {},
                }
            }
        }
    } else {
        assert(tiles(Seq::<Piece>::empty(), i, s.len() as int));
    }
}

} // verus!
