//! The unroller: writes the loop trees out as one flat stream and collapses
//! the engine's own repeat opcode.

use vstd::prelude::*;
use super::dictionary::terminator;
use super::error::ConvertError;
use super::lexeme::{endless_list, trees, unrolled_list, write_lexeme, Lexeme};

verus! {

/// Writes a list of loop trees as one flat stream, and tells whether any of
/// them holds an endless loop.
pub fn unroll(lexemes: &Vec<Lexeme>) -> (res: (Vec<u8>, bool))
    ensures
        res.0@ == unrolled_list(trees(lexemes@)),
        res.1 == endless_list(trees(lexemes@)),
{
    let ghost list = trees(lexemes@);
    let mut output: Vec<u8> = Vec::new();
    let mut has_infinite_loop = false;
    let mut k: usize = 0;
    assert(list.subrange(0, 0) =~= Seq::empty());
    while k < lexemes.len()
        invariant
            k <= lexemes@.len(),
            list == trees(lexemes@),
            output@ == unrolled_list(list.subrange(0, k as int)),
            has_infinite_loop == endless_list(list.subrange(0, k as int)),
        decreases lexemes@.len() - k,
    {
        let found = write_lexeme(&mut output, &lexemes[k]);
        has_infinite_loop = has_infinite_loop || found;
        k = k + 1;
        assert(list.subrange(0, k as int).drop_last() =~= list.subrange(0, k - 1));
    }
    assert(list.subrange(0, k as int) =~= list);
    (output, has_infinite_loop)
}

/// What the four-byte window at one position of the flat stream holds.
pub enum Window {
    /// The repeat opcode `FF 32 01 XX`.
    Repeat,
    /// Anything else; the byte is copied.
    Other,
    /// The beginning of a repeat opcode, cut off by the end of the stream.
    Truncated,
}

/// Reads the window at `i`, byte by byte, as far as it can still be the
/// repeat opcode.
pub open spec fn window_at(s: Seq<u8>, i: int) -> Window
    recommends
        0 <= i < s.len(),
{
    if s[i] != 0xff {
        Window::Other
    } else if i + 1 >= s.len() {
        Window::Truncated
    } else if s[i + 1] != 0x32 {
        Window::Other
    } else if i + 2 >= s.len() {
        Window::Truncated
    } else if s[i + 2] != 0x01 {
        Window::Other
    } else if i + 3 >= s.len() {
        Window::Truncated
    } else {
        Window::Repeat
    }
}

/// The stream from `i` on with every repeat opcode replaced by the
/// terminator triplet, and whether there was one; `None` when a repeat
/// opcode is cut off by the end of the stream.
pub open spec fn collapsed_from(s: Seq<u8>, i: int) -> Option<(Seq<u8>, bool)>
    decreases s.len() - i,
{
    if i < 0 || i >= s.len() {
        Some((Seq::empty(), false))
    } else {
        match window_at(s, i) {
            Window::Truncated => None,
            Window::Other => match collapsed_from(s, i + 1) {
                Some((rest, found)) => Some((seq![s[i]] + rest, found)),
                None => None,
            },
            Window::Repeat => match collapsed_from(s, i + 4) {
                Some((rest, _)) => Some((terminator() + rest, true)),
                None => None,
            },
        }
    }
}

/// The whole stream with every repeat opcode collapsed.
pub open spec fn collapsed(s: Seq<u8>) -> Option<(Seq<u8>, bool)> {
    collapsed_from(s, 0)
}

/// What was written so far, followed by what is still to come.
pub open spec fn collapsed_after(out: Seq<u8>, found: bool, rest: Option<(Seq<u8>, bool)>) -> Option<
    (Seq<u8>, bool),
> {
    match rest {
        Some((bytes, more)) => Some((out + bytes, found || more)),
        None => None,
    }
}

/// Replaces every repeat opcode `FF 32 01 XX` of the flat stream by the
/// terminator triplet, and tells whether there was one.  A repeat opcode cut
/// off by the end of the stream is an error, and the stream is then left as
/// it was.
pub fn collapse_repeats(stream: &mut Vec<u8>) -> (res: Result<bool, ConvertError>)
    ensures
        match res {
            Ok(found) => collapsed(old(stream)@) == Some((final(stream)@, found)),
            Err(e) => {
                &&& e == ConvertError::TruncatedBuffer
                &&& collapsed(old(stream)@) is None
                &&& final(stream)@ == old(stream)@
            },
        },
{
    let ghost s = stream@;
    let len = stream.len();
    let mut out: Vec<u8> = Vec::new();
    let mut found = false;
    let mut i: usize = 0;
    proof {
        match collapsed_from(s, 0) {
            Some((bytes, more)) => {
                assert(Seq::<u8>::empty() + bytes =~= bytes);
            },
            None => {},
        }
    }
    while i < len
        invariant
            stream@ == s,
            len == s.len(),
            i <= len,
            collapsed(s) == collapsed_after(out@, found, collapsed_from(s, i as int)),
        decreases len - i,
    {
        let ghost before = out@;
        if stream[i] == 0xff {
            if len - i < 2 {
                return Err(ConvertError::TruncatedBuffer);
            }
            if stream[i + 1] == 0x32 {
                if len - i < 3 {
                    return Err(ConvertError::TruncatedBuffer);
                }
                if stream[i + 2] == 0x01 {
                    if len - i < 4 {
                        return Err(ConvertError::TruncatedBuffer);
                    }
                    out.push(0xff);
                    out.push(0x2f);
                    out.push(0x00);
                    found = true;
                    proof {
                        match collapsed_from(s, i + 4) {
                            Some((bytes, more)) => {
                                assert(before + (terminator() + bytes) =~= out@ + bytes);
                            },
                            None => {},
                        }
                    }
                    i = i + 4;
                    continue;
                }
            }
        }
        out.push(stream[i]);
        proof {
            match collapsed_from(s, i + 1) {
                Some((bytes, more)) => {
                    assert(before + (seq![s[i as int]] + bytes) =~= out@ + bytes);
                },
                None => {},
            }
        }
        i = i + 1;
    }
    assert(out@ + Seq::<u8>::empty() =~= out@);
    *stream = out;
    Ok(found)
}

} // verus!
