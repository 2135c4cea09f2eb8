//! The whole conversion of one file.

use vstd::prelude::*;
use vstd::slice::slice_subrange;
use super::assemble::{assemble, assembled};
use super::dictionary::{dictionary, rewritten};
use super::error::ConvertError;
use super::header::{header_of, Header, HEADER_LEN};
use super::lexeme::{endless_list, lex_file, lexed, unrolled_list};
use super::token::{balance, balanced, parse_file, tokenized};
use super::unroll::{collapse_repeats, collapsed, unroll};

verus! {

/// The SEQ file that a source file converts to, or the fault that stops the
/// conversion.  The stages run in order: header, tokens, balancing, loop
/// trees, unrolling, collapsing of repeat opcodes, the dictionary pass, and
/// the assembly of the output.
pub open spec fn converted(input: Seq<u8>) -> Result<Seq<u8>, ConvertError> {
    match header_of(input) {
        Err(e) => Err(e),
        Ok(header) => match tokenized(input.skip(12)) {
            None => Err(ConvertError::TruncatedBuffer),
            Some(tokens) => match lexed(balanced(tokens)) {
                None => Err(ConvertError::UnpairedLoopTerminator),
                Some(list) => match collapsed(unrolled_list(list)) {
                    None => Err(ConvertError::TruncatedBuffer),
                    Some((flat, found)) => match rewritten(
                        flat,
                        header.quarter_note_time,
                        endless_list(list) || found,
                    ) {
                        None => Err(ConvertError::TruncatedBuffer),
                        Some(body) => match assembled(header, body) {
                            None => Err(ConvertError::NoTerminatorFound),
                            Some(out) => Ok(out),
                        },
                    },
                },
            },
        },
    }
}

/// Converts the bytes of a CDS or MSQ sequence to the bytes of a SEQ file.
/// Nothing is produced when a stage fails.
pub fn convert(input: &[u8]) -> (res: Result<Vec<u8>, ConvertError>)
    ensures
        match res {
            Ok(out) => converted(input@) == Ok::<Seq<u8>, ConvertError>(out@),
            Err(e) => converted(input@) == Err::<Seq<u8>, ConvertError>(e),
        },
{
    let header = match Header::parse(input) {
        Ok(header) => header,
        Err(e) => {
            return Err(e);
        },
    };
    let body = slice_subrange(input, HEADER_LEN, input.len());
    assert(body@ =~= input@.skip(12));
    let mut tokens = match parse_file(body) {
        Ok(tokens) => tokens,
        Err(e) => {
            return Err(e);
        },
    };
    balance(&mut tokens);
    let lexemes = match lex_file(tokens.as_slice()) {
        Ok(lexemes) => lexemes,
        Err(e) => {
            return Err(e);
        },
    };
    let (mut output, endless) = unroll(&lexemes);
    let found = match collapse_repeats(&mut output) {
        Ok(found) => found,
        Err(e) => {
            return Err(e);
        },
    };
    match dictionary(&mut output, header.quarter_note_time, endless || found) {
        Ok(()) => {},
        Err(e) => {
            return Err(e);
        },
    }
    assemble(&header, output.as_slice())
}

} // verus!
