//! What the converter tells of a file it has read.

use vstd::prelude::*;
use vstd::string::StringExecFns;
use crate::text::{decimal, push_digits};
use super::error::ConvertError;
use super::header::Header;
use super::token::{balance, balanced, count_loops, count_starts, parse_file, tokenized};

verus! {

/// A 16-bit number with its two bytes swapped.
pub open spec fn swapped(v: u16) -> u16 {
    ((v as int % 256) * 256 + v as int / 256) as u16
}

/// Swaps the two bytes of a 16-bit number.
pub fn swap_bytes(v: u16) -> (out: u16)
    ensures
        out == swapped(v),
{
    (v % 256) * 256 + v / 256
}

/// Quarter notes per minute at the given number of microseconds to the
/// quarter note.
pub open spec fn beats_per_minute(quarter_note_time: u32) -> int
    recommends
        quarter_note_time != 0,
{
    60_000_000int / (quarter_note_time as int)
}

/// Number of loops in the balanced token list of an event body, or the
/// fault that stops the tokenizer.
pub open spec fn local_loops_of(body: Seq<u8>) -> Result<nat, ConvertError> {
    match tokenized(body) {
        Some(tokens) => Ok(count_starts(balanced(tokens))),
        None => Err(ConvertError::TruncatedBuffer),
    }
}

/// Counts the loops of an event body, those that balancing adds too.
pub fn local_loops(body: &[u8]) -> (res: Result<usize, ConvertError>)
    ensures
        match res {
            Ok(loops) => local_loops_of(body@) == Ok::<nat, ConvertError>(loops as nat),
            Err(e) => local_loops_of(body@) == Err::<nat, ConvertError>(e),
        },
{
    let mut tokens = match parse_file(body) {
        Ok(tokens) => tokens,
        Err(e) => {
            return Err(e);
        },
    };
    balance(&mut tokens);
    Ok(count_loops(&tokens).0)
}

impl Header {
    /// The tempo in quarter notes per minute.
    pub fn bpm(&self) -> (bpm: u32)
        requires
            self.quarter_note_time != 0,
        ensures
            bpm == beats_per_minute(self.quarter_note_time),
    {
        60_000_000 / self.quarter_note_time
    }

    /// The lines that describe a converted file.
    pub open spec fn summary(self, loops: usize) -> Seq<char> {
        "CDS file\nQuarter note time: "@ + decimal(self.quarter_note_time as int) + "\nPPQN: "@
            + decimal(swapped(self.ppqn) as int) + "\nBPM: "@ + decimal(
            beats_per_minute(self.quarter_note_time),
        ) + "\nVersion: 0."@ + decimal(swapped(self.version) as int) + "\nLocal loops: "@
            + decimal(loops as int) + "\n"@
    }

    /// Writes the lines that describe a converted file: its timing, its
    /// version, and the number of its loops.
    pub fn describe(&self, loops: usize) -> (text: String)
        requires
            self.quarter_note_time != 0,
        ensures
            text@ == self.summary(loops),
    {
        let mut text = String::new();
        text.append("CDS file\nQuarter note time: ");
        assert(text@ =~= "CDS file\nQuarter note time: "@);
        push_digits(&mut text, self.quarter_note_time as u64);
        text.append("\nPPQN: ");
        push_digits(&mut text, swap_bytes(self.ppqn) as u64);
        text.append("\nBPM: ");
        push_digits(&mut text, self.bpm() as u64);
        text.append("\nVersion: 0.");
        push_digits(&mut text, swap_bytes(self.version) as u64);
        text.append("\nLocal loops: ");
        push_digits(&mut text, loops as u64);
        text.append("\n");
        text
    }
}

} // verus!
