//! Repairs VAG sample data in which a chunk opens with the byte `FF`.

use vstd::prelude::*;

verus! {

/// Whether the file opens with the tag `VAGp`.
pub open spec fn has_magic(s: Seq<u8>) -> bool {
    s.len() >= 4 && s[0] == 0x56 && s[1] == 0x41 && s[2] == 0x47 && s[3] == 0x70
}

/// Tells whether the file opens with the tag `VAGp`.
pub fn is_vag(bytes: &[u8]) -> (ok: bool)
    ensures
        ok == has_magic(bytes@),
{
    bytes.len() >= 4 && bytes[0] == 0x56 && bytes[1] == 0x41 && bytes[2] == 0x47 && bytes[3]
        == 0x70
}

/// The first byte of the nearest good line before line `line`: a line is
/// sixteen bytes, the first three lines are the header, and a line is good
/// when it does not open with `FF`.  Zero when there is no good line.
pub open spec fn last_valid(s: Seq<u8>, line: int) -> u8
    decreases line,
{
    if line <= 3 {
        0
    } else if s[16 * (line - 1)] == 0xff {
        last_valid(s, line - 1)
    } else {
        s[16 * (line - 1)]
    }
}

/// Number of bad lines among the lines 3 to `line - 1`.
pub open spec fn bad_lines(s: Seq<u8>, line: int) -> nat
    decreases line,
{
    if line <= 3 {
        0
    } else {
        bad_lines(s, line - 1) + if s[16 * (line - 1)] == 0xff {
            1nat
        } else {
            0nat
        }
    }
}

/// Number of lines, the last one perhaps short, in a buffer of `len` bytes.
pub open spec fn line_count(len: int) -> int {
    (len + 15) / 16
}

/// The buffer with every bad line before line `lines` repaired: its first
/// byte is replaced by that of the nearest good line before it.
pub open spec fn repaired(s: Seq<u8>, lines: int) -> Seq<u8> {
    Seq::new(
        s.len(),
        |j: int|
            if j % 16 == 0 && 3 <= j / 16 < lines && s[j] == 0xff {
                last_valid(s, j / 16)
            } else {
                s[j]
            },
    )
}

/// Repairs every bad line of the sample data and returns their number.
pub fn sanitized(bytes: &mut [u8]) -> (changed: usize)
    ensures
        final(bytes)@ == repaired(old(bytes)@, line_count(old(bytes)@.len() as int)),
        changed == bad_lines(old(bytes)@, line_count(old(bytes)@.len() as int)),
{
    let ghost s = bytes@;
    let len = bytes.len();
    let mut valid: u8 = 0;
    let mut changed: usize = 0;
    let mut at: usize = 48;
    let ghost mut line: int = 3;
    if len <= 48 {
        assert(bytes@ =~= repaired(s, line_count(len as int)));
        assert(bad_lines(s, line_count(len as int)) == 0) by {
            assert(line_count(len as int) <= 3);
        }
        return 0;
    }
    assert(bytes@ =~= repaired(s, 3));
    while at < len
        invariant
            len == s.len(),
            bytes@.len() == s.len(),
            48 <= at <= len,
            3 <= line,
            at < len ==> at == 16 * line,
            at == len ==> line == line_count(len as int),
            valid == last_valid(s, line),
            changed == bad_lines(s, line),
            changed <= line <= at,
            bytes@ == repaired(s, line),
        decreases len - at,
    {
        let ghost here = at;
        assert(bytes@[at as int] == s[at as int]);
        if bytes[at] == 0xff {
            bytes[at] = valid;
            changed = changed + 1;
        } else {
            valid = bytes[at];
        }
        proof {
            line = line + 1;
        }
        at = if len - at <= 16 {
            len
        } else {
            at + 16
        };
        assert(bytes@ =~= repaired(s, line)) by {
            assert forall|j: int| 0 <= j < s.len() implies bytes@[j] == repaired(s, line)[j] by {
                if j % 16 == 0 && j / 16 == line - 1 {
                    assert(j == here);
                }
            }
        }
    }
    changed
}

} // verus!
