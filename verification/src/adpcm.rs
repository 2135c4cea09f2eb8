//! Sony 4-bit ADPCM sample data: sixteen-byte chunks whose second byte
//! holds the loop flags.

use vstd::prelude::*;

verus! {

/// Whether a flag byte marks a loop: it is neither zero nor the end mark 7.
pub open spec fn marks_loop(flag: u8) -> bool {
    flag != 7 && flag != 0
}

/// Whether `j` is the flag byte of a chunk, in sample data that starts at
/// `start`.
pub open spec fn is_flag_byte(start: int, j: int) -> bool {
    j >= start && (j - start) % 16 == 1
}

/// The buffer with the loop flags cleared in every chunk that starts before
/// `end`.
pub open spec fn cleared_before(s: Seq<u8>, start: int, end: int) -> Seq<u8> {
    Seq::new(
        s.len(),
        |j: int|
            if is_flag_byte(start, j) && j < end && marks_loop(s[j]) {
                0u8
            } else {
                s[j]
            },
    )
}

/// The buffer with the loop flags of all its chunks cleared.
pub open spec fn unlooped(s: Seq<u8>, start: int) -> Seq<u8> {
    cleared_before(s, start, s.len() as int)
}

/// Number of chunks among the first `chunks` whose flag byte marks a loop.
pub open spec fn marked_chunks(s: Seq<u8>, start: int, chunks: nat) -> nat
    decreases chunks,
{
    if chunks == 0 {
        0
    } else {
        marked_chunks(s, start, (chunks - 1) as nat) + if marks_loop(s[start + 16 * (chunks - 1) + 1]) {
            1nat
        } else {
            0nat
        }
    }
}

/// Number of chunks, the last one perhaps short, in sample data of `len`
/// bytes.
pub open spec fn chunk_count(len: int) -> nat {
    if len <= 0 {
        0
    } else {
        ((len + 15) / 16) as nat
    }
}

/// Clears the loop flags of one chunk and tells whether it held any.
pub fn remove_loop(bytes: &mut [u8]) -> (changed: bool)
    requires
        old(bytes)@.len() >= 2,
    ensures
        changed == marks_loop(old(bytes)@[1]),
        final(bytes)@ == if changed {
            old(bytes)@.update(1, 0u8)
        } else {
            old(bytes)@
        },
{
    if bytes[1] != 7 && bytes[1] != 0 {
        bytes[1] = 0;
        true
    } else {
        false
    }
}

fn remove_loop_at(bytes: &mut [u8], at: usize) -> (changed: bool)
    requires
        at + 2 <= old(bytes)@.len(),
    ensures
        changed == marks_loop(old(bytes)@[at + 1]),
        final(bytes)@ == if changed {
            old(bytes)@.update(at + 1, 0u8)
        } else {
            old(bytes)@
        },
{
    let len = bytes.len();
    let (head, tail) = bytes.split_at_mut(at);
    let changed = remove_loop(tail);
    proof {
        assert(final(bytes)@ =~= if changed {
            old(bytes)@.update(at + 1, 0u8)
        } else {
            old(bytes)@
        });
    }
    changed
}

/// Clears the loop flags of every chunk of the sample data that starts at
/// `start`, and counts the chunks that held any.
pub fn clear_loops(bytes: &mut [u8], start: usize) -> (changed: usize)
    requires
        start <= old(bytes)@.len(),
        (old(bytes)@.len() - start) % 16 != 1,
    ensures
        final(bytes)@ == unlooped(old(bytes)@, start as int),
        changed == marked_chunks(old(bytes)@, start as int, chunk_count(old(bytes)@.len() - start)),
{
    let ghost s = bytes@;
    let len = bytes.len();
    let mut at: usize = start;
    let mut changed: usize = 0;
    let ghost mut chunks: nat = 0;
    assert(bytes@ =~= cleared_before(s, start as int, at as int));
    while at < len
        invariant
            len == s.len(),
            bytes@.len() == s.len(),
            start <= at <= len,
            (len - start) % 16 != 1,
            at < len ==> at == start + 16 * chunks,
            at == len ==> chunks == chunk_count(len - start),
            bytes@ == cleared_before(s, start as int, at as int),
            changed == marked_chunks(s, start as int, chunks),
            changed <= chunks <= at - start,
        decreases len - at,
    {
        let ghost before = bytes@;
        assert((len - at) % 16 == (len - start) % 16);
        assert(before[at + 1] == s[at + 1]);
        if remove_loop_at(bytes, at) {
            changed = changed + 1;
        }
        proof {
            chunks = chunks + 1;
        }
        let ghost here = at;
        at = if len - at <= 16 {
            len
        } else {
            at + 16
        };
        assert(bytes@ =~= cleared_before(s, start as int, at as int)) by {
            assert forall|j: int| 0 <= j < s.len() implies bytes@[j] == cleared_before(
                s,
                start as int,
                at as int,
            )[j] by {
                if is_flag_byte(start as int, j) && here <= j < at {
                    assert(j == here + 1);
                }
            }
        }
    }
    assert(cleared_before(s, start as int, at as int) =~= unlooped(s, start as int));
    changed
}

} // verus!
