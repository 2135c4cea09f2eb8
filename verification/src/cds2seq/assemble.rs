//! The output assembler: cuts the rewritten stream behind its first
//! terminator and puts the SEQ header in front.

use vstd::prelude::*;
use super::error::ConvertError;
use super::header::{seq_header, Header};

verus! {

/// Whether the terminator triplet `FF 2F 00` stands at `k`.
pub open spec fn terminator_at(s: Seq<u8>, k: int) -> bool {
    &&& 0 <= k
    &&& k + 3 <= s.len()
    &&& s[k] == 0xff
    &&& s[k + 1] == 0x2f
    &&& s[k + 2] == 0x00
}

/// Where the first terminator at or after `i` stands, if there is one.
pub open spec fn terminator_from(s: Seq<u8>, i: int) -> Option<int>
    decreases s.len() - i,
{
    if i < 0 || i + 3 > s.len() {
        None
    } else if terminator_at(s, i) {
        Some(i)
    } else {
        terminator_from(s, i + 1)
    }
}

/// The position found by [`terminator_from`] holds a terminator, and no
/// position between the start of the search and it does.
pub proof fn lemma_terminator_is_first(s: Seq<u8>, i: int)
    requires
        0 <= i,
    ensures
        match terminator_from(s, i) {
            Some(k) => i <= k && terminator_at(s, k) && forall|j: int|
                i <= j < k ==> !terminator_at(s, j),
            None => forall|j: int| i <= j ==> !terminator_at(s, j),
        },
    decreases s.len() - i,
{
    if i + 3 <= s.len() && !terminator_at(s, i) {
        lemma_terminator_is_first(s, i + 1);
    }
}

/// The SEQ file of a rewritten stream: the header, then the stream up to
/// and with its first terminator.  `None` when the stream holds none.
pub open spec fn assembled(header: Header, body: Seq<u8>) -> Option<Seq<u8>> {
    match terminator_from(body, 0) {
        Some(k) => Some(seq_header(header) + body.subrange(0, k + 3)),
        None => None,
    }
}

/// Finds the first terminator triplet of a stream.
pub fn find_terminator(body: &[u8]) -> (res: Option<usize>)
    ensures
        match res {
            Some(k) => terminator_from(body@, 0) == Some(k as int),
            None => terminator_from(body@, 0) is None,
        },
{
    let len = body.len();
    let mut i: usize = 0;
    while len - i >= 3
        invariant
            len == body@.len(),
            i <= len,
            terminator_from(body@, 0) == terminator_from(body@, i as int),
        decreases len - i,
    {
        if body[i] == 0xff && body[i + 1] == 0x2f && body[i + 2] == 0x00 {
            return Some(i);
        }
        i = i + 1;
    }
    None
}

/// Builds the SEQ file: the header made from `header`, then `body` cut
/// behind its first terminator.  A body without terminator is refused.
pub fn assemble(header: &Header, body: &[u8]) -> (res: Result<Vec<u8>, ConvertError>)
    ensures
        match res {
            Ok(out) => assembled(*header, body@) == Some(out@),
            Err(e) => e == ConvertError::NoTerminatorFound && assembled(*header, body@) is None,
        },
{
    match find_terminator(body) {
        None => Err(ConvertError::NoTerminatorFound),
        Some(k) => {
            proof {
                lemma_terminator_is_first(body@, 0);
            }
            let len = body.len();
            let mut out = header.seq_prefix();
            let end = k + 3;
            let mut i: usize = 0;
            assert(out@ + body@.subrange(0, 0) =~= out@);
            while i < end
                invariant
                    i <= end <= body@.len(),
                    out@ == seq_header(*header) + body@.subrange(0, i as int),
                decreases end - i,
            {
                out.push(body[i]);
                i = i + 1;
                assert(out@ =~= seq_header(*header) + body@.subrange(0, i as int));
            }
            Ok(out)
        },
    }
}

} // verus!
