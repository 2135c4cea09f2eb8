//! Why a conversion stops.

use vstd::prelude::*;

verus! {

/// The structural faults that end the conversion of one file.
#[derive(Clone, Copy, Debug, PartialEq, Eq, Structural)]
pub enum ConvertError {
    /// The first four bytes are not one of the two container tags.
    MalformedHeader,
    /// A loop-finish marker has no loop-start marker before it.
    UnpairedLoopTerminator,
    /// A header field or a message runs past the end of the buffer.
    TruncatedBuffer,
    /// The rewritten stream holds no terminator triplet.
    NoTerminatorFound,
}

} // verus!
