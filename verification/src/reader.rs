//! A forward-only cursor over a byte buffer.

use vstd::prelude::*;
use vstd::slice::slice_subrange;
use crate::bytes::{le32, read_le32};

verus! {

/// Reads a borrowed buffer front to back, one byte or one fixed-width field
/// at a time.  A read that asks for more than is left fails and leaves the
/// cursor at the end of the buffer.
pub struct ByteReader<'a> {
    bytes: &'a [u8],
    pos: usize,
}

impl<'a> ByteReader<'a> {
    #[verifier::type_invariant]
    spec fn in_bounds(&self) -> bool {
        self.pos <= self.bytes@.len()
    }

    /// The whole buffer the cursor walks over.
    pub closed spec fn source(&self) -> Seq<u8> {
        self.bytes@
    }

    /// How many bytes have been consumed.
    pub closed spec fn position(&self) -> nat {
        self.pos as nat
    }

    /// The bytes not yet consumed.
    pub open spec fn remaining(&self) -> Seq<u8> {
        self.source().skip(self.position() as int)
    }

    /// A cursor at the start of `bytes`.
    pub fn new(bytes: &'a [u8]) -> (r: Self)
        ensures
            r.source() == bytes@,
            r.position() == 0,
    {
        ByteReader { bytes, pos: 0 }
    }

    /// Number of bytes consumed so far.
    pub fn consumed(&self) -> (n: usize)
        ensures
            n == self.position(),
            n <= self.source().len(),
    {
        proof {
            use_type_invariant(self);
        }
        self.pos
    }

    /// Number of bytes still to read.
    pub fn len(&self) -> (n: usize)
        ensures
            n == self.source().len() - self.position(),
    {
        proof {
            use_type_invariant(self);
        }
        self.bytes.len() - self.pos
    }

    /// The next byte, if there is one.
    pub fn next(&mut self) -> (b: Option<u8>)
        ensures
            final(self).source() == old(self).source(),
            match b {
                Some(x) => {
                    &&& old(self).position() < old(self).source().len()
                    &&& x == old(self).source()[old(self).position() as int]
                    &&& final(self).position() == old(self).position() + 1
                },
                None => {
                    &&& old(self).position() == old(self).source().len()
                    &&& final(self).position() == old(self).position()
                },
            },
    {
        proof {
            use_type_invariant(&*self);
        }
        if self.pos < self.bytes.len() {
            let x = self.bytes[self.pos];
            self.pos = self.pos + 1;
            Some(x)
        } else {
            None
        }
    }

    /// The bytes still to read, as a slice of the buffer.
    pub fn rest(&self) -> (out: &'a [u8])
        ensures
            out@ == self.remaining(),
    {
        proof {
            use_type_invariant(self);
        }
        let out = slice_subrange(self.bytes, self.pos, self.bytes.len());
        assert(out@ =~= self.remaining());
        out
    }

    /// Moves the cursor to the end of the buffer.
    pub fn exhaust(&mut self)
        ensures
            final(self).source() == old(self).source(),
            final(self).position() == old(self).source().len(),
    {
        self.pos = self.bytes.len();
    }

    /// The next `count` bytes.  When fewer are left, the cursor moves to the
    /// end and nothing is returned.
    pub fn take(&mut self, count: usize) -> (out: Option<&'a [u8]>)
        ensures
            final(self).source() == old(self).source(),
            match out {
                Some(chunk) => {
                    &&& old(self).position() + count <= old(self).source().len()
                    &&& chunk@ == old(self).source().subrange(
                        old(self).position() as int,
                        old(self).position() + count,
                    )
                    &&& final(self).position() == old(self).position() + count
                },
                None => {
                    &&& old(self).position() + count > old(self).source().len()
                    &&& final(self).position() == old(self).source().len()
                },
            },
    {
        proof {
            use_type_invariant(&*self);
        }
        if self.bytes.len() - self.pos < count {
            self.pos = self.bytes.len();
            None
        } else {
            let chunk = slice_subrange(self.bytes, self.pos, self.pos + count);
            self.pos = self.pos + count;
            Some(chunk)
        }
    }

    /// Skips `count` bytes, or as many as are left.
    pub fn skip(&mut self, count: usize)
        ensures
            final(self).source() == old(self).source(),
            final(self).position() == if old(self).position() + count <= old(self).source().len() {
                old(self).position() + count
            } else {
                old(self).source().len() as int
            },
    {
        proof {
            use_type_invariant(&*self);
        }
        if self.bytes.len() - self.pos < count {
            self.pos = self.bytes.len();
        } else {
            self.pos = self.pos + count;
        }
    }


    /// The next four bytes as a 32-bit value, low byte first.
    pub fn next_le32(&mut self) -> (out: Option<u32>)
        ensures
            final(self).source() == old(self).source(),
            match out {
                Some(v) => {
                    &&& old(self).position() + 4 <= old(self).source().len()
                    &&& v == le32(old(self).source(), old(self).position() as int)
                    &&& final(self).position() == old(self).position() + 4
                },
                None => {
                    &&& old(self).position() + 4 > old(self).source().len()
                    &&& final(self).position() == old(self).source().len()
                },
            },
    {
        proof {
            use_type_invariant(&*self);
        }
        if self.bytes.len() - self.pos < 4 {
            self.pos = self.bytes.len();
            None
        } else {
            let v = read_le32(self.bytes, self.pos);
            self.pos = self.pos + 4;
            Some(v)
        }
    }
}

} // verus!
