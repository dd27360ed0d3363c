//! In-memory byte streams.
//!
//! Encoding writes into a growing `Vec<u8>`; decoding reads from a
//! [`ByteReader`], a cursor over a borrowed byte slice. Adapters that move
//! bytes between these buffers and real transports live outside the
//! verified core.

use vstd::prelude::*;
use vstd::slice::slice_index_get;
use vstd::slice::slice_subrange;

use crate::error::Error;

verus! {

/// A cursor over a borrowed byte slice, consumed from the front.
pub struct ByteReader<'a> {
    /// The whole underlying byte source.
    pub bytes: &'a [u8],
    /// How many bytes have been consumed so far.
    pub pos: usize,
}

impl<'a> ByteReader<'a> {
    /// The cursor never points past the end of the source.
    pub open spec fn wf(self) -> bool {
        self.pos <= self.bytes@.len()
    }

    /// The bytes not yet consumed.
    pub open spec fn remaining(self) -> Seq<u8> {
        self.bytes@.skip(self.pos as int)
    }

    /// Returns a fresh reader over `bytes`, positioned at the start.
    pub fn new(bytes: &'a [u8]) -> (r: ByteReader<'a>)
        ensures
            r.wf(),
            r.bytes@ == bytes@,
            r.pos == 0,
            r.remaining() == bytes@,
    {
        let r = ByteReader { bytes, pos: 0 };
        proof {
            assert(r.remaining() =~= bytes@);
        }
        r
    }

    /// Consumes and returns the next byte, or fails when the source is
    /// exhausted.
    pub fn read_byte(&mut self) -> (r: Result<u8, Error>)
        requires
            old(self).wf(),
        ensures
            final(self).wf(),
            final(self).bytes@ == old(self).bytes@,
            old(self).remaining().len() > 0 ==> (r matches Ok(b) && b == old(self).remaining()[0]
                && final(self).pos == old(self).pos + 1),
            old(self).remaining().len() == 0 ==> (r matches Err(e) && e == Error::IoError
                && final(self).pos == old(self).pos),
    {
        if self.pos < self.bytes.len() {
            let b: u8 = *slice_index_get(self.bytes, self.pos);
            self.pos = self.pos + 1;
            Ok(b)
        } else {
            Err(Error::IoError)
        }
    }

    /// Consumes the next `n` bytes and returns them as a slice, or fails
    /// without consuming anything when fewer than `n` bytes remain.
    pub fn read_exact(&mut self, n: usize) -> (r: Result<&'a [u8], Error>)
        requires
            old(self).wf(),
        ensures
            final(self).wf(),
            final(self).bytes@ == old(self).bytes@,
            old(self).remaining().len() >= n ==> (r matches Ok(s)
                && s@ == old(self).remaining().take(n as int)
                && final(self).pos == old(self).pos + n),
            old(self).remaining().len() < n ==> (r matches Err(e)
                && e == Error::IoError
                && final(self).pos == old(self).pos),
    {
        if n <= self.bytes.len() - self.pos {
            let s: &'a [u8] = slice_subrange(self.bytes, self.pos, self.pos + n);
            proof {
                assert(s@ =~= self.remaining().take(n as int));
            }
            self.pos = self.pos + n;
            Ok(s)
        } else {
            Err(Error::IoError)
        }
    }
}

} // verus!
