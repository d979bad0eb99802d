//! The output writer: an append-only buffer with a byte budget and a
//! tentative-write-then-commit discipline.
//!
//! Bytes are staged past the committed cursor; `commit` makes them
//! permanent, `rollback` discards them. An emission step that overflows the
//! budget or fails validation rolls back and leaves the committed stream
//! exactly as it was, so a failed step never corrupts the output.

use vstd::prelude::*;

use crate::error::{HootError, Result};
use crate::header::push_all;

verus! {

/// An owned output buffer with a byte budget `limit` and a committed cursor.
pub struct Out {
    /// The bytes written so far, committed and staged.
    pub buf: Vec<u8>,
    /// The most bytes the buffer may hold.
    pub limit: usize,
    /// How many of the buffered bytes are committed.
    pub committed: usize,
}

impl Out {
    /// Well-formedness: the committed cursor is inside the buffer and the
    /// buffer is inside its budget.
    pub open spec fn wf(self) -> bool {
        self.committed <= self.buf@.len() <= self.limit
    }

    /// The committed bytes.
    pub open spec fn committed_bytes(self) -> Seq<u8> {
        self.buf@.take(self.committed as int)
    }

    /// A fresh, empty buffer with the given budget.
    pub fn new(limit: usize) -> (r: Out)
        ensures
            r.wf(),
            r.buf@ == Seq::<u8>::empty(),
            r.committed == 0,
            r.limit == limit,
    {
        Out { buf: Vec::new(), limit, committed: 0 }
    }

    /// Stages `bytes` after what is already buffered. Reports overflow, and
    /// stages nothing, exactly when they do not fit in the budget.
    pub fn stage(&mut self, bytes: &[u8]) -> (r: Result<()>)
        requires
            old(self).wf(),
        ensures
            final(self).wf(),
            final(self).limit == old(self).limit,
            final(self).committed == old(self).committed,
            r is Ok <==> old(self).buf@.len() + bytes@.len() <= old(self).limit,
            r is Ok ==> final(self).buf@ == old(self).buf@ + bytes@,
            r matches Err(e) ==> e == HootError::OutputOverflow && final(self).buf@ == old(
                self,
            ).buf@,
    {
        if bytes.len() > self.limit - self.buf.len() {
            return Err(HootError::OutputOverflow);
        }
        push_all(&mut self.buf, bytes);
        Ok(())
    }

    /// Makes every staged byte permanent.
    pub fn commit(&mut self)
        requires
            old(self).wf(),
        ensures
            final(self).wf(),
            final(self).buf == old(self).buf,
            final(self).limit == old(self).limit,
            final(self).committed == final(self).buf@.len(),
    {
        self.committed = self.buf.len();
    }

    /// Discards every staged byte, leaving the committed stream as it was.
    pub fn rollback(&mut self)
        requires
            old(self).wf(),
        ensures
            final(self).wf(),
            final(self).limit == old(self).limit,
            final(self).committed == old(self).committed,
            final(self).buf@ == old(self).committed_bytes(),
    {
        self.buf.truncate(self.committed);
        proof {
            assert(self.buf@ =~= old(self).buf@.take(old(self).committed as int));
        }
    }

    /// Hands the committed bytes out, consuming the writer.
    pub fn into_vec(self) -> (r: Vec<u8>)
        requires
            self.wf(),
            self.committed == self.buf@.len(),
        ensures
            r@ == self.buf@,
    {
        self.buf
    }
}

} // verus!
