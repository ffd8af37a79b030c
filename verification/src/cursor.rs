//! A byte cursor: consumed bytes and pending bytes over an appendable
//! buffer.

use vstd::prelude::*;
use vstd::slice::slice_subrange;
use crate::bytes::append;
use crate::bytes::copy_range;

verus! {

/// A buffer that is appended to at its end and consumed from its front.
///
/// Its view is the pending bytes: what was appended and not yet consumed.
/// Consumed bytes are discarded as soon as they are no fewer than the
/// pending ones, so that the buffer never holds more than twice what is
/// pending.
#[derive(Debug)]
pub struct ByteCursor {
    buf: Vec<u8>,
    pos: usize,
}

impl View for ByteCursor {
    type V = Seq<u8>;

    closed spec fn view(&self) -> Seq<u8> {
        self.buf@.skip(self.pos as int)
    }
}

impl ByteCursor {
    #[verifier::type_invariant]
    closed spec fn inv(self) -> bool {
        self.pos <= self.buf@.len() - self.pos
    }

    /// How many bytes the buffer holds: the pending ones, and the consumed
    /// ones that were not discarded yet.
    pub closed spec fn held(&self) -> nat {
        self.buf@.len()
    }

    /// A cursor over an empty buffer.
    pub fn new() -> (r: ByteCursor)
        ensures
            r@ == Seq::<u8>::empty(),
            r.held() == 0,
    {
        ByteCursor { buf: Vec::new(), pos: 0 }
    }

    /// Appends `chunk` to the pending bytes.
    pub fn append(&mut self, chunk: &[u8])
        ensures
            final(self)@ == old(self)@ + chunk@,
            final(self).held() <= 2 * final(self)@.len(),
    {
        proof {
            use_type_invariant(&*self);
        }
        // The buffer is taken out while it grows, and put back after.
        let pos = self.pos;
        let mut buf: Vec<u8> = Vec::new();
        self.pos = 0;
        std::mem::swap(&mut self.buf, &mut buf);
        append(&mut buf, chunk);
        self.buf = buf;
        self.pos = pos;
    }

    /// The pending bytes.
    pub fn pending(&self) -> (r: &[u8])
        ensures
            r@ == self@,
    {
        proof {
            use_type_invariant(self);
        }
        let r = slice_subrange(self.buf.as_slice(), self.pos, self.buf.len());
        r
    }

    /// How many bytes are pending.
    pub fn pending_len(&self) -> (r: usize)
        ensures
            r == self@.len(),
    {
        proof {
            use_type_invariant(self);
        }
        self.buf.len() - self.pos
    }

    /// How many bytes the buffer holds.
    pub fn held_len(&self) -> (r: usize)
        ensures
            r == self.held(),
            r <= 2 * self@.len(),
    {
        proof {
            use_type_invariant(self);
        }
        self.buf.len()
    }

    /// Consumes the first `n` pending bytes, or all of them where fewer are
    /// pending.
    pub fn advance(&mut self, n: usize)
        ensures
            final(self)@ == old(self)@.skip(
                if n <= old(self)@.len() {
                    n as int
                } else {
                    old(self)@.len() as int
                },
            ),
            final(self).held() <= 2 * final(self)@.len(),
    {
        proof {
            use_type_invariant(&*self);
        }
        let pending = self.buf.len() - self.pos;
        let step: usize = if n <= pending {
            n
        } else {
            pending
        };
        let consumed = self.pos + step;
        let left = pending - step;
        if consumed >= left {
            let rest = copy_range(self.buf.as_slice(), consumed, self.buf.len());
            self.pos = 0;
            self.buf = rest;
        } else {
            self.pos = consumed;
        }
    }

    /// Drops every byte, pending or not.
    pub fn clear(&mut self)
        ensures
            final(self)@ == Seq::<u8>::empty(),
            final(self).held() == 0,
    {
        self.pos = 0;
        self.buf = Vec::new();
    }
}

} // verus!
