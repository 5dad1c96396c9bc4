//! A byte source with eight bytes of look-ahead, enough to peek a whole VINT
//! or ID without committing to consume it.

use vstd::prelude::*;

verus! {

/// A cursor over an in-memory byte buffer that can show the next eight bytes
/// without consuming them. Feeding it from a file or a socket is the caller's
/// business: the whole document is handed over up front.
#[derive(Debug)]
pub struct PeekableReader {
    data: Vec<u8>,
    pos: usize,
}

impl PeekableReader {
    #[verifier::type_invariant]
    spec fn inv(self) -> bool {
        self.pos <= self.data.len()
    }

    /// The bytes not yet consumed.
    pub closed spec fn remaining(self) -> Seq<u8> {
        self.data@.skip(self.pos as int)
    }

    /// How many bytes have been consumed so far.
    pub closed spec fn spec_pos(self) -> int {
        self.pos as int
    }

    /// Wraps a byte buffer; nothing is consumed yet.
    pub fn new(data: Vec<u8>) -> (r: PeekableReader)
        ensures
            r.remaining() == data@,
            r.spec_pos() == 0,
    {
        let r = PeekableReader { data, pos: 0 };
        proof {
            assert(r.remaining() =~= r.data@);
        }
        r
    }

    /// How many bytes are left.
    pub fn remaining_len(&self) -> (r: usize)
        ensures
            r == self.remaining().len(),
    {
        proof {
            use_type_invariant(self);
        }
        self.data.len() - self.pos
    }

    /// The position of the cursor: the number of bytes consumed so far.
    pub fn position(&self) -> (r: usize)
        ensures
            r == self.spec_pos(),
    {
        self.pos
    }

    /// Copies out the next eight bytes, or as many as are left when fewer
    /// remain. Repeated calls return the same bytes until `advance` is
    /// called.
    pub fn peek8(&self) -> (r: Vec<u8>)
        ensures
            r@.len() == if self.remaining().len() < 8 {
                self.remaining().len()
            } else {
                8
            },
            r@ == self.remaining().take(r@.len() as int),
    {
        proof {
            use_type_invariant(self);
        }
        let n = self.data.len() - self.pos;
        let take = if n < 8 {
            n
        } else {
            8
        };
        let mut out: Vec<u8> = Vec::new();
        let mut i: usize = 0;
        while i < take
            invariant
                0 <= i <= take,
                self.pos + take <= self.data.len(),
                take == if self.remaining().len() < 8 {
                    self.remaining().len() as int
                } else {
                    8int
                },
                out@ =~= self.remaining().take(i as int),
                self.inv(),
            decreases take - i,
        {
            out.push(self.data[self.pos + i]);
            proof {
                assert(out@ =~= self.remaining().take(i + 1));
            }
            i += 1;
        }
        out
    }

    /// Reads and consumes the next `amount` bytes; `None`, consuming
    /// nothing, when fewer remain.
    pub fn read(&mut self, amount: usize) -> (r: Option<Vec<u8>>)
        ensures
            r is Some <==> amount <= old(self).remaining().len(),
            match r {
                Some(v) => {
                    &&& v@ == old(self).remaining().take(amount as int)
                    &&& final (self).remaining() == old(self).remaining().skip(amount as int)
                    &&& final (self).spec_pos() == old(self).spec_pos() + amount
                },
                None => *final (self) == *old(self),
            },
    {
        proof {
            use_type_invariant(&*self);
        }
        if self.data.len() - self.pos < amount {
            return None;
        }
        let mut out: Vec<u8> = Vec::new();
        let mut i: usize = 0;
        proof {
            assert(out@ =~= self.remaining().take(0));
        }
        while i < amount
            invariant
                0 <= i <= amount,
                self.pos + amount <= self.data.len(),
                out@ =~= self.remaining().take(i as int),
                self.inv(),
            decreases amount - i,
        {
            out.push(self.data[self.pos + i]);
            proof {
                assert(out@ =~= self.remaining().take(i + 1));
            }
            i += 1;
        }
        self.pos = self.pos + amount;
        proof {
            assert(self.remaining() =~= old(self).remaining().skip(amount as int));
        }
        Some(out)
    }

    /// Moves the cursor forward by `amount` bytes, stopping at the end of the
    /// buffer. Returns true when fewer than eight bytes are left afterwards,
    /// that is, when the look-ahead window has hit the end of the input.
    pub fn advance(&mut self, amount: usize) -> (r: bool)
        ensures
            final (self).remaining() == old(self).remaining().skip(
                if amount > old(self).remaining().len() {
                    old(self).remaining().len() as int
                } else {
                    amount as int
                },
            ),
            final (self).spec_pos() == old(self).spec_pos() + old(self).remaining().len() - final (self).remaining().len(),
            r == (final (self).remaining().len() < 8),
    {
        proof {
            use_type_invariant(&*self);
        }
        let left = self.data.len() - self.pos;
        let step = if amount > left {
            left
        } else {
            amount
        };
        self.pos = self.pos + step;
        proof {
            assert(self.remaining() =~= old(self).remaining().skip(step as int));
        }
        self.data.len() - self.pos < 8
    }
}

} // verus!
