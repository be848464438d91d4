use vstd::prelude::*;

verus! {

/// How many bytes of a CONNECT tunnel are read before the TLS handshake.
pub const PEEK_LEN: usize = 4;

/// Bytes read ahead of a stream, handed out again before the stream itself.
pub struct Rewind {
    pre: Vec<u8>,
    pos: usize,
}

impl View for Rewind {
    type V = Seq<u8>;

    /// The bytes not yet handed out.
    closed spec fn view(&self) -> Seq<u8> {
        self.pre@.subrange(self.pos as int, self.pre@.len() as int)
    }
}

impl Rewind {
    pub closed spec fn wf(&self) -> bool {
        self.pos <= self.pre@.len()
    }

    pub fn new(pre: Vec<u8>) -> (r: Rewind)
        ensures
            r.wf(),
            r@ == pre@,
    {
        let r = Rewind { pre, pos: 0 };
        assert(r@ =~= pre@);
        r
    }

    /// Nothing is left; further reads go to the stream.
    pub fn is_drained(&self) -> (r: bool)
        requires
            self.wf(),
        ensures
            r == (self@.len() == 0),
    {
        self.pos >= self.pre.len()
    }

    /// Hands out up to `max` of the remaining bytes, oldest first. What is
    /// handed out followed by what is left is what was left before.
    pub fn take(&mut self, max: usize) -> (r: Vec<u8>)
        requires
            old(self).wf(),
        ensures
            final(self).wf(),
            r@.len() == if max < old(self)@.len() { max as int } else { old(self)@.len() as int },
            r@ + final(self)@ == old(self)@,
    {
        let rest = self.pre.len() - self.pos;
        let n = if max < rest { max } else { rest };
        let mut out: Vec<u8> = Vec::new();
        let plen: usize = self.pre.len();
        let mut k: usize = 0;
        while k < n
            invariant
                plen == self.pre@.len(),
                k <= n,
                n <= self.pre@.len() - self.pos,
                self.pos <= self.pre@.len(),
                self.pre@ == old(self).pre@,
                self.pos == old(self).pos,
                out@ == self.pre@.subrange(self.pos as int, self.pos + k),
            decreases n - k,
        {
            out.push(self.pre[self.pos + k]);
            assert(out@ =~= self.pre@.subrange(self.pos as int, self.pos + k + 1));
            k = k + 1;
        }
        self.pos = self.pos + n;
        assert(out@ + self@ =~= old(self)@);
        out
    }
}

} // verus!
