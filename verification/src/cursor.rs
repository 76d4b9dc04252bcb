//! A cursor over the bytes of an inbound stream: the frame reader consumes
//! lines and exact byte counts from it, as a buffered reader would.

use vstd::prelude::*;
use vstd::slice::*;
use crate::bytes::{first_line_len, lemma_find_nl_none, lemma_find_nl_some};

verus! {

pub struct ByteCursor {
    data: Vec<u8>,
    pos: usize,
}

impl ByteCursor {
    pub closed spec fn stream(&self) -> Seq<u8> {
        self.data@
    }

    pub closed spec fn position(&self) -> int {
        self.pos as int
    }

    pub open spec fn wf(&self) -> bool {
        0 <= self.position() <= self.stream().len()
    }

    /// The bytes not yet consumed.
    pub open spec fn remaining(&self) -> Seq<u8> {
        self.stream().skip(self.position())
    }

    pub fn new(data: Vec<u8>) -> (c: ByteCursor)
        ensures
            c.wf(),
            c.stream() == data@,
            c.position() == 0,
            c.remaining() == data@,
    {
        let c = ByteCursor { data, pos: 0 };
        proof {
            assert(c.remaining() =~= c.stream());
        }
        c
    }

    /// Consumes and returns one line: the shortest prefix of the remaining
    /// bytes that ends with a line feed, or all of them when none is left.
    /// Returns `None` at the end of the stream.
    pub fn read_line(&mut self) -> (r: Option<Vec<u8>>)
        requires
            old(self).wf(),
        ensures
            final(self).wf(),
            final(self).stream() == old(self).stream(),
            match r {
                None => old(self).remaining().len() == 0 && *final(self) == *old(self),
                Some(line) => {
                    let l = first_line_len(old(self).remaining());
                    &&& old(self).remaining().len() > 0
                    &&& line@ == old(self).remaining().take(l)
                    &&& line@.len() == l
                    &&& final(self).remaining() == old(self).remaining().skip(l)
                    &&& final(self).position() == old(self).position() + l
                },
            },
    {
        if self.pos >= self.data.len() {
            proof {
                assert(self.remaining().len() == 0);
            }
            return None;
        }
        let ghost rem = self.remaining();
        let mut i: usize = self.pos;
        let mut found = false;
        while i < self.data.len() && !found
            invariant
                self.wf(),
                self.pos <= i <= self.data.len(),
                forall|j: int| self.pos <= j < i ==> self.stream()[j] != 10,
                found ==> i < self.data.len() && self.stream()[i as int] == 10,
            decreases self.data.len() - i + (if found { 0int } else { 1int }),
        {
            if self.data[i] == 10 {
                found = true;
            } else {
                i = i + 1;
            }
        }
        let end = if found {
            i + 1
        } else {
            i
        };
        proof {
            if found {
                lemma_find_nl_some(rem, i - self.pos);
            } else {
                lemma_find_nl_none(rem);
            }
            assert(forall|j: int|
                0 <= j < rem.len() ==> rem[j] == self.stream()[self.position() + j]);
        }
        let line = copy_range(&self.data, self.pos, end);
        proof {
            let l = first_line_len(rem);
            assert(line@ =~= rem.take(l));
        }
        self.pos = end;
        proof {
            assert(self.remaining() =~= rem.skip(first_line_len(rem)));
        }
        Some(line)
    }

    /// Consumes exactly `n` bytes, or consumes nothing and returns `None`
    /// when fewer than `n` remain.
    pub fn read_exact(&mut self, n: usize) -> (r: Option<Vec<u8>>)
        requires
            old(self).wf(),
        ensures
            final(self).wf(),
            final(self).stream() == old(self).stream(),
            match r {
                None => old(self).remaining().len() < n && *final(self) == *old(self),
                Some(buf) => {
                    &&& old(self).remaining().len() >= n
                    &&& buf@ == old(self).remaining().take(n as int)
                    &&& final(self).remaining() == old(self).remaining().skip(n as int)
                    &&& final(self).position() == old(self).position() + n
                },
            },
    {
        if n > self.data.len() - self.pos {
            return None;
        }
        let ghost rem = self.remaining();
        let buf = copy_range(&self.data, self.pos, self.pos + n);
        self.pos = self.pos + n;
        proof {
            assert(forall|j: int|
                0 <= j < rem.len() ==> rem[j] == self.stream()[old(self).position() + j]);
            assert(buf@ =~= rem.take(n as int));
            assert(self.remaining() =~= rem.skip(n as int));
        }
        Some(buf)
    }
}

/// A fresh copy of `v[a..b]`.
pub fn copy_range(v: &Vec<u8>, a: usize, b: usize) -> (r: Vec<u8>)
    requires
        a <= b <= v@.len(),
    ensures
        r@ == v@.subrange(a as int, b as int),
{
    let s = slice_subrange(v.as_slice(), a, b);
    slice_to_vec(s)
}

} // verus!
