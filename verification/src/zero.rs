//! A source of a fixed number of zero bytes that are never held in memory.

use vstd::prelude::*;

verus! {

/// `n` zero bytes.
pub open spec fn zeros(n: nat) -> Seq<u8> {
    Seq::new(n, |i: int| 0u8)
}

/// The sum of the numbers in `wants`.
pub open spec fn total(wants: Seq<nat>) -> nat
    decreases wants.len(),
{
    if wants.len() == 0 {
        0
    } else {
        total(wants.drop_last()) + wants.last()
    }
}

/// Yields `count` zero bytes, `at` of which have been read.
#[derive(Debug)]
pub struct ZeroReader {
    pub count: usize,
    pub at: usize,
}

impl ZeroReader {
    /// The number of bytes still to come.
    pub open spec fn remaining(self) -> nat {
        if self.at <= self.count {
            (self.count - self.at) as nat
        } else {
            0
        }
    }

    /// The number of bytes that a pull for `want` bytes yields.
    pub open spec fn yield_of(self, want: nat) -> nat {
        if want <= self.remaining() {
            want
        } else {
            self.remaining()
        }
    }

    /// The reader after a pull for `want` bytes.
    pub open spec fn pulled(self, want: nat) -> ZeroReader {
        ZeroReader { count: self.count, at: (self.at + self.yield_of(want)) as usize }
    }

    /// The reader after one pull for each number in `wants`, in order.
    pub open spec fn pulled_each(self, wants: Seq<nat>) -> ZeroReader
        decreases wants.len(),
    {
        if wants.len() == 0 {
            self
        } else {
            self.pulled_each(wants.drop_last()).pulled(wants.last())
        }
    }

    /// A reader of `count` zero bytes, none of them read yet.
    pub fn new(count: usize) -> (r: Self)
        ensures
            r.count == count,
            r.at == 0,
            r.remaining() == count,
    {
        Self { count, at: 0 }
    }

    /// Fills the front of `buf` with the zero bytes that are left, as many as
    /// fit, and returns their number. The rest of `buf` is left as it was. A
    /// result below `buf`'s length says that the reader is exhausted.
    pub fn read(&mut self, buf: &mut [u8]) -> (num: usize)
        ensures
            num == old(self).yield_of(old(buf)@.len()),
            *final(self) == old(self).pulled(old(buf)@.len()),
            final(buf)@ == zeros(num as nat) + old(buf)@.subrange(
                num as int,
                old(buf)@.len() as int,
            ),
    {
        let len: usize = buf.len();
        let mut num: usize = 0;
        while num < len && self.at < self.count
            invariant
                num <= len,
                len == buf@.len(),
                buf@.len() == old(buf)@.len(),
                self.count == old(self).count,
                self.at == old(self).at + num,
                num <= old(self).remaining(),
                buf@ == zeros(num as nat) + old(buf)@.subrange(num as int, len as int),
            decreases len - num,
        {
            buf[num] = 0;
            num = num + 1;
            self.at = self.at + 1;
        }
        num
    }
}

/// However the pulls are cut, a reader yields as many bytes as were asked
/// for, until its count is reached, and none from then on.
pub proof fn lemma_pulls_yield_count(r: ZeroReader, wants: Seq<nat>)
    ensures
        r.pulled_each(wants).count == r.count,
        r.pulled_each(wants).at - r.at == r.remaining() - r.pulled_each(wants).remaining(),
        r.pulled_each(wants).at - r.at == if total(wants) <= r.remaining() {
            total(wants)
        } else {
            r.remaining()
        },
    decreases wants.len(),
{
    if wants.len() > 0 {
        lemma_pulls_yield_count(r, wants.drop_last());
    }
}

/// An exhausted reader yields nothing and stays exhausted.
pub proof fn lemma_exhausted_stays(r: ZeroReader, want: nat)
    requires
        r.remaining() == 0,
    ensures
        r.yield_of(want) == 0,
        r.pulled(want) == r,
{
}

} // verus!
