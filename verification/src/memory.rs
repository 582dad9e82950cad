//! The frame's byte-addressable memory: an expandable buffer whose length
//! is always a multiple of 32 and which only grows within a frame. New
//! bytes read as zero; all expansion goes through `resize`, so its gas is
//! charged exactly once per instruction.

use vstd::prelude::*;

verus! {

pub struct Memory {
    pub data: Vec<u8>,
}

impl Memory {
    pub open spec fn view(&self) -> Seq<u8> {
        self.data@
    }

    /// Memory length stays word-aligned.
    pub open spec fn wf(&self) -> bool {
        self@.len() % 32 == 0
    }

    pub fn new() -> (r: Memory)
        ensures
            r@ =~= Seq::<u8>::empty(),
            r.wf(),
    {
        Memory { data: Vec::new() }
    }

    pub fn len(&self) -> (r: usize)
        ensures
            r == self@.len(),
    {
        self.data.len()
    }

    /// Read-only access to the whole buffer.
    pub fn data(&self) -> (r: &Vec<u8>)
        ensures
            r@ == self@,
    {
        &self.data
    }

    /// Grows the buffer to `new_len`, filling with zeroes. Expansion is
    /// monotonic: callers only ever pass a word-aligned length at least
    /// the current one.
    pub fn resize(&mut self, new_len: usize)
        requires
            new_len % 32 == 0,
            new_len >= old(self)@.len(),
            old(self).wf(),
        ensures
            final(self).wf(),
            final(self)@.len() == new_len,
            final(self)@.subrange(0, old(self)@.len() as int) == old(self)@,
            forall|i: int| old(self)@.len() <= i < new_len ==> final(self)@[i] == 0,
    {
        let ghost orig = self.data@;
        while self.data.len() < new_len
            invariant
                orig.len() <= self.data@.len() <= new_len,
                self.data@.subrange(0, orig.len() as int) =~= orig,
                forall|i: int| orig.len() <= i < self.data@.len() ==> self.data@[i] == 0,
            decreases new_len - self.data@.len(),
        {
            self.data.push(0u8);
            proof {
                assert(self.data@.subrange(0, orig.len() as int) =~= orig);
            }
        }
    }

    /// Copies `size` bytes starting at `off` out of memory.
    pub fn get_copy(&self, off: usize, size: usize) -> (r: Vec<u8>)
        requires
            off + size <= self@.len(),
        ensures
            r@ == self@.subrange(off as int, off + size),
    {
        let dlen = self.data.len();
        let mut out: Vec<u8> = Vec::new();
        let mut i: usize = 0;
        while i < size
            invariant
                i <= size,
                off + size <= dlen == self@.len(),
                out@ =~= self@.subrange(off as int, off + i),
            decreases size - i,
        {
            out.push(self.data[off + i]);
            proof {
                assert(out@ =~= self@.subrange(off as int, off + i + 1));
            }
            i = i + 1;
        }
        out
    }

    /// Writes `src` into memory at `off`; the rest is untouched.
    pub fn set(&mut self, off: usize, src: &[u8])
        requires
            off + src@.len() <= old(self)@.len(),
        ensures
            final(self)@.len() == old(self)@.len(),
            forall|i: int|
                off <= i < off + src@.len() ==> final(self)@[i] == src@[i - off],
            forall|i: int|
                0 <= i < final(self)@.len() && !(off <= i < off + src@.len())
                    ==> final(self)@[i] == old(self)@[i],
            final(self).wf() == old(self).wf(),
    {
        let n = src.len();
        let dlen = self.data.len();
        let mut i: usize = 0;
        while i < n
            invariant
                i <= n == src@.len(),
                off + n <= dlen,
                dlen == self.data@.len() == old(self)@.len(),
                forall|j: int| off <= j < off + i ==> self.data@[j] == src@[j - off],
                forall|j: int|
                    0 <= j < self.data@.len() && !(off <= j < off + i) ==> self.data@[j] == old(
                        self,
                    )@[j],
            decreases n - i,
        {
            let b = src[i];
            self.data.set(off + i, b);
            i = i + 1;
        }
    }

    /// Writes one byte.
    pub fn set_byte(&mut self, off: usize, b: u8)
        requires
            off < old(self)@.len(),
        ensures
            final(self)@ == old(self)@.update(off as int, b),
            final(self).wf() == old(self).wf(),
    {
        self.data.set(off, b);
    }
}

} // verus!
