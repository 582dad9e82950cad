//! The word stack: a bounded sequence of 256-bit words. Every operation
//! rejects underflow or overflow before touching the data, so a failed
//! instruction leaves the stack exactly as it was.

use vstd::prelude::*;
use crate::word::W256;
use crate::Return;

verus! {

/// Most words a frame's stack may hold.
pub const STACK_LIMIT: usize = 1024;

pub struct Stack {
    pub data: Vec<W256>,
}

impl Stack {
    /// Bottom-to-top sequence of the stack's words.
    pub open spec fn view(&self) -> Seq<W256> {
        self.data@
    }

    pub fn new() -> (r: Stack)
        ensures
            r@ =~= Seq::<W256>::empty(),
    {
        Stack { data: Vec::new() }
    }

    pub fn len(&self) -> (r: usize)
        ensures
            r == self@.len(),
    {
        self.data.len()
    }

    /// Read-only access to the words, bottom first.
    pub fn data(&self) -> (r: &Vec<W256>)
        ensures
            r@ == self@,
    {
        &self.data
    }

    /// Pushes a word; fails without mutation when the stack is full.
    pub fn push(&mut self, value: W256) -> (r: Return)
        ensures
            old(self)@.len() < STACK_LIMIT ==> r == Return::Continue && final(self)@ == old(
                self,
            )@.push(value),
            old(self)@.len() >= STACK_LIMIT ==> r == Return::StackOverflow && final(self)@ == old(
                self,
            )@,
    {
        if self.data.len() >= STACK_LIMIT {
            return Return::StackOverflow;
        }
        self.data.push(value);
        Return::Continue
    }

    /// Pops the top word; fails without mutation when the stack is empty.
    pub fn pop(&mut self) -> (r: Result<W256, Return>)
        ensures
            old(self)@.len() > 0 ==> r == Ok::<W256, Return>(old(self)@.last()) && final(self)@
                == old(self)@.drop_last(),
            old(self)@.len() == 0 ==> r == Err::<W256, Return>(Return::StackUnderflow)
                && final(self)@ == old(self)@,
    {
        match self.data.pop() {
            Some(v) => Ok(v),
            None => Err(Return::StackUnderflow),
        }
    }

    /// The word `i` places below the top (0 is the top), without popping.
    pub fn peek(&self, i: usize) -> (r: Result<W256, Return>)
        ensures
            i < self@.len() ==> r == Ok::<W256, Return>(self@[self@.len() - 1 - i]),
            i >= self@.len() ==> r == Err::<W256, Return>(Return::StackUnderflow),
    {
        if i < self.data.len() {
            Ok(self.data[self.data.len() - 1 - i])
        } else {
            Err(Return::StackUnderflow)
        }
    }

    /// Duplicates the `n`-th word from the top (1 duplicates the top).
    pub fn dup(&mut self, n: usize) -> (r: Return)
        requires
            1 <= n,
        ensures
            old(self)@.len() < n ==> r == Return::StackUnderflow && final(self)@ == old(self)@,
            old(self)@.len() >= n && old(self)@.len() >= STACK_LIMIT ==> r == Return::StackOverflow
                && final(self)@ == old(self)@,
            old(self)@.len() >= n && old(self)@.len() < STACK_LIMIT ==> r == Return::Continue
                && final(self)@ == old(self)@.push(old(self)@[old(self)@.len() - n]),
    {
        let len = self.data.len();
        if len < n {
            return Return::StackUnderflow;
        }
        if len >= STACK_LIMIT {
            return Return::StackOverflow;
        }
        let v = self.data[len - n];
        self.data.push(v);
        Return::Continue
    }

    /// Swaps the top with the word `n` places below it.
    pub fn swap(&mut self, n: usize) -> (r: Return)
        requires
            1 <= n,
        ensures
            old(self)@.len() <= n ==> r == Return::StackUnderflow && final(self)@ == old(self)@,
            old(self)@.len() > n ==> r == Return::Continue && final(self)@ == old(self)@.update(
                old(self)@.len() - 1,
                old(self)@[old(self)@.len() - 1 - n],
            ).update(old(self)@.len() - 1 - n, old(self)@[old(self)@.len() - 1]),
    {
        let len = self.data.len();
        if len <= n {
            return Return::StackUnderflow;
        }
        let top = self.data[len - 1];
        let below = self.data[len - 1 - n];
        self.data.set(len - 1, below);
        self.data.set(len - 1 - n, top);
        Return::Continue
    }
}

} // verus!
