use crate::control::ExitError;
use crate::word::Word;
use vstd::prelude::*;

verus! {

/// A bounded last-in first-out stack of words; the top is the last element.
pub struct Stack {
    data: Vec<Word>,
    limit: usize,
}

impl View for Stack {
    type V = Seq<Word>;

    /// The elements from the bottom up.
    closed spec fn view(&self) -> Seq<Word> {
        self.data@
    }
}

impl Stack {
    /// The greatest depth the stack may reach.
    pub closed spec fn capacity(&self) -> nat {
        self.limit as nat
    }

    pub open spec fn wf(&self) -> bool {
        self@.len() <= self.capacity()
    }

    /// The element `n` positions below the top.
    pub open spec fn at(&self, n: int) -> Word {
        self@[self@.len() - 1 - n]
    }

    /// An empty stack that holds at most `limit` words.
    pub fn new(limit: usize) -> (r: Stack)
        ensures
            r.wf(),
            r@ == Seq::<Word>::empty(),
            r.capacity() == limit,
    {
        Stack { data: Vec::new(), limit }
    }

    /// The greatest depth the stack may reach.
    pub fn limit(&self) -> (r: usize)
        ensures
            r == self.capacity(),
    {
        self.limit
    }

    /// The current depth.
    pub fn len(&self) -> (r: usize)
        ensures
            r == self@.len(),
    {
        self.data.len()
    }

    /// Whether the stack holds no element.
    pub fn is_empty(&self) -> (r: bool)
        ensures
            r == (self@.len() == 0),
    {
        self.data.len() == 0
    }

    /// The elements from the bottom up.
    pub fn data(&self) -> (r: &Vec<Word>)
        ensures
            r@ == self@,
    {
        &self.data
    }

    /// Pushes `value` on top, or fails when the stack is full.
    pub fn push(&mut self, value: Word) -> (r: Result<(), ExitError>)
        requires
            old(self).wf(),
        ensures
            final(self).wf(),
            final(self).capacity() == old(self).capacity(),
            old(self)@.len() < old(self).capacity() ==> r == Ok::<(), ExitError>(())
                && final(self)@ == old(self)@.push(value),
            old(self)@.len() >= old(self).capacity() ==> r == Err::<(), ExitError>(
                ExitError::StackOverflow,
            ) && final(self)@ == old(self)@,
    {
        if self.data.len() >= self.limit {
            return Err(ExitError::StackOverflow);
        }
        self.data.push(value);
        Ok(())
    }

    /// Removes and returns the top element, or fails when the stack is empty.
    pub fn pop(&mut self) -> (r: Result<Word, ExitError>)
        requires
            old(self).wf(),
        ensures
            final(self).wf(),
            final(self).capacity() == old(self).capacity(),
            old(self)@.len() > 0 ==> r == Ok::<Word, ExitError>(old(self)@.last())
                && final(self)@ == old(self)@.drop_last(),
            old(self)@.len() == 0 ==> r == Err::<Word, ExitError>(ExitError::StackUnderflow)
                && final(self)@ == old(self)@,
    {
        match self.data.pop() {
            Some(v) => Ok(v),
            None => Err(ExitError::StackUnderflow),
        }
    }

    /// The element `n` positions below the top, or a failure when the stack
    /// is not deeper than `n`.
    pub fn peek(&self, n: usize) -> (r: Result<Word, ExitError>)
        ensures
            n < self@.len() ==> r == Ok::<Word, ExitError>(self.at(n as int)),
            n >= self@.len() ==> r == Err::<Word, ExitError>(ExitError::StackUnderflow),
    {
        if n < self.data.len() {
            Ok(self.data[self.data.len() - n - 1])
        } else {
            Err(ExitError::StackUnderflow)
        }
    }

    /// Overwrites the element `n` positions below the top, or fails when the
    /// stack is not deeper than `n`.
    pub fn set(&mut self, n: usize, value: Word) -> (r: Result<(), ExitError>)
        requires
            old(self).wf(),
        ensures
            final(self).wf(),
            final(self).capacity() == old(self).capacity(),
            n < old(self)@.len() ==> r == Ok::<(), ExitError>(()) && final(self)@ == old(
                self,
            )@.update(old(self)@.len() - 1 - n, value),
            n >= old(self)@.len() ==> r == Err::<(), ExitError>(ExitError::StackUnderflow)
                && final(self)@ == old(self)@,
    {
        if n < self.data.len() {
            let i = self.data.len() - n - 1;
            self.data.set(i, value);
            Ok(())
        } else {
            Err(ExitError::StackUnderflow)
        }
    }
}

} // verus!
