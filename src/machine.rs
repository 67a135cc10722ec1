use crate::contract::Contract;
use crate::memory::{byte_or_zero, Memory};
use crate::stack::Stack;
use crate::word::{word_to_usize, Word};
use vstd::prelude::*;

verus! {

/// The memory range whose bytes become the output of the frame.
#[derive(Clone, Copy, Debug, PartialEq, Eq)]
pub struct ReturnRange {
    pub start: Word,
    pub end: Word,
}

/// The bytes of `mem` from `start` up to `end`, zero where memory was never
/// covered; none when the range is reversed or ends past the address domain.
pub open spec fn range_bytes(mem: Seq<u8>, start: nat, end: nat) -> Seq<u8> {
    if start <= end && end <= usize::MAX {
        Seq::new((end - start) as nat, |i: int| byte_or_zero(mem, start + i))
    } else {
        Seq::empty()
    }
}

/// The state of one call frame.
pub struct Machine {
    pub stack: Stack,
    pub memory: Memory,
    pub contract: Contract,
    pub return_range: ReturnRange,
}

impl Machine {
    pub open spec fn wf(&self) -> bool {
        &&& self.stack.wf()
        &&& self.memory.wf()
        &&& self.contract.wf()
    }

    /// A fresh frame that runs `code` on `input`, with an empty stack of at
    /// most `stack_limit` words and empty memory capped at `memory_limit`
    /// bytes (see `Memory::new`).
    pub fn new(code: Vec<u8>, input: Vec<u8>, stack_limit: usize, memory_limit: usize) -> (r:
        Machine)
        ensures
            r.wf(),
            r.stack@ == Seq::<Word>::empty(),
            r.stack.capacity() == stack_limit,
            r.memory@ == Seq::<u8>::empty(),
            r.memory.cap() == if memory_limit <= usize::MAX - 31 {
                memory_limit as nat
            } else {
                (usize::MAX - 31) as nat
            },
            r.contract.code_bytes() == code@,
            r.contract.input_bytes() == input@,
            r.return_range.start.value() == 0,
            r.return_range.end.value() == 0,
    {
        let zero = Word::zero();
        proof {
            crate::word::lemma_zeros_value(zero.bytes@);
        }
        Machine {
            stack: Stack::new(stack_limit),
            memory: Memory::new(memory_limit),
            contract: Contract::new(code, input),
            return_range: ReturnRange { start: zero, end: zero },
        }
    }

    /// The output of the frame: the memory bytes of the return range.
    pub fn return_value(&self) -> (r: Vec<u8>)
        ensures
            r@ == range_bytes(
                self.memory@,
                self.return_range.start.value(),
                self.return_range.end.value(),
            ),
    {
        let s = word_to_usize(&self.return_range.start);
        let e = word_to_usize(&self.return_range.end);
        match (s, e) {
            (Some(s), Some(e)) => {
                if s <= e {
                    self.memory.get(s, e - s)
                } else {
                    Vec::new()
                }
            },
            _ => Vec::new(),
        }
    }
}

} // verus!
