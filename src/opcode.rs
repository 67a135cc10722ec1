use crate::contract::{jump_valid, Contract};
use crate::control::{Control, ExitError, ExitReason, ExitRevert, ExitSucceed};
use crate::machine::{range_bytes, Machine, ReturnRange};
use crate::memory::{byte_or_zero, copy_window, resize_result, splice, zeros};
use crate::stack::Stack;
use crate::word::{be_value, word_from_usize, word_is_zero, word_to_usize, Word};
use vstd::prelude::*;

verus! {

/// The element `n` positions below the top of `s`.
pub open spec fn top(s: Seq<Word>, n: int) -> Word {
    s[s.len() - 1 - n]
}

/// `s` with its top `k` elements removed.
pub open spec fn popped(s: Seq<Word>, k: nat) -> Seq<Word> {
    s.subrange(0, s.len() - k)
}

/// The frame after an instruction keeps its contract, its limits and its
/// well-formedness.
pub open spec fn kept(before: &Machine, after: &Machine) -> bool {
    &&& after.wf()
    &&& after.contract == before.contract
    &&& after.stack.capacity() == before.stack.capacity()
    &&& after.memory.cap() == before.memory.cap()
}

/// The control that ends the frame with `e`.
pub open spec fn fail(e: ExitError) -> Control {
    Control::Exit(ExitReason::Error(e))
}

/// The frame after pushing `w`: the word on top and `Continue`, or the
/// stack unchanged and an overflow when it is full.
pub open spec fn pushed(before: &Machine, after: &Machine, w: Word, r: Control) -> bool {
    &&& after.memory@ == before.memory@
    &&& after.return_range == before.return_range
    &&& if before.stack@.len() < before.stack.capacity() {
        r == Control::Continue && after.stack@ == before.stack@.push(w)
    } else {
        r == fail(ExitError::StackOverflow) && after.stack@ == before.stack@
    }
}

fn pop_word(stack: &mut Stack) -> (r: Word)
    requires
        old(stack).wf(),
        old(stack)@.len() > 0,
    ensures
        final(stack).wf(),
        final(stack).capacity() == old(stack).capacity(),
        r == old(stack)@.last(),
        final(stack)@ == old(stack)@.drop_last(),
{
    match stack.pop() {
        Ok(v) => v,
        Err(_) => Word::zero(),
    }
}

fn push_word(state: &mut Machine, w: Word) -> (r: Control)
    requires
        old(state).wf(),
    ensures
        kept(old(state), final(state)),
        pushed(old(state), final(state), w, r),
{
    match state.stack.push(w) {
        Ok(()) => Control::Continue,
        Err(e) => Control::Exit(ExitReason::Error(e)),
    }
}

/// `CODESIZE`: pushes the length of the code.
pub fn codesize(state: &mut Machine) -> (r: Control)
    requires
        old(state).wf(),
    ensures
        kept(old(state), final(state)),
        exists|w: Word|
            w.value() == old(state).contract.code_bytes().len() && pushed(
                old(state),
                final(state),
                w,
                r,
            ),
{
    let size = word_from_usize(state.contract.code().len());
    push_word(state, size)
}

/// `CALLDATASIZE`: pushes the length of the input.
pub fn calldatasize(state: &mut Machine) -> (r: Control)
    requires
        old(state).wf(),
    ensures
        kept(old(state), final(state)),
        exists|w: Word|
            w.value() == old(state).contract.input_bytes().len() && pushed(
                old(state),
                final(state),
                w,
                r,
            ),
{
    let len = word_from_usize(state.contract.input().len());
    push_word(state, len)
}

/// `PC`: pushes `position`, the offset of the instruction being run.
pub fn pc(state: &mut Machine, position: usize) -> (r: Control)
    requires
        old(state).wf(),
    ensures
        kept(old(state), final(state)),
        exists|w: Word| w.value() == position && pushed(old(state), final(state), w, r),
{
    let w = word_from_usize(position);
    push_word(state, w)
}

/// `MSIZE`: pushes the effective length of memory.
pub fn msize(state: &mut Machine) -> (r: Control)
    requires
        old(state).wf(),
    ensures
        kept(old(state), final(state)),
        exists|w: Word| w.value() == old(state).memory@.len() && pushed(old(state), final(state), w, r),
{
    let w = state.memory.effective_len();
    push_word(state, w)
}

/// `POP`: discards the top of the stack.
pub fn pop(state: &mut Machine) -> (r: Control)
    requires
        old(state).wf(),
    ensures
        kept(old(state), final(state)),
        old(state).stack@.len() == 0 ==> r == fail(ExitError::StackUnderflow) && *final(state)
            == *old(state),
        old(state).stack@.len() > 0 ==> r == Control::Continue && final(state).stack@ == popped(
            old(state).stack@,
            1,
        ) && final(state).memory@ == old(state).memory@ && final(state).return_range == old(
            state,
        ).return_range,
{
    if state.stack.is_empty() {
        return fail_with(ExitError::StackUnderflow);
    }
    pop_word(&mut state.stack);
    proof {
        assert(state.stack@ =~= popped(old(state).stack@, 1));
    }
    Control::Continue
}

fn fail_with(e: ExitError) -> (r: Control)
    ensures
        r == fail(e),
{
    Control::Exit(ExitReason::Error(e))
}

/// `DUP(n)`: pushes a copy of the element `n - 1` positions below the top.
pub fn dup(state: &mut Machine, n: usize) -> (r: Control)
    requires
        old(state).wf(),
        n >= 1,
    ensures
        kept(old(state), final(state)),
        old(state).stack@.len() < n ==> r == fail(ExitError::StackUnderflow) && *final(state)
            == *old(state),
        old(state).stack@.len() >= n ==> pushed(
            old(state),
            final(state),
            top(old(state).stack@, n - 1),
            r,
        ),
{
    let value = match state.stack.peek(n - 1) {
        Ok(value) => value,
        Err(e) => return Control::Exit(ExitReason::Error(e)),
    };
    push_word(state, value)
}

/// `SWAP(n)`: exchanges the top of the stack with the element `n` positions
/// below it.
pub fn swap(state: &mut Machine, n: usize) -> (r: Control)
    requires
        old(state).wf(),
    ensures
        kept(old(state), final(state)),
        old(state).stack@.len() <= n ==> r == fail(ExitError::StackUnderflow) && *final(state)
            == *old(state),
        old(state).stack@.len() > n ==> {
            let s = old(state).stack@;
            &&& r == Control::Continue
            &&& final(state).stack@ == s.update(s.len() - 1, top(s, n as int)).update(
                s.len() - 1 - n,
                top(s, 0),
            )
            &&& final(state).memory@ == old(state).memory@
            &&& final(state).return_range == old(state).return_range
        },
{
    if state.stack.len() <= n {
        return fail_with(ExitError::StackUnderflow);
    }
    let val1 = match state.stack.peek(0) {
        Ok(value) => value,
        Err(e) => return Control::Exit(ExitReason::Error(e)),
    };
    let val2 = match state.stack.peek(n) {
        Ok(value) => value,
        Err(e) => return Control::Exit(ExitReason::Error(e)),
    };
    match state.stack.set(0, val2) {
        Ok(()) => (),
        Err(e) => return Control::Exit(ExitReason::Error(e)),
    }
    match state.stack.set(n, val1) {
        Ok(()) => (),
        Err(e) => return Control::Exit(ExitReason::Error(e)),
    }
    Control::Continue
}

/// Where a jump to `dest` goes in `code`: the destination, or an
/// invalid-jump exit when it is not a legal target.
pub open spec fn jump_outcome(code: Seq<u8>, dest: Word) -> Control {
    if dest.value() <= usize::MAX && jump_valid(code, dest.value()) {
        Control::Jump(dest.value() as usize)
    } else {
        fail(ExitError::InvalidJump)
    }
}

fn jump_to(contract: &Contract, dest: Word) -> (r: Control)
    requires
        contract.wf(),
    ensures
        r == jump_outcome(contract.code_bytes(), dest),
{
    let d = match word_to_usize(&dest) {
        Some(d) => d,
        None => return fail_with(ExitError::InvalidJump),
    };
    if contract.is_valid_jump(d) {
        Control::Jump(d)
    } else {
        fail_with(ExitError::InvalidJump)
    }
}

/// `JUMP`: pops a destination and jumps there when it is a legal target.
pub fn jump(state: &mut Machine) -> (r: Control)
    requires
        old(state).wf(),
    ensures
        kept(old(state), final(state)),
        old(state).stack@.len() == 0 ==> r == fail(ExitError::StackUnderflow) && *final(state)
            == *old(state),
        old(state).stack@.len() > 0 ==> {
            &&& r == jump_outcome(old(state).contract.code_bytes(), top(old(state).stack@, 0))
            &&& final(state).stack@ == popped(old(state).stack@, 1)
            &&& final(state).memory@ == old(state).memory@
            &&& final(state).return_range == old(state).return_range
        },
{
    if state.stack.is_empty() {
        return fail_with(ExitError::StackUnderflow);
    }
    let dest = pop_word(&mut state.stack);
    proof {
        assert(state.stack@ =~= popped(old(state).stack@, 1));
    }
    jump_to(&state.contract, dest)
}

/// `JUMPI`: pops a destination and a condition; jumps as `JUMP` does when
/// the condition is not zero, and goes on otherwise.
pub fn jumpi(state: &mut Machine) -> (r: Control)
    requires
        old(state).wf(),
    ensures
        kept(old(state), final(state)),
        old(state).stack@.len() < 2 ==> r == fail(ExitError::StackUnderflow) && *final(state)
            == *old(state),
        old(state).stack@.len() >= 2 ==> {
            &&& r == if top(old(state).stack@, 1).value() == 0 {
                Control::Continue
            } else {
                jump_outcome(old(state).contract.code_bytes(), top(old(state).stack@, 0))
            }
            &&& final(state).stack@ == popped(old(state).stack@, 2)
            &&& final(state).memory@ == old(state).memory@
            &&& final(state).return_range == old(state).return_range
        },
{
    if state.stack.len() < 2 {
        return fail_with(ExitError::StackUnderflow);
    }
    let dest = pop_word(&mut state.stack);
    let value = pop_word(&mut state.stack);
    proof {
        assert(state.stack@ =~= popped(old(state).stack@, 2));
    }
    if word_is_zero(&value) {
        Control::Continue
    } else {
        jump_to(&state.contract, dest)
    }
}

/// The memory after a successful resize to length `n` followed by writing
/// `bytes` at `offset`.
pub open spec fn grown_then_written(mem: Seq<u8>, n: nat, offset: nat, bytes: Seq<u8>) -> Seq<
    u8,
> {
    splice(mem + zeros((n - mem.len()) as nat), offset as int, bytes)
}

/// The effect of the copy instructions: pop a memory offset, a source offset
/// and a length, grow memory to cover the target and copy from `source`,
/// zero past its end.
pub open spec fn copied(before: &Machine, after: &Machine, source: Seq<u8>, r: Control) -> bool {
    let s = before.stack@;
    if s.len() < 3 {
        r == fail(ExitError::StackUnderflow) && *after == *before
    } else {
        let mo = top(s, 0);
        let so = top(s, 1);
        let len = top(s, 2);
        &&& after.stack@ == popped(s, 3)
        &&& after.return_range == before.return_range
        &&& match resize_result(before.memory@.len(), before.memory.cap(), mo.value(), len.value()) {
            Err(e) => r == fail(e) && after.memory@ == before.memory@,
            Ok(n) => r == Control::Continue && after.memory@ == grown_then_written(
                before.memory@,
                n,
                mo.value(),
                copy_window(source, so.value(), len.value()),
            ),
        }
    }
}

fn copy_into_memory(state: &mut Machine, from_code: bool) -> (r: Control)
    requires
        old(state).wf(),
    ensures
        kept(old(state), final(state)),
        copied(
            old(state),
            final(state),
            if from_code {
                old(state).contract.code_bytes()
            } else {
                old(state).contract.input_bytes()
            },
            r,
        ),
{
    if state.stack.len() < 3 {
        return fail_with(ExitError::StackUnderflow);
    }
    let memory_offset = pop_word(&mut state.stack);
    let source_offset = pop_word(&mut state.stack);
    let len = pop_word(&mut state.stack);
    proof {
        assert(state.stack@ =~= popped(old(state).stack@, 3));
    }
    match state.memory.resize_offset(memory_offset, len) {
        Ok(()) => {},
        Err(e) => return fail_with(e),
    }
    let ghost grown = state.memory@;
    let source = if from_code {
        state.contract.code()
    } else {
        state.contract.input()
    };
    match state.memory.copy_large(memory_offset, source_offset, len, source.as_slice()) {
        Ok(()) => {
            proof {
                if len.value() == 0 {
                    assert(state.memory@ =~= splice(
                        grown,
                        memory_offset.value() as int,
                        copy_window(source@, source_offset.value(), 0),
                    ));
                }
            }
            Control::Continue
        },
        Err(e) => fail_with(e),
    }
}

/// `CODECOPY`: pops a memory offset, a code offset and a length, grows
/// memory to cover the target, and copies the code there, zero past its end.
pub fn codecopy(state: &mut Machine) -> (r: Control)
    requires
        old(state).wf(),
    ensures
        kept(old(state), final(state)),
        copied(old(state), final(state), old(state).contract.code_bytes(), r),
{
    copy_into_memory(state, true)
}

/// `CALLDATACOPY`: as `CODECOPY`, from the input of the call.
pub fn calldatacopy(state: &mut Machine) -> (r: Control)
    requires
        old(state).wf(),
    ensures
        kept(old(state), final(state)),
        copied(old(state), final(state), old(state).contract.input_bytes(), r),
{
    copy_into_memory(state, false)
}

/// The 32 bytes of `input` from `index` on, zero past its end.
pub open spec fn load_bytes(input: Seq<u8>, index: nat) -> Seq<u8> {
    Seq::new(32, |i: int| byte_or_zero(input, index + i))
}

/// `CALLDATALOAD`: replaces the index on top with the 32 input bytes from
/// it, zero where the input ends or the position leaves the address domain.
pub fn calldataload(state: &mut Machine) -> (r: Control)
    requires
        old(state).wf(),
    ensures
        kept(old(state), final(state)),
        old(state).stack@.len() == 0 ==> r == fail(ExitError::StackUnderflow) && *final(state)
            == *old(state),
        old(state).stack@.len() > 0 ==> {
            let s = old(state).stack@;
            &&& r == Control::Continue
            &&& final(state).stack@.len() == s.len()
            &&& popped(final(state).stack@, 1) == popped(s, 1)
            &&& top(final(state).stack@, 0).bytes@ == load_bytes(
                old(state).contract.input_bytes(),
                top(s, 0).value(),
            )
            &&& final(state).memory@ == old(state).memory@
            &&& final(state).return_range == old(state).return_range
        },
{
    if state.stack.is_empty() {
        return fail_with(ExitError::StackUnderflow);
    }
    let index = pop_word(&mut state.stack);
    let input = state.contract.input();
    let n = input.len();
    let start = word_to_usize(&index);
    let mut load = [0u8; 32];
    let mut i: usize = 0;
    while i < 32
        invariant
            i <= 32,
            n == input@.len(),
            start == (if index.value() <= usize::MAX {
                Some(index.value() as usize)
            } else {
                None::<usize>
            }),
            forall|k: int|
                0 <= k < 32 ==> #[trigger] load@[k] == (if k < i {
                    byte_or_zero(input@, index.value() + k)
                } else {
                    0u8
                }),
        decreases 32 - i,
    {
        if let Some(p) = start {
            if p <= n && i < n - p {
                load[i] = input[p + i];
            }
        }
        i = i + 1;
    }
    let w = Word::from_bytes(load);
    proof {
        assert(w.bytes@ =~= load_bytes(input@, index.value()));
    }
    let r = push_word(state, w);
    proof {
        assert(popped(state.stack@, 1) =~= popped(old(state).stack@, 1));
    }
    r
}

fn word_from_slice(b: &[u8]) -> (r: Word)
    requires
        b@.len() == 32,
    ensures
        r.bytes@ == b@,
{
    let mut bytes = [0u8; 32];
    let mut i: usize = 0;
    while i < 32
        invariant
            i <= 32,
            b@.len() == 32,
            forall|k: int| 0 <= k < i ==> #[trigger] bytes@[k] == b@[k],
        decreases 32 - i,
    {
        bytes[i] = b[i];
        i = i + 1;
    }
    proof {
        assert(bytes@ =~= b@);
    }
    Word::from_bytes(bytes)
}

/// `MLOAD`: replaces the index on top with the 32 memory bytes from it,
/// after growing memory to cover them.
pub fn mload(state: &mut Machine) -> (r: Control)
    requires
        old(state).wf(),
    ensures
        kept(old(state), final(state)),
        final(state).return_range == old(state).return_range,
        old(state).stack@.len() == 0 ==> r == fail(ExitError::StackUnderflow) && *final(state)
            == *old(state),
        old(state).stack@.len() > 0 ==> {
            let s = old(state).stack@;
            let index = top(s, 0).value();
            match resize_result(old(state).memory@.len(), old(state).memory.cap(), index, 32) {
                Err(e) => r == fail(e) && final(state).memory@ == old(state).memory@
                    && final(state).stack@ == popped(s, 1),
                Ok(n) => {
                    &&& r == Control::Continue
                    &&& final(state).memory@ == old(state).memory@ + zeros(
                        (n - old(state).memory@.len()) as nat,
                    )
                    &&& final(state).stack@.len() == s.len()
                    &&& popped(final(state).stack@, 1) == popped(s, 1)
                    &&& top(final(state).stack@, 0).bytes@ == final(state).memory@.subrange(
                        index as int,
                        index + 32int,
                    )
                },
            }
        },
{
    if state.stack.is_empty() {
        return fail_with(ExitError::StackUnderflow);
    }
    let index = pop_word(&mut state.stack);
    let thirty_two = word_from_usize(32);
    match state.memory.resize_offset(index, thirty_two) {
        Ok(()) => {},
        Err(e) => {
            proof {
                assert(state.stack@ =~= popped(old(state).stack@, 1));
            }
            return fail_with(e);
        },
    }
    let i = match word_to_usize(&index) {
        Some(i) => i,
        None => return fail_with(ExitError::InvalidRange),
    };
    let bytes = state.memory.get(i, 32);
    let w = word_from_slice(bytes.as_slice());
    proof {
        assert(w.bytes@ =~= state.memory@.subrange(i as int, i + 32));
    }
    let r = push_word(state, w);
    proof {
        assert(popped(state.stack@, 1) =~= popped(old(state).stack@, 1));
    }
    r
}

/// The effect of the two memory stores: pop an index and a value, grow
/// memory to cover `width` bytes from the index, and write `bytes(value)`
/// there.
pub open spec fn stored(
    before: &Machine,
    after: &Machine,
    width: nat,
    bytes: spec_fn(Word) -> Seq<u8>,
    r: Control,
) -> bool {
    let s = before.stack@;
    if s.len() < 2 {
        r == fail(ExitError::StackUnderflow) && *after == *before
    } else {
        let index = top(s, 0);
        let value = top(s, 1);
        &&& after.stack@ == popped(s, 2)
        &&& after.return_range == before.return_range
        &&& match resize_result(before.memory@.len(), before.memory.cap(), index.value(), width) {
            Err(e) => r == fail(e) && after.memory@ == before.memory@,
            Ok(n) => r == Control::Continue && after.memory@ == grown_then_written(
                before.memory@,
                n,
                index.value(),
                bytes(value),
            ),
        }
    }
}

/// `MSTORE`: pops an index and a value and writes the value's 32 bytes to
/// memory at the index, after growing memory to cover them.
pub fn mstore(state: &mut Machine) -> (r: Control)
    requires
        old(state).wf(),
    ensures
        kept(old(state), final(state)),
        stored(old(state), final(state), 32, |w: Word| w.bytes@, r),
{
    if state.stack.len() < 2 {
        return fail_with(ExitError::StackUnderflow);
    }
    let index = pop_word(&mut state.stack);
    let value = pop_word(&mut state.stack);
    proof {
        assert(state.stack@ =~= popped(old(state).stack@, 2));
    }
    let thirty_two = word_from_usize(32);
    match state.memory.resize_offset(index, thirty_two) {
        Ok(()) => {},
        Err(e) => return fail_with(e),
    }
    let i = match word_to_usize(&index) {
        Some(i) => i,
        None => return fail_with(ExitError::InvalidRange),
    };
    match state.memory.set(i, value.bytes.as_slice(), Some(32)) {
        Ok(()) => {
            proof {
                assert(crate::memory::fit_to(value.bytes@, 32) =~= value.bytes@);
            }
            Control::Continue
        },
        Err(e) => fail_with(e),
    }
}

/// `MSTORE8`: pops an index and a value and writes the value's low byte to
/// memory at the index, after growing memory to cover it.
pub fn mstore8(state: &mut Machine) -> (r: Control)
    requires
        old(state).wf(),
    ensures
        kept(old(state), final(state)),
        stored(old(state), final(state), 1, |w: Word| seq![(w.value() % 256) as u8], r),
{
    if state.stack.len() < 2 {
        return fail_with(ExitError::StackUnderflow);
    }
    let index = pop_word(&mut state.stack);
    let value = pop_word(&mut state.stack);
    proof {
        assert(state.stack@ =~= popped(old(state).stack@, 2));
    }
    let one = word_from_usize(1);
    match state.memory.resize_offset(index, one) {
        Ok(()) => {},
        Err(e) => return fail_with(e),
    }
    let i = match word_to_usize(&index) {
        Some(i) => i,
        None => return fail_with(ExitError::InvalidRange),
    };
    let low = [value.bytes[31]];
    proof {
        crate::word::lemma_low_byte(value.bytes@);
        assert(crate::memory::fit_to(low@, 1) =~= seq![(value.value() % 256) as u8]);
    }
    match state.memory.set(i, low.as_slice(), Some(1)) {
        Ok(()) => Control::Continue,
        Err(e) => fail_with(e),
    }
}

/// The immediate data of a `PUSH(n)` at `position`: up to `n` code bytes
/// after the opcode, fewer where the code ends first.
pub open spec fn push_data(code: Seq<u8>, position: nat, n: nat) -> Seq<u8> {
    let start: int = if position + 1 <= code.len() {
        (position + 1) as int
    } else {
        code.len() as int
    };
    let end: int = if position + 1 + n <= code.len() {
        (position + 1 + n) as int
    } else {
        code.len() as int
    };
    code.subrange(start, end)
}

/// `PUSH(n)` at `position`: pushes the immediate data, zero-padded in front
/// to 32 bytes, and skips over it.
pub fn push(state: &mut Machine, n: usize, position: usize) -> (r: Control)
    requires
        old(state).wf(),
        n <= 32,
    ensures
        kept(old(state), final(state)),
        ({
            let data = push_data(old(state).contract.code_bytes(), position as nat, n as nat);
            &&& data.len() <= 32
            &&& if old(state).stack@.len() < old(state).stack.capacity() {
                &&& r == Control::ContinueN((1 + n) as usize)
                &&& popped(final(state).stack@, 1) == old(state).stack@
                &&& final(state).stack@.len() == old(state).stack@.len() + 1
                &&& final(state).stack@.last().bytes@ == zeros((32 - data.len()) as nat) + data
                &&& final(state).stack@.last().value() == be_value(data)
                &&& final(state).memory@ == old(state).memory@
                &&& final(state).return_range == old(state).return_range
            } else {
                &&& r == fail(ExitError::StackOverflow)
                &&& final(state).stack@ == old(state).stack@
                &&& final(state).memory@ == old(state).memory@
                &&& final(state).return_range == old(state).return_range
            }
        }),
{
    let code = state.contract.code();
    let len = code.len();
    let start: usize = if position < len {
        position + 1
    } else {
        len
    };
    let end: usize = if n < len - start {
        start + n
    } else {
        len
    };
    let k = end - start;
    let ghost data = push_data(code@, position as nat, n as nat);
    assert(data == code@.subrange(start as int, end as int));
    let mut val = [0u8; 32];
    let mut i: usize = 0;
    while i < k
        invariant
            i <= k,
            k <= 32,
            k == end - start,
            end <= len,
            len == code@.len(),
            data == code@.subrange(start as int, end as int),
            forall|j: int|
                0 <= j < 32 ==> #[trigger] val@[j] == (if 32 - k <= j < 32 - k + i {
                    data[j - (32 - k)]
                } else {
                    0u8
                }),
        decreases k - i,
    {
        val[32 - k + i] = code[start + i];
        i = i + 1;
    }
    let w = Word::from_bytes(val);
    proof {
        assert(w.bytes@ =~= zeros((32 - data.len()) as nat) + data);
        crate::word::lemma_leading_zeros((32 - data.len()) as nat, data);
    }
    match push_word(state, w) {
        Control::Continue => {
            proof {
                assert(popped(state.stack@, 1) =~= old(state).stack@);
            }
            Control::ContinueN(1 + n)
        },
        other => other,
    }
}

/// The effect of `RETURN` and `REVERT`: pop a start and a length, grow
/// memory to cover the range, record it as the return range and end the
/// frame with `reason`.
pub open spec fn returned(before: &Machine, after: &Machine, reason: ExitReason, r: Control) -> bool {
    let s = before.stack@;
    if s.len() < 2 {
        r == fail(ExitError::StackUnderflow) && *after == *before
    } else {
        let start = top(s, 0);
        let len = top(s, 1);
        &&& after.stack@ == popped(s, 2)
        &&& match resize_result(before.memory@.len(), before.memory.cap(), start.value(), len.value()) {
            Err(e) => r == fail(e) && after.memory@ == before.memory@ && after.return_range
                == before.return_range,
            Ok(n) => {
                &&& r == Control::Exit(reason)
                &&& after.memory@ == before.memory@ + zeros((n - before.memory@.len()) as nat)
                &&& after.return_range.start == start
                &&& after.return_range.end.value() == start.value() + len.value()
            },
        }
    }
}

fn return_with(state: &mut Machine, reason: ExitReason) -> (r: Control)
    requires
        old(state).wf(),
    ensures
        kept(old(state), final(state)),
        returned(old(state), final(state), reason, r),
{
    if state.stack.len() < 2 {
        return fail_with(ExitError::StackUnderflow);
    }
    let start = pop_word(&mut state.stack);
    let len = pop_word(&mut state.stack);
    proof {
        assert(state.stack@ =~= popped(old(state).stack@, 2));
    }
    match state.memory.resize_offset(start, len) {
        Ok(()) => {},
        Err(e) => return fail_with(e),
    }
    // The end needs no 256-bit addition: an empty range ends at its start,
    // and a non-empty one was just grown to, so its end fits a native size.
    let end = if word_is_zero(&len) {
        start
    } else {
        match (word_to_usize(&start), word_to_usize(&len)) {
            (Some(s), Some(l)) => word_from_usize(s + l),
            _ => return fail_with(ExitError::InvalidRange),
        }
    };
    state.return_range = ReturnRange { start, end };
    Control::Exit(reason)
}

/// `RETURN`: ends the frame with success, its output the popped memory
/// range.
pub fn ret(state: &mut Machine) -> (r: Control)
    requires
        old(state).wf(),
    ensures
        kept(old(state), final(state)),
        returned(old(state), final(state), ExitReason::Succeed(ExitSucceed::Returned), r),
{
    return_with(state, ExitReason::Succeed(ExitSucceed::Returned))
}

/// `REVERT`: ends the frame as reverted, its output the popped memory range.
pub fn revert(state: &mut Machine) -> (r: Control)
    requires
        old(state).wf(),
    ensures
        kept(old(state), final(state)),
        returned(old(state), final(state), ExitReason::Revert(ExitRevert::Reverted), r),
{
    return_with(state, ExitReason::Revert(ExitRevert::Reverted))
}

/// Input bytes loaded from at or past the end of the input are all zero.
pub proof fn lemma_load_past_end(input: Seq<u8>, index: nat)
    requires
        index >= input.len(),
    ensures
        load_bytes(input, index) == zeros(32),
{
    assert(load_bytes(input, index) =~= zeros(32));
}

/// After a `RETURN` or `REVERT` that ended the frame, the return range is
/// the popped start and length, and the output is the memory bytes of that
/// range as they stood before, zero where memory was never covered.
pub proof fn lemma_return_data(before: &Machine, after: &Machine, reason: ExitReason, r: Control)
    requires
        reason is Succeed || reason is Revert,
        returned(before, after, reason, r),
        r == Control::Exit(reason),
    ensures
        before.stack@.len() >= 2,
        ({
            let start = top(before.stack@, 0).value();
            let len = top(before.stack@, 1).value();
            &&& after.return_range.start.value() == start
            &&& after.return_range.end.value() == start + len
            &&& range_bytes(after.memory@, start, start + len) == Seq::new(
                len,
                |i: int| byte_or_zero(before.memory@, start + i),
            )
        }),
{
    let start = top(before.stack@, 0).value();
    let len = top(before.stack@, 1).value();
    let n = resize_result(before.memory@.len(), before.memory.cap(), start, len)->Ok_0;
    if len > 0 {
        assert(start + len <= n);
    }
    assert(range_bytes(after.memory@, start, start + len) =~= Seq::new(
        len,
        |i: int| byte_or_zero(before.memory@, start + i),
    ));
}

} // verus!
