use evm_core::contract::{Contract, Valids};
use evm_core::control::{Control, ExitError, ExitReason, ExitRevert, ExitSucceed};
use evm_core::machine::Machine;
use evm_core::opcode::{
    calldatacopy, calldataload, calldatasize, codecopy, codesize, dup, jump, jumpi, mload, msize,
    mstore, mstore8, pc, pop, push, ret, revert, swap,
};
use evm_core::word::Word;

fn word(n: u64) -> Word {
    let mut bytes = [0u8; 32];
    bytes[24..].copy_from_slice(&n.to_be_bytes());
    Word::from_bytes(bytes)
}

fn machine(code: Vec<u8>, input: Vec<u8>) -> Machine {
    Machine::new(code, input, 1024, 1 << 20)
}

fn with_stack(code: Vec<u8>, input: Vec<u8>, bottom_up: &[Word]) -> Machine {
    let mut m = machine(code, input);
    for w in bottom_up {
        m.stack.push(*w).unwrap();
    }
    m
}

fn top(m: &Machine) -> Word {
    m.stack.peek(0).unwrap()
}

/// Runs the code from offset 0 with the handlers of this crate until the
/// frame ends, and gives the exit reason and the output.
fn run(code: Vec<u8>) -> (ExitReason, Vec<u8>) {
    let mut m = machine(code.clone(), Vec::new());
    let mut position: usize = 0;
    loop {
        if position >= code.len() {
            return (ExitReason::Succeed(ExitSucceed::Stopped), Vec::new());
        }
        let op = code[position];
        let control = match op {
            0x50 => pop(&mut m),
            0x51 => mload(&mut m),
            0x52 => mstore(&mut m),
            0x53 => mstore8(&mut m),
            0x56 => jump(&mut m),
            0x57 => jumpi(&mut m),
            0x58 => pc(&mut m, position),
            0x59 => msize(&mut m),
            0x5b => Control::Continue,
            0x5f..=0x7f => push(&mut m, (op - 0x5f) as usize, position),
            0x80..=0x8f => dup(&mut m, (op - 0x7f) as usize),
            0x90..=0x9f => swap(&mut m, (op - 0x8f) as usize),
            0xf3 => ret(&mut m),
            0xfd => revert(&mut m),
            _ => panic!("opcode outside this test's table"),
        };
        match control {
            Control::Continue => position += 1,
            Control::ContinueN(n) => position += n,
            Control::Jump(dest) => position = dest,
            Control::Exit(reason) => return (reason, m.return_value()),
        }
    }
}

#[test]
fn end_to_end_return_of_stored_word() {
    let code = vec![0x60, 0x2A, 0x60, 0x00, 0x52, 0x60, 0x20, 0x60, 0x00, 0xf3];
    let (reason, output) = run(code);
    assert_eq!(reason, ExitReason::Succeed(ExitSucceed::Returned));
    assert_eq!(output, word(42).bytes.to_vec());
}

#[test]
fn end_to_end_jump_to_non_jumpdest() {
    let (reason, output) = run(vec![0x60, 0x05, 0x56]);
    assert_eq!(reason, ExitReason::Error(ExitError::InvalidJump));
    assert!(output.is_empty());
}

#[test]
fn end_to_end_jump_over_data_to_jumpdest() {
    // PUSH1 4, JUMP, INVALID, JUMPDEST, PUSH1 1, PUSH1 0, MSTORE8, PUSH1 1, PUSH1 0, REVERT
    let code = vec![0x60, 0x04, 0x56, 0xfe, 0x5b, 0x60, 0x01, 0x60, 0x00, 0x53, 0x60, 0x01, 0x60,
        0x00, 0xfd];
    let (reason, output) = run(code);
    assert_eq!(reason, ExitReason::Revert(ExitRevert::Reverted));
    assert_eq!(output, vec![1]);
}

#[test]
fn calldataload_at_max_index_is_zero() {
    let mut m = with_stack(vec![], vec![1, 2, 3], &[Word::from_bytes([0xff; 32])]);
    assert_eq!(calldataload(&mut m), Control::Continue);
    assert_eq!(top(&m), Word::zero());
    assert_eq!(m.stack.len(), 1);
}

#[test]
fn calldataload_zero_extends_input() {
    let mut m = with_stack(vec![], vec![1, 2, 3], &[word(1)]);
    assert_eq!(calldataload(&mut m), Control::Continue);
    let mut expected = [0u8; 32];
    expected[0] = 2;
    expected[1] = 3;
    assert_eq!(top(&m), Word::from_bytes(expected));
    let mut past = with_stack(vec![], vec![1, 2, 3], &[word(3)]);
    calldataload(&mut past);
    assert_eq!(top(&past), Word::zero());
}

#[test]
fn calldataload_on_empty_stack_underflows() {
    let mut m = machine(vec![], vec![1]);
    assert_eq!(calldataload(&mut m), Control::Exit(ExitReason::Error(ExitError::StackUnderflow)));
}

#[test]
fn codecopy_zero_extends_code() {
    let code = vec![0xaa, 0xbb, 0xcc];
    // len 4, code offset 1, memory offset 0
    let mut m = with_stack(code, vec![], &[word(4), word(1), word(0)]);
    assert_eq!(codecopy(&mut m), Control::Continue);
    assert_eq!(m.memory.len(), 32);
    assert_eq!(m.memory.get(0, 5), vec![0xbb, 0xcc, 0, 0, 0]);
    assert!(m.stack.is_empty());
}

#[test]
fn calldatacopy_copies_input_and_skips_zero_length() {
    let mut m = with_stack(vec![], vec![5, 6], &[word(3), word(0), word(40)]);
    assert_eq!(calldatacopy(&mut m), Control::Continue);
    assert_eq!(m.memory.len(), 64);
    assert_eq!(m.memory.get(40, 3), vec![5, 6, 0]);
    let mut z = with_stack(vec![], vec![5, 6], &[word(0), word(0), word(1000)]);
    assert_eq!(calldatacopy(&mut z), Control::Continue);
    assert!(z.memory.is_empty());
}

#[test]
fn copy_with_huge_offset_is_invalid_range() {
    let mut m = with_stack(vec![1], vec![], &[word(1), word(0), Word::from_bytes([0xff; 32])]);
    assert_eq!(codecopy(&mut m), Control::Exit(ExitReason::Error(ExitError::InvalidRange)));
    assert!(m.memory.is_empty());
}

#[test]
fn memory_cap_stops_growth() {
    let mut m = Machine::new(vec![], vec![], 16, 64);
    m.stack.push(word(64)).unwrap();
    assert_eq!(mload(&mut m), Control::Exit(ExitReason::Error(ExitError::MemoryLimit)));
    assert!(m.memory.is_empty());
}

#[test]
fn mstore_then_mload_round_trip() {
    let mut m = with_stack(vec![], vec![], &[word(0x1234), word(3)]);
    assert_eq!(mstore(&mut m), Control::Continue);
    assert_eq!(m.memory.len(), 64);
    m.stack.push(word(3)).unwrap();
    assert_eq!(mload(&mut m), Control::Continue);
    assert_eq!(top(&m), word(0x1234));
    assert_eq!(m.memory.get(33, 2), vec![0x12, 0x34]);
}

#[test]
fn mstore8_writes_low_byte() {
    let mut m = with_stack(vec![], vec![], &[word(0x1ff), word(5)]);
    assert_eq!(mstore8(&mut m), Control::Continue);
    assert_eq!(m.memory.len(), 32);
    assert_eq!(m.memory.get(4, 3), vec![0, 0xff, 0]);
}

#[test]
fn size_instructions_push_lengths() {
    let mut m = machine(vec![1, 2, 3], vec![4, 5]);
    assert_eq!(codesize(&mut m), Control::Continue);
    assert_eq!(top(&m), word(3));
    assert_eq!(calldatasize(&mut m), Control::Continue);
    assert_eq!(top(&m), word(2));
    assert_eq!(pc(&mut m, 300), Control::Continue);
    assert_eq!(top(&m), word(300));
    assert_eq!(msize(&mut m), Control::Continue);
    assert_eq!(top(&m), word(0));
    m.stack.push(word(0)).unwrap();
    mload(&mut m);
    assert_eq!(msize(&mut m), Control::Continue);
    assert_eq!(top(&m), word(32));
}

#[test]
fn push_reads_immediate_bytes() {
    let mut m = machine(vec![0x61, 0xab, 0xcd, 0x00], vec![]);
    assert_eq!(push(&mut m, 2, 0), Control::ContinueN(3));
    assert_eq!(top(&m), word(0xabcd));
}

#[test]
fn push_pads_when_code_ends() {
    let mut m = machine(vec![0x00, 0x62, 0xab], vec![]);
    assert_eq!(push(&mut m, 3, 1), Control::ContinueN(4));
    assert_eq!(top(&m), word(0xab));
    assert_eq!(push(&mut m, 32, 7), Control::ContinueN(33));
    assert_eq!(top(&m), Word::zero());
    assert_eq!(push(&mut m, 0, 0), Control::ContinueN(1));
    assert_eq!(top(&m), Word::zero());
}

#[test]
fn push_on_full_stack_overflows() {
    let mut m = Machine::new(vec![0x60, 0x01], vec![], 1, 1024);
    assert_eq!(push(&mut m, 1, 0), Control::ContinueN(2));
    assert_eq!(push(&mut m, 1, 0), Control::Exit(ExitReason::Error(ExitError::StackOverflow)));
    assert_eq!(m.stack.len(), 1);
}

#[test]
fn jump_table_skips_push_data() {
    let code = vec![0x5b, 0x60, 0x5b, 0x5b, 0x7f];
    let v = Valids::new(&code);
    assert!(v.is_valid(0));
    assert!(!v.is_valid(1));
    assert!(!v.is_valid(2));
    assert!(v.is_valid(3));
    assert!(!v.is_valid(4));
    assert!(!v.is_valid(5));
    let c = Contract::new(code.clone(), vec![]);
    assert!(c.is_valid_jump(3));
    assert_eq!(c.code(), &code);
}

#[test]
fn jump_into_push_data_is_invalid() {
    let code = vec![0x60, 0x5b, 0x5b];
    let mut inside = with_stack(code.clone(), vec![], &[word(1)]);
    assert_eq!(jump(&mut inside), Control::Exit(ExitReason::Error(ExitError::InvalidJump)));
    let mut ok = with_stack(code.clone(), vec![], &[word(2)]);
    assert_eq!(jump(&mut ok), Control::Jump(2));
    assert!(ok.stack.is_empty());
    let mut huge = with_stack(code, vec![], &[Word::from_bytes([0xff; 32])]);
    assert_eq!(jump(&mut huge), Control::Exit(ExitReason::Error(ExitError::InvalidJump)));
}

#[test]
fn jumpi_follows_condition() {
    let code = vec![0x5b];
    let mut taken = with_stack(code.clone(), vec![], &[word(1), word(0)]);
    assert_eq!(jumpi(&mut taken), Control::Jump(0));
    let mut not_taken = with_stack(code.clone(), vec![], &[word(0), word(7)]);
    assert_eq!(jumpi(&mut not_taken), Control::Continue);
    assert!(not_taken.stack.is_empty());
    let mut bad = with_stack(code, vec![], &[word(1), word(7)]);
    assert_eq!(jumpi(&mut bad), Control::Exit(ExitReason::Error(ExitError::InvalidJump)));
}

#[test]
fn dup_copies_element() {
    let mut m = with_stack(vec![], vec![], &[word(1), word(2), word(3)]);
    assert_eq!(dup(&mut m, 3), Control::Continue);
    assert_eq!(m.stack.data(), &vec![word(1), word(2), word(3), word(1)]);
    assert_eq!(dup(&mut m, 5), Control::Exit(ExitReason::Error(ExitError::StackUnderflow)));
    assert_eq!(m.stack.len(), 4);
}

#[test]
fn swap_exchanges_top_and_depth_n() {
    let mut m = with_stack(vec![], vec![], &[word(1), word(2), word(3), word(4)]);
    assert_eq!(swap(&mut m, 2), Control::Continue);
    assert_eq!(m.stack.data(), &vec![word(1), word(4), word(3), word(2)]);
    assert_eq!(swap(&mut m, 4), Control::Exit(ExitReason::Error(ExitError::StackUnderflow)));
    assert_eq!(m.stack.data(), &vec![word(1), word(4), word(3), word(2)]);
}

#[test]
fn pop_discards_top() {
    let mut m = with_stack(vec![], vec![], &[word(1), word(2)]);
    assert_eq!(pop(&mut m), Control::Continue);
    assert_eq!(m.stack.data(), &vec![word(1)]);
    pop(&mut m);
    assert_eq!(pop(&mut m), Control::Exit(ExitReason::Error(ExitError::StackUnderflow)));
}

#[test]
fn return_captures_memory_range() {
    let mut m = with_stack(vec![], vec![], &[word(0xbeef), word(0)]);
    mstore(&mut m);
    // len 40 from start 20: reaches past what was written
    m.stack.push(word(40)).unwrap();
    m.stack.push(word(20)).unwrap();
    assert_eq!(ret(&mut m), Control::Exit(ExitReason::Succeed(ExitSucceed::Returned)));
    assert_eq!(m.return_range.start, word(20));
    assert_eq!(m.return_range.end, word(60));
    assert_eq!(m.memory.len(), 64);
    let out = m.return_value();
    assert_eq!(out.len(), 40);
    assert_eq!(&out[10..12], &[0xbe, 0xef]);
    assert!(out[12..].iter().all(|b| *b == 0));
}

#[test]
fn revert_captures_memory_range() {
    let mut m = with_stack(vec![], vec![], &[word(0x77), word(31)]);
    mstore8(&mut m);
    m.stack.push(word(2)).unwrap();
    m.stack.push(word(30)).unwrap();
    assert_eq!(revert(&mut m), Control::Exit(ExitReason::Revert(ExitRevert::Reverted)));
    assert_eq!(m.return_value(), vec![0, 0x77]);
}

#[test]
fn return_with_zero_length_is_empty() {
    let mut m = with_stack(vec![], vec![], &[word(0), Word::from_bytes([0xff; 32])]);
    assert_eq!(ret(&mut m), Control::Exit(ExitReason::Succeed(ExitSucceed::Returned)));
    assert!(m.memory.is_empty());
    assert!(m.return_value().is_empty());
}

#[test]
fn return_past_address_domain_fails() {
    let mut m = with_stack(vec![], vec![], &[word(1), Word::from_bytes([0xff; 32])]);
    assert_eq!(ret(&mut m), Control::Exit(ExitReason::Error(ExitError::InvalidRange)));
    assert_eq!(m.return_range.start, Word::zero());
}

#[test]
fn mload_of_covered_range_past_cap() {
    let mut m = Machine::new(vec![], vec![], 1024, 33);
    m.stack.push(word(0xab)).unwrap();
    m.stack.push(word(32)).unwrap();
    assert_eq!(mstore8(&mut m), Control::Continue);
    assert_eq!(m.memory.len(), 64);
    m.stack.push(word(32)).unwrap();
    assert_eq!(mload(&mut m), Control::Continue);
    assert_eq!(m.memory.len(), 64);
    let mut expected = [0u8; 32];
    expected[0] = 0xab;
    assert_eq!(top(&m), Word::from_bytes(expected));
}
