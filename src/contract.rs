use vstd::prelude::*;

verus! {

/// The opcode byte that marks a legal jump destination.
pub const JUMPDEST: u8 = 0x5b;

/// Count of bytes taken by the instruction that starts with opcode `op`:
/// the opcode, plus the immediate data of `PUSH1` to `PUSH32`.
pub open spec fn instruction_len(op: u8) -> nat {
    if 0x60 <= op && op <= 0x7f {
        (op - 0x5f + 1) as nat
    } else {
        1
    }
}

/// Whether walking `code` instruction by instruction from offset `from`
/// arrives at offset `to`.
pub open spec fn reaches(code: Seq<u8>, from: nat, to: nat) -> bool
    decreases to - from,
{
    from == to || (from < to && from < code.len() && from + instruction_len(code[from as int])
        <= to && reaches(code, from + instruction_len(code[from as int]), to))
}

/// Whether `dest` is a legal jump target in `code`: a `JUMPDEST` byte at an
/// instruction boundary, not inside a `PUSH`'s immediate data.
pub open spec fn jump_valid(code: Seq<u8>, dest: nat) -> bool {
    dest < code.len() && code[dest as int] == JUMPDEST && reaches(code, 0, dest)
}

/// Along a walk that passes `mid`, the offsets reached after `mid` are those
/// reached from `mid`.
proof fn lemma_reaches_through(code: Seq<u8>, from: nat, mid: nat, to: nat)
    requires
        reaches(code, from, mid),
        mid <= to,
    ensures
        reaches(code, from, to) == reaches(code, mid, to),
    decreases mid - from,
{
    if from < mid {
        let next = from + instruction_len(code[from as int]);
        lemma_reaches_through(code, next, mid, to);
    }
}

/// No offset inside the immediate data of a `PUSH` met on the walk from the
/// start of the code is a legal jump target, whatever byte stands there.
pub proof fn lemma_no_jump_into_push_data(code: Seq<u8>, position: nat, dest: nat)
    requires
        position < code.len(),
        reaches(code, 0, position),
        position < dest < position + instruction_len(code[position as int]),
    ensures
        !jump_valid(code, dest),
{
    lemma_reaches_through(code, 0, position, dest);
}

/// A table of the legal jump destinations of a piece of code, one flag per
/// code offset.
pub struct Valids {
    valids: Vec<bool>,
}

impl View for Valids {
    type V = Seq<bool>;

    closed spec fn view(&self) -> Seq<bool> {
        self.valids@
    }
}

impl Valids {
    /// Marks each offset of `code` that is a legal jump target.
    pub fn new(code: &[u8]) -> (r: Valids)
        ensures
            r@.len() == code@.len(),
            forall|d: int| 0 <= d < code@.len() ==> #[trigger] r@[d] == jump_valid(code@, d as nat),
    {
        let n = code.len();
        let mut valids: Vec<bool> = Vec::new();
        while valids.len() < n
            invariant
                valids@.len() <= n,
                forall|j: int| 0 <= j < valids@.len() ==> !#[trigger] valids@[j],
            decreases n - valids@.len(),
        {
            valids.push(false);
        }
        let mut i: usize = 0;
        while i < n
            invariant
                i <= n,
                n == code@.len(),
                valids@.len() == n,
                i < n ==> reaches(code@, 0, i as nat),
                forall|j: int| 0 <= j < i ==> #[trigger] valids@[j] == jump_valid(code@, j as nat),
                forall|j: int| i <= j < n ==> !#[trigger] valids@[j],
            decreases n - i,
        {
            let op = code[i];
            let step: usize = if 0x60 <= op && op <= 0x7f {
                (op - 0x5f) as usize + 1
            } else {
                1
            };
            assert(step == instruction_len(code@[i as int]));
            if op == JUMPDEST {
                valids.set(i, true);
            }
            let next: usize = if step >= n - i {
                n
            } else {
                i + step
            };
            assert forall|j: int| i < j < next implies #[trigger] valids@[j] == jump_valid(code@, j as nat) by {
                lemma_reaches_through(code@, 0, i as nat, j as nat);
            }
            proof {
                if next < n {
                    lemma_reaches_through(code@, 0, i as nat, next as nat);
                    assert(reaches(code@, next as nat, next as nat));
                }
            }
            i = next;
        }
        Valids { valids }
    }

    /// Whether `position` is a legal jump target.
    pub fn is_valid(&self, position: usize) -> (r: bool)
        ensures
            r == (position < self@.len() && self@[position as int]),
    {
        position < self.valids.len() && self.valids[position]
    }
}

/// What one call runs on: its code, its input and the jump table of its
/// code, fixed for the whole call.
pub struct Contract {
    code: Vec<u8>,
    input: Vec<u8>,
    jumpdest: Valids,
}

impl Contract {
    /// The code being run.
    pub closed spec fn code_bytes(&self) -> Seq<u8> {
        self.code@
    }

    /// The input of the call.
    pub closed spec fn input_bytes(&self) -> Seq<u8> {
        self.input@
    }

    /// The jump table agrees with the code.
    pub closed spec fn wf(&self) -> bool {
        &&& self.jumpdest@.len() == self.code@.len()
        &&& forall|d: int|
            0 <= d < self.code@.len() ==> #[trigger] self.jumpdest@[d] == jump_valid(
                self.code@,
                d as nat,
            )
    }

    /// Takes `code` and `input` and builds the jump table of `code`.
    pub fn new(code: Vec<u8>, input: Vec<u8>) -> (r: Contract)
        ensures
            r.wf(),
            r.code_bytes() == code@,
            r.input_bytes() == input@,
    {
        let jumpdest = Valids::new(code.as_slice());
        Contract { code, input, jumpdest }
    }

    /// The code being run.
    pub fn code(&self) -> (r: &Vec<u8>)
        ensures
            r@ == self.code_bytes(),
    {
        &self.code
    }

    /// The input of the call.
    pub fn input(&self) -> (r: &Vec<u8>)
        ensures
            r@ == self.input_bytes(),
    {
        &self.input
    }

    /// The jump table of the code.
    pub fn jumpdest(&self) -> (r: &Valids)
        requires
            self.wf(),
        ensures
            r@.len() == self.code_bytes().len(),
            forall|d: int|
                0 <= d < self.code_bytes().len() ==> #[trigger] r@[d] == jump_valid(
                    self.code_bytes(),
                    d as nat,
                ),
    {
        &self.jumpdest
    }

    /// Whether `dest` is a legal jump target of the code.
    pub fn is_valid_jump(&self, dest: usize) -> (r: bool)
        requires
            self.wf(),
        ensures
            r == jump_valid(self.code_bytes(), dest as nat),
    {
        self.jumpdest.is_valid(dest)
    }
}

} // verus!
