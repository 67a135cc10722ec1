use primitive_types::U256;
use vstd::prelude::*;

verus! {

/// The big-endian value of a byte sequence.
pub open spec fn be_value(s: Seq<u8>) -> nat
    decreases s.len(),
{
    if s.len() == 0 {
        0
    } else {
        be_value(s.drop_last()) * 256 + s.last() as nat
    }
}

/// A 256-bit unsigned machine word, held as its 32 big-endian bytes.
#[derive(Clone, Copy, Debug, PartialEq, Eq)]
pub struct Word {
    pub bytes: [u8; 32],
}

impl Word {
    /// The number this word stands for.
    pub open spec fn value(&self) -> nat {
        be_value(self.bytes@)
    }

    /// The word whose bytes are all zero.
    pub fn zero() -> (r: Word)
        ensures
            r.bytes@ == Seq::new(32, |i: int| 0u8),
    {
        let r = Word { bytes: [0u8; 32] };
        assert(r.bytes@ =~= Seq::new(32, |i: int| 0u8));
        r
    }

    /// The word whose big-endian bytes are `bytes`.
    pub fn from_bytes(bytes: [u8; 32]) -> (r: Word)
        ensures
            r.bytes == bytes,
    {
        Word { bytes }
    }
}

/// Relies on `U256::from(usize)` and `U256::to_big_endian`: the 32 big-endian
/// bytes of `n`.
#[verifier::external_body]
pub(crate) fn word_from_usize(n: usize) -> (r: Word)
    ensures
        r.value() == n as nat,
{
    let mut bytes = [0u8; 32];
    U256::from(n).to_big_endian(&mut bytes);
    Word { bytes }
}

/// Relies on `U256::from_big_endian` and `usize::try_from(U256)`: the word as
/// a native size, where it fits one.
#[verifier::external_body]
pub(crate) fn word_to_usize(w: &Word) -> (r: Option<usize>)
    ensures
        r == (if w.value() <= usize::MAX as nat {
            Some(w.value() as usize)
        } else {
            None
        }),
{
    usize::try_from(U256::from_big_endian(&w.bytes)).ok()
}

/// Relies on `U256::from_big_endian` and `U256::is_zero`.
#[verifier::external_body]
pub(crate) fn word_is_zero(w: &Word) -> (r: bool)
    ensures
        r == (w.value() == 0),
{
    U256::from_big_endian(&w.bytes).is_zero()
}

/// The last byte of a big-endian sequence is its value modulo 256.
pub proof fn lemma_low_byte(s: Seq<u8>)
    requires
        s.len() > 0,
    ensures
        be_value(s) % 256 == s.last() as nat,
{
    let x = be_value(s.drop_last());
    let b = s.last() as nat;
    assert((x * 256 + b) % 256 == b) by (nonlinear_arith)
        requires
            b < 256,
    ;
}

/// A sequence of zero bytes stands for zero.
pub proof fn lemma_zeros_value(s: Seq<u8>)
    requires
        forall|i: int| 0 <= i < s.len() ==> s[i] == 0u8,
    ensures
        be_value(s) == 0,
    decreases s.len(),
{
    if s.len() > 0 {
        lemma_zeros_value(s.drop_last());
    }
}

/// Zero bytes in front do not change a big-endian value.
pub proof fn lemma_leading_zeros(k: nat, s: Seq<u8>)
    ensures
        be_value(Seq::new(k, |i: int| 0u8) + s) == be_value(s),
    decreases s.len(),
{
    let z = Seq::new(k, |i: int| 0u8);
    if s.len() == 0 {
        assert(z + s =~= z);
        lemma_zeros_value(z);
    } else {
        assert((z + s).drop_last() =~= z + s.drop_last());
        lemma_leading_zeros(k, s.drop_last());
    }
}

} // verus!
