use crate::control::ExitError;
use crate::word::{word_from_usize, word_is_zero, word_to_usize, Word};
use vstd::prelude::*;

verus! {

/// `n` zero bytes.
pub open spec fn zeros(n: nat) -> Seq<u8> {
    Seq::new(n, |i: int| 0u8)
}

/// The byte at position `i` of `s`, or zero past either end.
pub open spec fn byte_or_zero(s: Seq<u8>, i: int) -> u8 {
    if 0 <= i < s.len() {
        s[i]
    } else {
        0u8
    }
}

/// `n` rounded up to the next multiple of 32.
pub open spec fn ceil32(n: nat) -> nat {
    ((n + 31) - (n + 31) % 32) as nat
}

/// `s` with the bytes from `offset` on replaced by `bytes`.
pub open spec fn splice(s: Seq<u8>, offset: int, bytes: Seq<u8>) -> Seq<u8> {
    Seq::new(
        s.len(),
        |j: int|
            if offset <= j < offset + bytes.len() {
                bytes[j - offset]
            } else {
                s[j]
            },
    )
}

/// `value` brought to `size` bytes: zeros in front when it is shorter, its
/// first `size` bytes when it is longer.
pub open spec fn fit_to(value: Seq<u8>, size: nat) -> Seq<u8> {
    if value.len() <= size {
        zeros((size - value.len()) as nat) + value
    } else {
        value.subrange(0, size as int)
    }
}

/// The outcome of growing memory of length `cur` (with cap `limit`) so that
/// it covers `len` bytes from `offset`: the new length, or the failure.  A
/// range that is empty or already covered changes nothing and never fails.
pub open spec fn resize_result(cur: nat, limit: nat, offset: nat, len: nat) -> Result<
    nat,
    ExitError,
> {
    if len == 0 {
        Ok(cur)
    } else if offset + len > usize::MAX {
        Err(ExitError::InvalidRange)
    } else if offset + len <= cur {
        Ok(cur)
    } else if offset + len > limit {
        Err(ExitError::MemoryLimit)
    } else {
        Ok(ceil32(offset + len))
    }
}

/// The `len` bytes of `source` from `offset`, zero past its end.
pub open spec fn copy_window(source: Seq<u8>, offset: nat, len: nat) -> Seq<u8> {
    Seq::new(len, |i: int| byte_or_zero(source, offset + i))
}

/// Growing memory never shrinks it and keeps its length a whole number of
/// 32-byte words.
pub proof fn lemma_resize_monotonic(cur: nat, limit: nat, offset: nat, len: nat)
    requires
        cur % 32 == 0,
    ensures
        resize_result(cur, limit, offset, len) matches Ok(n) ==> cur <= n && n % 32 == 0,
{
}

/// Once a range is covered, growing to the same range or to one inside it
/// succeeds and adds nothing.
pub proof fn lemma_resize_idempotent(
    cur: nat,
    limit: nat,
    offset: nat,
    len: nat,
    offset2: nat,
    len2: nat,
)
    requires
        cur % 32 == 0,
        resize_result(cur, limit, offset, len) is Ok,
        len2 == 0 || (offset <= offset2 && offset2 + len2 <= offset + len),
    ensures
        ({
            let n = resize_result(cur, limit, offset, len)->Ok_0;
            resize_result(n, limit, offset2, len2) == Ok::<nat, ExitError>(n)
        }),
{
    let n = resize_result(cur, limit, offset, len)->Ok_0;
    if len2 != 0 {
        assert(offset + len <= n);
    }
}

/// A range that ends within the cap is always covered: growth succeeds, to
/// the end rounded up to a whole word, or not at all where memory already
/// reaches that far.
pub proof fn lemma_resize_within_cap(cur: nat, limit: nat, offset: nat, len: nat)
    requires
        cur % 32 == 0,
        limit <= usize::MAX - 31,
        offset + len <= limit,
    ensures
        ceil32(offset + len) <= usize::MAX,
        resize_result(cur, limit, offset, len) == Ok::<nat, ExitError>(
            if len == 0 || offset + len <= cur {
                cur
            } else {
                ceil32(offset + len)
            },
        ),
{
}

/// Bytes read past the end of a source are zero, and the others are the
/// source's own.
pub proof fn lemma_zero_extension(source: Seq<u8>, offset: nat, len: nat)
    ensures
        forall|i: int|
            0 <= i < len ==> #[trigger] copy_window(source, offset, len)[i] == if offset + i
                < source.len() {
                source[offset + i]
            } else {
                0u8
            },
{
}

/// Memory of one call frame: zero-filled bytes, grown a whole number of
/// 32-byte words at a time, never shrunk.
pub struct Memory {
    data: Vec<u8>,
    limit: usize,
}

impl View for Memory {
    type V = Seq<u8>;

    /// The bytes covered so far; their count is the effective length.
    closed spec fn view(&self) -> Seq<u8> {
        self.data@
    }
}

impl Memory {
    /// The cap on the effective length that growth may not pass.
    pub closed spec fn cap(&self) -> nat {
        self.limit as nat
    }

    /// The length is a whole number of words, and so is every length up to
    /// the cap.
    pub open spec fn wf(&self) -> bool {
        &&& self@.len() % 32 == 0
        &&& self.cap() <= usize::MAX - 31
    }

    /// Empty memory whose growth is capped at `limit` bytes, or at the
    /// greatest whole-word length a native size can hold where that is less.
    pub fn new(limit: usize) -> (r: Memory)
        ensures
            r.wf(),
            r@ == Seq::<u8>::empty(),
            r.cap() == if limit <= usize::MAX - 31 {
                limit as nat
            } else {
                (usize::MAX - 31) as nat
            },
    {
        let limit = if limit <= usize::MAX - 31 {
            limit
        } else {
            usize::MAX - 31
        };
        Memory { data: Vec::new(), limit }
    }

    /// The cap on the effective length.
    pub fn limit(&self) -> (r: usize)
        ensures
            r == self.cap(),
    {
        self.limit
    }

    /// The effective length as a native size.
    pub fn len(&self) -> (r: usize)
        ensures
            r == self@.len(),
    {
        self.data.len()
    }

    /// Whether nothing has been covered yet.
    pub fn is_empty(&self) -> (r: bool)
        ensures
            r == (self@.len() == 0),
    {
        self.data.len() == 0
    }

    /// The bytes covered so far.
    pub fn data(&self) -> (r: &Vec<u8>)
        ensures
            r@ == self@,
    {
        &self.data
    }

    /// The effective length, as a word.
    pub fn effective_len(&self) -> (r: Word)
        ensures
            r.value() == self@.len(),
    {
        word_from_usize(self.data.len())
    }

    /// Grows memory with zero bytes to `new_len` bytes.
    fn grow_to(&mut self, new_len: usize)
        requires
            old(self)@.len() <= new_len,
        ensures
            final(self).limit == old(self).limit,
            final(self)@ == old(self)@ + zeros((new_len - old(self)@.len()) as nat),
    {
        let ghost start = self.data@;
        while self.data.len() < new_len
            invariant
                start.len() <= self.data@.len() <= new_len,
                self.limit == old(self).limit,
                start == old(self)@,
                self.data@ == start + zeros((self.data@.len() - start.len()) as nat),
            decreases new_len - self.data@.len(),
        {
            self.data.push(0u8);
            assert(self.data@ =~= start + zeros((self.data@.len() - start.len()) as nat));
        }
    }

    /// Grows the effective length to cover `len` bytes from `offset`,
    /// rounded up to a whole word; nothing changes, and nothing fails, when
    /// `len` is zero or the range is already covered.  Otherwise fails,
    /// changing nothing, when the end of the range does not fit the address
    /// domain or passes the cap.
    pub fn resize_offset(&mut self, offset: Word, len: Word) -> (r: Result<(), ExitError>)
        requires
            old(self).wf(),
        ensures
            final(self).wf(),
            final(self).cap() == old(self).cap(),
            match resize_result(old(self)@.len(), old(self).cap(), offset.value(), len.value()) {
                Ok(n) => r == Ok::<(), ExitError>(()) && final(self)@ == old(self)@ + zeros(
                    (n - old(self)@.len()) as nat,
                ),
                Err(e) => r == Err::<(), ExitError>(e) && final(self)@ == old(self)@,
            },
    {
        if word_is_zero(&len) {
            assert(self.data@ =~= self.data@ + zeros(0));
            return Ok(());
        }
        let o = match word_to_usize(&offset) {
            Some(o) => o,
            None => return Err(ExitError::InvalidRange),
        };
        let l = match word_to_usize(&len) {
            Some(l) => l,
            None => return Err(ExitError::InvalidRange),
        };
        if o > usize::MAX - l {
            return Err(ExitError::InvalidRange);
        }
        let end = o + l;
        if end <= self.data.len() {
            assert(self.data@ =~= self.data@ + zeros(0));
            return Ok(());
        }
        if end > self.limit {
            return Err(ExitError::MemoryLimit);
        }
        let new_len = (end + 31) - (end + 31) % 32;
        self.grow_to(new_len);
        Ok(())
    }

    /// The `size` bytes from `offset`, with zero for every byte past the
    /// effective length.
    pub fn get(&self, offset: usize, size: usize) -> (r: Vec<u8>)
        ensures
            r@ == Seq::new(size as nat, |i: int| byte_or_zero(self@, offset + i)),
    {
        let mut out: Vec<u8> = Vec::new();
        let n = self.data.len();
        let mut i: usize = 0;
        while i < size
            invariant
                i <= size,
                n == self@.len(),
                out@ == Seq::new(i as nat, |k: int| byte_or_zero(self@, offset + k)),
            decreases size - i,
        {
            let b = if offset <= n && i < n - offset {
                self.data[offset + i]
            } else {
                0u8
            };
            out.push(b);
            i = i + 1;
            assert(out@ =~= Seq::new(i as nat, |k: int| byte_or_zero(self@, offset + k)));
        }
        out
    }

    /// Writes `value` at `offset`, brought to `target_size` bytes when one is
    /// given (zeros in front, or cut to its first bytes).  Fails, changing
    /// nothing, when the written range is not within the effective length.
    pub fn set(&mut self, offset: usize, value: &[u8], target_size: Option<usize>) -> (r: Result<
        (),
        ExitError,
    >)
        requires
            old(self).wf(),
        ensures
            final(self).wf(),
            final(self).cap() == old(self).cap(),
            ({
                let size = match target_size {
                    Some(t) => t as nat,
                    None => value@.len(),
                };
                if offset + size <= old(self)@.len() {
                    r == Ok::<(), ExitError>(()) && final(self)@ == splice(
                        old(self)@,
                        offset as int,
                        fit_to(value@, size),
                    )
                } else {
                    r == Err::<(), ExitError>(ExitError::OutOfOffset) && final(self)@ == old(
                        self,
                    )@
                }
            }),
    {
        let size = match target_size {
            Some(t) => t,
            None => value.len(),
        };
        let n = self.data.len();
        if offset > n || size > n - offset {
            return Err(ExitError::OutOfOffset);
        }
        let ghost fitted = fit_to(value@, size as nat);
        let pad: usize = if value.len() <= size {
            size - value.len()
        } else {
            0
        };
        let mut i: usize = 0;
        while i < size
            invariant
                i <= size,
                offset + size <= n,
                n == old(self)@.len(),
                n == self@.len(),
                self.limit == old(self).limit,
                fitted == fit_to(value@, size as nat),
                fitted.len() == size,
                value@.len() <= size ==> pad == size - value@.len(),
                value@.len() > size ==> pad == 0,
                forall|j: int|
                    0 <= j < n ==> #[trigger] self@[j] == (if offset <= j < offset + i {
                        fitted[j - offset]
                    } else {
                        old(self)@[j]
                    }),
            decreases size - i,
        {
            let b = if i < pad {
                0u8
            } else {
                value[i - pad]
            };
            assert(b == fitted[i as int]);
            self.data.set(offset + i, b);
            i = i + 1;
        }
        assert(self@ =~= splice(old(self)@, offset as int, fitted));
        Ok(())
    }
    /// Copies `len` bytes of `source` from `source_offset` into memory at
    /// `memory_offset`; source bytes past its end count as zero.  A zero
    /// `len` changes nothing.  Fails, changing nothing, when the target range
    /// does not fit the address domain or is not within the effective length.
    pub fn copy_large(
        &mut self,
        memory_offset: Word,
        source_offset: Word,
        len: Word,
        source: &[u8],
    ) -> (r: Result<(), ExitError>)
        requires
            old(self).wf(),
        ensures
            final(self).wf(),
            final(self).cap() == old(self).cap(),
            len.value() == 0 ==> r == Ok::<(), ExitError>(()) && final(self)@ == old(self)@,
            len.value() != 0 && memory_offset.value() + len.value() <= old(self)@.len() ==> r
                == Ok::<(), ExitError>(()) && final(self)@ == splice(
                old(self)@,
                memory_offset.value() as int,
                copy_window(source@, source_offset.value(), len.value()),
            ),
            len.value() != 0 && memory_offset.value() + len.value() > old(self)@.len() ==> r
                == Err::<(), ExitError>(
                if memory_offset.value() > usize::MAX || len.value() > usize::MAX {
                    ExitError::InvalidRange
                } else {
                    ExitError::OutOfOffset
                },
            ) && final(self)@ == old(self)@,
    {
        let n = self.data.len();
        let sl = source.len();
        if word_is_zero(&len) {
            return Ok(());
        }
        let mo = match word_to_usize(&memory_offset) {
            Some(v) => v,
            None => return Err(ExitError::InvalidRange),
        };
        let l = match word_to_usize(&len) {
            Some(v) => v,
            None => return Err(ExitError::InvalidRange),
        };
        if mo > n || l > n - mo {
            return Err(ExitError::OutOfOffset);
        }
        let so = word_to_usize(&source_offset);
        let ghost bytes = copy_window(source@, source_offset.value(), len.value());
        let mut i: usize = 0;
        while i < l
            invariant
                i <= l,
                l == len.value(),
                mo == memory_offset.value(),
                mo + l <= n,
                n == old(self)@.len(),
                n == self@.len(),
                sl == source@.len(),
                self.limit == old(self).limit,
                so == (if source_offset.value() <= usize::MAX {
                    Some(source_offset.value() as usize)
                } else {
                    None::<usize>
                }),
                bytes == copy_window(source@, source_offset.value(), len.value()),
                forall|j: int|
                    0 <= j < n ==> #[trigger] self@[j] == (if mo <= j < mo + i {
                        bytes[j - mo]
                    } else {
                        old(self)@[j]
                    }),
            decreases l - i,
        {
            let b = match so {
                Some(s) => {
                    if s <= sl && i < sl - s {
                        source[s + i]
                    } else {
                        0u8
                    }
                },
                None => 0u8,
            };
            assert(b == bytes[i as int]);
            self.data.set(mo + i, b);
            i = i + 1;
        }
        assert(self@ =~= splice(old(self)@, mo as int, bytes));
        Ok(())
    }
}

} // verus!
