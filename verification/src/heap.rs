//! The heap: word storage.
//!
//! A flat run of machine words and the operations on it: read a word, write a
//! byte, copy a block, allocate a run. It knows NOTHING about objects. Every
//! operation here is stated against a picture of memory — a sequence of words —
//! and nothing else.
//!
//! Index 0 is reserved and never allocated, so offset 0 can mean nil. An
//! out-of-range read answers zero and an out-of-range write is dropped: a
//! program computes these offsets itself, and an engine that aborted would
//! report nothing at all.
//!
//! LITTLE-ENDIAN falls out rather than being decided: byte i of a word is its
//! i-th lowest.
//!
//! The arena only GROWS, up to a ceiling of [`MAX_WORDS`] words far beyond any
//! physical memory; a growth past it is dropped rather than aborting.

use crate::obj::{wrap_add, Addr, Word, WORD};
use vstd::prelude::*;

verus! {

/// The heap's ceiling, in words.
pub const MAX_WORDS: usize = 0x1000_0000;

/// The word an address falls in, or zero outside the heap.
pub open spec fn spec_word(s: Seq<u64>, a: u64) -> u64 {
    if ((a / 8) as int) < s.len() {
        s[(a / 8) as int]
    } else {
        0
    }
}

/// Byte `k` of a word, counting from the low end.
pub open spec fn byte_of(w: u64, k: u64) -> u8 {
    ((w >> (k * 8)) & 0xff) as u8
}

/// A word with byte `k` replaced by `v`.
pub open spec fn byte_into(w: u64, k: u64, v: u8) -> u64 {
    (w & !(0xffu64 << (k * 8))) | ((v as u64) << (k * 8))
}

/// The byte at an address, or zero outside the heap.
pub open spec fn spec_byte(s: Seq<u64>, a: u64) -> u8 {
    byte_of(spec_word(s, a), a % 8)
}

/// The heap after a word write: the word changes, or nothing does.
pub open spec fn spec_set_word(s: Seq<u64>, a: u64, v: u64) -> Seq<u64> {
    if ((a / 8) as int) < s.len() {
        s.update((a / 8) as int, v)
    } else {
        s
    }
}

/// The heap after a byte write.
pub open spec fn spec_set_byte(s: Seq<u64>, a: u64, v: u8) -> Seq<u64> {
    spec_set_word(s, a, byte_into(spec_word(s, a), a % 8, v))
}

/// `width` bytes from `at`, assembled little-endian into the low end of a word.
pub open spec fn spec_read_le(s: Seq<u64>, at: u64, width: nat) -> u64
    decreases width,
{
    if width == 0 {
        0
    } else {
        let k = (width - 1) as nat;
        spec_read_le(s, at, k) | ((spec_byte(s, wrap_add(at, k as u64)) as u64) << ((
        k as u64) * 8))
    }
}

/// The heap after writing the low `width` bytes of `v` from `at`.
pub open spec fn spec_write_le(s: Seq<u64>, at: u64, v: u64, width: nat) -> Seq<u64>
    decreases width,
{
    if width == 0 {
        s
    } else {
        let k = (width - 1) as nat;
        spec_set_byte(
            spec_write_le(s, at, v, k),
            wrap_add(at, k as u64),
            byte_of(v, k as u64),
        )
    }
}

/// The heap after filling `n` bytes from `dst` with `v`.
pub open spec fn spec_fill(s: Seq<u64>, dst: u64, v: u8, n: nat) -> Seq<u64>
    decreases n,
{
    if n == 0 {
        s
    } else {
        let k = (n - 1) as nat;
        spec_set_byte(spec_fill(s, dst, v, k), wrap_add(dst, k as u64), v)
    }
}

/// The heap after a forward byte-by-byte copy of `n` bytes from `src` to `dst`.
pub open spec fn spec_copy(s: Seq<u64>, dst: u64, src: u64, n: nat) -> Seq<u64>
    decreases n,
{
    if n == 0 {
        s
    } else {
        let k = (n - 1) as nat;
        let before = spec_copy(s, dst, src, k);
        spec_set_byte(before, wrap_add(dst, k as u64), spec_byte(before, wrap_add(src, k as u64)))
    }
}

/// The byte `k` past `base`, for runs that do not wrap.
pub open spec fn byte_at_off(s: Seq<u64>, base: u64, k: int) -> u8 {
    spec_byte(s, (base + k) as u64)
}

/// The NUL-terminated byte run at `at`: every byte non-zero and read from its
/// own offset, and the byte just past it zero.
pub open spec fn is_c_string_at(s: Seq<u64>, at: u64, r: Seq<u8>) -> bool {
    &&& forall|k: int| 0 <= k < r.len() ==> r[k] != 0 && #[trigger] r[k] == spec_byte(s, wrap_add(at, k as u64))
    &&& spec_byte(s, wrap_add(at, r.len() as u64)) == 0
}

/// The NUL-terminated byte run at `at`.
pub open spec fn text_at(s: Seq<u64>, at: u64) -> Seq<u8> {
    choose|b: Seq<u8>| is_c_string_at(s, at, b)
}

/// A NUL-terminated run is fixed by where it starts.
pub proof fn lemma_c_string_unique(s: Seq<u64>, at: u64, b1: Seq<u8>, b2: Seq<u8>)
    requires
        is_c_string_at(s, at, b1),
        is_c_string_at(s, at, b2),
    ensures
        b1 == b2,
{
    if b1.len() < b2.len() {
        let k = b1.len() as int;
        assert(b2[k] != 0 && b2[k] == spec_byte(s, wrap_add(at, k as u64)));
    } else if b2.len() < b1.len() {
        let k = b2.len() as int;
        assert(b1[k] != 0 && b1[k] == spec_byte(s, wrap_add(at, k as u64)));
    } else {
        assert forall|k: int| 0 <= k < b1.len() implies b1[k] == b2[k] by {
            assert(b1[k] == spec_byte(s, wrap_add(at, k as u64)));
            assert(b2[k] == spec_byte(s, wrap_add(at, k as u64)));
        }
        assert(b1 =~= b2);
    }
}

/// Any NUL-terminated run found at `at` is the text there.
pub proof fn lemma_text_at(s: Seq<u64>, at: u64, b: Seq<u8>)
    requires
        is_c_string_at(s, at, b),
    ensures
        text_at(s, at) == b,
{
    let t = text_at(s, at);
    assert(is_c_string_at(s, at, t));
    lemma_c_string_unique(s, at, t, b);
}

/// Replacing one byte of a word changes that byte and no other.
pub proof fn lemma_byte_into(w: u64, k: u64, j: u64, v: u8)
    requires
        k < 8,
        j < 8,
    ensures
        byte_of(byte_into(w, k, v), j) == if j == k {
            v
        } else {
            byte_of(w, j)
        },
{
    let r = byte_into(w, k, v);
    if j == k {
        assert(((((w & !(0xffu64 << (k * 8))) | ((v as u64) << (k * 8))) >> (k * 8)) & 0xff) == v as u64) by (bit_vector)
            requires k < 8, v < 256;
    } else {
        assert(((((w & !(0xffu64 << (k * 8))) | ((v as u64) << (k * 8))) >> (j * 8)) & 0xff) == ((w >> (j * 8)) & 0xff)) by (bit_vector)
            requires k < 8, j < 8, k != j, v < 256;
    }
}

/// Every byte of a zero word is zero.
pub proof fn lemma_zero_byte(k: u64)
    requires
        k < 8,
    ensures
        byte_of(0, k) == 0,
{
    assert(((0u64 >> (k * 8)) & 0xff) == 0) by (bit_vector)
        requires k < 8;
}

/// The `k`-th byte of a fresh run of `(n + 8) / 8` words from word `w0` lies
/// inside the run.
pub proof fn lemma_in_run(w0: int, n: int, k: int)
    requires
        0 <= w0,
        0 <= k <= n,
    ensures
        w0 <= (w0 * 8 + k) / 8 < w0 + (n + 8) / 8,
{
    assert(w0 <= (w0 * 8 + k) / 8 < w0 + (n + 8) / 8) by (nonlinear_arith)
        requires 0 <= w0, 0 <= k <= n;
}

/// A byte outside the heap reads zero.
pub proof fn lemma_byte_outside(s: Seq<u64>, a: u64)
    requires
        ((a / 8) as int) >= s.len(),
    ensures
        spec_byte(s, a) == 0,
{
    lemma_zero_byte(a % 8);
}

/// A byte written reads back at its own offset, and every other offset keeps
/// what it held.
pub proof fn lemma_set_byte_read(s: Seq<u64>, a: u64, b: u64, v: u8)
    ensures
        spec_byte(spec_set_byte(s, a, v), b) == if ((a / 8) as int) < s.len() && a == b {
            v
        } else {
            spec_byte(s, b)
        },
{
    let t = spec_set_byte(s, a, v);
    if ((a / 8) as int) < s.len() {
        if a / 8 == b / 8 {
            lemma_byte_into(spec_word(s, a), a % 8, b % 8, v);
            if a != b {
                assert(a % 8 != b % 8) by (nonlinear_arith)
                    requires a / 8 == b / 8, a != b;
            }
        }
    }
}

/// A word written reads back; other words are untouched.
pub proof fn lemma_set_word_read(s: Seq<u64>, a: u64, b: u64, v: u64)
    ensures
        spec_word(spec_set_word(s, a, v), b) == if ((a / 8) as int) < s.len() && a / 8 == b / 8 {
            v
        } else {
            spec_word(s, b)
        },
{
}

/// Writing a byte never changes the heap's length.
pub proof fn lemma_set_byte_len(s: Seq<u64>, a: u64, v: u8)
    ensures
        spec_set_byte(s, a, v).len() == s.len(),
{
}

/// Filling leaves the length alone.
pub proof fn lemma_fill_len(s: Seq<u64>, dst: u64, v: u8, n: nat)
    ensures
        spec_fill(s, dst, v, n).len() == s.len(),
    decreases n,
{
    if n > 0 {
        lemma_fill_len(s, dst, v, (n - 1) as nat);
    }
}

/// After a fill, every byte of the run that lies in the heap reads the fill
/// value, provided the run does not wrap around the address space.
pub proof fn lemma_fill_reads(s: Seq<u64>, dst: u64, v: u8, n: nat, i: nat)
    requires
        i < n,
        dst + n <= u64::MAX,
        (((dst + i) / 8) as int) < s.len(),
    ensures
        spec_byte(spec_fill(s, dst, v, n), (dst + i) as u64) == v,
    decreases n,
{
    let k = (n - 1) as nat;
    lemma_fill_len(s, dst, v, k);
    lemma_set_byte_read(spec_fill(s, dst, v, k), wrap_add(dst, k as u64), (dst + i) as u64, v);
    if i < k {
        lemma_fill_reads(s, dst, v, k, i);
    }
}

/// Word storage.
pub struct Heap {
    words: Vec<u64>,
    /// How many objects have been allocated, EVER: `heap count`, which x-lang
    /// requires only to RISE.
    allocations: usize,
}

impl View for Heap {
    type V = Seq<u64>;

    closed spec fn view(&self) -> Seq<u64> {
        self.words@
    }
}

impl Heap {
    /// Well-formed: the reserved word is there and the ceiling holds. Every
    /// constructor establishes it and every method keeps it.
    pub open spec fn wf(&self) -> bool {
        1 <= self@.len() <= MAX_WORDS
    }

    /// The allocation count, as a number.
    pub closed spec fn spec_allocations(&self) -> nat {
        self.allocations as nat
    }

    /// Every heap keeps its reserved word and stays under the ceiling.
    /// One reserved word, so no real allocation can land at offset 0.
    pub fn new() -> (r: Heap)
        ensures
            r@ == seq![0u64],
            r.spec_allocations() == 0,
    {
        let mut words: Vec<u64> = Vec::new();
        words.push(0);
        Heap { words, allocations: 0 }
    }

    /// The address the next allocation will begin at.
    pub fn frontier(&self) -> (r: Addr)
        ensures
            self.wf() ==> r.0 == self@.len() * 8,
    {
        let n = self.words.len();
        if n <= MAX_WORDS {
            Addr::new((n as u64) * WORD)
        } else {
            Addr::new((MAX_WORDS as u64) * WORD)
        }
    }

    /// An out-of-range read answers zero rather than panicking.
    pub fn word(&self, at: Addr) -> (r: Word)
        ensures
            r.0 == spec_word(self@, at.0),
    {
        let i = at.word_index();
        if i < self.words.len() as u64 {
            Word(self.words[i as usize])
        } else {
            Word(0)
        }
    }

    /// An out-of-range write is dropped, for the same reason.
    pub fn set_word(&mut self, at: Addr, v: Word)
        ensures
            final(self)@ == spec_set_word(old(self)@, at.0, v.0),
            final(self).spec_allocations() == old(self).spec_allocations(),
    {
        let i = at.word_index();
        if i < self.words.len() as u64 {
            self.words[i as usize] = v.0;
        }
    }

    pub fn byte(&self, at: Addr) -> (r: u8)
        ensures
            r == spec_byte(self@, at.0),
    {
        let w = self.word(at).0;
        let k = at.byte_in_word() as u64;
        ((w >> (k * 8)) & 0xff) as u8
    }

    pub fn set_byte(&mut self, at: Addr, v: u8)
        ensures
            final(self)@ == spec_set_byte(old(self)@, at.0, v),
            final(self).spec_allocations() == old(self).spec_allocations(),
    {
        let k = at.byte_in_word() as u64;
        let w = self.word(at).0;
        let nw = (w & !(0xffu64 << (k * 8))) | ((v as u64) << (k * 8));
        self.set_word(at, Word(nw));
    }

    /// How many objects have been allocated — allocations EVER.
    pub fn allocations(&self) -> (r: usize)
        ensures
            r == self.spec_allocations(),
    {
        self.allocations
    }

    /// Count one allocation. The count saturates at the machine's limit
    /// rather than wrapping back down.
    pub fn note_allocation(&mut self)
        ensures
            final(self)@ == old(self)@,
            final(self).spec_allocations() == if old(self).spec_allocations() < usize::MAX {
                old(self).spec_allocations() + 1
            } else {
                old(self).spec_allocations()
            },
    {
        if self.allocations < usize::MAX {
            self.allocations = self.allocations + 1;
        }
    }

    pub fn words_len(&self) -> (r: usize)
        ensures
            r == self@.len(),
    {
        self.words.len()
    }

    /// Append one word, growing the heap; a growth past the ceiling is dropped.
    pub fn push(&mut self, v: Word)
        ensures
            final(self)@ == if old(self)@.len() < MAX_WORDS {
                old(self)@.push(v.0)
            } else {
                old(self)@
            },
            final(self).spec_allocations() == old(self).spec_allocations(),
    {
        if self.words.len() < MAX_WORDS {
            self.words.push(v.0);
        }
    }

    /// A run of `n` zeroed bytes — at least one word — answering where it
    /// begins. Never freed.
    pub fn alloc_bytes(&mut self, n: usize) -> (r: Addr)
        requires
            old(self).wf(),
        ensures
            final(self).wf(),
            r.0 == old(self)@.len() * 8,
            final(self)@.len() >= old(self)@.len(),
            final(self)@.subrange(0, old(self)@.len() as int) == old(self)@,
            old(self)@.len() + (if n == 0 { 1 } else { (n + 7) / 8 }) <= MAX_WORDS ==> final(self)@.len() == old(self)@.len() + (if n == 0 { 1 } else { (n + 7) / 8 }),
            forall|i: int| old(self)@.len() <= i < final(self)@.len() ==> final(self)@[i] == 0,
            final(self).spec_allocations() == old(self).spec_allocations(),
    {
        let start = self.frontier();
        let count: usize = if n == 0 { 1 } else { n / 8 + if n % 8 == 0 { 0 } else { 1 } };
        assert(count == if n == 0 { 1int } else { (n + 7) / 8 }) by (nonlinear_arith)
            requires count == if n == 0 { 1int } else { n / 8 + if n % 8 == 0 { 0int } else { 1int } };
        let ghost s0 = self@;
        let mut i: usize = 0;
        while i < count
            invariant
                i <= count,
                self@.len() >= s0.len(),
                self@.subrange(0, s0.len() as int) == s0,
                s0.len() + i <= MAX_WORDS ==> self@.len() == s0.len() + i,
                forall|j: int| s0.len() <= j < self@.len() ==> self@[j] == 0,
                self.spec_allocations() == old(self).spec_allocations(),
                self.wf(),
            decreases count - i,
        {
            self.push(Word(0));
            i = i + 1;
        }
        start
    }

    /// `width` bytes assembled into the low end of a zeroed integer.
    pub fn read_le(&self, at: Addr, width: u32) -> (r: u64)
        requires
            width <= 8,
        ensures
            r == spec_read_le(self@, at.0, width as nat),
    {
        let mut v: u64 = 0;
        let mut i: u32 = 0;
        while i < width
            invariant
                i <= width,
                width <= 8,
                v == spec_read_le(self@, at.0, i as nat),
            decreases width - i,
        {
            let b = self.byte(at.plus(i as u64)) as u64;
            v = v | (b << ((i as u64) * 8));
            i = i + 1;
        }
        v
    }

    /// The inverse of `read_le`: the low `width` bytes of `v`, from `at` up.
    pub fn write_le(&mut self, at: Addr, v: u64, width: u32)
        requires
            width <= 8,
        ensures
            final(self)@ == spec_write_le(old(self)@, at.0, v, width as nat),
            final(self)@.len() == old(self)@.len(),
            final(self).spec_allocations() == old(self).spec_allocations(),
    {
        let mut i: u32 = 0;
        while i < width
            invariant
                i <= width,
                width <= 8,
                self@ == spec_write_le(old(self)@, at.0, v, i as nat),
                self@.len() == old(self)@.len(),
                self.spec_allocations() == old(self).spec_allocations(),
            decreases width - i,
        {
            let b = ((v >> ((i as u64) * 8)) & 0xff) as u8;
            self.set_byte(at.plus(i as u64), b);
            i = i + 1;
        }
    }

    /// A forward copy, byte by byte.
    pub fn copy_bytes(&mut self, dst: Addr, src: Addr, n: u64)
        ensures
            final(self)@ == spec_copy(old(self)@, dst.0, src.0, n as nat),
            final(self)@.len() == old(self)@.len(),
            final(self).spec_allocations() == old(self).spec_allocations(),
    {
        let mut i: u64 = 0;
        while i < n
            invariant
                i <= n,
                self@ == spec_copy(old(self)@, dst.0, src.0, i as nat),
                self@.len() == old(self)@.len(),
                self.spec_allocations() == old(self).spec_allocations(),
            decreases n - i,
        {
            let v = self.byte(src.plus(i));
            self.set_byte(dst.plus(i), v);
            i = i + 1;
        }
    }

    pub fn fill_bytes(&mut self, dst: Addr, v: u8, n: u64)
        ensures
            final(self)@ == spec_fill(old(self)@, dst.0, v, n as nat),
            final(self)@.len() == old(self)@.len(),
            final(self).spec_allocations() == old(self).spec_allocations(),
    {
        let mut i: u64 = 0;
        while i < n
            invariant
                i <= n,
                self@ == spec_fill(old(self)@, dst.0, v, i as nat),
                self@.len() == old(self)@.len(),
                self.spec_allocations() == old(self).spec_allocations(),
            decreases n - i,
        {
            self.set_byte(dst.plus(i), v);
            i = i + 1;
        }
    }

    /// Heap bytes NUL-terminated, answering the address of the first. A str
    /// value IS a C string: bytes past the NUL are unobservable. Past the
    /// heap's ceiling nothing is stored, and the address read is empty.
    pub fn store_bytes(&mut self, bytes: &[u8]) -> (r: Addr)
        requires
            old(self).wf(),
        ensures
            final(self).wf(),
            r.0 == old(self)@.len() * 8,
            final(self)@.len() >= old(self)@.len(),
            final(self)@.subrange(0, old(self)@.len() as int) == old(self)@,
            final(self).spec_allocations() == old(self).spec_allocations(),
            old(self)@.len() + (bytes@.len() + 8) / 8 <= MAX_WORDS ==> {
                &&& final(self)@.len() == old(self)@.len() + (bytes@.len() + 8) / 8
                &&& forall|k: int|
                    0 <= k < bytes@.len() ==> #[trigger] byte_at_off(final(self)@, r.0, k)
                        == bytes@[k]
                &&& byte_at_off(final(self)@, r.0, bytes@.len() as int) == 0
            },
    {
        let n = bytes.len();
        let ghost s0 = self@;
        let room = MAX_WORDS - self.words.len();
        if n / 8 + 1 > room {
            return self.frontier();
        }
        assert((n + 8) / 8 == n / 8 + 1) by (nonlinear_arith);
        let start = self.alloc_bytes(n + 1);
        let ghost s1 = self@;
        proof {
            assert((n + 1 + 7) / 8 == (n + 8) / 8);
            assert forall|k: int| 0 <= k <= n implies #[trigger] byte_at_off(s1, start.0, k) == 0 by {
                lemma_in_run(s0.len() as int, n as int, k);
                let a = (start.0 + k) as u64;
                lemma_zero_byte(a % 8);
            }
        }
        let mut i: usize = 0;
        while i < n
            invariant
                i <= n,
                n == bytes@.len(),
                start.0 == s0.len() * 8,
                s0.len() + (n + 8) / 8 <= MAX_WORDS,
                self@.len() == s1.len(),
                s1.len() == s0.len() + (n + 8) / 8,
                self@.subrange(0, s0.len() as int) == s0,
                self.spec_allocations() == old(self).spec_allocations(),
                self.wf(),
                forall|k: int| 0 <= k < i ==> #[trigger] byte_at_off(self@, start.0, k) == bytes@[k],
                forall|k: int| i <= k <= n ==> #[trigger] byte_at_off(self@, start.0, k) == 0,
            decreases n - i,
        {
            let ghost before = self@;
            proof {
                assert(start.0 + i < s1.len() * 8) by (nonlinear_arith)
                    requires start.0 == s0.len() * 8, s1.len() == s0.len() + (n + 8) / 8, i < n;
                assert(s1.len() * 8 <= MAX_WORDS * 8) by (nonlinear_arith)
                    requires s1.len() <= MAX_WORDS;
            }
            let at = start.plus(i as u64);
            proof {
                assert(at.0 == start.0 + i);
                assert((at.0 / 8) as int >= s0.len()) by (nonlinear_arith)
                    requires at.0 == start.0 + i, start.0 == s0.len() * 8;
            }
            self.set_byte(at, bytes[i]);
            proof {
                lemma_in_run(s0.len() as int, n as int, i as int);
                assert forall|k: int| 0 <= k <= n implies #[trigger] byte_at_off(self@, start.0, k) == if k == i as int { bytes@[i as int] } else { byte_at_off(before, start.0, k) } by {
                    lemma_set_byte_read(before, at.0, (start.0 + k) as u64, bytes@[i as int]);
                }
                assert(self@.subrange(0, s0.len() as int) =~= before.subrange(0, s0.len() as int));
            }
            i = i + 1;
        }
        start
    }

    /// Read a NUL-terminated run back out.
    pub fn bytes_at(&self, at: Addr) -> (r: Vec<u8>)
        requires
            self.wf(),
        ensures
            is_c_string_at(self@, at.0, r@),
            r@ == text_at(self@, at.0),
            r@.len() <= self@.len() * 8,
    {
        let end = (self.words.len() as u64) * WORD;
        let bound: u64 = if at.0 < end { end - at.0 } else { 0 };
        let mut out: Vec<u8> = Vec::new();
        let mut i: u64 = 0;
        while i <= bound
            invariant
                i <= bound,
                end == self@.len() * 8,
                self.wf(),
                bound == if at.0 < end { end - at.0 } else { 0 },
                out@.len() == i,
                forall|k: int| 0 <= k < i ==> out@[k] != 0 && #[trigger] out@[k] == spec_byte(self@, wrap_add(at.0, k as u64)),
            decreases bound + 1 - i,
        {
            let c = self.byte(at.plus(i));
            if c == 0 {
                proof {
                    lemma_text_at(self@, at.0, out@);
                    assert(i <= end) by (nonlinear_arith)
                        requires
                            i <= bound,
                            bound == if at.0 < end { end - at.0 } else { 0 },
                    ;
                }
                return out;
            }
            proof {
                if i == bound {
                    if at.0 < end {
                        assert(wrap_add(at.0, i) == end);
                        assert(((end / 8) as int) >= self@.len()) by (nonlinear_arith)
                            requires end == self@.len() * 8;
                        lemma_byte_outside(self@, end);
                    } else {
                        assert(wrap_add(at.0, 0) == at.0);
                        assert(((at.0 / 8) as int) >= self@.len()) by (nonlinear_arith)
                            requires end == self@.len() * 8, at.0 >= end;
                        lemma_byte_outside(self@, at.0);
                    }
                }
            }
            out.push(c);
            i = i + 1;
        }
        proof {
            lemma_text_at(self@, at.0, out@);
        }
        out
    }
}

/// The laws of the word and byte doors, as one statement over any heap.
///
/// A word written reads back at its own address and nowhere else; a byte
/// written reads back at its own offset and every other byte keeps its value;
/// and none of it changes how much heap there is.
pub proof fn law_storage_round_trips(s: Seq<u64>, a: u64, b: u64, w: u64, v: u8)
    ensures
        spec_word(spec_set_word(s, a, w), a) == spec_word(s, a) || ((a / 8) as int) < s.len(),
        ((a / 8) as int) < s.len() ==> spec_word(spec_set_word(s, a, w), a) == w,
        a / 8 != b / 8 ==> spec_word(spec_set_word(s, a, w), b) == spec_word(s, b),
        ((a / 8) as int) < s.len() ==> spec_byte(spec_set_byte(s, a, v), a) == v,
        a != b ==> spec_byte(spec_set_byte(s, a, v), b) == spec_byte(s, b),
        spec_set_byte(s, a, v).len() == s.len(),
        spec_set_word(s, a, w).len() == s.len(),
{
    lemma_set_byte_read(s, a, a, v);
    lemma_set_byte_read(s, a, b, v);
}

} // verus!
