//! Pointers and raw memory: every address lands inside the heap or reads as
//! zero.

use crate::heap::{spec_byte, spec_read_le, spec_word, text_at};
use crate::obj::{nil, signed_word, word_signed, wrap_add, Addr, Obj, Word};
use crate::objects::{spec_data, spec_is, Objects, INT_BITS, STR_BITS};
use crate::value::text::stored_at;
use vstd::prelude::*;

verus! {

/// The words `mem alloc` takes for `n` bytes: a byte count clamped into
/// 0..=2^28, rounded up to words, at least one.
pub open spec fn spec_alloc_words(n: i64) -> int {
    let count: int = if n < 0 {
        0
    } else if n > 0x1000_0000 {
        0x1000_0000
    } else {
        n as int
    };
    if count == 0 {
        1
    } else {
        (count + 7) / 8
    }
}

/// Comparing memory is antisymmetric: swapping the two regions negates the
/// answer, and a region compares equal to itself.
pub proof fn law_compare_is_antisymmetric(s: Seq<u64>, a: u64, b: u64, i: nat, n: nat)
    ensures
        spec_compare_from(s, a, b, i, n) == -spec_compare_from(s, b, a, i, n),
        spec_compare_from(s, a, a, i, n) == 0,
    decreases n - i,
{
    if i < n {
        law_compare_is_antisymmetric(s, a, b, i + 1, n);
    }
}

/// The first byte at which two regions differ decides: 1 when `a`'s byte
/// there is the greater, -1 when it is the smaller; regions that agree on
/// every byte compare 0.
pub proof fn law_compare_is_decided_by_the_first_difference(s: Seq<u64>, a: u64, b: u64, i: nat, n: nat, k: nat)
    requires
        i <= k < n,
        forall|j: nat| i <= j < k ==> #[trigger] spec_byte(s, wrap_add(a, j as u64)) == spec_byte(s, wrap_add(b, j as u64)),
    ensures
        spec_byte(s, wrap_add(a, k as u64)) > spec_byte(s, wrap_add(b, k as u64)) ==> spec_compare_from(s, a, b, i, n)
            == 1,
        spec_byte(s, wrap_add(a, k as u64)) < spec_byte(s, wrap_add(b, k as u64)) ==> spec_compare_from(s, a, b, i, n)
            == -1,
        spec_byte(s, wrap_add(a, k as u64)) == spec_byte(s, wrap_add(b, k as u64)) ==> spec_compare_from(s, a, b, i, n)
            == spec_compare_from(s, a, b, k + 1, n),
    decreases k - i,
{
    if i < k {
        assert(spec_byte(s, wrap_add(a, i as u64)) == spec_byte(s, wrap_add(b, i as u64)));
        law_compare_is_decided_by_the_first_difference(s, a, b, i + 1, n, k);
    }
}

/// Regions that agree on every byte from `i` up to `n` compare 0.
pub proof fn law_equal_regions_compare_zero(s: Seq<u64>, a: u64, b: u64, i: nat, n: nat)
    requires
        forall|j: nat| i <= j < n ==> #[trigger] spec_byte(s, wrap_add(a, j as u64)) == spec_byte(s, wrap_add(b, j as u64)),
    ensures
        spec_compare_from(s, a, b, i, n) == 0,
    decreases n - i,
{
    if i < n {
        assert(spec_byte(s, wrap_add(a, i as u64)) == spec_byte(s, wrap_add(b, i as u64)));
        law_equal_regions_compare_zero(s, a, b, i + 1, n);
    }
}

/// A width clamped into 0..=8.
pub open spec fn spec_clamp_width(w: i64) -> u32 {
    if w < 0 {
        0
    } else if w > 8 {
        8
    } else {
        w as u32
    }
}

/// Compare the bytes at `a` and `b` from offset `i` up to `n`: -1 or 1 by
/// the first that differs, 0 when none does.
pub open spec fn spec_compare_from(s: Seq<u64>, a: u64, b: u64, i: nat, n: nat) -> i64
    decreases n - i,
{
    if i >= n {
        0i64
    } else if spec_byte(s, wrap_add(a, i as u64)) != spec_byte(s, wrap_add(b, i as u64)) {
        if spec_byte(s, wrap_add(a, i as u64)) < spec_byte(s, wrap_add(b, i as u64)) {
            -1i64
        } else {
            1i64
        }
    } else {
        spec_compare_from(s, a, b, i + 1, n)
    }
}

/// A width clamped into 0..=8.
pub fn clamp_width(w: i64) -> (r: u32)
    ensures
        r == spec_clamp_width(w),
        r <= 8,
        0 <= w <= 8 ==> r == w,
{
    if w < 0 {
        0
    } else if w > 8 {
        8
    } else {
        w as u32
    }
}

impl Objects {
    /// The little-endian integer of `width` bytes at `p + off`.
    pub fn ptr_read(&mut self, p: Obj, off: i64, width: i64) -> (r: Obj)
        requires
            old(self).wf(),
        ensures
            final(self).only_grew(*old(self)),
            final(self).built(
                *old(self),
                r,
                INT_BITS,
                0,
                seq![signed_word(spec_read_le(
                    old(self).mem(),
                    wrap_add(spec_data(old(self).mem(), p, 0), signed_word(off)),
                    spec_clamp_width(width) as nat,
                ) as i64)],
            ),
    {
        let base = self.as_ptr(p);
        let w = clamp_width(width);
        let v = self.heap.read_le(base.offset(off), w);
        self.int_new(v as i64)
    }

    /// Write the low `width` bytes of `v`, little-endian, at `p + off`.
    pub fn ptr_set(&mut self, p: Obj, off: i64, v: i64, width: i64)
        requires
            old(self).wf(),
        ensures
            final(self).wf(),
            final(self).same_rest(old(self)),
            final(self).mem().len() == old(self).mem().len(),
            final(self).mem() == crate::heap::spec_write_le(
                old(self).mem(),
                wrap_add(spec_data(old(self).mem(), p, 0), signed_word(off)),
                signed_word(v),
                spec_clamp_width(width) as nat,
            ),
    {
        let base = self.as_ptr(p);
        let w = clamp_width(width);
        self.heap.write_le(base.offset(off), crate::obj::i64_to_word(v), w);
    }

    /// The word at `p + off`, as an integer.
    pub fn ptr_read_word(&mut self, p: Obj, off: i64) -> (r: Obj)
        requires
            old(self).wf(),
        ensures
            final(self).only_grew(*old(self)),
            final(self).built(
                *old(self),
                r,
                INT_BITS,
                0,
                seq![signed_word(word_signed(spec_word(
                    old(self).mem(),
                    wrap_add(spec_data(old(self).mem(), p, 0), signed_word(off)),
                )))],
            ),
    {
        let base = self.as_ptr(p);
        let w = self.heap.word(base.offset(off));
        self.int_new(w.as_i64())
    }

    /// Write a word at `p + off`.
    pub fn ptr_set_word(&mut self, p: Obj, off: i64, v: i64)
        requires
            old(self).wf(),
        ensures
            final(self).wf(),
            final(self).same_rest(old(self)),
            final(self).mem().len() == old(self).mem().len(),
            final(self).mem() == crate::heap::spec_set_word(
                old(self).mem(),
                wrap_add(spec_data(old(self).mem(), p, 0), signed_word(off)),
                signed_word(v),
            ),
    {
        let base = self.as_ptr(p);
        self.heap.set_word(base.offset(off), Word(crate::obj::i64_to_word(v)));
    }

    /// Compare `n` bytes: -1, 0 or 1 at the first difference.
    pub fn mem_compare(&mut self, a: Obj, b: Obj, n: i64) -> (r: Obj)
        requires
            old(self).wf(),
        ensures
            final(self).only_grew(*old(self)),
            final(self).built(
                *old(self),
                r,
                INT_BITS,
                0,
                seq![signed_word(spec_compare_from(
                    old(self).mem(),
                    spec_data(old(self).mem(), a, 0),
                    spec_data(old(self).mem(), b, 0),
                    0,
                    if n < 0 { 0 } else { n as nat },
                ))],
            ),
    {
        let pa = self.as_ptr(a);
        let pb = self.as_ptr(b);
        let count: u64 = if n < 0 {
            0
        } else {
            n as u64
        };
        let mut r: i64 = 0;
        let mut i: u64 = 0;
        while i < count
            invariant_except_break
                r == 0,
                spec_compare_from(self.mem(), pa.0, pb.0, i as nat, count as nat)
                    == spec_compare_from(self.mem(), pa.0, pb.0, 0, count as nat),
            invariant
                i <= count,
            ensures
                r == spec_compare_from(self.mem(), pa.0, pb.0, 0, count as nat),
            decreases count - i,
        {
            let x = self.heap.byte(pa.plus(i));
            let y = self.heap.byte(pb.plus(i));
            if x != y {
                r = if x < y {
                    -1
                } else {
                    1
                };
                break;
            }
            i = i + 1;
        }
        self.int_new(r)
    }

    /// Copy `n` bytes from `src` to `dst`.
    pub fn mem_copy(&mut self, dst: Obj, src: Obj, n: i64)
        requires
            old(self).wf(),
        ensures
            final(self).wf(),
            final(self).same_rest(old(self)),
            final(self).mem().len() == old(self).mem().len(),
            final(self).mem() == crate::heap::spec_copy(
                old(self).mem(),
                spec_data(old(self).mem(), dst, 0),
                spec_data(old(self).mem(), src, 0),
                if n < 0 { 0 } else { n as nat },
            ),
    {
        let pd = self.as_ptr(dst);
        let ps = self.as_ptr(src);
        let count: u64 = if n < 0 {
            0
        } else {
            n as u64
        };
        self.heap.copy_bytes(pd, ps, count);
    }

    /// Fill `n` bytes at `dst` with the low byte of `v`.
    pub fn mem_set(&mut self, dst: Obj, v: i64, n: i64)
        requires
            old(self).wf(),
        ensures
            final(self).wf(),
            final(self).same_rest(old(self)),
            final(self).mem().len() == old(self).mem().len(),
            final(self).mem() == crate::heap::spec_fill(
                old(self).mem(),
                spec_data(old(self).mem(), dst, 0),
                (signed_word(v) % 256) as u8,
                if n < 0 { 0 } else { n as nat },
            ),
    {
        let pd = self.as_ptr(dst);
        let count: u64 = if n < 0 {
            0
        } else {
            n as u64
        };
        self.heap.fill_bytes(pd, (crate::obj::i64_to_word(v) % 256) as u8, count);
    }

    /// `n` zeroed bytes, at least one word, as a pointer.
    pub fn mem_alloc(&mut self, n: i64) -> (r: Obj)
        requires
            old(self).wf(),
        ensures
            final(self).wf(),
            final(self).same_rest(old(self)),
            crate::objects::grew(old(self).mem(), final(self).mem()),
            r.0 != 0 ==> spec_is(final(self).mem(), r, crate::objects::PTR_BITS) && spec_data(final(self).mem(), r, 0)
                == old(self).mem().len() * 8,
            ({
                let words = spec_alloc_words(n);
                old(self).mem().len() + words <= crate::heap::MAX_WORDS ==> forall|i: int|
                    old(self).mem().len() <= i < old(self).mem().len() + words ==> #[trigger] final(self).mem()[i] == 0
            }),
    {
        let count: usize = if n < 0 {
            0
        } else if n as u64 > 0x1000_0000 {
            0x1000_0000
        } else {
            n as usize
        };
        let at = self.heap.alloc_bytes(count);
        let ghost s1 = self.mem();
        let r = self.ptr(at);
        proof {
            let words = spec_alloc_words(n);
            assert forall|i: int| old(self).mem().len() <= i < old(self).mem().len() + words
                && old(self).mem().len() + words <= crate::heap::MAX_WORDS implies #[trigger] self.mem()[i] == 0 by {
                assert(self.mem().subrange(0, s1.len() as int)[i] == self.mem()[i]);
            }
            crate::objects::lemma_grew_trans(old(self).mem(), s1, self.mem());
        }
        r
    }

    /// A fresh string holding the NUL-terminated bytes at a pointer.
    pub fn ptr_to_str(&mut self, p: Obj) -> (r: Obj)
        requires
            old(self).wf(),
        ensures
            final(self).only_grew(*old(self)),
            r.0 != 0 ==> spec_is(final(self).mem(), r, STR_BITS),
            r.0 != 0 ==> stored_at(
                final(self).mem(),
                spec_data(final(self).mem(), r, 0),
                text_at(old(self).mem(), spec_data(old(self).mem(), p, 0)),
            ),
    {
        let at = self.as_ptr(p);
        let bytes = self.heap.bytes_at(at);
        self.str_from_bytes(bytes.as_slice())
    }
}

} // verus!
