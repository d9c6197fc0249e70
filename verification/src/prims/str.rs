//! Strings as byte regions.

use crate::heap::{byte_at_off, is_c_string_at, spec_byte, MAX_WORDS};
use crate::obj::{nil, wrap_add, word_signed, Obj};
use crate::objects::{spec_data, spec_is, Objects, CHAR_BITS, INT_BITS, STR_BITS};
use crate::value::pair::spec_walk;
use crate::value::text::{spec_text, stored_at};
use vstd::prelude::*;

verus! {

/// `n` bytes read from `off` past `at`, NULs included.
pub open spec fn spec_run(s: Seq<u64>, at: u64, off: u64, n: nat) -> Seq<u8> {
    Seq::new(n, |i: int| spec_byte(s, wrap_add(at, wrap_add(off, i as u64))))
}

/// What an append spells: `x`'s bytes from the start, then `y`'s right
/// after them, then the terminating NUL; the new text is exactly as long as
/// the two together.
pub proof fn law_append_spells_x_then_y(s: Seq<u64>, at: u64, x: Seq<u8>, y: Seq<u8>)
    requires
        stored_at(s, at, x + y),
    ensures
        forall|k: int| 0 <= k < x.len() ==> #[trigger] byte_at_off(s, at, k) == x[k],
        forall|k: int| 0 <= k < y.len() ==> #[trigger] byte_at_off(s, at, x.len() as int + k) == y[k],
        byte_at_off(s, at, (x.len() + y.len()) as int) == 0,
{
    assert forall|k: int| 0 <= k < x.len() implies #[trigger] byte_at_off(s, at, k) == x[k] by {
        assert((x + y)[k] == x[k]);
    }
    assert forall|k: int| 0 <= k < y.len() implies #[trigger] byte_at_off(s, at, x.len() as int + k) == y[k] by {
        assert((x + y)[x.len() + k] == y[k]);
    }
}

impl Objects {
    /// The byte at offset `i` of a string, as a character.
    pub fn byte_ref(&mut self, s: Obj, i: i64) -> (r: Obj)
        requires
            old(self).wf(),
        ensures
            final(self).only_grew(*old(self)),
            r.0 != 0 ==> spec_is(final(self).mem(), r, CHAR_BITS) && spec_data(final(self).mem(), r, 0)
                == spec_byte(old(self).mem(), wrap_add(spec_data(old(self).mem(), s, 0), if i < 0 { 0 } else { i as u64 })) as u64,
    {
        let k: u64 = if i < 0 {
            0
        } else {
            i as u64
        };
        let at = self.str_bytes(s);
        let b = self.heap.byte(at.plus(k));
        let r = self.char_new(b as u32);
        proof {
            if r.0 != 0 {
                assert(spec_data(self.mem(), r, 0) == seq![b as u64][0]);
            }
        }
        r
    }

    /// `len` bytes of a string from offset `off`, read past any NUL.
    pub fn byte_sub(&mut self, s: Obj, off: i64, len: i64) -> (r: Obj)
        requires
            old(self).wf(),
        ensures
            final(self).only_grew(*old(self)),
            r.0 != 0 ==> spec_is(final(self).mem(), r, STR_BITS) && stored_at(
                final(self).mem(),
                spec_data(final(self).mem(), r, 0),
                spec_run(
                    old(self).mem(),
                    spec_data(old(self).mem(), s, 0),
                    if off < 0 { 0 } else { off as u64 },
                    if len < 0 { 0 } else if len > 0x1000_0000 { 0x1000_0000 } else { len as nat },
                ),
            ),
    {
        let o: u64 = if off < 0 {
            0
        } else {
            off as u64
        };
        let n: u64 = if len < 0 {
            0
        } else if len as u64 > 0x1000_0000 {
            0x1000_0000
        } else {
            len as u64
        };
        let at = self.str_bytes(s);
        let mut taken: Vec<u8> = Vec::new();
        let mut i: u64 = 0;
        while i < n
            invariant
                i <= n,
                taken@ =~= spec_run(self.mem(), at.0, o, i as nat),
            decreases n - i,
        {
            let b = self.heap.byte(at.plus(crate::obj::add_wrapping(o, i)));
            taken.push(b);
            i = i + 1;
        }
        self.str_from_bytes(taken.as_slice())
    }

    /// The bytes of `x` and then of `y`, as a fresh string.
    pub fn str_append(&mut self, x: Obj, y: Obj) -> (r: Obj)
        requires
            old(self).wf(),
        ensures
            final(self).only_grew(*old(self)),
            r.0 != 0 ==> spec_is(final(self).mem(), r, STR_BITS) && stored_at(
                final(self).mem(),
                spec_data(final(self).mem(), r, 0),
                spec_text(old(self).mem(), x) + spec_text(old(self).mem(), y),
            ),
            r.0 == 0 ==> crate::value::text::no_room_for_text(
                old(self).mem().len(),
                (spec_text(old(self).mem(), x) + spec_text(old(self).mem(), y)).len(),
            ),
    {
        let mut bytes = self.bytes_of(x);
        let more = self.bytes_of(y);
        bytes.extend_from_slice(more.as_slice());
        self.str_from_bytes(bytes.as_slice())
    }

    /// The symbol spelled like a string.
    pub fn str_to_sym(&mut self, s: Obj) -> (r: Obj)
        requires
            old(self).wf(),
        ensures
            Objects::interned_by(*old(self), *final(self), spec_text(old(self).mem(), s), r),
    {
        let name = self.bytes_of(s);
        self.sym_bytes(name.as_slice())
    }

    /// A fresh string spelled like a symbol.
    pub fn sym_to_str(&mut self, y: Obj) -> (r: Obj)
        requires
            old(self).wf(),
        ensures
            final(self).only_grew(*old(self)),
            r.0 != 0 ==> spec_is(final(self).mem(), r, STR_BITS) && stored_at(
                final(self).mem(),
                spec_data(final(self).mem(), r, 0),
                spec_text(old(self).mem(), y),
            ),
    {
        let name = self.bytes_of(y);
        self.str_from_bytes(name.as_slice())
    }

    /// A fresh string of the low bytes of a list's elements.
    pub fn bytes_to_str(&mut self, l: Obj) -> (r: Obj)
        requires
            old(self).wf(),
        ensures
            final(self).only_grew(*old(self)),
            r.0 != 0 ==> spec_is(final(self).mem(), r, STR_BITS) && stored_at(
                final(self).mem(),
                spec_data(final(self).mem(), r, 0),
                spec_walk(old(self).mem(), l, old(self).mem().len(), false).map_values(
                    |e: Obj| (spec_data(old(self).mem(), e, 0) % 256) as u8,
                ),
            ),
    {
        let items = self.list(l);
        let mut bytes: Vec<u8> = Vec::new();
        let mut i: usize = 0;
        while i < items.len()
            invariant
                i <= items@.len(),
                bytes@ =~= items@.subrange(0, i as int).map_values(
                    |e: Obj| (spec_data(self.mem(), e, 0) % 256) as u8,
                ),
            decreases items@.len() - i,
        {
            bytes.push(self.as_byte(items[i]));
            i = i + 1;
        }
        self.str_from_bytes(bytes.as_slice())
    }

    /// The byte length of a string, as an integer.
    pub fn str_len_obj(&mut self, s: Obj) -> (r: Obj)
        requires
            old(self).wf(),
        ensures
            final(self).only_grew(*old(self)),
            r.0 != 0 ==> spec_is(final(self).mem(), r, INT_BITS) && word_signed(spec_data(final(self).mem(), r, 0))
                == spec_text(old(self).mem(), s).len(),
    {
        let n = self.byte_len(s);
        proof {
            crate::obj::lemma_signed_word_round_trip(n as i64);
        }
        let r = self.int_new(n as i64);
        proof {
            if r.0 != 0 {
                assert(spec_data(self.mem(), r, 0) == seq![crate::obj::signed_word(n as i64)][0]);
            }
        }
        r
    }
}

} // verus!
