//! Integers and characters.

use crate::obj::{i64_to_word, nil, signed_word, word_signed, word_to_i64, Addr, Flags, Obj, Word};
use crate::objects::{spec_data, spec_is, Objects, CHAR_BITS, INT_BITS};
use vstd::prelude::*;

verus! {

impl Objects {
    /// The integer `v`; nil when the heap is full.
    pub fn int_new(&mut self, v: i64) -> (r: Obj)
        requires
            old(self).wf(),
        ensures
            final(self).built(*old(self), r, INT_BITS, 0, seq![signed_word(v)]),
    {
        let w = i64_to_word(v);
        self.alloc_init(Flags(INT_BITS), nil(), &[w])
    }

    /// The integer an object's first data word spells.
    pub fn int_val(&self, o: Obj) -> (r: i64)
        ensures
            r == word_signed(spec_data(self.mem(), o, 0)),
    {
        word_to_i64(self.data(o, 0).0)
    }

    pub fn is_int(&self, o: Obj) -> (r: bool)
        ensures
            r == spec_is(self.mem(), o, INT_BITS),
    {
        self.is(o, Flags(INT_BITS))
    }

    /// The character with code point `c`; nil when the heap is full.
    pub fn char_new(&mut self, c: u32) -> (r: Obj)
        requires
            old(self).wf(),
        ensures
            final(self).built(*old(self), r, CHAR_BITS, 0, seq![c as u64]),
    {
        self.alloc_init(Flags(CHAR_BITS), nil(), &[c as u64])
    }

    pub fn is_char(&self, o: Obj) -> (r: bool)
        ensures
            r == spec_is(self.mem(), o, CHAR_BITS),
    {
        self.is(o, Flags(CHAR_BITS))
    }

    /// Any object's first data word, read as a signed integer: a character
    /// reads as its code, nil as zero.
    pub fn as_int(&self, o: Obj) -> (r: i64)
        ensures
            r == word_signed(spec_data(self.mem(), o, 0)),
    {
        word_to_i64(self.data(o, 0).0)
    }

    /// The first data word's low 32 bits, as a code point.
    pub fn as_char(&self, o: Obj) -> (r: u32)
        ensures
            r == (spec_data(self.mem(), o, 0) % 0x1_0000_0000) as u32,
    {
        (self.data(o, 0).0 % 0x1_0000_0000) as u32
    }

    /// The first data word's low byte.
    pub fn as_byte(&self, o: Obj) -> (r: u8)
        ensures
            r == (spec_data(self.mem(), o, 0) % 256) as u8,
    {
        (self.data(o, 0).0 % 256) as u8
    }

    /// The first data word, as an address.
    pub fn as_ptr(&self, o: Obj) -> (r: Addr)
        ensures
            r.0 == spec_data(self.mem(), o, 0),
    {
        self.data(o, 0).as_addr()
    }
}

} // verus!
