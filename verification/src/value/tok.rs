//! Tokenizer buffers: the tape the reader runs over.
//!
//! ```text
//!   data 0   retain    the token's start, a raw integer in the word
//!   data 1   marks     an object whose data 0 is the read position and
//!                      data 1 the write position
//!   data 2   text      the string being read
//!   data 3   read-only nonzero for a buffer that never refills
//! ```

use crate::heap::spec_set_word;
use crate::obj::{nil, Flags, Obj, Word};
use crate::objects::{made, spec_data, spec_is, spec_slot, Objects, BUFMARKS_BITS, BUF_BITS, TOKEOF_BITS};
use vstd::prelude::*;

verus! {

/// A buffer's token start.
pub open spec fn spec_retain(s: Seq<u64>, b: Obj) -> u64 {
    spec_data(s, b, 0)
}

/// The object holding a buffer's read and write positions.
pub open spec fn spec_marks(s: Seq<u64>, b: Obj) -> Obj {
    Obj(spec_data(s, b, 1))
}

/// A buffer's read position.
pub open spec fn spec_cursor(s: Seq<u64>, b: Obj) -> u64 {
    spec_data(s, spec_marks(s, b), 0)
}

/// How far a buffer is filled.
pub open spec fn spec_write(s: Seq<u64>, b: Obj) -> u64 {
    spec_data(s, spec_marks(s, b), 1)
}

/// The string a buffer reads.
pub open spec fn spec_buf_text(s: Seq<u64>, b: Obj) -> Obj {
    Obj(spec_data(s, b, 2))
}

/// `b` is a buffer with these fields in heap `s`.
pub open spec fn buffer_is(s: Seq<u64>, b: Obj, retain: u64, cursor: u64, write: u64, text: Obj, ro: u64) -> bool {
    &&& spec_is(s, b, BUF_BITS)
    &&& spec_retain(s, b) == retain
    &&& spec_cursor(s, b) == cursor
    &&& spec_write(s, b) == write
    &&& spec_buf_text(s, b) == text
    &&& spec_data(s, b, 3) == ro
}

/// Heap `s` with data word `i` of `o` set to `v`; unchanged for nil.
pub open spec fn with_data(s: Seq<u64>, o: Obj, i: u64, v: u64) -> Seq<u64> {
    if o.0 == 0 {
        s
    } else {
        spec_set_word(s, spec_slot(o, i), v)
    }
}

impl Objects {
    /// A read-only buffer over `text`, reading from `at` to the text's end.
    pub fn buf(&mut self, text: Obj, at: u64) -> (r: Obj)
        requires
            old(self).wf(),
        ensures
            final(self).only_grew(*old(self)),
            r.0 != 0 ==> spec_is(final(self).mem(), r, BUF_BITS),
            r.0 != 0 ==> buffer_is(
                final(self).mem(),
                r,
                at,
                at,
                crate::value::text::spec_text(old(self).mem(), text).len() as u64,
                text,
                1,
            ),
            r.0 != 0 && at <= crate::value::text::spec_text(old(self).mem(), text).len() && (text.0 == 0 || (spec_slot(
                text,
                0,
            ) / 8) < old(self).mem().len()) ==> crate::read::cursor_apart(final(self).mem(), r),
    {
        let ghost s0 = self.mem();
        let end = self.byte_len(text) as u64;
        let r = self.buf_with(text, at, end, 1);
        proof {
            let s = self.mem();
            if r.0 != 0 && at <= end && (text.0 == 0 || (spec_slot(text, 0) / 8) < s0.len()) {
                let marks = spec_marks(s, r);
                let ta = spec_data(s0, text, 0);
                let t = crate::value::text::spec_text(s0, text);
                let bs = choose|bs: Seq<u8>| crate::heap::is_c_string_at(s0, ta, bs) && bs.len() == end;
                crate::heap::lemma_text_at(s0, ta, bs);
                crate::objects::lemma_slot_index(marks, 0);
                crate::objects::lemma_slot_index(marks, 1);
                crate::objects::lemma_slot_index(r, 1);
                crate::objects::lemma_slot_index(r, 2);
                crate::objects::lemma_slot_index(r, 3);
                if text.0 != 0 {
                    crate::read::lemma_grew_word(s0, s, spec_slot(text, 0));
                }
                assert(crate::read::spec_text_base(s, r) == ta);
                let m = crate::read::cursor_word(s, r);
                assert forall|k: u64| spec_cursor(s, r) <= k < spec_write(s, r) implies (#[trigger] crate::obj::wrap_add(
                    crate::read::spec_text_base(s, r),
                    k,
                ) / 8) as int != m by {
                    let a = crate::obj::wrap_add(ta, k);
                    assert(bs[k as int] != 0 && bs[k as int] == crate::heap::spec_byte(s0, a));
                    crate::heap::lemma_zero_byte(a % 8);
                    assert(((a / 8) as int) < s0.len());
                }
            }
        }
        r
    }

    /// A writable buffer over `text`: reading from `at`, filled up to `write`.
    pub fn buf_writable(&mut self, text: Obj, at: u64, write: u64) -> (r: Obj)
        requires
            old(self).wf(),
        ensures
            final(self).only_grew(*old(self)),
            r.0 != 0 ==> spec_is(final(self).mem(), r, BUF_BITS),
            r.0 != 0 ==> buffer_is(final(self).mem(), r, at, at, write, text, 0),
    {
        self.buf_with(text, at, write, 0)
    }

    fn buf_with(&mut self, text: Obj, at: u64, write: u64, ro: u64) -> (r: Obj)
        requires
            old(self).wf(),
        ensures
            final(self).only_grew(*old(self)),
            r.0 != 0 ==> spec_is(final(self).mem(), r, BUF_BITS),
            r.0 != 0 ==> buffer_is(final(self).mem(), r, at, at, write, text, ro),
            r.0 != 0 ==> {
                let marks = spec_marks(final(self).mem(), r);
                &&& marks.0 % 8 == 0
                &&& marks.0 / 8 >= old(self).mem().len()
                &&& marks.0 / 8 + 6 <= r.0 / 8
                &&& r.0 % 8 == 0
                &&& r.0 / 8 + 8 <= final(self).mem().len()
            },
    {
        let ghost s0 = self.mem();
        let marks = self.alloc_init(Flags(BUFMARKS_BITS), nil(), &[at, write]);
        let ghost s1 = self.mem();
        if marks.0 == 0 {
            return nil();
        }
        let o = self.alloc_init(Flags(BUF_BITS), nil(), &[at, marks.0, text.0, ro]);
        proof {
            crate::objects::lemma_grew_trans(s0, s1, self.mem());
            if o.0 != 0 {
                crate::objects::lemma_made_grew(s0, s1, self.mem(), marks, BUFMARKS_BITS, 0, seq![at, write]);
                assert(spec_data(self.mem(), o, 0) == seq![at, marks.0, text.0, ro][0]);
                assert(spec_data(self.mem(), o, 1) == seq![at, marks.0, text.0, ro][1]);
                assert(spec_data(self.mem(), o, 2) == seq![at, marks.0, text.0, ro][2]);
                assert(spec_data(self.mem(), o, 3) == seq![at, marks.0, text.0, ro][3]);
                assert(spec_data(self.mem(), marks, 0) == seq![at, write][0]);
                assert(spec_data(self.mem(), marks, 1) == seq![at, write][1]);
            }
        }
        o
    }

    pub fn is_buf(&self, o: Obj) -> (r: bool)
        ensures
            r == spec_is(self.mem(), o, BUF_BITS),
    {
        self.is(o, Flags(BUF_BITS))
    }

    /// The token's start.
    pub fn buf_retain(&self, o: Obj) -> (r: u64)
        ensures
            r == spec_data(self.mem(), o, 0),
    {
        self.data(o, 0).0
    }

    pub fn set_buf_retain(&mut self, o: Obj, at: u64)
        requires
            old(self).wf(),
        ensures
            final(self).wf(),
            final(self).same_rest(old(self)),
            final(self).mem().len() == old(self).mem().len(),
            final(self).mem() == with_data(old(self).mem(), o, 0, at),
            final(self).input_at == old(self).input_at,
            final(self).input_cap == old(self).input_cap,
    {
        self.set_data(o, 0, Word(at))
    }

    /// The read position.
    pub fn buf_cursor(&self, o: Obj) -> (r: u64)
        ensures
            r == spec_data(self.mem(), Obj(spec_data(self.mem(), o, 1)), 0),
    {
        let marks = self.data(o, 1).as_obj();
        self.data(marks, 0).0
    }

    pub fn set_buf_cursor(&mut self, o: Obj, at: u64)
        requires
            old(self).wf(),
        ensures
            final(self).wf(),
            final(self).same_rest(old(self)),
            final(self).mem().len() == old(self).mem().len(),
            final(self).mem() == with_data(old(self).mem(), spec_marks(old(self).mem(), o), 0, at),
            final(self).input_at == old(self).input_at,
            final(self).input_cap == old(self).input_cap,
    {
        let marks = self.data(o, 1).as_obj();
        self.set_data(marks, 0, Word(at))
    }

    /// The write position: how far the buffer is filled.
    pub fn buf_write(&self, o: Obj) -> (r: u64)
        ensures
            r == spec_data(self.mem(), Obj(spec_data(self.mem(), o, 1)), 1),
    {
        let marks = self.data(o, 1).as_obj();
        self.data(marks, 1).0
    }

    pub fn set_buf_write(&mut self, o: Obj, at: u64)
        requires
            old(self).wf(),
        ensures
            final(self).wf(),
            final(self).same_rest(old(self)),
            final(self).mem().len() == old(self).mem().len(),
            final(self).mem() == with_data(old(self).mem(), spec_marks(old(self).mem(), o), 1, at),
            final(self).input_at == old(self).input_at,
            final(self).input_cap == old(self).input_cap,
    {
        let marks = self.data(o, 1).as_obj();
        self.set_data(marks, 1, Word(at))
    }

    /// Whether the buffer never refills.
    pub fn buf_ro(&self, o: Obj) -> (r: bool)
        ensures
            r == (spec_data(self.mem(), o, 3) != 0),
    {
        self.data(o, 3).0 != 0
    }

    pub fn buf_text(&self, o: Obj) -> (r: Obj)
        ensures
            r.0 == spec_data(self.mem(), o, 2),
    {
        self.data(o, 2).as_obj()
    }

    /// The clean end-of-input sentinel: a kind of its own, whose data word is
    /// its own address.
    pub fn token_eof(&mut self) -> (r: Obj)
        requires
            old(self).wf(),
        ensures
            final(self).wf(),
            final(self).same_rest(old(self)),
            final(self).mem().len() >= old(self).mem().len(),
            r.0 != 0 ==> spec_is(final(self).mem(), r, TOKEOF_BITS),
            r.0 != 0 ==> spec_data(final(self).mem(), r, 0) == r.0,
            r.0 == 0 ==> final(self).mem() == old(self).mem() && old(self).mem().len() + 5 > crate::heap::MAX_WORDS
                - crate::objects::META_MAX,
    {
        let o = self.alloc_init(Flags(TOKEOF_BITS), nil(), &[0]);
        if o.0 == 0 {
            return o;
        }
        let ghost s1 = self.mem();
        self.set_data(o, 0, o.word());
        proof {
            crate::objects::lemma_slot_index(o, 0);
            crate::objects::lemma_header_index(o, 2);
            crate::heap::lemma_set_word_read(s1, crate::objects::spec_slot(o, 0), crate::objects::spec_header(o, 2), o.0);
            crate::heap::lemma_set_word_read(s1, crate::objects::spec_slot(o, 0), crate::objects::spec_slot(o, 0), o.0);
        }
        o
    }

    pub fn is_token_eof(&self, o: Obj) -> (r: bool)
        ensures
            r == spec_is(self.mem(), o, TOKEOF_BITS),
    {
        self.is(o, Flags(TOKEOF_BITS))
    }
}

} // verus!
