//! Identity, pairs, and types.

use crate::engine::Engine;
use crate::obj::{nil, Obj, Word};
use crate::objects::{spec_data, spec_is, spec_type_word, Objects, SLOT_FLAGS, SLOT_TYPE};
use vstd::prelude::*;

verus! {

/// What `eq?` answers of two values: the same object, or two non-nil
/// objects whose first data words agree.
pub open spec fn spec_eq(s: Seq<u64>, a: Obj, b: Obj) -> bool {
    a == b || (a.0 != 0 && b.0 != 0 && spec_data(s, a, 0) == spec_data(s, b, 0))
}

/// `eq?` compares numbers by value: two integers holding the same number
/// are `eq?`, whatever objects hold them.
pub proof fn law_eq_compares_numbers_by_value(s: Seq<u64>, a: Obj, b: Obj)
    requires
        spec_is(s, a, crate::objects::INT_BITS),
        spec_is(s, b, crate::objects::INT_BITS),
        crate::obj::word_signed(spec_data(s, a, 0)) == crate::obj::word_signed(spec_data(s, b, 0)),
    ensures
        spec_eq(s, a, b),
{
    crate::obj::lemma_word_signed_round_trip(spec_data(s, a, 0));
    crate::obj::lemma_word_signed_round_trip(spec_data(s, b, 0));
}

/// `eq?` compares strings by identity: two string objects whose bytes lie
/// at different addresses are not `eq?`, whatever the bytes spell.
pub proof fn law_eq_compares_strings_by_identity(s: Seq<u64>, a: Obj, b: Obj)
    requires
        spec_is(s, a, crate::objects::STR_BITS),
        spec_is(s, b, crate::objects::STR_BITS),
        spec_data(s, a, 0) != spec_data(s, b, 0),
    ensures
        !spec_eq(s, a, b),
{
}

impl Objects {
    /// `eq?`: the same object, or two non-nil objects whose first data words
    /// agree — numbers by value, a character and its code alike, strings by
    /// identity.
    pub fn eq_values(&self, a: Obj, b: Obj) -> (r: bool)
        ensures
            r == spec_eq(self.mem(), a, b),
    {
        a.0 == b.0 || (a.0 != 0 && b.0 != 0 && self.data(a, 0).0 == self.data(b, 0).0)
    }
}

impl Engine {
    /// `(type make name handlers)`: a fresh type named by a fresh handle
    /// spelled like `name`, filed in the current base; answers the handle.
    pub fn type_make(&mut self, name: Obj, handlers: Obj) -> (r: Obj)
        requires
            old(self).wf(),
        ensures
            final(self).wf(),
    {
        let text = self.objects.bytes_of(name);
        let h = self.objects.handle_bytes(text.as_slice());
        let t = self.objects.type_new(h, handlers);
        let base = self.objects.base;
        let entry = self.objects.spair(h, t);
        let head = crate::base::get(&self.objects, base, crate::base::TYPE_ALIST);
        let cell = self.objects.spair(entry, head);
        crate::base::set(&mut self.objects, base, crate::base::TYPE_ALIST, cell);
        h
    }

    /// `(type make-instance t payload)`: an instance of `t` carrying
    /// `payload` in its first data word.
    pub fn make_instance(&mut self, t: Obj, payload: Obj) -> (r: Obj)
        requires
            old(self).wf(),
        ensures
            final(self).wf(),
            r.0 != 0 ==> {
                &&& spec_is(final(self).objects.mem(), r, 0)
                &&& spec_type_word(final(self).objects.mem(), r) == old(self).objects.type_for_spec(t).0
                &&& spec_data(final(self).objects.mem(), r, 0) == payload.0
                &&& spec_data(final(self).objects.mem(), r, 1) == 0
            },
            r.0 == 0 ==> old(self).objects.mem().len() + 6 > crate::heap::MAX_WORDS - crate::objects::META_MAX,
    {
        let o = self.objects.instance(t, 2);
        let ghost s1 = self.objects.mem();
        self.objects.set_data(o, 0, payload.word());
        proof {
            if o.0 != 0 {
                crate::objects::lemma_header_index(o, SLOT_FLAGS);
                crate::objects::lemma_header_index(o, SLOT_TYPE);
                crate::objects::lemma_slot_index(o, 0);
                crate::objects::lemma_slot_index(o, 1);
                let a = crate::objects::spec_slot(o, 0);
                crate::heap::lemma_set_word_read(s1, a, crate::objects::spec_header(o, SLOT_FLAGS), payload.0);
                crate::heap::lemma_set_word_read(s1, a, crate::objects::spec_header(o, SLOT_TYPE), payload.0);
                crate::heap::lemma_set_word_read(s1, a, a, payload.0);
                crate::heap::lemma_set_word_read(s1, a, crate::objects::spec_slot(o, 1), payload.0);
                assert(spec_data(s1, o, 1) == 0);
            }
        }
        o
    }

    /// `(type ? v t)`: whether `v`'s type is named by `t`.
    pub fn type_is(&mut self, v: Obj, t: Obj) -> (r: Obj)
        requires
            old(self).wf(),
        ensures
            final(self).wf(),
            r == final(self).objects.true_obj || r == final(self).objects.false_obj,
            t.0 == 0 || v.0 == 0 ==> r == final(self).objects.false_obj,
            v.0 != 0 && old(self).objects.carries_type(v) ==> r == if t.0 != 0 && t.0 == old(self).objects.spec_handle_of(
                Obj(spec_type_word(old(self).objects.mem(), v)),
            ) {
                final(self).objects.true_obj
            } else {
                final(self).objects.false_obj
            },
    {
        let got = self.objects.type_of(v);
        let b = t.0 != 0 && got.0 == t.0;
        self.objects.truth(b)
    }
}

} // verus!
