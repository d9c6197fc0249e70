//! Types, handlers and iterators.
//!
//! A type is a spine of eight groups — name, data, heap, proc, cvt, io, iter,
//! ops — each a spine of per-family STACKS, and a handler sits at the head of
//! its family's stack. The engine and the library walk the same structure.

use crate::obj::{nil, Flags, Obj};
use crate::objects::{
    kind_name, reported_kind, spec_data, spec_is, spec_type_word, Objects, META_MAX, CONT_BITS, FN_BITS, FOREIGN_BITS,
    ITER_BITS, OP_BITS, PAIR_BITS, SPAIR_BITS, PRIM_BITS, SYM_BITS, WRAP_BITS, HANDLE_BITS,
};
use crate::vocabulary::Family;
use vstd::prelude::*;
use vstd::string::StringSliceAdditionalSpecFns;

verus! {

/// How many families each group holds, by group: name, data, heap, proc,
/// cvt, io, iter, ops.
pub open spec fn group_size(g: int) -> int {
    if g == 2 { 6 }
    else if g == 3 { 2 }
    else if g == 4 { 2 }
    else if g == 5 { 5 }
    else { 1 }
}

/// The group and position a family's stack sits at, or None for a family
/// with no stack.
pub open spec fn spec_handler_slot(key: Family) -> Option<(usize, usize)> {
    match key {
        Family::Data => Some((1, 0)),
        Family::Mark => Some((2, 0)),
        Family::Make => Some((2, 1)),
        Family::Free => Some((2, 2)),
        Family::Clone => Some((2, 3)),
        Family::Units => Some((2, 4)),
        Family::Length => Some((2, 5)),
        Family::Call => Some((3, 0)),
        Family::Eval => Some((3, 1)),
        Family::From => Some((4, 0)),
        Family::To => Some((4, 1)),
        Family::Analyse => Some((5, 0)),
        Family::Delimit => Some((5, 1)),
        Family::Read => Some((5, 2)),
        Family::Write => Some((5, 3)),
        Family::Display => Some((5, 4)),
        Family::Iter => Some((6, 0)),
        Family::Ops => Some((7, 0)),
    }
}

/// The stack cell of a family in a type: `g` rests down the type, `i` rests
/// down that group, then its first.
pub open spec fn spec_stack_of(s: Seq<u64>, ty: Obj, g: nat, i: nat) -> Obj {
    let group = Obj(spec_data(s, crate::base::spec_cell(s, ty, g), 0));
    Obj(spec_data(s, crate::base::spec_cell(s, group, i), 0))
}

/// The handler at the head of a family's stack in a type; nil for a family
/// with no stack.
pub open spec fn spec_type_handler(s: Seq<u64>, ty: Obj, key: Family) -> Obj {
    match spec_handler_slot(key) {
        Some((g, i)) => Obj(spec_data(s, spec_stack_of(s, ty, g as nat, i as nat), 0)),
        None => Obj(0),
    }
}

pub fn handler_slot(key: Family) -> (r: Option<(usize, usize)>)
    ensures
        r == spec_handler_slot(key),
        r matches Some((g, i)) ==> 1 <= g < 8 && i < 6,
{
    match key {
        Family::Data => Some((1, 0)),
        Family::Mark => Some((2, 0)),
        Family::Make => Some((2, 1)),
        Family::Free => Some((2, 2)),
        Family::Clone => Some((2, 3)),
        Family::Units => Some((2, 4)),
        Family::Length => Some((2, 5)),
        Family::Call => Some((3, 0)),
        Family::Eval => Some((3, 1)),
        Family::From => Some((4, 0)),
        Family::To => Some((4, 1)),
        Family::Analyse => Some((5, 0)),
        Family::Delimit => Some((5, 1)),
        Family::Read => Some((5, 2)),
        Family::Write => Some((5, 3)),
        Family::Display => Some((5, 4)),
        Family::Iter => Some((6, 0)),
        Family::Ops => Some((7, 0)),
    }
}

/// The type filed under `handle` in a type-alist: the rest of the first
/// entry whose first is `handle`, at most `fuel` cells down; nil for none.
pub open spec fn spec_find_type(s: Seq<u64>, at: Obj, handle: Obj, fuel: nat) -> Obj
    decreases fuel,
{
    if fuel == 0 || at.0 == 0 {
        Obj(0)
    } else {
        let entry = Obj(spec_data(s, at, 0));
        if spec_data(s, entry, 0) == handle.0 {
            Obj(spec_data(s, entry, 1))
        } else {
            spec_find_type(s, Obj(spec_data(s, at, 1)), handle, (fuel - 1) as nat)
        }
    }
}

/// The handle of the first entry from `i` on filed for kind `f`.
pub open spec fn spec_first_handle(t: Seq<(u64, Obj)>, f: u64, i: nat) -> Option<Obj>
    decreases t.len() - i,
{
    if i >= t.len() {
        None
    } else if t[i as int].0 == f {
        Some(t[i as int].1)
    } else {
        spec_first_handle(t, f, i + 1)
    }
}

/// `at` heads a spine of `n` spine cells, each holding an empty stack made
/// just before it, each cell laid below the one before it.
pub open spec fn spec_group_at(s: Seq<u64>, at: Obj, n: nat) -> bool
    decreases n,
{
    if n == 0 {
        at.0 == 0
    } else {
        let st = Obj(spec_data(s, at, 0));
        let rest = spec_data(s, at, 1);
        &&& spec_is(s, at, SPAIR_BITS)
        &&& at.0 % 8 == 0
        &&& at.0 / 8 + 6 <= s.len()
        &&& spec_is(s, st, SPAIR_BITS)
        &&& st.0 % 8 == 0
        &&& st.0 / 8 + 6 <= at.0 / 8
        &&& spec_data(s, st, 0) == 0
        &&& spec_data(s, st, 1) == 0
        &&& (rest == 0 || rest / 8 + 6 <= st.0 / 8)
        &&& spec_group_at(s, Obj(rest), (n - 1) as nat)
    }
}

/// A spine of empty stacks stays one as the heap grows.
pub proof fn lemma_group_grew(s1: Seq<u64>, s2: Seq<u64>, at: Obj, n: nat)
    requires
        crate::objects::grew(s1, s2),
        spec_group_at(s1, at, n),
    ensures
        spec_group_at(s2, at, n),
    decreases n,
{
    if n > 0 {
        let st = Obj(spec_data(s1, at, 0));
        crate::objects::lemma_header_index(at, crate::objects::SLOT_FLAGS);
        crate::objects::lemma_slot_index(at, 0);
        crate::objects::lemma_slot_index(at, 1);
        crate::objects::lemma_header_index(st, crate::objects::SLOT_FLAGS);
        crate::objects::lemma_slot_index(st, 0);
        crate::objects::lemma_slot_index(st, 1);
        let w = (at.0 / 8) as int;
        let v = (st.0 / 8) as int;
        assert(s2[w + 2] == s1[w + 2]);
        assert(s2[w + 4] == s1[w + 4]);
        assert(s2[w + 5] == s1[w + 5]);
        assert(s2[v + 2] == s1[v + 2]);
        assert(s2[v + 4] == s1[v + 4]);
        assert(s2[v + 5] == s1[v + 5]);
        lemma_group_grew(s1, s2, Obj(spec_data(s1, at, 1)), (n - 1) as nat);
    }
}

impl Objects {
    /// A spine of `n` empty stacks.
    fn group(&mut self, n: usize) -> (r: Obj)
        requires
            old(self).wf(),
        ensures
            final(self).kept(*old(self)),
            crate::objects::grew(old(self).mem(), final(self).mem()),
            old(self).mem().len() + n * 2 * (META_MAX + 6) <= crate::heap::MAX_WORDS - META_MAX ==> spec_group_at(
                final(self).mem(),
                r,
                n as nat,
            ),
    {
        let ghost s0 = self.mem();
        let ghost room = s0.len() + n * 2 * (META_MAX + 6) <= crate::heap::MAX_WORDS - META_MAX;
        let mut spine = nil();
        let mut i: usize = 0;
        proof {
            crate::objects::lemma_grew_refl(s0);
        }
        while i < n
            invariant
                i <= n,
                self.kept(*old(self)),
                s0 == old(self).mem(),
                room == (s0.len() + n * 2 * (META_MAX + 6) <= crate::heap::MAX_WORDS - META_MAX),
                crate::objects::grew(s0, self.mem()),
                self.mem().len() <= s0.len() + i * 2 * (META_MAX + 6),
                room ==> spec_group_at(self.mem(), spine, i as nat),
            decreases n - i,
        {
            let ghost before = self.mem();
            let stack = self.spair(nil(), nil());
            let ghost mid = self.mem();
            let next = self.spair(stack, spine);
            proof {
                crate::objects::lemma_grew_trans(s0, before, mid);
                crate::objects::lemma_grew_trans(s0, mid, self.mem());
                assert((i + 1) * 2 * (META_MAX + 6) == i * 2 * (META_MAX + 6) + 2 * (META_MAX + 6)) by (nonlinear_arith);
                assert(n * 2 * (META_MAX + 6) >= (i + 1) * 2 * (META_MAX + 6)) by (nonlinear_arith)
                    requires
                        i < n,
                ;
                if room {
                    assert(stack.0 != 0);
                    assert(next.0 != 0);
                    crate::objects::lemma_made_grew(before, mid, self.mem(), stack, SPAIR_BITS, self.spair_marker.0, seq![0u64, 0u64]);
                    crate::objects::lemma_grew_trans(before, mid, self.mem());
                    lemma_group_grew(before, self.mem(), spine, i as nat);
                    if i > 0 {
                        assert(spine.0 / 8 + 6 <= before.len());
                    }
                    assert(spec_data(self.mem(), next, 0) == stack.0);
                    assert(spec_data(self.mem(), next, 1) == spine.0);
                    assert(spec_group_at(self.mem(), next, (i + 1) as nat));
                }
            }
            spine = next;
            i = i + 1;
        }
        spine
    }

    /// A fresh type named `name`, with the `(family-name . handler)` entries
    /// of `handlers` installed.
    pub fn type_new(&mut self, name: Obj, handlers: Obj) -> (r: Obj)
        requires
            old(self).wf(),
        ensures
            final(self).kept(*old(self)),
    {
        let heap = self.group(6);
        let procs = self.group(2);
        let cvt = self.group(2);
        let io = self.group(5);
        let iter = self.group(1);
        let ops = self.group(1);
        let name_stack = self.spair(name, nil());
        let data = self.spair(nil(), nil());
        let mut spine = self.spair(ops, nil());
        spine = self.spair(iter, spine);
        spine = self.spair(io, spine);
        spine = self.spair(cvt, spine);
        spine = self.spair(procs, spine);
        spine = self.spair(heap, spine);
        spine = self.spair(data, spine);
        spine = self.spair(name_stack, spine);
        self.install_handlers(spine, handlers);
        spine
    }

    /// The stack cell of a family in a type: `g` rests down the type, `i`
    /// rests down that group, then its first.
    fn stack_of(&self, ty: Obj, g: usize, i: usize) -> (r: Obj)
        ensures
            r == spec_stack_of(self.mem(), ty, g as nat, i as nat),
    {
        let node = crate::base::cell(self, ty, g);
        let fam = crate::base::cell(self, self.first(node), i);
        self.first(fam)
    }

    fn install_handlers(&mut self, ty: Obj, handlers: Obj)
        requires
            old(self).wf(),
        ensures
            final(self).kept(*old(self)),
            handlers.0 == 0 ==> *final(self) == *old(self),
    {
        let mut at = handlers;
        let mut fuel: usize = self.heap.words_len();
        while fuel > 0 && self.is_cell(at)
            invariant
                self.kept(*old(self)),
                handlers.0 == 0 ==> at.0 == 0 && *self == *old(self),
            decreases fuel,
        {
            let entry = self.first(at);
            at = self.rest(at);
            fuel = fuel - 1;
            if self.is_cell(entry) {
                let key = self.first(entry);
                if self.is_sym(key) {
                    let spelled = self.bytes_of(key);
                    if let Some(fam) = Family::from_name_bytes(spelled.as_slice()) {
                        let handler = self.rest(entry);
                        self.type_set_handler(ty, fam, handler);
                    }
                }
            }
        }
    }

    /// File `handler` at the head of a family's stack in a type.
    pub fn type_set_handler(&mut self, ty: Obj, key: Family, handler: Obj)
        requires
            old(self).wf(),
        ensures
            final(self).wf(),
            final(self).same_rest(old(self)),
            final(self).mem().len() == old(self).mem().len(),
            final(self).mem() == match spec_handler_slot(key) {
                Some((g, i)) => {
                    let st = spec_stack_of(old(self).mem(), ty, g as nat, i as nat);
                    if spec_is(old(self).mem(), st, PAIR_BITS) || spec_is(old(self).mem(), st, SPAIR_BITS) {
                        crate::heap::spec_set_word(old(self).mem(), crate::objects::spec_slot(st, 0), handler.0)
                    } else {
                        old(self).mem()
                    }
                },
                None => old(self).mem(),
            },
    {
        match handler_slot(key) {
            Some((g, i)) => {
                let stack = self.stack_of(ty, g, i);
                if self.is_cell(stack) {
                    self.set_data(stack, 0, handler.word());
                }
            },
            None => {},
        }
    }

    /// The handler at the head of a family's stack in a type; nil for none.
    pub fn type_handler(&self, ty: Obj, family: Family) -> (r: Obj)
        ensures
            r == spec_type_handler(self.mem(), ty, family),
    {
        match handler_slot(family) {
            Some((g, i)) => {
                let stack = self.stack_of(ty, g, i);
                self.first(stack)
            },
            None => nil(),
        }
    }

    /// A fresh instance of a type (or of the type a handle names), with `n`
    /// data words, at least one.
    pub fn instance(&mut self, t: Obj, n: u64) -> (r: Obj)
        requires
            old(self).wf(),
        ensures
            final(self).kept(*old(self)),
            final(self).mem().subrange(0, old(self).mem().len() as int) == old(self).mem(),
            r.0 != 0 ==> crate::objects::fresh_object(
                old(self).mem(),
                final(self).mem(),
                r,
                0,
                old(self).type_for_spec(t).0,
                if n == 0 { 1 } else { n },
            ),
            r.0 == 0 ==> final(self).mem() == old(self).mem() && old(self).mem().len() + 4 + (if n == 0 {
                1
            } else {
                n
            }) > crate::heap::MAX_WORDS - crate::objects::META_MAX,
    {
        let ty = self.type_for(t);
        let k: u64 = if n == 0 {
            1
        } else {
            n
        };
        let meta = self.meta_extra();
        self.alloc_typed(Flags(0), ty, k, meta)
    }

    /// What `type_for` answers for `t`.
    pub open spec fn type_for_spec(&self, t: Obj) -> Obj {
        if !spec_is(self.mem(), t, HANDLE_BITS) || self.base.0 == 0 {
            t
        } else {
            let found = spec_find_type(
                self.mem(),
                crate::base::spec_route(self.mem(), self.base, crate::base::TYPE_ALIST as nat),
                t,
                self.mem().len(),
            );
            if found.0 != 0 {
                found
            } else {
                t
            }
        }
    }

    /// A type, or the type a handle names in the current base.
    pub fn type_for(&self, t: Obj) -> (r: Obj)
        ensures
            r == self.type_for_spec(t),
    {
        if !self.is_handle(t) || self.base.0 == 0 {
            return t;
        }
        let found = self.find_type(self.base, t);
        if found.0 != 0 {
            found
        } else {
            t
        }
    }

    /// The type filed under a handle in a base's type-alist; nil for none.
    pub fn find_type(&self, base: Obj, handle: Obj) -> (r: Obj)
        ensures
            r == spec_find_type(
                self.mem(),
                crate::base::spec_route(self.mem(), base, crate::base::TYPE_ALIST as nat),
                handle,
                self.mem().len(),
            ),
    {
        let mut at = crate::base::get(self, base, crate::base::TYPE_ALIST);
        let mut fuel: usize = self.heap.words_len();
        while fuel > 0 && at.0 != 0
            invariant
                fuel <= self.mem().len(),
                spec_find_type(
                    self.mem(),
                    crate::base::spec_route(self.mem(), base, crate::base::TYPE_ALIST as nat),
                    handle,
                    self.mem().len(),
                ) == spec_find_type(self.mem(), at, handle, fuel as nat),
            decreases fuel,
        {
            let entry = self.first(at);
            if self.first(entry).0 == handle.0 {
                return self.rest(entry);
            }
            at = self.rest(at);
            fuel = fuel - 1;
        }
        nil()
    }

    /// An iterator: a step function and the state it is at.
    pub fn iter(&mut self, step: Obj, state: Obj) -> (r: Obj)
        requires
            old(self).wf(),
        ensures
            final(self).built(*old(self), r, ITER_BITS, 0, seq![step.0, state.0]),
    {
        self.alloc_init(Flags(ITER_BITS), nil(), &[step.0, state.0])
    }

    pub fn iter_step(&self, o: Obj) -> (r: Obj)
        ensures
            r.0 == spec_data(self.mem(), o, 0),
    {
        self.data(o, 0).as_obj()
    }

    pub fn iter_state(&self, o: Obj) -> (r: Obj)
        ensures
            r.0 == spec_data(self.mem(), o, 1),
    {
        self.data(o, 1).as_obj()
    }

    pub fn set_iter_state(&mut self, o: Obj, s: Obj)
        requires
            old(self).wf(),
        ensures
            final(self).wf(),
            final(self).same_rest(old(self)),
            final(self).mem().len() == old(self).mem().len(),
            final(self).mem() == crate::value::tok::with_data(old(self).mem(), o, 1, s.0),
    {
        self.set_data(o, 1, s.word())
    }

    /// The handle naming a value's type; nil for nil.
    pub fn type_of(&mut self, o: Obj) -> (r: Obj)
        requires
            old(self).wf(),
        ensures
            final(self).kept(*old(self)),
            o.0 == 0 ==> r.0 == 0,
            o.0 != 0 && old(self).carries_type(o) ==> r.0 == old(self).spec_handle_of(
                Obj(spec_type_word(old(self).mem(), o)),
            ),
    {
        let ty = self.obj_type(o);
        if ty.0 == 0 {
            return nil();
        }
        self.handle_of_type(ty)
    }

    /// The name of a value's type, where it has one the engine can find.
    pub fn type_name_of(&self, o: Obj) -> (r: Option<String>)
        requires
            self.wf(),
        ensures
            o.0 == 0 ==> r is None,
            o.0 != 0 && self.carries_type(o) ==> {
                let h = self.spec_handle_of(Obj(spec_type_word(self.mem(), o)));
                &&& (r is None <==> h == 0)
                &&& (r matches Some(t) ==> t@ == crate::value::text::lossy_text(
                    crate::value::text::spec_text(self.mem(), Obj(h)),
                ))
            },
    {
        match self.type_name_bytes(o) {
            Some(b) => Some(crate::value::text::text_of_bytes(b.as_slice())),
            None => None,
        }
    }

    /// The name of a value's type, as bytes.
    pub fn type_name_bytes(&self, o: Obj) -> (r: Option<Vec<u8>>)
        requires
            self.wf(),
        ensures
            o.0 == 0 ==> r is None,
            o.0 != 0 && self.carries_type(o) ==> {
                let h = self.spec_handle_of(Obj(spec_type_word(self.mem(), o)));
                &&& (r is None <==> h == 0)
                &&& (r matches Some(b) ==> b@ == crate::value::text::spec_text(self.mem(), Obj(h)))
            },
    {
        if o.0 == 0 {
            return None;
        }
        let carried = self.type_of_word(o);
        let ty = if carried.0 != 0 && carried.0 != self.spair_marker.0 && carried.0 != self.satom_marker.0 {
            carried
        } else if self.base.0 == 0 {
            nil()
        } else {
            let key = reported_kind(self.reported_flags(o));
            match self.kind_handle_known(key) {
                Some(h) => self.find_type(self.base, h),
                None => nil(),
            }
        };
        if ty.0 == 0 {
            return None;
        }
        let handle = self.handle_of_type(ty);
        if handle.0 == 0 {
            return None;
        }
        Some(self.bytes_of(handle))
    }

    /// `o` carries its type in its type word, rather than being of a
    /// builtin kind whose type the base supplies.
    pub open spec fn carries_type(&self, o: Obj) -> bool {
        let c = spec_type_word(self.mem(), o);
        c != 0 && c != self.spair_marker.0 && c != self.satom_marker.0
    }

    /// The current base's type for symbols, where one is filed.
    pub open spec fn spec_sym_type(&self) -> Option<Obj> {
        let s = self.mem();
        match spec_first_handle(self.kind_handles@, SYM_BITS, 0) {
            Some(h) => {
                let t = spec_find_type(s, crate::base::spec_route(s, self.base, crate::base::TYPE_ALIST as nat), h, s.len());
                if t.0 != 0 {
                    Some(t)
                } else {
                    None
                }
            },
            None => None,
        }
    }

    /// The current base's type for lists, where one is filed.
    pub open spec fn spec_list_type(&self) -> Option<Obj> {
        let s = self.mem();
        match spec_first_handle(self.kind_handles@, PAIR_BITS, 0) {
            Some(h) => {
                let t = spec_find_type(s, crate::base::spec_route(s, self.base, crate::base::TYPE_ALIST as nat), h, s.len());
                if t.0 != 0 {
                    Some(t)
                } else {
                    None
                }
            },
            None => None,
        }
    }

    /// The handle a type is named by; nil for nil.
    pub open spec fn spec_handle_of(&self, ty: Obj) -> u64 {
        if ty.0 == 0 {
            0
        } else {
            spec_data(self.mem(), Obj(spec_data(self.mem(), ty, 0)), 0)
        }
    }

    /// The handle a type is named by: the head of its name stack.
    pub fn handle_of_type(&self, ty: Obj) -> (r: Obj)
        ensures
            ty.0 == 0 ==> r.0 == 0,
            ty.0 != 0 ==> r.0 == spec_data(self.mem(), Obj(spec_data(self.mem(), ty, 0)), 0),
    {
        if ty.0 == 0 {
            return nil();
        }
        self.first(self.first(ty))
    }

    /// The type a value carries, or for a builtin kind the current base's
    /// type for it, made and filed on first use.
    pub fn obj_type(&mut self, o: Obj) -> (r: Obj)
        requires
            old(self).wf(),
        ensures
            final(self).kept(*old(self)),
            o.0 == 0 ==> r.0 == 0 && *final(self) == *old(self),
            o.0 != 0 && old(self).carries_type(o) ==> r.0 == spec_type_word(old(self).mem(), o) && *final(self)
                == *old(self),
            spec_is(old(self).mem(), o, SYM_BITS) && !old(self).carries_type(o) && old(self).base.0 != 0
                && old(self).spec_sym_type() is Some ==> r == old(self).spec_sym_type()->0 && *final(self)
                == *old(self),
            spec_is(old(self).mem(), o, PAIR_BITS) && !old(self).carries_type(o) && old(self).base.0 != 0
                && old(self).spec_list_type() is Some ==> r == old(self).spec_list_type()->0 && *final(self)
                == *old(self),
    {
        if o.0 == 0 {
            return nil();
        }
        let carried = self.type_of_word(o);
        if carried.0 != 0 && carried.0 != self.spair_marker.0 && carried.0 != self.satom_marker.0 {
            return carried;
        }
        if self.base.0 == 0 {
            return nil();
        }
        let flags = self.reported_flags(o);
        let base = self.base;
        self.builtin_type_in(base, flags)
    }

    /// A value's kind, with a foreign address reporting as a primitive.
    fn reported_flags(&self, o: Obj) -> (r: Flags)
        ensures
            r.0 == if crate::objects::spec_flags(self.mem(), o) == FOREIGN_BITS {
                PRIM_BITS
            } else {
                crate::objects::spec_flags(self.mem(), o)
            },
    {
        let f = self.flags(o);
        if f.0 == FOREIGN_BITS {
            Flags(PRIM_BITS)
        } else {
            f
        }
    }

    /// The handle already made for a kind, if any.
    fn kind_handle_known(&self, flags: Flags) -> (r: Option<Obj>)
        ensures
            r == spec_first_handle(self.kind_handles@, flags.0, 0),
    {
        let mut i: usize = 0;
        while i < self.kind_handles.len()
            invariant
                i <= self.kind_handles@.len(),
                spec_first_handle(self.kind_handles@, flags.0, 0) == spec_first_handle(
                    self.kind_handles@,
                    flags.0,
                    i as nat,
                ),
            decreases self.kind_handles@.len() - i,
        {
            if self.kind_handles[i].0 == flags.0 {
                return Some(self.kind_handles[i].1);
            }
            i = i + 1;
        }
        None
    }

    /// The one handle per kind, shared by every base's types.
    pub fn kind_handle(&mut self, flags: Flags) -> (r: Obj)
        requires
            old(self).wf(),
        ensures
            final(self).kept(*old(self)),
            spec_first_handle(old(self).kind_handles@, flags.0, 0) matches Some(h) ==> r == h && *final(self)
                == *old(self),
            spec_first_handle(old(self).kind_handles@, flags.0, 0) is None && r.0 != 0 ==> {
                &&& spec_is(final(self).mem(), r, HANDLE_BITS)
                &&& crate::value::text::stored_at(
                    final(self).mem(),
                    spec_data(final(self).mem(), r, 0),
                    crate::objects::spec_kind_name(flags.0).spec_bytes(),
                )
            },
    {
        match self.kind_handle_known(flags) {
            Some(h) => h,
            None => {
                let h = self.handle_bytes(kind_name(flags).as_bytes());
                if h.0 != 0 {
                    self.kind_handles.push((flags.0, h));
                }
                h
            },
        }
    }

    /// The current base's type for a kind: found in its type-alist by the
    /// kind's handle, or made, filed there, and answered.
    pub fn builtin_type_in(&mut self, base: Obj, flags: Flags) -> (r: Obj)
        requires
            old(self).wf(),
        ensures
            final(self).kept(*old(self)),
            ({
                let s = old(self).mem();
                let key = crate::objects::spec_reported(flags.0);
                let h = spec_first_handle(old(self).kind_handles@, key, 0)->0;
                let found = spec_find_type(s, crate::base::spec_route(s, base, crate::base::TYPE_ALIST as nat), h, s.len());
                spec_first_handle(old(self).kind_handles@, key, 0) is Some && found.0 != 0 ==> r == found && *final(self)
                    == *old(self)
            }),
    {
        let key = reported_kind(flags);
        let handle = self.kind_handle(key);
        let found = self.find_type(base, handle);
        if found.0 != 0 {
            return found;
        }
        let t = self.builtin_type_new(key, handle);
        let entry = self.spair(handle, t);
        let head = crate::base::get(self, base, crate::base::TYPE_ALIST);
        let cell = self.spair(entry, head);
        crate::base::set(self, base, crate::base::TYPE_ALIST, cell);
        t
    }

    /// A builtin kind's type, with the engine's handlers installed: symbols
    /// and lists evaluate, lists and callables are called.
    fn builtin_type_new(&mut self, key: Flags, name: Obj) -> (r: Obj)
        requires
            old(self).wf(),
        ensures
            final(self).kept(*old(self)),
    {
        let t = self.type_new(name, nil());
        if key.0 == SYM_BITS {
            let h = self.sym_eval_handler;
            self.type_set_handler(t, Family::Eval, h);
        }
        if key.0 == PAIR_BITS {
            let h = self.list_eval_handler;
            self.type_set_handler(t, Family::Eval, h);
            let c = self.list_call_handler;
            self.type_set_handler(t, Family::Call, c);
        }
        if key.0 == FN_BITS || key.0 == WRAP_BITS || key.0 == OP_BITS || key.0 == PRIM_BITS
            || key.0 == CONT_BITS {
            let h = self.callable_call_handler;
            self.type_set_handler(t, Family::Call, h);
        }
        t
    }
}

} // verus!
