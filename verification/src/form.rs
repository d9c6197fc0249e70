//! Reading a form, with the library's reader macros in the loop.
//!
//! At every position where a form may begin, the types registered in the
//! engine's base get first refusal through the analyse contest; the built-in
//! syntax is the fallback. A list's elements are such positions too, which is
//! why lists are read here and not by the buffer's own reader.

use crate::diag::Cond;
use crate::engine::Engine;
use crate::obj::{add_wrapping, nil, Obj};
use crate::objects::{spec_data, spec_is};
use crate::prims::tok::span_of;
use crate::read::is_blank;
use crate::vocabulary::Family;
use vstd::prelude::*;

verus! {

/// What the engine's reader answers for buffer `b` of `before`, reading
/// from the first byte past blanks and comments: `)` reads as nil, a string
/// or character literal as its value, an atom as an integer or a symbol, and
/// `(` as nil when a `)` follows and as a raise when nothing does.
pub open spec fn read_result(before: &Engine, after: &Engine, b: Obj, fuel: u64, r: Result<Option<Obj>, Cond>) -> bool {
    let p = crate::read::spec_pending(before.objects.mem(), b);
    let q = p.subrange(crate::read::spec_skip(p) as int, p.len() as int);
    &&& q.len() == 0 ==> r == Ok::<Option<Obj>, Cond>(None)
    &&& q.len() > 0 && q[0] == 41 ==> r == Ok::<Option<Obj>, Cond>(Some(Obj(0)))
    &&& q.len() > 0 && q[0] == 34 ==> (r matches Ok(Some(v)) && (v.0 != 0 ==> spec_is(
        after.objects.mem(),
        v,
        crate::objects::STR_BITS,
    ) && crate::value::text::stored_at(
        after.objects.mem(),
        spec_data(after.objects.mem(), v, 0),
        crate::read::spec_string_body(q.drop_first()).0,
    )))
    &&& q.len() >= 2 && q[0] == 35 && q[1] == 92 ==> (r matches Ok(Some(v)) && crate::read::char_read_as(
        after.objects.mem(),
        q.subrange(2, q.len() as int),
        v,
    ))
    &&& q.len() > 0 && q[0] != 40 && q[0] != 41 && q[0] != 34 && !(q.len() >= 2 && q[0] == 35 && q[1]
        == 92) && crate::read::spec_atom_len(q) > 0 ==> (r matches Ok(Some(v)) && crate::read::atom_read_as(
        before.objects,
        after.objects,
        q.subrange(0, crate::read::spec_atom_len(q) as int),
        v,
    ))
    &&& q.len() > 0 && q[0] == 40 && fuel > 0 ==> {
        let q2 = q.drop_first();
        let q3 = q2.subrange(crate::read::spec_skip(q2) as int, q2.len() as int);
        &&& q3.len() == 0 ==> r is Err
        &&& q3.len() > 0 && q3[0] == 41 ==> r == Ok::<Option<Obj>, Cond>(Some(Obj(0)))
    }

}

/// The buffer the engine reads its input from: the head of the current
/// base's buffer row; nil for none.
pub open spec fn engine_buffer(e: &Engine) -> Obj {
    let row = crate::base::spec_route(e.objects.mem(), e.objects.base, crate::base::BUFFER as nat);
    if row.0 == 0 {
        Obj(0)
    } else {
        Obj(spec_data(e.objects.mem(), row, 0))
    }
}

/// What the engine's next form is, as `read_result` tells it, a raise
/// giving none.
pub open spec fn next_read(before: &Engine, after: &Engine, b: Obj, r: Option<Obj>) -> bool {
    exists|res: Result<Option<Obj>, Cond>| #[trigger] read_result(before, after, b, crate::eval::DEPTH, res) && r == ok_form(res)
}

/// A read's form, None for a raise.
pub open spec fn ok_form(r: Result<Option<Obj>, Cond>) -> Option<Obj> {
    match r {
        Ok(f) => f,
        Err(_) => None,
    }
}

/// Reading a buffer with the engine's own reader alone: the buffer never
/// refills and its cursor lies apart, the base files no type that could
/// claim a reader macro, and the cursor's word is none of the words that
/// say so.
pub open spec fn plain_reading(e: &Engine, b: Obj) -> bool {
    let s = e.objects.mem();
    let m = crate::read::cursor_word(s, b);
    let c1 = Obj(spec_data(s, e.base, 1));
    &&& crate::read::still(&e.objects, b)
    &&& crate::read::cursor_apart(s, b)
    &&& crate::base::spec_route(s, e.base, crate::base::TYPE_ALIST as nat).0 == 0
    &&& (e.base.0 != 0 ==> m != (crate::objects::spec_slot(e.base, 1) / 8) as int)
    &&& (c1.0 != 0 ==> m != (crate::objects::spec_slot(c1, 0) / 8) as int)
}

impl Engine {
    /// The buffer at the head of the current base's buffer row; nil for none.
    pub fn current_buffer(&self) -> (r: Obj)
        ensures
            ({
                let row = crate::base::spec_route(self.objects.mem(), self.objects.base, crate::base::BUFFER as nat);
                r.0 == if row.0 == 0 { 0 } else { crate::objects::spec_data(self.objects.mem(), row, 0) }
            }),
    {
        let row = crate::base::get(&self.objects, self.objects.base, crate::base::BUFFER);
        if row.0 == 0 {
            return nil();
        }
        self.objects.first(row)
    }

    /// The next form of the current input; None at its end. A list the input
    /// ends inside raises.
    pub fn read_form(&mut self, fuel: u64) -> (r: Result<Option<Obj>, Cond>)
        requires
            old(self).wf(),
        ensures
            final(self).wf(),
            crate::base::spec_route(old(self).objects.mem(), old(self).objects.base, crate::base::BUFFER as nat).0 == 0
                ==> r == Ok::<Option<Obj>, Cond>(None) && *final(self) == *old(self),
            plain_reading(old(self), engine_buffer(old(self))) ==> read_result(
                old(self),
                final(self),
                engine_buffer(old(self)),
                fuel,
                r,
            ),
        decreases fuel, 11u64,
    {
        let b = self.current_buffer();
        if b.0 == 0 {
            return Ok(None);
        }
        self.read_form_in(b, fuel)
    }

    /// The next form of buffer `b`: a reader macro's, a list, a string or
    /// character literal, or an atom; None at the end of input.
    pub fn read_form_in(&mut self, b: Obj, fuel: u64) -> (r: Result<Option<Obj>, Cond>)
        requires
            old(self).wf(),
        ensures
            final(self).wf(),
            crate::read::still(&old(self).objects, b) && crate::read::cursor_apart(old(self).objects.mem(), b) && ({
                let p = crate::read::spec_pending(old(self).objects.mem(), b);
                crate::read::spec_skip(p) == p.len()
            }) ==> r == Ok::<Option<Obj>, Cond>(None),
            plain_reading(old(self), b) ==> read_result(old(self), final(self), b, fuel, r),
        decreases fuel, 10u64,
    {
        let ghost s0 = old(self).objects.mem();
        let ghost pr = plain_reading(old(self), b);
        self.objects.buf_prefetch_line(b);
        self.objects.buf_skip_blanks(b);
        proof {
            if pr {
                let alist_at = crate::objects::spec_slot(old(self).base, 1);
                let c1 = Obj(spec_data(s0, old(self).base, 1));
                let m = crate::read::cursor_word(s0, b);
                if old(self).base.0 != 0 && ((alist_at / 8) as int) < s0.len() {
                    assert(self.objects.mem()[(alist_at / 8) as int] == s0[(alist_at / 8) as int]);
                }
                if c1.0 != 0 && ((crate::objects::spec_slot(c1, 0) / 8) as int) < s0.len() {
                    assert(self.objects.mem()[(crate::objects::spec_slot(c1, 0) / 8) as int] == s0[(
                    crate::objects::spec_slot(c1, 0) / 8) as int]);
                }
                let s1 = self.objects.mem();
                reveal_with_fuel(crate::base::spec_cell, 2);
                assert(crate::base::spec_cell(s0, self.base, 1) == c1);
                assert(crate::base::spec_cell(s1, self.base, 1) == Obj(spec_data(s1, self.base, 1)));
                assert(spec_data(s1, self.base, 1) == spec_data(s0, self.base, 1));
                assert(spec_data(s1, c1, 0) == spec_data(s0, c1, 0));
                assert(crate::base::spec_route(s1, self.base, crate::base::TYPE_ALIST as nat).0 == 0);
            }
        }
        proof {
            if crate::read::still(&old(self).objects, b) && crate::read::cursor_apart(old(self).objects.mem(), b) && ({
                let p = crate::read::spec_pending(old(self).objects.mem(), b);
                crate::read::spec_skip(p) == p.len()
            }) {
                crate::read::lemma_ahead_is_pending(self.objects.mem(), b, 0);
            }
        }
        if self.objects.buf_peek(b).is_none() {
            return Ok(None);
        }
        match self.try_macro(b, fuel) {
            Err(c) => Err(c),
            Ok(Some(v)) => Ok(Some(v)),
            Ok(None) => {
                if self.objects.buf_peek(b) == Some(40u8) {
                    let ghost s1 = self.objects.mem();
                    self.objects.buf_bump(b);
                    proof {
                        if pr {
                            crate::read::lemma_step_cursor(s1, b);
                        }
                    }
                    match self.read_list_form(b, fuel) {
                        Ok(v) => Ok(Some(v)),
                        Err(c) => Err(c),
                    }
                } else {
                    match self.objects.buf_read_one_builtin_except_atom(b) {
                        Some(v) => Ok(Some(v)),
                        None => match self.read_atom_delimited(b, fuel) {
                            Ok(v) => Ok(Some(v)),
                            Err(c) => Err(c),
                        },
                    }
                }
            },
        }
    }

    /// A list after its open paren, its elements read as forms; a lone `.`
    /// puts the form after it in the tail. Input that ends inside raises.
    fn read_list_form(&mut self, b: Obj, fuel: u64) -> (r: Result<Obj, Cond>)
        requires
            old(self).wf(),
        ensures
            final(self).wf(),
            fuel == 0 ==> r == Err::<Obj, Cond>(Cond::TooDeep),
            fuel > 0 && crate::read::still(&old(self).objects, b) && crate::read::cursor_apart(old(self).objects.mem(), b)
                ==> {
                let p = crate::read::spec_pending(old(self).objects.mem(), b);
                let q = p.subrange(crate::read::spec_skip(p) as int, p.len() as int);
                &&& q.len() == 0 ==> r is Err && r->Err_0 is Raised
                &&& q.len() > 0 && q[0] == 41 ==> r == Ok::<Obj, Cond>(Obj(0))
            },
        decreases fuel, 9u64,
    {
        if fuel == 0 {
            return Err(Cond::TooDeep);
        }
        let mut items: Vec<Obj> = Vec::new();
        let mut tail = nil();
        let mut budget: u64 = u64::MAX;
        let ghost sl = crate::read::still(&old(self).objects, b) && crate::read::cursor_apart(old(self).objects.mem(), b);
        let ghost p0 = crate::read::spec_pending(old(self).objects.mem(), b);
        let ghost q0 = p0.subrange(crate::read::spec_skip(p0) as int, p0.len() as int);
        let ghost quiet = sl && (q0.len() == 0 || q0[0] == 41);
        proof {
            crate::read::lemma_skip_stops(p0);
        }
        while budget > 0
            invariant_except_break
                quiet ==> budget == u64::MAX && *self == *old(self),
            invariant
                self.wf(),
                fuel > 0,
                quiet ==> items@.len() == 0 && tail.0 == 0,
                quiet == (sl && (q0.len() == 0 || q0[0] == 41)),
                sl == (crate::read::still(&old(self).objects, b) && crate::read::cursor_apart(old(self).objects.mem(), b)),
                p0 == crate::read::spec_pending(old(self).objects.mem(), b),
                q0 == p0.subrange(crate::read::spec_skip(p0) as int, p0.len() as int),
            ensures
                quiet ==> items@.len() == 0 && tail.0 == 0 && q0.len() > 0,
            decreases budget,
        {
            budget = budget - 1;
            self.objects.buf_skip_blanks(b);
            let ghost s1 = self.objects.mem();
            proof {
                if quiet {
                    crate::read::lemma_ahead_is_pending(s1, b, 0);
                    assert(crate::read::spec_pending(s1, b) == q0);
                }
            }
            match self.objects.buf_peek(b) {
                None => {
                    let v = self.objects.str_new(crate::vocabulary::MSG_UNTERMINATED);
                    return Err(Cond::Raised(v));
                },
                Some(c) => {
                    if c == 41 {
                        self.objects.buf_bump(b);
                        break;
                    }
                    if c == 46 && self.objects.buf_at_dot_separator(b) {
                        self.objects.buf_bump(b);
                        match self.read_form_in(b, fuel - 1) {
                            Err(e) => {
                                return Err(e);
                            },
                            Ok(Some(t)) => {
                                tail = t;
                            },
                            Ok(None) => {},
                        }
                        self.objects.buf_skip_blanks(b);
                        if self.objects.buf_peek(b) == Some(41u8) {
                            self.objects.buf_bump(b);
                        }
                        break;
                    }
                    match self.read_form_in(b, fuel - 1) {
                        Err(e) => {
                            return Err(e);
                        },
                        Ok(Some(o)) => {
                            items.push(o);
                        },
                        Ok(None) => {
                            break;
                        },
                    }
                },
            }
        }
        let mut out = tail;
        let mut k: usize = items.len();
        while k > 0
            invariant
                self.wf(),
                k <= items@.len(),
                k == items@.len() ==> out == tail,
            decreases k,
        {
            k = k - 1;
            out = self.objects.pair(items[k], out);
        }
        Ok(out)
    }

    /// An atom whose end the registered delimit handlers may call early:
    /// after the first byte, each position is offered to them through a view
    /// whose last character is the candidate, and a claim ends the atom there.
    fn read_atom_delimited(&mut self, b: Obj, fuel: u64) -> (r: Result<Obj, Cond>)
        requires
            old(self).wf(),
        ensures
            final(self).wf(),
            ({
                let s = old(self).objects.mem();
                let alist = crate::base::spec_route(s, old(self).base, crate::base::TYPE_ALIST as nat);
                let p = crate::read::spec_pending(s, b);
                let n = crate::read::spec_atom_len(p);
                crate::prims::tok::no_handlers(s, alist, Family::Delimit) && crate::read::still(&old(self).objects, b)
                    && crate::read::cursor_apart(s, b) ==> (
                r matches Ok(v) && (n == 0 ==> v.0 == 0 && final(self).objects.mem() == crate::value::tok::with_data(
                    s,
                    crate::value::tok::spec_marks(s, b),
                    0,
                    crate::obj::wrap_add(crate::value::tok::spec_cursor(s, b), 1),
                )) && (n > 0 ==> crate::read::atom_read_as(
                    old(self).objects,
                    final(self).objects,
                    p.subrange(0, n as int),
                    v,
                )))
            }),
        decreases fuel, 6u64,
    {
        let alist = crate::base::get(&self.objects, self.base, crate::base::TYPE_ALIST);
        let types = self.types_of(alist);
        let ghost s = old(self).objects.mem();
        let ghost entries = crate::value::pair::spec_walk(s, alist, s.len(), true);
        let mut delims: Vec<Obj> = Vec::new();
        let mut i: usize = 0;
        while i < types.len()
            invariant
                self.wf(),
                i <= types@.len(),
                *self == *old(self),
                s == old(self).objects.mem(),
                types@.len() == entries.len(),
                forall|k: int| 0 <= k < types@.len() ==> (#[trigger] types@[k]).0 == spec_data(s, entries[k], 1),
                delims@.len() == 0 <==> forall|k: int, j: int|
                    0 <= k < i && 0 <= j < crate::prims::tok::spec_handlers(
                        s,
                        crate::value::typed::spec_type_handler(s, Obj(spec_data(s, entries[k], 1)), Family::Delimit),
                    ).len() ==> (#[trigger] crate::prims::tok::spec_handlers(
                        s,
                        crate::value::typed::spec_type_handler(s, Obj(spec_data(s, entries[k], 1)), Family::Delimit),
                    )[j]).0 == 0,
            decreases types@.len() - i,
        {
            let slot = self.objects.type_handler(types[i], Family::Delimit);
            let hs = self.handler_list(slot);
            let ghost d0 = delims@.len();
            assert(types@[i as int] == Obj(spec_data(s, entries[i as int], 1)));
            assert(hs@ == crate::prims::tok::spec_handlers(s, slot));
            let mut j: usize = 0;
            while j < hs.len()
                invariant
                    j <= hs@.len(),
                    delims@.len() >= d0,
                    delims@.len() == d0 <==> forall|jj: int| 0 <= jj < j ==> (#[trigger] hs@[jj]).0 == 0,
                decreases hs@.len() - j,
            {
                if hs[j].0 != 0 {
                    delims.push(hs[j]);
                }
                j = j + 1;
            }
            i = i + 1;
        }
        if delims.len() == 0 {
            return Ok(self.objects.buf_read_atom(b));
        }
        assert(!crate::prims::tok::no_handlers(s, alist, Family::Delimit));
        let text = self.objects.buf_text(b);
        let start = self.objects.buf_cursor(b);
        let env = self.root_env();
        let mut budget: u64 = u64::MAX;
        while budget > 0
            invariant
                self.wf(),
                s == old(self).objects.mem(),
                !crate::prims::tok::no_handlers(
                    s,
                    crate::base::spec_route(s, old(self).base, crate::base::TYPE_ALIST as nat),
                    Family::Delimit,
                ),
            decreases budget,
        {
            budget = budget - 1;
            let c = match self.objects.buf_peek(b) {
                Some(c) => c,
                None => {
                    break;
                },
            };
            if is_blank(c) || c == 40 || c == 41 || c == 59 {
                break;
            }
            let at = self.objects.buf_cursor(b);
            if at > start {
                let view = self.objects.buf(text, add_wrapping(at, 1));
                self.objects.set_buf_retain(view, at);
                let mut claimed = false;
                let mut k: usize = 0;
                while k < delims.len()
                    invariant
                        self.wf(),
                        k <= delims@.len(),
                        s == old(self).objects.mem(),
                        !crate::prims::tok::no_handlers(
                            s,
                            crate::base::spec_route(s, old(self).base, crate::base::TYPE_ALIST as nat),
                            Family::Delimit,
                        ),
                    decreases delims@.len() - k,
                {
                    let mut vals: Vec<Obj> = Vec::new();
                    vals.push(view);
                    let got = match self.call_with_values(delims[k], vals, env, fuel) {
                        Ok(v) => v,
                        Err(e) => {
                            return Err(e);
                        },
                    };
                    if got.0 != 0 {
                        claimed = true;
                        break;
                    }
                    k = k + 1;
                }
                if claimed {
                    break;
                }
            }
            self.objects.buf_bump(b);
        }
        let end = self.objects.buf_cursor(b);
        Ok(self.objects.buf_atom_from(b, start, end))
    }

    /// Give the types of the engine's base first refusal at the cursor: the
    /// contest runs on a view from the cursor, and the winner's read
    /// handlers run in turn on `b` itself, its retain mark at the claim's
    /// start and its cursor at the claim's end, until one answers non-nil.
    /// None when nothing claims or every reader declines, the cursor where
    /// it was.
    fn try_macro(&mut self, b: Obj, fuel: u64) -> (r: Result<Option<Obj>, Cond>)
        requires
            old(self).wf(),
        ensures
            final(self).wf(),
            r matches Ok(Some(v)) ==> v.0 != 0,
            crate::base::spec_route(old(self).objects.mem(), old(self).base, crate::base::TYPE_ALIST as nat).0 == 0
                ==> r == Ok::<Option<Obj>, Cond>(None) && *final(self) == *old(self),
        decreases fuel, 8u64,
    {
        let alist = crate::base::get(&self.objects, self.base, crate::base::TYPE_ALIST);
        if alist.0 == 0 {
            return Ok(None);
        }
        let types = self.types_of(alist);
        let text = self.objects.buf_text(b);
        let at = self.objects.buf_cursor(b);
        let env = self.root_env();
        let cbuf = self.objects.buf(text, at);
        let (ty, claim) = match self.analyse(&types, cbuf, env, fuel) {
            Ok(Some(w)) => w,
            Ok(None) => {
                return Ok(None);
            },
            Err(c) => {
                return Err(c);
            },
        };
        let n = span_of(claim);
        if n == 0 {
            return Ok(None);
        }
        let reader = self.objects.type_handler(ty, Family::Read);
        let env = self.root_env();
        let rs = self.handler_list(reader);
        let mut i: usize = 0;
        while i < rs.len()
            invariant
                self.wf(),
                i <= rs@.len(),
                crate::base::spec_route(old(self).objects.mem(), old(self).base, crate::base::TYPE_ALIST as nat).0 != 0,
            decreases rs@.len() - i,
        {
            let rd = rs[i];
            i = i + 1;
            if rd.0 != 0 {
                self.objects.set_buf_retain(b, at);
                self.objects.set_buf_cursor(b, add_wrapping(at, n));
                let mut vals: Vec<Obj> = Vec::new();
                vals.push(b);
                let got = match self.call_with_values(rd, vals, env, fuel) {
                    Ok(v) => v,
                    Err(c) => {
                        return Err(c);
                    },
                };
                if got.0 != 0 {
                    return Ok(Some(got));
                }
                self.objects.set_buf_cursor(b, at);
            }
        }
        self.objects.set_buf_cursor(b, at);
        Ok(None)
    }

    /// The next raw byte of the current input.
    pub fn read_byte(&mut self) -> (r: Option<u8>)
        requires
            old(self).wf(),
        ensures
            final(self).wf(),
            ({
                let s = old(self).objects.mem();
                let row = crate::base::spec_route(s, old(self).objects.base, crate::base::BUFFER as nat);
                let b = if row.0 == 0 { Obj(0) } else { Obj(crate::objects::spec_data(s, row, 0)) };
                &&& b.0 == 0 ==> r is None && *final(self) == *old(self)
                &&& b.0 != 0 && crate::read::still(&old(self).objects, b) ==> r == crate::read::spec_ahead(s, b, 0)
                &&& b.0 != 0 && crate::read::still(&old(self).objects, b) && r is None ==> final(self).objects
                    == old(self).objects
                &&& b.0 != 0 && crate::read::still(&old(self).objects, b) && r is Some ==> final(self).objects.mem()
                    == crate::value::tok::with_data(
                    s,
                    crate::value::tok::spec_marks(s, b),
                    0,
                    crate::obj::wrap_add(crate::value::tok::spec_cursor(s, b), 1),
                )
            }),
    {
        let b = self.current_buffer();
        if b.0 == 0 {
            return None;
        }
        self.objects.buf_next_byte(b)
    }

    /// `(tok read buffer)`: the next form of `buf`, nil at its end.
    pub fn read_form_at(&mut self, buf: Obj, fuel: u64) -> (r: Result<Obj, Cond>)
        requires
            old(self).wf(),
        ensures
            final(self).wf(),
            crate::read::still(&old(self).objects, buf) && crate::read::cursor_apart(old(self).objects.mem(), buf) && ({
                let p = crate::read::spec_pending(old(self).objects.mem(), buf);
                crate::read::spec_skip(p) == p.len()
            }) ==> r == Ok::<Obj, Cond>(Obj(0)),
        decreases fuel, 11u64,
    {
        match self.read_form_in(buf, fuel) {
            Ok(Some(v)) => Ok(v),
            Ok(None) => Ok(nil()),
            Err(c) => Err(c),
        }
    }
}

} // verus!
