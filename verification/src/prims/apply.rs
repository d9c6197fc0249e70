//! The evaluator's own instructions: evaluation, application, and the
//! handlers the builtin types carry.

use crate::diag::Cond;
use crate::engine::Engine;
use crate::eval::{ControlRec, EvalResult};
use crate::heap::MAX_WORDS;
use crate::obj::{nil, word_signed, EnvId, Obj};
use crate::objects::spec_data;
use crate::value::pair::{room_for_pairs, spec_walk};
use vstd::prelude::*;

verus! {

/// `(l start len)`: the elements from `start`, at most `len` of them; none
/// when `start` is negative or past the end, or `len` is not positive.
pub open spec fn spec_slice(items: Seq<Obj>, start: int, len: int) -> Seq<Obj> {
    if 0 <= start < items.len() && len > 0 {
        let n = if len < items.len() - start { len } else { items.len() - start };
        items.subrange(start, start + n)
    } else {
        Seq::empty()
    }
}

/// `(l i)`: element `i`, counting from the end when negative; nil past
/// either end.
pub open spec fn spec_index_from(items: Seq<Obj>, i: int) -> Obj {
    let n = if i < 0 { i + items.len() } else { i };
    if 0 <= n < items.len() {
        items[n]
    } else {
        Obj(0)
    }
}

/// The elements of a slice, as `spec_slice` says.
pub fn slice_of(items: &Vec<Obj>, start: i64, len: i64) -> (r: Vec<Obj>)
    ensures
        r@ == spec_slice(items@, start as int, len as int),
{
    let mut out: Vec<Obj> = Vec::new();
    if start >= 0 && len > 0 && (start as u64) < items.len() as u64 {
        let s = start as usize;
        let avail = items.len() - s;
        let n: usize = if (len as u64) < avail as u64 {
            len as usize
        } else {
            avail
        };
        assert(n <= avail);
        let end: usize = s + n;
        let mut k: usize = s;
        while k < end
            invariant
                s <= k <= end,
                end == s + n,
                end <= items@.len(),
                out@ == items@.subrange(s as int, k as int),
            decreases end - k,
        {
            out.push(items[k]);
            k = k + 1;
            proof {
                assert(out@ =~= items@.subrange(s as int, k as int));
            }
        }
    }
    out
}

/// The element `spec_index_from` names.
pub fn list_index(items: &Vec<Obj>, i: i64) -> (r: Obj)
    requires
        items@.len() <= MAX_WORDS,
    ensures
        r == spec_index_from(items@, i as int),
{
    let mut n = i;
    if n < 0 {
        n = n + items.len() as i64;
    }
    if n < 0 || (n as u64) >= items.len() as u64 {
        return nil();
    }
    items[n as usize]
}

/// What a symbol evaluates to by lookup: its binding, or a raise naming it.
pub open spec fn spec_sym_answer(s: Seq<u64>, env: EnvId, form: Obj) -> EvalResult {
    match crate::env::spec_lookup(s, env.0, form, s.len()) {
        Some(v) => Ok(Obj(v)),
        None => Err(Cond::Unbound(form)),
    }
}

/// A name bound to a value in a frame evaluates there, by lookup, to that
/// value: what `def` binds, reading the name gives back.
pub proof fn law_a_bound_name_evaluates_to_its_value(s: Seq<u64>, env: EnvId, name: Obj, v: Obj)
    requires
        crate::env::spec_lookup(s, env.0, name, s.len()) == Some(v.0),
    ensures
        spec_sym_answer(s, env, name) == Ok::<Obj, Cond>(v),
{
}

impl Engine {
    /// The SYMBOL type's EVAL handler: the binding, or an unbound raise.
    pub fn sym_eval(&self, form: Obj, env: EnvId) -> (r: EvalResult)
        requires
            self.wf(),
        ensures
            r matches Ok(v) ==> crate::env::spec_lookup(self.objects.mem(), env.0, form, self.objects.mem().len()) == Some(v.0),
            r is Err ==> crate::env::spec_lookup(self.objects.mem(), env.0, form, self.objects.mem().len()) is None,
            r matches Err(c) ==> c == Cond::Unbound(form),
            r == spec_sym_answer(self.objects.mem(), env, form),
    {
        match self.envs.lookup(&self.objects, env, form) {
            Some(v) => Ok(v),
            None => Err(Cond::Unbound(form)),
        }
    }

    /// The LIST type's EVAL handler: evaluate the head, then apply it through
    /// its type's CALL handler; a head with none makes the form data.
    pub fn list_eval(&mut self, form: Obj, env: EnvId, fuel: u64) -> (r: EvalResult)
        requires
            old(self).wf(),
        ensures
            final(self).wf(),
            crate::eval::data_list(old(self), env, form) && fuel > 1 ==> r == Ok::<Obj, Cond>(form) && *final(self)
                == *old(self),
        decreases fuel, 9u64,
    {
        let head = self.objects.first(form);
        let args = self.objects.rest(form);
        proof {
            if crate::eval::data_list(old(self), env, form) && fuel > 1 {
                let s = old(self).objects.mem();
                if crate::eval::plain_form(s, head) && old(self).alloc_limit is None {
                } else {
                    assert(crate::eval::evaluates_by_lookup(old(self), head));
                }
            }
        }
        let callee = match self.ev(head, env, fuel) {
            Ok(v) => v,
            Err(c) => {
                return Err(c);
            },
        };
        match self.combine(callee, args, env, fuel) {
            Some(r) => r,
            None => Ok(form),
        }
    }

    /// The CALL handler every callable kind carries: run the callee by its
    /// kind.
    pub fn callable_call(&mut self, callee: Obj, args: Obj, env: EnvId, fuel: u64) -> (r: EvalResult)
        requires
            old(self).wf(),
        ensures
            final(self).wf(),
        decreases fuel, 9u64,
    {
        if self.objects.is_prim(callee) {
            let idx = self.objects.prim_idx(callee);
            if idx >= self.prims.len() as u64 {
                return Ok(callee);
            }
            let def = self.prims[idx as usize];
            if def.f == crate::prim::PrimId::CallableCall {
                return Ok(callee);
            }
            return self.dispatch(def.f, callee, args, env, fuel);
        }
        if self.objects.is_closure(callee) {
            return self.apply_closure(callee, args, env, fuel);
        }
        if self.objects.is_op(callee) {
            return self.apply_op(callee, args, env, fuel);
        }
        if self.objects.is_wrapper(callee) {
            return self.apply_wrapper(callee, args, env, fuel);
        }
        if self.objects.is_cont(callee) {
            let vals = match self.eargs(args, env, 1, fuel) {
                Ok(v) => v,
                Err(c) => {
                    return Err(c);
                },
            };
            return self.invoke_cont(callee, vals[0]);
        }
        Ok(callee)
    }

    /// The LIST type's CALL handler: `(l i)` is element `i`, counting from
    /// the end when negative; `(l start len)` is a fresh slice. No operand
    /// answers nil.
    pub fn list_call(&mut self, callee: Obj, args: Obj, env: EnvId, fuel: u64) -> (r: EvalResult)
        requires
            old(self).wf(),
        ensures
            final(self).wf(),
            args.0 == 0 ==> r == Ok::<Obj, Cond>(Obj(0)) && *final(self) == *old(self),
            ({
                let s = old(self).objects.mem();
                let forms = spec_walk(s, args, s.len(), true);
                let items = spec_walk(s, callee, s.len(), false);
                let start = word_signed(spec_data(s, crate::eval::padded(forms, 0), 0)) as int;
                let count = word_signed(spec_data(s, crate::eval::padded(forms, 1), 0)) as int;
                args.0 != 0 && crate::eval::plain_operands(s, args) && fuel > 1 && old(self).alloc_limit is None ==> {
                    &&& spec_data(s, args, 1) == 0 ==> r == Ok::<Obj, Cond>(spec_index_from(items, start))
                    &&& spec_data(s, args, 1) != 0 && room_for_pairs(s.len(), items.len()) ==> (r matches Ok(l)
                        && spec_walk(final(self).objects.mem(), l, final(self).objects.mem().len(), false)
                        == spec_slice(items, start, count))
                }
            }),
        decreases fuel, 9u64,
    {
        if args.0 == 0 {
            return Ok(nil());
        }
        let two = self.objects.rest(args).0 != 0;
        let vals = match self.eargs(args, env, 2, fuel) {
            Ok(v) => v,
            Err(c) => {
                return Err(c);
            },
        };
        Ok(self.list_call_values(callee, two, &vals))
    }

    /// The list call once its operands are values: with `two`, the slice
    /// `(l start len)`, else element `(l i)`.
    pub fn list_call_values(&mut self, callee: Obj, two: bool, vals: &Vec<Obj>) -> (r: Obj)
        requires
            old(self).wf(),
            vals@.len() >= 2,
        ensures
            final(self).wf(),
            final(self).objects.only_grew(old(self).objects),
            ({
                let s = old(self).objects.mem();
                let items = spec_walk(s, callee, s.len(), false);
                let start = word_signed(spec_data(s, vals@[0], 0)) as int;
                &&& two && room_for_pairs(s.len(), items.len()) ==> spec_walk(
                    final(self).objects.mem(),
                    r,
                    final(self).objects.mem().len(),
                    false,
                ) == spec_slice(items, start, word_signed(spec_data(s, vals@[1], 0)) as int)
                &&& !two ==> r == spec_index_from(items, start)
                    && final(self).objects.mem() == s
            }),
    {
        let items = self.objects.list(callee);
        let start = self.objects.as_int(vals[0]);
        if two {
            let len = self.objects.as_int(vals[1]);
            let part = slice_of(&items, start, len);
            proof {
                crate::value::pair::lemma_walk_len(self.objects.mem(), callee, self.objects.mem().len() as nat, false);
            }
            return self.objects.list_from(&part);
        }
        proof {
            crate::value::pair::lemma_walk_len(self.objects.mem(), callee, self.objects.mem().len() as nat, false);
            crate::objects::lemma_grew_refl(self.objects.mem());
        }
        list_index(&items, start)
    }

    /// `(eval form)` evaluates the form's value in tail position; `(eval form
    /// env)` evaluates it in that environment.
    pub fn prim_eval_in(&mut self, args: Obj, env: EnvId, fuel: u64) -> (r: EvalResult)
        requires
            old(self).wf(),
        ensures
            final(self).wf(),
            ({
                let s = old(self).objects.mem();
                let form = old(self).spec_nth(args, 0);
                crate::eval::plain_form(s, form) && spec_data(s, args, 1) == 0 && fuel > 0
                    && old(self).alloc_limit is None ==> r == Ok::<Obj, Cond>(Obj(0)) && final(self).objects.mem()
                    == crate::value::tok::with_data(
                    crate::value::tok::with_data(s, old(self).objects.tco_expr_node, 0, form.0),
                    old(self).objects.tco_env_node,
                    0,
                    env.0.0,
                )
            }),
        decreases fuel, 9u64,
    {
        let expr_form = self.nth(args, 0);
        let expr = match self.ev(expr_form, env, fuel) {
            Ok(v) => v,
            Err(c) => {
                return Err(c);
            },
        };
        let env_cell = self.objects.rest(args);
        if env_cell.0 == 0 {
            return Ok(self.park_tail(expr, env));
        }
        let target_form = self.objects.first(env_cell);
        let target_obj = match self.ev(target_form, env, fuel) {
            Ok(v) => v,
            Err(c) => {
                return Err(c);
            },
        };
        let target = if self.objects.is_env(target_obj) {
            self.objects.env_id(target_obj)
        } else {
            env
        };
        self.save_push_env(target);
        let depth = self.active_evals;
        self.rec_push(ControlRec::Pass { depth });
        let out = self.ev(expr, target, fuel);
        self.rec_pop();
        self.save_pop_env();
        out
    }

    /// `(eval! form)`: evaluate the form's value right here.
    pub fn prim_eval_here(&mut self, args: Obj, env: EnvId, fuel: u64) -> (r: EvalResult)
        requires
            old(self).wf(),
        ensures
            final(self).wf(),
            crate::eval::plain_form(old(self).objects.mem(), old(self).spec_nth(args, 0)) && fuel > 0
                && old(self).alloc_limit is None ==> r == Ok::<Obj, Cond>(old(self).spec_nth(args, 0)) && *final(self)
                == *old(self),
        decreases fuel, 9u64,
    {
        let form = self.nth(args, 0);
        let expr = match self.ev(form, env, fuel) {
            Ok(v) => v,
            Err(c) => {
                return Err(c);
            },
        };
        let depth = self.active_evals;
        self.rec_push(ControlRec::Pass { depth });
        let out = self.ev(expr, env, fuel);
        self.rec_pop();
        out
    }

    /// `(apply f a ... list)`: `f` applied to the values, the last spread.
    pub fn prim_apply(&mut self, args: Obj, env: EnvId, fuel: u64) -> (r: EvalResult)
        requires
            old(self).wf(),
        ensures
            final(self).wf(),
        decreases fuel, 9u64,
    {
        let f_form = self.nth(args, 0);
        let f = match self.ev(f_form, env, fuel) {
            Ok(v) => v,
            Err(c) => {
                return Err(c);
            },
        };
        let rest = self.objects.rest(args);
        let evaled = match self.eval_args(rest, env, fuel) {
            Ok(v) => v,
            Err(c) => {
                return Err(c);
            },
        };
        let mut vals: Vec<Obj> = Vec::new();
        if evaled.len() > 0 {
            let mut i: usize = 0;
            let n: usize = evaled.len() - 1;
            while i < n
                invariant
                    i <= n,
                    n + 1 == evaled@.len(),
                decreases n - i,
            {
                vals.push(evaled[i]);
                i = i + 1;
            }
            let tail = self.objects.list(evaled[evaled.len() - 1]);
            let mut k: usize = 0;
            while k < tail.len()
                invariant
                    k <= tail@.len(),
                decreases tail@.len() - k,
            {
                vals.push(tail[k]);
                k = k + 1;
            }
        }
        self.call_with_values_tail(f, vals, env, fuel)
    }

    /// `(tail-eval form env)`: park `form` to run in `env`.
    pub fn prim_tail_eval(&mut self, form: Obj, target: Obj) -> (r: EvalResult)
        requires
            old(self).wf(),
        ensures
            final(self).wf(),
    {
        if !self.objects.is_env(target) {
            return Err(Cond::NotAnEnvironment(target));
        }
        let t = self.objects.env_id(target);
        Ok(self.park_tail(form, t))
    }
}

} // verus!
