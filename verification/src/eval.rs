//! The evaluator.
//!
//! Nil answers nil, a value whose type has no EVAL handler answers itself, and
//! everything else is one line: call the value's type's EVAL handler. Symbol
//! lookup is the SYMBOL type's handler, application the LIST type's, which
//! evaluates the head and dispatches through the operator's type's CALL
//! handler.
//!
//! A tail position PARKS its form on the base's tco cells instead of
//! evaluating it; the evaluation loop takes the parked form and goes round
//! again, so a tail call grows nothing.
//!
//! Nesting is bounded by `fuel`: each nested evaluation spends one, and a
//! program that nests deeper than the engine allows raises `TooDeep`.

use crate::diag::Cond;
use crate::engine::Engine;
use crate::obj::{nil, EnvId, Obj, Word};
use crate::objects::{spec_data, spec_is, spec_type_word, Objects, PAIR_BITS, SPAIR_BITS, SYM_BITS};
use crate::vocabulary::Family;
use vstd::prelude::*;
use vstd::string::StringSliceAdditionalSpecFns;

verus! {

/// An evaluation's outcome: a value, or the condition that stopped it.
pub type EvalResult = Result<Obj, Cond>;

/// How deep evaluation may nest.
pub const DEPTH: u64 = 2400;

/// What remained to be done at a point evaluation may be resumed from.
#[derive(Clone)]
pub enum ControlRec {
    /// The rest of a body, after the form in progress.
    Body { rest: Obj, env: EnvId, depth: u32 },
    /// An application's operands: those done, the forms still to evaluate.
    Args { callee: Obj, done: Vec<Obj>, rest: Obj, env: EnvId, n: usize, depth: u32 },
    /// A binding waiting for its value: `set!` when `set`, else `def`.
    Bind { name: Obj, env: EnvId, set: bool, depth: u32 },
    /// Nothing: the value passes through.
    Pass { depth: u32 },
}

/// One record of the evaluation in flight, on the records outside it.
pub struct RecNode {
    pub rec: ControlRec,
    pub next: Option<Box<RecNode>>,
}

impl ControlRec {
    /// How deep the evaluation that recorded it was.
    pub fn depth(&self) -> (r: u32)
        ensures
            r == match *self {
                ControlRec::Body { depth, .. } => depth,
                ControlRec::Args { depth, .. } => depth,
                ControlRec::Bind { depth, .. } => depth,
                ControlRec::Pass { depth } => depth,
            },
    {
        match self {
            ControlRec::Body { depth, .. } => *depth,
            ControlRec::Args { depth, .. } => *depth,
            ControlRec::Bind { depth, .. } => *depth,
            ControlRec::Pass { depth } => *depth,
        }
    }
}

/// The cell `n` rests down from `l`; nil once a rest is not a cell.
pub open spec fn spec_drop(s: Seq<u64>, l: Obj, n: nat) -> Obj
    decreases n,
{
    if n == 0 {
        l
    } else if !(spec_is(s, l, PAIR_BITS) || spec_is(s, l, SPAIR_BITS)) {
        Obj(0)
    } else {
        spec_drop(s, Obj(spec_data(s, l, 1)), (n - 1) as nat)
    }
}

/// A form that means itself: no type of its own, and neither a symbol nor a
/// list.
pub open spec fn self_evaluating(s: Seq<u64>, form: Obj) -> bool {
    &&& form.0 != 0
    &&& spec_type_word(s, form) == 0
    &&& !spec_is(s, form, SYM_BITS)
    &&& !spec_is(s, form, PAIR_BITS)
}

/// `prim` is the primitive that evaluates a symbol by lookup.
pub open spec fn runs_lookup(e: &Engine, prim: Obj) -> bool {
    let idx = spec_data(e.objects.mem(), prim, 0);
    idx < e.prims@.len() && e.prims@[idx as int].f is SymEval
}

/// A symbol whose evaluation is lookup: it carries no type of its own, the
/// current base files a symbol type whose EVAL handler is the lookup
/// primitive, and no tail is parked.
pub open spec fn evaluates_by_lookup(e: &Engine, form: Obj) -> bool {
    let s = e.objects.mem();
    let hook = crate::value::typed::spec_type_handler(s, e.objects.spec_sym_type()->0, Family::Eval);
    &&& spec_is(s, form, SYM_BITS)
    &&& !e.objects.carries_type(form)
    &&& e.objects.base.0 != 0
    &&& e.objects.spec_sym_type() is Some
    &&& spec_is(s, hook, crate::objects::PRIM_BITS)
    &&& runs_lookup(e, hook)
    &&& spec_data(s, e.objects.tco_expr_node, 0) == 0
    &&& e.alloc_limit is None
}

/// `prim` is the primitive that evaluates a list by applying its head.
pub open spec fn runs_list_eval(e: &Engine, prim: Obj) -> bool {
    let idx = spec_data(e.objects.mem(), prim, 0);
    idx < e.prims@.len() && e.prims@[idx as int].f is ListEval
}

/// A list whose head is simple and evaluates in `env` to data: the list
/// means itself.
pub open spec fn data_list(e: &Engine, env: EnvId, form: Obj) -> bool {
    let s = e.objects.mem();
    &&& spec_is(s, form, PAIR_BITS)
    &&& (simple_value(e, env, Obj(spec_data(s, form, 0))) matches Some(c) && data_head(e, c))
}

/// A list that evaluates as data: it carries no type of its own, the
/// current base files a list type whose EVAL handler is the list
/// evaluator, no tail is parked, and its head evaluates to data.
pub open spec fn evaluates_as_data(e: &Engine, env: EnvId, form: Obj) -> bool {
    let s = e.objects.mem();
    let hook = crate::value::typed::spec_type_handler(s, e.objects.spec_list_type()->0, Family::Eval);
    &&& !e.objects.carries_type(form)
    &&& e.objects.base.0 != 0
    &&& e.objects.spec_list_type() is Some
    &&& spec_is(s, hook, crate::objects::PRIM_BITS)
    &&& runs_list_eval(e, hook)
    &&& spec_data(s, e.objects.tco_expr_node, 0) == 0
    &&& e.alloc_limit is None
    &&& data_list(e, env, form)
}

/// A head that makes a form data: nil, or a value whose own type has no
/// CALL handler.
pub open spec fn data_head(e: &Engine, callee: Obj) -> bool {
    let s = e.objects.mem();
    ||| callee.0 == 0
    ||| (e.objects.carries_type(callee) && !spec_is(s, callee, crate::objects::FOREIGN_BITS)
        && crate::value::typed::spec_type_handler(s, Obj(spec_type_word(s, callee)), Family::Call).0 == 0)
}

/// What a simple form evaluates to in `env`, touching nothing: a plain form
/// itself, a symbol that evaluates by lookup its binding; None for any other
/// form and for an unbound symbol.
pub open spec fn simple_value(e: &Engine, env: EnvId, f: Obj) -> Option<Obj> {
    let s = e.objects.mem();
    if plain_form(s, f) && e.alloc_limit is None {
        Some(f)
    } else if evaluates_by_lookup(e, f) {
        match crate::env::spec_lookup(s, env.0, f, s.len()) {
            Some(v) => Some(Obj(v)),
            None => None,
        }
    } else {
        None
    }
}

/// Operand forms that are a proper list of simple forms.
pub open spec fn simple_operands(e: &Engine, env: EnvId, args: Obj) -> bool {
    let s = e.objects.mem();
    let forms = crate::value::pair::spec_walk(s, args, s.len(), true);
    &&& spec_list_end(s, args, s.len()).0 == 0
    &&& forall|i: int| 0 <= i < forms.len() ==> (#[trigger] simple_value(e, env, forms[i])) is Some
}

/// Forms that all evaluate to themselves without touching anything.
pub open spec fn all_plain(s: Seq<u64>, forms: Seq<Obj>) -> bool {
    forall|i: int| 0 <= i < forms.len() ==> plain_form(s, #[trigger] forms[i])
}

/// A form that evaluates to itself without touching anything: nil, or a
/// form that means itself.
pub open spec fn plain_form(s: Seq<u64>, form: Obj) -> bool {
    form.0 == 0 || self_evaluating(s, form)
}

/// Where a list ends: the first rest that is not a cell, walking at most
/// `fuel` cells; nil when the walk runs out first.
pub open spec fn spec_list_end(s: Seq<u64>, at: Obj, fuel: nat) -> Obj
    decreases fuel,
{
    if fuel == 0 {
        Obj(0)
    } else if !(spec_is(s, at, PAIR_BITS) || spec_is(s, at, SPAIR_BITS)) {
        at
    } else {
        spec_list_end(s, Obj(spec_data(s, at, 1)), (fuel - 1) as nat)
    }
}

/// Operand forms that are a proper list of plain forms.
pub open spec fn plain_operands(s: Seq<u64>, args: Obj) -> bool {
    let forms = crate::value::pair::spec_walk(s, args, s.len(), true);
    &&& spec_list_end(s, args, s.len()).0 == 0
    &&& forall|i: int| 0 <= i < forms.len() ==> plain_form(s, #[trigger] forms[i])
}

/// Operand `i` of a list padded with nil.
pub open spec fn padded(forms: Seq<Obj>, i: int) -> Obj {
    if 0 <= i < forms.len() {
        forms[i]
    } else {
        Obj(0)
    }
}

/// `after` is `before`'s heap with a fresh spine cell holding `v` pushed on
/// the stack whose head `node` holds: the cell made in `mid`, then filed.
pub open spec fn pushed_on(before: Objects, after: Seq<u64>, node: Obj, v: Obj, mid: Seq<u64>, cell: Obj) -> bool {
    &&& crate::objects::grew(before.mem(), mid)
    &&& (cell.0 != 0 ==> crate::objects::made(
        before.mem(),
        mid,
        cell,
        SPAIR_BITS,
        before.spair_marker.0,
        seq![v.0, spec_data(before.mem(), node, 0)],
    ))
    &&& (cell.0 == 0 ==> mid == before.mem())
    &&& after == crate::value::tok::with_data(mid, node, 0, cell.0)
}

impl Engine {
    /// Evaluate `form` in `env`.
    pub fn eval(&mut self, form: Obj, env: EnvId) -> (r: EvalResult)
        requires
            old(self).wf(),
        ensures
            final(self).wf(),
            form.0 == 0 ==> r == Ok::<Obj, Cond>(Obj(0)) && *final(self) == *old(self),
            self_evaluating(old(self).objects.mem(), form) && old(self).alloc_limit is None ==> r
                == Ok::<Obj, Cond>(form) && *final(self) == *old(self),
            evaluates_by_lookup(old(self), form) ==> r == crate::prims::apply::spec_sym_answer(
                old(self).objects.mem(),
                env,
                form,
            ),
            evaluates_as_data(old(self), env, form) ==> r == Ok::<Obj, Cond>(form) && *final(self) == *old(self),
    {
        self.ev(form, env, DEPTH)
    }

    /// Put `rec` on the records in flight.
    pub fn rec_push(&mut self, rec: ControlRec)
        ensures
            *final(self) == (Engine { control: Some(Box::new(RecNode { rec, next: old(self).control })), ..*old(self) }),
    {
        let prev = self.control.take();
        self.control = Some(Box::new(RecNode { rec, next: prev }));
    }

    /// Take the innermost record off the records in flight.
    pub fn rec_pop(&mut self)
        ensures
            *final(self) == (Engine {
                control: match old(self).control {
                    Some(n) => n.next,
                    None => None,
                },
                ..*old(self)
            }),
    {
        let top = self.control.take();
        self.control = match top {
            Some(n) => {
                let RecNode { rec: _, next } = *n;
                next
            },
            None => None,
        };
    }

    /// Evaluate `form` in `env` with `fuel` levels of nesting left, counted
    /// as one more nested evaluation while it runs.
    pub fn ev(&mut self, form: Obj, env: EnvId, fuel: u64) -> (r: EvalResult)
        requires
            old(self).wf(),
        ensures
            final(self).wf(),
            form.0 == 0 && fuel > 0 ==> r == Ok::<Obj, Cond>(Obj(0)) && *final(self) == *old(self),
            self_evaluating(old(self).objects.mem(), form) && fuel > 0 && old(self).alloc_limit is None
                ==> r == Ok::<Obj, Cond>(form) && *final(self) == *old(self),
            evaluates_by_lookup(old(self), form) && fuel > 1 ==> r == crate::prims::apply::spec_sym_answer(
                old(self).objects.mem(),
                env,
                form,
            ),
            evaluates_by_lookup(old(self), form) && fuel > 1 ==> *final(self) == *old(self),
            evaluates_as_data(old(self), env, form) && fuel > 3 ==> r == Ok::<Obj, Cond>(form) && *final(self)
                == *old(self),
        decreases fuel, 1u64,
    {
        let depth = self.active_evals;
        if depth < u32::MAX {
            self.active_evals = depth + 1;
        }
        let r = self.ev_nested(form, env, fuel);
        self.active_evals = depth;
        r
    }

    /// The evaluation loop itself.
    fn ev_nested(&mut self, form: Obj, env: EnvId, fuel: u64) -> (r: EvalResult)
        requires
            old(self).wf(),
        ensures
            final(self).wf(),
            form.0 == 0 && fuel > 0 ==> r == Ok::<Obj, Cond>(Obj(0)) && *final(self) == *old(self),
            self_evaluating(old(self).objects.mem(), form) && fuel > 0 && old(self).alloc_limit is None
                ==> r == Ok::<Obj, Cond>(form) && *final(self) == *old(self),
            evaluates_by_lookup(old(self), form) && fuel > 1 ==> r == crate::prims::apply::spec_sym_answer(
                old(self).objects.mem(),
                env,
                form,
            ),
            evaluates_by_lookup(old(self), form) && fuel > 1 ==> *final(self) == *old(self),
            evaluates_as_data(old(self), env, form) && fuel > 3 ==> r == Ok::<Obj, Cond>(form) && *final(self)
                == *old(self),
        decreases fuel, 0u64,
    {
        if fuel == 0 {
            return Err(Cond::TooDeep);
        }
        if form.0 == 0 {
            return Ok(nil());
        }
        let ghost itself = self_evaluating(self.objects.mem(), form) && self.alloc_limit is None;
        let ghost sym = evaluates_by_lookup(old(self), form) && fuel > 1;
        let ghost data = evaluates_as_data(old(self), env, form) && fuel > 3;
        let mut cur = form;
        let mut at_env = env;
        let mut budget: u64 = u64::MAX;
        while budget > 0
            invariant
                self.wf(),
                fuel > 0,
                form.0 != 0,
                itself ==> cur == form && *self == *old(self) && budget == u64::MAX,
                itself == (self_evaluating(old(self).objects.mem(), form) && old(self).alloc_limit is None),
                sym ==> cur == form && at_env == env && *self == *old(self) && budget == u64::MAX,
                sym == (evaluates_by_lookup(old(self), form) && fuel > 1),
                data ==> cur == form && at_env == env && *self == *old(self) && budget == u64::MAX,
                data == (evaluates_as_data(old(self), env, form) && fuel > 3),
            decreases budget,
        {
            budget = budget - 1;
            match self.alloc_limit {
                Some(limit) => {
                    if self.objects.alloc_count() > limit {
                        return Err(Cond::AllocLimit);
                    }
                },
                None => {},
            }
            if cur.0 == 0 {
                return Ok(nil());
            }
            let ty = self.eval_type(cur);
            if ty.0 == 0 {
                return Ok(cur);
            }
            let hook = self.objects.type_handler(ty, Family::Eval);
            if hook.0 == 0 {
                return Ok(cur);
            }
            let r = if self.objects.is_prim(hook) {
                self.run_prim(hook, hook, cur, at_env, fuel - 1)
            } else if self.objects.is_closure(hook) {
                let env_obj = self.objects.env_obj(at_env);
                let mut vals: Vec<Obj> = Vec::new();
                vals.push(cur);
                vals.push(env_obj);
                self.apply_closure_values(hook, vals, fuel - 1)
            } else {
                let mut vals: Vec<Obj> = Vec::new();
                vals.push(cur);
                self.call_with_values(hook, vals, at_env, fuel - 1)
            };
            let answer = match r {
                Ok(v) => v,
                Err(c) => {
                    return Err(c);
                },
            };
            match self.tail_take() {
                Some((f, e)) => {
                    cur = f;
                    at_env = e;
                },
                None => {
                    return Ok(answer);
                },
            }
        }
        Err(Cond::TooDeep)
    }

    /// The type whose EVAL handler decides what a form means: the type it
    /// carries, or for a symbol or a list the current base's type for it;
    /// nil for a form that means itself.
    fn eval_type(&mut self, form: Obj) -> (r: Obj)
        requires
            old(self).wf(),
        ensures
            final(self).wf(),
            final(self).base_syms == old(self).base_syms,
            self_evaluating(old(self).objects.mem(), form) ==> r.0 == 0 && *final(self) == *old(self),
            old(self).objects.carries_type(form) ==> r.0 == crate::objects::spec_type_word(
                old(self).objects.mem(),
                form,
            ) && *final(self) == *old(self),
            !old(self).objects.carries_type(form) && !spec_is(old(self).objects.mem(), form, crate::objects::SYM_BITS)
                && !spec_is(old(self).objects.mem(), form, PAIR_BITS) ==> r.0 == 0 && *final(self) == *old(self),
            spec_is(old(self).objects.mem(), form, SYM_BITS) && !old(self).objects.carries_type(form)
                && old(self).objects.base.0 != 0 && old(self).objects.spec_sym_type() is Some ==> r
                == old(self).objects.spec_sym_type()->0 && *final(self) == *old(self),
            spec_is(old(self).objects.mem(), form, PAIR_BITS) && !old(self).objects.carries_type(form)
                && old(self).objects.base.0 != 0 && old(self).objects.spec_list_type() is Some ==> r
                == old(self).objects.spec_list_type()->0 && *final(self) == *old(self),
    {
        let carried = self.objects.type_of_word(form);
        if carried.0 != 0 && carried.0 != self.objects.spair_marker.0 && carried.0
            != self.objects.satom_marker.0 {
            return carried;
        }
        if self.objects.is_sym(form) || self.objects.is_pair(form) {
            self.objects.obj_type(form)
        } else {
            nil()
        }
    }

    /// Run the primitive `prim` as a handler: `callee` is what is being
    /// applied, `args` its operand forms (or the form being evaluated).
    pub fn run_prim(&mut self, prim: Obj, callee: Obj, args: Obj, env: EnvId, fuel: u64) -> (r: EvalResult)
        requires
            old(self).wf(),
        ensures
            final(self).wf(),
            runs_lookup(old(self), prim) && fuel > 0 ==> r == crate::prims::apply::spec_sym_answer(
                old(self).objects.mem(),
                env,
                args,
            ) && *final(self) == *old(self),
            runs_list_eval(old(self), prim) && data_list(old(self), env, args) && fuel > 2 ==> r == Ok::<
                Obj,
                Cond,
            >(args) && *final(self) == *old(self),
        decreases fuel, 2u64,
    {
        let idx = self.objects.prim_idx(prim);
        if idx >= self.prims.len() as u64 {
            return Ok(callee);
        }
        let def = self.prims[idx as usize];
        self.dispatch(def.f, callee, args, env, fuel)
    }

    /// Park a tail form and its environment on the base; answers nil.
    pub fn park_tail(&mut self, form: Obj, env: EnvId) -> (r: Obj)
        requires
            old(self).wf(),
        ensures
            final(self).wf(),
            r.0 == 0,
            final(self).base_syms == old(self).base_syms,
            final(self).objects.mem() == crate::value::tok::with_data(
                crate::value::tok::with_data(old(self).objects.mem(), old(self).objects.tco_expr_node, 0, form.0),
                old(self).objects.tco_env_node,
                0,
                env.0.0,
            ),
    {
        let node = self.objects.tco_expr_node;
        self.objects.set_data(node, 0, form.word());
        let env_node = self.objects.tco_env_node;
        self.objects.set_data(env_node, 0, env.obj().word());
        nil()
    }

    /// Take the parked tail, if one is parked, clearing it.
    pub fn tail_take(&mut self) -> (r: Option<(Obj, EnvId)>)
        requires
            old(self).wf(),
        ensures
            final(self).wf(),
            final(self).base_syms == old(self).base_syms,
            ({
                let s = old(self).objects.mem();
                let xn = old(self).objects.tco_expr_node;
                let en = old(self).objects.tco_env_node;
                let form = spec_data(s, xn, 0);
                &&& form == 0 ==> r is None && *final(self) == *old(self)
                &&& form != 0 ==> r == Some((Obj(form), EnvId(Obj(spec_data(s, en, 0))))) && final(self).objects.mem()
                    == crate::value::tok::with_data(crate::value::tok::with_data(s, xn, 0, 0), en, 0, 0)
            }),
    {
        let node = self.objects.tco_expr_node;
        let form = self.objects.first(node);
        if form.0 == 0 {
            return None;
        }
        let env_node = self.objects.tco_env_node;
        let env = self.objects.first(env_node);
        self.objects.set_data(node, 0, Word(0));
        self.objects.set_data(env_node, 0, Word(0));
        Some((form, EnvId::from_obj(env)))
    }

    /// Hide the pending-save stack, answering it.
    pub fn hide_pending(&mut self) -> (r: Obj)
        requires
            old(self).wf(),
        ensures
            final(self).wf(),
            final(self).base_syms == old(self).base_syms,
            r.0 == spec_data(old(self).objects.mem(), old(self).objects.save_node, 0),
            final(self).objects.mem() == crate::value::tok::with_data(old(self).objects.mem(), old(self).objects.save_node, 0, 0),
    {
        let node = self.objects.save_node;
        let held = self.objects.first(node);
        self.objects.set_data(node, 0, Word(0));
        held
    }

    /// Put back a pending-save stack.
    pub fn restore_pending(&mut self, outer: Obj)
        requires
            old(self).wf(),
        ensures
            final(self).wf(),
            final(self).base_syms == old(self).base_syms,
            final(self).objects.mem() == crate::value::tok::with_data(old(self).objects.mem(), old(self).objects.save_node, 0, outer.0),
    {
        let node = self.objects.save_node;
        self.objects.set_data(node, 0, outer.word());
    }

    pub fn save_push_env(&mut self, env: EnvId)
        requires
            old(self).wf(),
        ensures
            final(self).wf(),
            final(self).base_syms == old(self).base_syms,
            exists|mid: Seq<u64>, cell: Obj|
                #[trigger] pushed_on(old(self).objects, final(self).objects.mem(), old(self).objects.save_node, env.0, mid, cell),
    {
        let node = self.objects.save_node;
        let head = self.objects.first(node);
        let cell = self.objects.spair(env.obj(), head);
        let ghost mid = self.objects.mem();
        self.objects.set_data(node, 0, cell.word());
        proof {
            assert(pushed_on(old(self).objects, self.objects.mem(), node, env.0, mid, cell));
        }
    }

    pub fn save_pop_env(&mut self)
        requires
            old(self).wf(),
        ensures
            final(self).wf(),
            final(self).base_syms == old(self).base_syms,
            final(self).objects.mem() == crate::value::tok::with_data(
                old(self).objects.mem(),
                old(self).objects.save_node,
                0,
                spec_data(old(self).objects.mem(), Obj(spec_data(old(self).objects.mem(), old(self).objects.save_node, 0)), 1),
            ),
    {
        let node = self.objects.save_node;
        let head = self.objects.first(node);
        let tail = self.objects.rest(head);
        self.objects.set_data(node, 0, tail.word());
    }

    /// No applicative is in progress: a `def` here binds globally.
    pub fn nothing_pending(&self) -> (r: bool)
        ensures
            r == (crate::objects::spec_data(self.objects.mem(), self.objects.save_node, 0) == 0),
    {
        self.objects.first(self.objects.save_node).0 == 0
    }

    pub fn handler_active(&self) -> (r: bool)
        ensures
            r == (spec_data(self.objects.mem(), self.objects.handler_node, 0) != 0),
    {
        self.objects.first(self.objects.handler_node).0 != 0
    }

    pub fn handler_push_env(&mut self, env: EnvId)
        requires
            old(self).wf(),
        ensures
            final(self).wf(),
            final(self).base_syms == old(self).base_syms,
            exists|mid: Seq<u64>, cell: Obj|
                #[trigger] pushed_on(old(self).objects, final(self).objects.mem(), old(self).objects.handler_node, env.0, mid, cell),
            final(self).alloc_limit == old(self).alloc_limit,
    {
        let node = self.objects.handler_node;
        let head = self.objects.first(node);
        let cell = self.objects.spair(env.obj(), head);
        let ghost mid = self.objects.mem();
        self.objects.set_data(node, 0, cell.word());
        proof {
            assert(pushed_on(old(self).objects, self.objects.mem(), node, env.0, mid, cell));
        }
    }

    pub fn handler_pop_env(&mut self)
        requires
            old(self).wf(),
        ensures
            final(self).wf(),
            final(self).base_syms == old(self).base_syms,
            final(self).objects.mem() == crate::value::tok::with_data(
                old(self).objects.mem(),
                old(self).objects.handler_node,
                0,
                spec_data(old(self).objects.mem(), Obj(spec_data(old(self).objects.mem(), old(self).objects.handler_node, 0)), 1),
            ),
    {
        let node = self.objects.handler_node;
        let head = self.objects.first(node);
        let tail = self.objects.rest(head);
        self.objects.set_data(node, 0, tail.word());
    }

    /// Apply `callee` to operand forms through its type's CALL handler; None
    /// when it has none, and the form is data.
    pub fn combine(&mut self, callee: Obj, args: Obj, env: EnvId, fuel: u64) -> (r: Option<EvalResult>)
        requires
            old(self).wf(),
        ensures
            final(self).wf(),
            data_head(old(self), callee) ==> r is None && *final(self) == *old(self),
            spec_is(old(self).objects.mem(), callee, crate::objects::FOREIGN_BITS) ==> r == Some(
                Ok::<Obj, Cond>(Obj(0)),
            ) && *final(self) == *old(self),
        decreases fuel, 3u64,
    {
        if self.objects.is_foreign(callee) {
            return Some(Ok(nil()));
        }
        let ty = self.objects.obj_type(callee);
        if ty.0 == 0 {
            return None;
        }
        let hook = self.objects.type_handler(ty, Family::Call);
        if hook.0 == 0 {
            return None;
        }
        if fuel == 0 {
            return Some(Err(Cond::TooDeep));
        }
        if self.objects.is_prim(hook) {
            return Some(self.run_prim(hook, callee, args, env, fuel - 1));
        }
        let spine = self.objects.pair(callee, args);
        Some(self.eval_call(hook, spine, env, fuel - 1))
    }

    /// Apply and settle: a parked tail is evaluated before answering.
    pub fn eval_call(&mut self, callee: Obj, args: Obj, env: EnvId, fuel: u64) -> (r: EvalResult)
        requires
            old(self).wf(),
        ensures
            final(self).wf(),
            data_head(old(self), callee) ==> r == Ok::<Obj, Cond>(callee) && *final(self) == *old(self),
        decreases fuel, 4u64,
    {
        match self.combine(callee, args, env, fuel) {
            Some(r) => self.settle(r, fuel),
            None => Ok(callee),
        }
    }

    /// A value, or the value of the tail it parked.
    fn settle(&mut self, r: EvalResult, fuel: u64) -> (out: EvalResult)
        requires
            old(self).wf(),
        ensures
            final(self).wf(),
        decreases fuel, 1u64,
    {
        let v = match r {
            Ok(v) => v,
            Err(c) => {
                return Err(c);
            },
        };
        match self.tail_take() {
            Some((f, e)) => {
                if fuel == 0 {
                    return Err(Cond::TooDeep);
                }
                self.ev(f, e, fuel - 1)
            },
            None => Ok(v),
        }
    }

    /// Apply `callee` to values, each quoted so that it arrives as itself.
    pub fn call_with_values(&mut self, callee: Obj, vals: Vec<Obj>, env: EnvId, fuel: u64) -> (r: EvalResult)
        requires
            old(self).wf(),
        ensures
            final(self).wf(),
        decreases fuel, 5u64,
    {
        let spine = self.quote_values(&vals);
        self.eval_call(callee, spine, env, fuel)
    }

    /// Apply `callee` to values, leaving a parked tail parked.
    pub fn call_with_values_tail(&mut self, callee: Obj, vals: Vec<Obj>, env: EnvId, fuel: u64) -> (r: EvalResult)
        requires
            old(self).wf(),
        ensures
            final(self).wf(),
        decreases fuel, 5u64,
    {
        let spine = self.quote_values(&vals);
        match self.combine(callee, spine, env, fuel) {
            Some(r) => r,
            None => Ok(callee),
        }
    }

    /// Evaluate operands, padded with nil to `n`.
    pub fn eargs(&mut self, args: Obj, env: EnvId, n: usize, fuel: u64) -> (r: Result<Vec<Obj>, Cond>)
        requires
            old(self).wf(),
        ensures
            final(self).wf(),
            r matches Ok(v) ==> v@.len() >= n,
            args.0 == 0 ==> (r matches Ok(v) && v@.len() == n && (forall|i: int| 0 <= i < n ==> (#[trigger] v@[i]).0 == 0)
                && *final(self) == *old(self)),
            ({
                let s = old(self).objects.mem();
                let forms = crate::value::pair::spec_walk(s, args, s.len(), true);
                plain_operands(s, args) && (fuel > 1 || forms.len() == 0) && old(self).alloc_limit is None ==> {
                    &&& r matches Ok(v) && v@.len() == if forms.len() < n { n as int } else { forms.len() as int }
                        && (forall|i: int| 0 <= i < v@.len() ==> #[trigger] v@[i] == padded(forms, i))
                    &&& *final(self) == *old(self)
                }
            }),
        decreases fuel, 7u64,
    {
        let vals0 = match self.eval_args(args, env, fuel) {
            Ok(v) => v,
            Err(c) => {
                return Err(c);
            },
        };
        let ghost s = old(self).objects.mem();
        let ghost forms = crate::value::pair::spec_walk(s, args, s.len(), true);
        let ghost plain = plain_operands(s, args) && (fuel > 1 || forms.len() == 0) && old(self).alloc_limit is None;
        let mut vals = vals0;
        while vals.len() < n
            invariant
                vals@.len() <= n || vals@.len() >= n,
                args.0 == 0 ==> vals@.len() <= n && forall|i: int| 0 <= i < vals@.len() ==> (#[trigger] vals@[i]).0 == 0,
                plain ==> vals@.len() >= forms.len() && (vals@.len() > forms.len() ==> vals@.len() <= n)
                    && forall|i: int| 0 <= i < vals@.len() ==> #[trigger] vals@[i] == padded(forms, i),
            decreases n - vals@.len(),
        {
            vals.push(nil());
        }
        Ok(vals)
    }

    /// A raise naming an operation that was handed nil.
    pub fn nil_operand(&mut self, name: &str) -> (r: Cond)
        requires
            old(self).wf(),
        ensures
            final(self).wf(),
            r is Raised,
            r matches Cond::Raised(v) && (v.0 != 0 ==> crate::value::text::stored_at(
                final(self).objects.mem(),
                spec_data(final(self).objects.mem(), v, 0),
                name.spec_bytes() + ": operand is nil".spec_bytes(),
            )),
    {
        let mut b: Vec<u8> = Vec::new();
        b.extend_from_slice(name.as_bytes());
        b.extend_from_slice(": operand is nil".as_bytes());
        let v = self.objects.str_from_bytes(b.as_slice());
        Cond::Raised(v)
    }

    /// Evaluate each operand form in order; an improper list raises.
    pub fn eval_args(&mut self, args: Obj, env: EnvId, fuel: u64) -> (r: Result<Vec<Obj>, Cond>)
        requires
            old(self).wf(),
        ensures
            final(self).wf(),
            r matches Ok(v) ==> v@.len() == crate::value::pair::spec_walk(
                old(self).objects.mem(),
                args,
                old(self).objects.mem().len(),
                true,
            ).len(),
            args.0 == 0 ==> (r matches Ok(v) && v@.len() == 0 && *final(self) == *old(self)),
            spec_list_end(old(self).objects.mem(), args, old(self).objects.mem().len()).0 != 0 ==> r matches Err(
                Cond::Raised(_),
            ),
            ({
                let s = old(self).objects.mem();
                let forms = crate::value::pair::spec_walk(s, args, s.len(), true);
                plain_operands(s, args) && (fuel > 1 || forms.len() == 0) && old(self).alloc_limit is None ==> (r
                    matches Ok(v) && v@ == forms && *final(self) == *old(self))
            }),
        decreases fuel, 6u64,
    {
        self.eval_args_for(nil(), args, env, 0, fuel)
    }

    /// As `eval_args`, leaving an application record while each operand
    /// evaluates when the callee is known, so that a continuation captured
    /// in an operand position can replay the application.
    pub fn eval_args_for(&mut self, callee: Obj, args: Obj, env: EnvId, n: usize, fuel: u64) -> (r: Result<
        Vec<Obj>,
        Cond,
    >)
        requires
            old(self).wf(),
        ensures
            final(self).wf(),
            r matches Ok(v) ==> v@.len() == crate::value::pair::spec_walk(
                old(self).objects.mem(),
                args,
                old(self).objects.mem().len(),
                true,
            ).len(),
            args.0 == 0 ==> (r matches Ok(v) && v@.len() == 0 && *final(self) == *old(self)),
            spec_list_end(old(self).objects.mem(), args, old(self).objects.mem().len()).0 != 0 ==> r matches Err(
                Cond::Raised(_),
            ),
            ({
                let s = old(self).objects.mem();
                let forms = crate::value::pair::spec_walk(s, args, s.len(), true);
                plain_operands(s, args) && (fuel > 1 || forms.len() == 0) && old(self).alloc_limit is None ==> (r
                    matches Ok(v) && v@ == forms && *final(self) == *old(self))
            }),
            ({
                let s = old(self).objects.mem();
                let forms = crate::value::pair::spec_walk(s, args, s.len(), true);
                simple_operands(old(self), env, args) && (fuel > 2 || forms.len() == 0) ==> (r matches Ok(v)
                    && v@.len() == forms.len() && (forall|i: int|
                    0 <= i < forms.len() ==> Some(#[trigger] v@[i]) == simple_value(old(self), env, forms[i]))
                    && *final(self) == *old(self))
            }),
        decreases fuel, 5u64,
    {
        let mut at = args;
        let mut guard: usize = self.objects.heap_words();
        let ghost s = old(self).objects.mem();
        while guard > 0 && self.objects.is_cell(at)
            invariant
                args.0 == 0 ==> at.0 == 0,
                *self == *old(self),
                s == self.objects.mem(),
                guard <= s.len(),
                spec_list_end(s, args, s.len()) == spec_list_end(s, at, guard as nat),
            decreases guard,
        {
            at = self.objects.rest(at);
            guard = guard - 1;
        }
        if at.0 != 0 && guard > 0 {
            let v = self.objects.str_new(crate::vocabulary::MSG_IMPROPER_ARGS);
            return Err(Cond::Raised(v));
        }
        let forms = self.objects.cells(args);
        let mut out: Vec<Obj> = Vec::new();
        let mut i: usize = 0;
        if fuel == 0 && forms.len() > 0 {
            return Err(Cond::TooDeep);
        }
        let ghost plain = plain_operands(s, args) && (fuel > 1 || forms@.len() == 0) && old(self).alloc_limit is None;
        let ghost simple = simple_operands(old(self), env, args) && (fuel > 2 || forms@.len() == 0);
        let mut node = args;
        while i < forms.len()
            invariant
                self.wf(),
                simple == (simple_operands(old(self), env, args) && (fuel > 2 || forms@.len() == 0)),
                simple ==> *self == *old(self) && forall|j: int|
                    0 <= j < i ==> Some(#[trigger] out@[j]) == simple_value(old(self), env, forms@[j]),
                i <= forms@.len(),
                forms@.len() > 0 ==> fuel > 0,
                forms@.len() == 0 ==> *self == *old(self),
                out@.len() == i,
                s == old(self).objects.mem(),
                forms@ == crate::value::pair::spec_walk(s, args, s.len(), true),
                plain == (plain_operands(s, args) && (fuel > 1 || forms@.len() == 0) && old(self).alloc_limit is None),
                plain ==> *self == *old(self) && out@ == forms@.subrange(0, i as int),
                spec_list_end(s, args, s.len()).0 == 0,
                forms@.len() == crate::value::pair::spec_walk(
                    old(self).objects.mem(),
                    args,
                    old(self).objects.mem().len(),
                    true,
                ).len(),
            decreases forms@.len() - i,
        {
            proof {
                if plain {
                    assert(plain_form(s, forms@[i as int]));
                }
                if simple {
                    assert(simple_value(old(self), env, forms@[i as int]) is Some);
                }
            }
            node = self.objects.rest(node);
            let ghost before = *self;
            let step = if callee.0 != 0 {
                let depth = self.active_evals;
                let done = out.clone();
                self.rec_push(ControlRec::Args { callee, done, rest: node, env, n, depth });
                proof {
                    assert(self.objects == before.objects && self.prims == before.prims
                        && self.alloc_limit == before.alloc_limit);
                    assert(evaluates_by_lookup(&*self, forms@[i as int]) == evaluates_by_lookup(
                        &before,
                        forms@[i as int],
                    ));
                }
                let step = self.ev(forms[i], env, fuel - 1);
                self.rec_pop();
                step
            } else {
                self.ev(forms[i], env, fuel - 1)
            };
            proof {
                if simple {
                    let f = forms@[i as int];
                    if plain_form(s, f) && old(self).alloc_limit is None {
                        assert(step == Ok::<Obj, Cond>(f));
                    } else {
                        assert(evaluates_by_lookup(old(self), f));
                        assert(step == crate::prims::apply::spec_sym_answer(s, env, f));
                    }
                    assert(step == Ok::<Obj, Cond>(simple_value(old(self), env, f)->0));
                    assert(*self == *old(self));
                }
            }
            let v = match step {
                Ok(v) => v,
                Err(c) => {
                    return Err(c);
                },
            };
            let ghost out0 = out@;
            out.push(v);
            i = i + 1;
            proof {
                if plain {
                    assert(out@ =~= forms@.subrange(0, i as int));
                }
                if simple {
                    assert forall|j: int| 0 <= j < i implies Some(#[trigger] out@[j]) == simple_value(
                        old(self),
                        env,
                        forms@[j],
                    ) by {
                        if j < i - 1 {
                            assert(out@[j] == out0[j]);
                        }
                    }
                }
            }
        }
        proof {
            if plain {
                assert(out@ =~= forms@);
            }
        }
        Ok(out)
    }

    /// Apply a procedure to operand forms, evaluating them first.
    pub fn apply_closure(&mut self, callee: Obj, args: Obj, env: EnvId, fuel: u64) -> (r: EvalResult)
        requires
            old(self).wf(),
        ensures
            final(self).wf(),
        decreases fuel, 8u64,
    {
        let vals = match self.eval_args_for(callee, args, env, 0, fuel) {
            Ok(v) => v,
            Err(c) => {
                return Err(c);
            },
        };
        self.apply_closure_bound(callee, vals, fuel)
    }

    /// Apply a procedure to values and settle its tail.
    pub fn apply_closure_values(&mut self, callee: Obj, vals: Vec<Obj>, fuel: u64) -> (r: EvalResult)
        requires
            old(self).wf(),
        ensures
            final(self).wf(),
        decreases fuel, 8u64,
    {
        let r = self.apply_closure_bound(callee, vals, fuel);
        self.settle(r, fuel)
    }

    /// A fresh frame under the procedure's own environment, the procedure
    /// itself bound first and the values behind it, then the body with its
    /// last form parked.
    fn apply_closure_bound(&mut self, callee: Obj, vals: Vec<Obj>, fuel: u64) -> (r: EvalResult)
        requires
            old(self).wf(),
        ensures
            final(self).wf(),
        decreases fuel, 7u64,
    {
        let params = self.objects.closure_params(callee);
        let body = self.objects.closure_body(callee);
        let defenv = self.objects.closure_env(callee);
        let mut bound: Vec<Obj> = Vec::new();
        bound.push(callee);
        let mut i: usize = 0;
        while i < vals.len()
            invariant
                i <= vals@.len(),
            decreases vals@.len() - i,
        {
            bound.push(vals[i]);
            i = i + 1;
        }
        let frame = self.envs.push(&mut self.objects, defenv);
        let _ = self.bind_params(frame, params, &bound);
        self.save_push_env(frame);
        let out = self.eval_body_tail(body, frame, fuel);
        self.save_pop_env();
        out
    }

    /// Bind parameter names to values in order, nil past the end; a dotted
    /// tail name takes the list of everything not already bound. Answers
    /// that list (nil when there is no tail name) and the heap as it stood
    /// once the list was made.
    fn bind_params(&mut self, frame: EnvId, params: Obj, vals: &Vec<Obj>) -> (r: (Obj, Ghost<Seq<u64>>))
        requires
            old(self).wf(),
        ensures
            final(self).wf(),
            final(self).base_syms == old(self).base_syms,
            ({
                let s = old(self).objects.mem();
                let names = crate::value::pair::spec_walk(s, params, s.len(), true);
                let tail = spec_list_end(s, params, s.len());
                let from = if names.len() < vals@.len() { names.len() as int } else { vals@.len() as int };
                let rest = vals@.subrange(from, vals@.len() as int);
                let made = r.1@;
                tail.0 != 0 ==> {
                    &&& made.len() <= final(self).objects.mem().len()
                    &&& crate::value::pair::room_for_pairs(final(self).objects.mem().len(), rest.len())
                        ==> crate::value::pair::spec_list_at(made, r.0, rest)
                    &&& crate::env::spec_find(
                        made,
                        Obj(spec_data(made, frame.0, crate::env::CHAIN)),
                        tail,
                        made.len(),
                    ) is None && crate::env::in_heap(made, frame.0, 3) && made.len() + 2 * (
                    crate::objects::META_MAX + 6) <= crate::heap::MAX_WORDS ==> crate::env::spec_lookup(
                        final(self).objects.mem(),
                        frame.0,
                        tail,
                        final(self).objects.mem().len(),
                    ) == Some(r.0.0)
                }
            }),
    {
        let ghost s0 = old(self).objects.mem();
        let names = self.objects.cells(params);
        let mut tail = params;
        let mut guard: usize = self.objects.heap_words();
        while guard > 0 && self.objects.is_cell(tail)
            invariant
                *self == *old(self),
                s0 == self.objects.mem(),
                guard <= s0.len(),
                spec_list_end(s0, params, s0.len()) == spec_list_end(s0, tail, guard as nat),
            decreases guard,
        {
            tail = self.objects.rest(tail);
            guard = guard - 1;
        }
        let mut i: usize = 0;
        let mut j: usize = 0;
        while j < names.len()
            invariant
                self.wf(),
                self.base_syms == old(self).base_syms,
                j <= names@.len(),
                i as int == if (j as int) < vals@.len() { j as int } else { vals@.len() as int },
                self.objects.mem().len() >= s0.len(),
            decreases names@.len() - j,
        {
            let name = names[j];
            let v = if i < vals.len() {
                vals[i]
            } else {
                nil()
            };
            self.envs.bind(&mut self.objects, frame, name, v);
            if i < vals.len() {
                i = i + 1;
            }
            j = j + 1;
        }
        if tail.0 == 0 {
            return (nil(), Ghost(self.objects.mem()));
        }
        let ghost before = self.objects.mem();
        let list = self.objects.list_past(vals, i);
        let ghost made = self.objects.mem();
        self.envs.bind(&mut self.objects, frame, tail, list);
        proof {
            if spec_list_end(s0, params, s0.len()).0 != 0 {
                assert(tail == spec_list_end(s0, params, s0.len()));
            }
        }
        (list, Ghost(made))
    }

    /// Apply an operative: a fresh frame under its own environment, the
    /// operand FORMS bound unevaluated, the caller's environment bound to its
    /// environment name.
    pub fn apply_op(&mut self, callee: Obj, args: Obj, env: EnvId, fuel: u64) -> (r: EvalResult)
        requires
            old(self).wf(),
        ensures
            final(self).wf(),
        decreases fuel, 8u64,
    {
        let params = self.objects.op_params(callee);
        let envname = self.objects.op_envname(callee);
        let body = self.objects.op_body(callee);
        let defenv = self.objects.op_env(callee);
        let frame = self.envs.push(&mut self.objects, defenv);
        let mut p = params;
        let mut a = args;
        let mut guard: usize = self.objects.heap_words();
        while guard > 0 && self.objects.is_cell(p)
            invariant
                self.wf(),
            decreases guard,
        {
            let name = self.objects.first(p);
            let v = if self.objects.is_cell(a) {
                let v = self.objects.first(a);
                a = self.objects.rest(a);
                v
            } else {
                let v = a;
                a = nil();
                v
            };
            self.envs.bind(&mut self.objects, frame, name, v);
            p = self.objects.rest(p);
            guard = guard - 1;
        }
        if p.0 != 0 {
            self.envs.bind(&mut self.objects, frame, p, a);
        }
        if envname.0 != 0 {
            let e = self.objects.env_obj(env);
            self.envs.bind(&mut self.objects, frame, envname, e);
        }
        self.eval_body_tail(body, frame, fuel)
    }

    /// Apply a wrapper: evaluate the operands, then hand the VALUES to the
    /// operative it wraps as its operand list.
    pub fn apply_wrapper(&mut self, w: Obj, args: Obj, env: EnvId, fuel: u64) -> (r: EvalResult)
        requires
            old(self).wf(),
        ensures
            final(self).wf(),
        decreases fuel, 8u64,
    {
        let inner = self.objects.wrapper_inner(w);
        let vals = match self.eval_args(args, env, fuel) {
            Ok(v) => v,
            Err(c) => {
                return Err(c);
            },
        };
        let mut spine = nil();
        let mut k: usize = vals.len();
        while k > 0
            invariant
                self.wf(),
                k <= vals@.len(),
            decreases k,
        {
            k = k - 1;
            spine = self.objects.pair(vals[k], spine);
        }
        self.eval_call(inner, spine, env, fuel)
    }

    /// Evaluate every form of a body but the last, and park the last.
    pub fn eval_body_tail(&mut self, body: Obj, env: EnvId, fuel: u64) -> (r: EvalResult)
        requires
            old(self).wf(),
        ensures
            final(self).wf(),
            ({
                let s = old(self).objects.mem();
                let forms = crate::value::pair::spec_walk(s, body, s.len(), false);
                &&& forms.len() == 0 ==> r == Ok::<Obj, Cond>(Obj(0)) && *final(self) == *old(self)
                &&& forms.len() > 0 && all_plain(s, forms) && fuel > 1 && old(self).alloc_limit is None ==> r == Ok::<
                    Obj,
                    Cond,
                >(Obj(0)) && final(self).objects.mem() == crate::value::tok::with_data(
                    crate::value::tok::with_data(s, old(self).objects.tco_expr_node, 0, forms.last().0),
                    old(self).objects.tco_env_node,
                    0,
                    env.0.0,
                )
            }),
        decreases fuel, 6u64,
    {
        let forms = self.objects.list(body);
        if forms.len() == 0 {
            return Ok(nil());
        }
        if fuel == 0 {
            return Err(Cond::TooDeep);
        }
        let ghost s0 = old(self).objects.mem();
        let ghost plain = all_plain(s0, forms@) && fuel > 1 && old(self).alloc_limit is None;
        let mut node = body;
        let mut i: usize = 0;
        let n: usize = forms.len() - 1;
        while i < n
            invariant
                self.wf(),
                fuel > 0,
                i <= n,
                n + 1 == forms@.len(),
                s0 == old(self).objects.mem(),
                plain == (all_plain(s0, forms@) && fuel > 1 && old(self).alloc_limit is None),
                plain ==> *self == *old(self),
                forms@ == crate::value::pair::spec_walk(s0, body, s0.len(), false),
            decreases n - i,
        {
            proof {
                if plain {
                    assert(plain_form(s0, forms@[i as int]));
                }
            }
            node = self.objects.rest(node);
            let depth = self.active_evals;
            self.rec_push(ControlRec::Body { rest: node, env, depth });
            let step = self.ev(forms[i], env, fuel - 1);
            self.rec_pop();
            match step {
                Ok(_) => {},
                Err(c) => {
                    return Err(c);
                },
            }
            i = i + 1;
        }
        let last = forms[forms.len() - 1];
        Ok(self.park_tail(last, env))
    }

    /// Evaluate every form of a body, answering the last value.
    pub fn eval_body(&mut self, body: Obj, env: EnvId, fuel: u64) -> (r: EvalResult)
        requires
            old(self).wf(),
        ensures
            final(self).wf(),
            ({
                let s = old(self).objects.mem();
                let forms = crate::value::pair::spec_walk(s, body, s.len(), false);
                all_plain(s, forms) && (fuel > 1 || forms.len() == 0) && old(self).alloc_limit is None ==> r == Ok::<
                    Obj,
                    Cond,
                >(if forms.len() == 0 { Obj(0) } else { forms.last() }) && *final(self) == *old(self)
            }),
        decreases fuel, 6u64,
    {
        let forms = self.objects.list(body);
        let mut last = nil();
        if fuel == 0 && forms.len() > 0 {
            return Err(Cond::TooDeep);
        }
        let ghost s0 = old(self).objects.mem();
        let ghost plain = all_plain(s0, forms@) && (fuel > 1 || forms@.len() == 0) && old(self).alloc_limit is None;
        let mut node = body;
        let mut i: usize = 0;
        while i < forms.len()
            invariant
                self.wf(),
                forms@.len() > 0 ==> fuel > 0,
                i <= forms@.len(),
                s0 == old(self).objects.mem(),
                plain == (all_plain(s0, forms@) && (fuel > 1 || forms@.len() == 0) && old(self).alloc_limit is None),
                plain ==> *self == *old(self) && (i == 0 ==> last.0 == 0) && (i > 0 ==> last == forms@[i - 1]),
                forms@ == crate::value::pair::spec_walk(s0, body, s0.len(), false),
            decreases forms@.len() - i,
        {
            proof {
                if plain {
                    assert(plain_form(s0, forms@[i as int]));
                }
            }
            node = self.objects.rest(node);
            let depth = self.active_evals;
            self.rec_push(ControlRec::Body { rest: node, env, depth });
            let step = self.ev(forms[i], env, fuel - 1);
            self.rec_pop();
            last = match step {
                Ok(v) => v,
                Err(c) => {
                    return Err(c);
                },
            };
            i = i + 1;
        }
        Ok(last)
    }

    /// Element `n` of a list, as the model reads it; nil past its end.
    pub open spec fn spec_nth(&self, l: Obj, n: nat) -> Obj {
        let t = spec_drop(self.objects.mem(), l, n);
        if spec_is(self.objects.mem(), t, PAIR_BITS) || spec_is(self.objects.mem(), t, SPAIR_BITS) {
            Obj(spec_data(self.objects.mem(), t, 0))
        } else {
            Obj(0)
        }
    }

    /// Element `n` of a list; nil past its end.
    pub fn nth(&self, l: Obj, n: usize) -> (r: Obj)
        ensures
            r == self.spec_nth(l, n as nat),
    {
        let mut at = l;
        let mut i: usize = 0;
        while i < n
            invariant
                i <= n,
                spec_drop(self.objects.mem(), l, n as nat) == spec_drop(self.objects.mem(), at, (n - i) as nat),
            decreases n - i,
        {
            if !self.objects.is_cell(at) {
                return nil();
            }
            at = self.objects.rest(at);
            i = i + 1;
        }
        if self.objects.is_cell(at) {
            self.objects.first(at)
        } else {
            nil()
        }
    }

    /// A list of `(lit v)` forms, one per value.
    pub fn quote_values(&mut self, vals: &Vec<Obj>) -> (r: Obj)
        requires
            old(self).wf(),
        ensures
            final(self).wf(),
            final(self).base_syms == old(self).base_syms,
    {
        let lit = self.objects.sym(crate::vocabulary::LIT);
        let mut out = nil();
        let mut k: usize = vals.len();
        while k > 0
            invariant
                self.wf(),
                self.base_syms == old(self).base_syms,
                k <= vals@.len(),
            decreases k,
        {
            k = k - 1;
            let inner = self.objects.pair(vals[k], nil());
            let q = self.objects.pair(lit, inner);
            out = self.objects.pair(q, out);
        }
        out
    }
}

} // verus!
