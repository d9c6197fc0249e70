//! The primitives, by family, and the table that registers them.

pub mod base;
pub mod callcc;
pub mod apply;
pub mod heap;
pub mod num;
pub mod obj;
pub mod ptr;
pub mod str;
pub mod sys;
pub mod tok;

use crate::diag::Cond;
use crate::engine::Engine;
use crate::eval::EvalResult;
use crate::obj::{nil, word_signed, Addr, EnvId, Obj};
use crate::objects::{spec_data, spec_is, INT_BITS, PTR_BITS};
use crate::prim::{PrimDef, PrimId};
use crate::prims::num::{is_arith, spec_arith};
use vstd::prelude::*;

verus! {

/// A row bound to a bare name only.
fn bare(name: &'static str, n: usize, f: PrimId) -> (r: PrimDef)
    ensures
        r.bare == Some(name),
        r.coord is None,
        r.f == f,
{
    PrimDef::row(Some(name), None, n, f)
}

/// A row filed under a catalog coordinate only.
fn filed(ns: &'static str, m: &'static str, n: usize, f: PrimId) -> (r: PrimDef)
    ensures
        r.bare is None,
        r.coord == Some((ns, m)),
        r.f == f,
{
    PrimDef::row(None, Some((ns, m)), n, f)
}

/// A row reachable both ways.
fn both(name: &'static str, ns: &'static str, m: &'static str, n: usize, f: PrimId) -> (r: PrimDef)
    ensures
        r.bare == Some(name),
        r.coord == Some((ns, m)),
        r.f == f,
{
    PrimDef::row(Some(name), Some((ns, m)), n, f)
}

/// Every row in `v` is reachable by a name or a coordinate.
pub open spec fn all_reachable(v: Seq<PrimDef>) -> bool {
    forall|i: int| 0 <= i < v.len() ==> (#[trigger] v[i]).bare is Some || v[i].coord is Some
}

/// The instruction each row of the table runs, in registration order.
pub open spec fn table_ids() -> Seq<PrimId> {
    seq![
        PrimId::Def,
        PrimId::SetBang,
        PrimId::Fn,
        PrimId::Op,
        PrimId::Sequence,
        PrimId::Error,
        PrimId::Guard,
        PrimId::Match,
        PrimId::Lit,
        PrimId::EvalIn,
        PrimId::EvalHere,
        PrimId::Apply,
        PrimId::Atomic,
        PrimId::Wrap,
        PrimId::Unwrap,
        PrimId::TailEval,
        PrimId::Base,
        PrimId::ProcedureEntry,
        PrimId::OperativeEntry,
        PrimId::WrapEntry,
        PrimId::ContEntry,
        PrimId::CallableCall,
        PrimId::ListCall,
        PrimId::SymEval,
        PrimId::ListEval,
        PrimId::BaseMake,
        PrimId::BaseEval,
        PrimId::BaseBind,
        PrimId::CallCc,
        PrimId::CcInvoke,
        PrimId::Add,
        PrimId::Sub,
        PrimId::Mul,
        PrimId::BitAnd,
        PrimId::BitOr,
        PrimId::BitXor,
        PrimId::Shl,
        PrimId::Shr,
        PrimId::BitNot,
        PrimId::Lt,
        PrimId::NumEq,
        PrimId::Div,
        PrimId::Rem,
        PrimId::CharToInt,
        PrimId::IntToChar,
        PrimId::Eq,
        PrimId::Same,
        PrimId::First,
        PrimId::Rest,
        PrimId::Pair,
        PrimId::TypeMake,
        PrimId::TypeOf,
        PrimId::TypeIs,
        PrimId::MakeInstance,
        PrimId::ObjMake,
        PrimId::MakeCallable,
        PrimId::StrMake,
        PrimId::StrByteLen,
        PrimId::StrByteRef,
        PrimId::StrByteSub,
        PrimId::StrAppend,
        PrimId::StrToSym,
        PrimId::SymToStr,
        PrimId::BytesToStr,
        PrimId::ObjToPtr,
        PrimId::PtrToObj,
        PrimId::PtrToInt,
        PrimId::IntToPtr,
        PrimId::StrToPtr,
        PrimId::PtrToStr,
        PrimId::PtrRef,
        PrimId::PtrSet,
        PrimId::PtrRefWord,
        PrimId::PtrSetWord,
        PrimId::MemCompare,
        PrimId::MemCopy,
        PrimId::MemSet,
        PrimId::MemAlloc,
        PrimId::MemFree,
        PrimId::IterMake,
        PrimId::IterNext,
        PrimId::IterEmpty,
        PrimId::IterStep,
        PrimId::Include,
        PrimId::WriteStr,
        PrimId::ReadChar,
        PrimId::ReadForm,
        PrimId::ReplRead,
        PrimId::EngineRender,
        PrimId::HeapCount,
        PrimId::HeapCollect,
        PrimId::HeapMark,
        PrimId::HeapSweep,
        PrimId::HeapPin,
        PrimId::HeapCheck,
        PrimId::MarkHook,
        PrimId::FreeHook,
        PrimId::MarkRoot,
        PrimId::AllocLimit,
        PrimId::Clock,
        PrimId::SigintInstall,
        PrimId::SigintRestore,
        PrimId::BufMake,
        PrimId::BufRead,
        PrimId::BufTok,
        PrimId::BufLastChar,
        PrimId::BufRetain,
        PrimId::BufReset,
        PrimId::BufAppend,
        PrimId::BufReadText,
        PrimId::TokReadStr,
        PrimId::TokRead,
        PrimId::BaseMakeTok,
        PrimId::BaseMakeType,
    ]
}

/// The rows so far run the table's first instructions, in order.
pub open spec fn table_prefix(v: Seq<PrimDef>) -> bool {
    &&& v.len() <= table_ids().len()
    &&& forall|i: int| 0 <= i < v.len() ==> (#[trigger] v[i]).f == table_ids()[i]
}

/// Append a reachable row.
fn register(v: &mut Vec<PrimDef>, d: PrimDef)
    requires
        all_reachable(old(v)@),
        d.bare is Some || d.coord is Some,
        table_prefix(old(v)@),
        old(v)@.len() < table_ids().len(),
        d.f == table_ids()[old(v)@.len() as int],
    ensures
        all_reachable(final(v)@),
        final(v)@ == old(v)@.push(d),
        table_prefix(final(v)@),
{
    v.push(d);
}

/// Every row, in registration order. Every row is reachable by a name or a
/// coordinate.
#[verifier::rlimit(100)]
pub fn all() -> (v: Vec<PrimDef>)
    ensures
        all_reachable(v@),
        v@.len() == table_ids().len(),
        table_prefix(v@),
{
    let mut v: Vec<PrimDef> = Vec::new();
    register(&mut v, bare("def", 0, PrimId::Def));
    register(&mut v, bare("set!", 0, PrimId::SetBang));
    register(&mut v, bare("fn", 0, PrimId::Fn));
    register(&mut v, bare("op", 0, PrimId::Op));
    register(&mut v, bare("%seq", 0, PrimId::Sequence));
    register(&mut v, bare("error", 0, PrimId::Error));
    register(&mut v, bare("guard", 0, PrimId::Guard));
    register(&mut v, bare("match", 0, PrimId::Match));
    register(&mut v, bare("lit", 0, PrimId::Lit));
    register(&mut v, bare("eval", 0, PrimId::EvalIn));
    register(&mut v, bare("eval!", 0, PrimId::EvalHere));
    register(&mut v, bare("apply", 0, PrimId::Apply));
    register(&mut v, bare("atomic", 0, PrimId::Atomic));
    register(&mut v, bare("wrap", 1, PrimId::Wrap));
    register(&mut v, bare("unwrap", 1, PrimId::Unwrap));
    register(&mut v, bare("tail-eval", 2, PrimId::TailEval));
    register(&mut v, bare("%base", 0, PrimId::Base));
    register(&mut v, bare("%procedure-entry", 0, PrimId::ProcedureEntry));
    register(&mut v, bare("%operative-entry", 0, PrimId::OperativeEntry));
    register(&mut v, bare("%wrap-entry", 0, PrimId::WrapEntry));
    register(&mut v, bare("%cont-entry", 0, PrimId::ContEntry));
    register(&mut v, bare("%callable-call", 0, PrimId::CallableCall));
    register(&mut v, bare("%list-call", 0, PrimId::ListCall));
    register(&mut v, bare("%sym-eval", 0, PrimId::SymEval));
    register(&mut v, bare("%list-eval", 0, PrimId::ListEval));
    register(&mut v, both("make-base", "base", "make", 0, PrimId::BaseMake));
    register(&mut v, filed("base", "eval", 2, PrimId::BaseEval));
    register(&mut v, filed("base", "bind", 3, PrimId::BaseBind));
    register(&mut v, both("call/cc", "ctrl", "call/cc", 1, PrimId::CallCc));
    register(&mut v, bare("%cc-invoke", 2, PrimId::CcInvoke));
    register(&mut v, both("+", "int", "+", 2, PrimId::Add));
    register(&mut v, both("-", "int", "-", 2, PrimId::Sub));
    register(&mut v, both("*", "int", "*", 2, PrimId::Mul));
    register(&mut v, both("&", "int", "&", 2, PrimId::BitAnd));
    register(&mut v, both("|", "int", "|", 2, PrimId::BitOr));
    register(&mut v, both("^", "int", "^", 2, PrimId::BitXor));
    register(&mut v, both("<<", "int", "<<", 2, PrimId::Shl));
    register(&mut v, both(">>", "int", ">>", 2, PrimId::Shr));
    register(&mut v, both("~", "int", "~", 1, PrimId::BitNot));
    register(&mut v, both("<", "int", "<", 2, PrimId::Lt));
    register(&mut v, both("=", "int", "=", 2, PrimId::NumEq));
    register(&mut v, both("/", "int", "/", 2, PrimId::Div));
    register(&mut v, both("%", "int", "%", 2, PrimId::Rem));
    register(&mut v, both("char->integer", "char", "->int", 1, PrimId::CharToInt));
    register(&mut v, both("integer->char", "int", "->char", 1, PrimId::IntToChar));
    register(&mut v, both("eq?", "obj", "eq?", 2, PrimId::Eq));
    register(&mut v, both("same?", "obj", "same?", 2, PrimId::Same));
    register(&mut v, bare("first", 1, PrimId::First));
    register(&mut v, bare("rest", 1, PrimId::Rest));
    register(&mut v, bare("pair", 2, PrimId::Pair));
    register(&mut v, both("make-type", "type", "make", 2, PrimId::TypeMake));
    register(&mut v, both("type-of", "type", "of", 1, PrimId::TypeOf));
    register(&mut v, both("type?", "type", "?", 2, PrimId::TypeIs));
    register(&mut v, both("make-instance", "type", "make-instance", 2, PrimId::MakeInstance));
    register(&mut v, filed("obj", "make", 2, PrimId::ObjMake));
    register(&mut v, filed("obj", "make-callable", 1, PrimId::MakeCallable));
    register(&mut v, filed("str", "make", 1, PrimId::StrMake));
    register(&mut v, both("str-byte-len", "str", "byte-len", 1, PrimId::StrByteLen));
    register(&mut v, both("str-byte-ref", "str", "byte-ref", 2, PrimId::StrByteRef));
    register(&mut v, both("str-byte-sub", "str", "byte-sub", 3, PrimId::StrByteSub));
    register(&mut v, both("str-append", "str", "append", 2, PrimId::StrAppend));
    register(&mut v, filed("str", "->sym", 1, PrimId::StrToSym));
    register(&mut v, both("symbol->str", "sym", "->str", 1, PrimId::SymToStr));
    register(&mut v, both("bytes->str", "bytes", "->str", 1, PrimId::BytesToStr));
    register(&mut v, both("obj->ptr", "obj", "->ptr", 1, PrimId::ObjToPtr));
    register(&mut v, filed("ptr", "->obj", 1, PrimId::PtrToObj));
    register(&mut v, filed("ptr", "->int", 1, PrimId::PtrToInt));
    register(&mut v, both("int->ptr", "int", "->ptr", 1, PrimId::IntToPtr));
    register(&mut v, both("str->ptr", "str", "->ptr", 1, PrimId::StrToPtr));
    register(&mut v, both("ptr->str", "ptr", "->str", 1, PrimId::PtrToStr));
    register(&mut v, filed("ptr", "ref", 3, PrimId::PtrRef));
    register(&mut v, filed("ptr", "set!", 4, PrimId::PtrSet));
    register(&mut v, filed("ptr", "ref-word", 2, PrimId::PtrRefWord));
    register(&mut v, filed("ptr", "set-word!", 3, PrimId::PtrSetWord));
    register(&mut v, filed("mem", "cmp", 3, PrimId::MemCompare));
    register(&mut v, filed("mem", "copy", 3, PrimId::MemCopy));
    register(&mut v, filed("mem", "set", 3, PrimId::MemSet));
    register(&mut v, filed("mem", "alloc", 1, PrimId::MemAlloc));
    register(&mut v, filed("mem", "free", 1, PrimId::MemFree));
    register(&mut v, filed("iter", "make", 2, PrimId::IterMake));
    register(&mut v, filed("iter", "next", 1, PrimId::IterNext));
    register(&mut v, filed("iter", "empty?", 1, PrimId::IterEmpty));
    register(&mut v, filed("iter", "step", 1, PrimId::IterStep));
    register(&mut v, bare("include", 0, PrimId::Include));
    register(&mut v, filed("io", "write-str", 1, PrimId::WriteStr));
    register(&mut v, filed("io", "read-char", 0, PrimId::ReadChar));
    register(&mut v, filed("io", "read", 0, PrimId::ReadForm));
    register(&mut v, filed("io", "repl-read", 0, PrimId::ReplRead));
    register(&mut v, bare("%engine-render", 1, PrimId::EngineRender));
    register(&mut v, filed("heap", "count", 0, PrimId::HeapCount));
    register(&mut v, both("heap-collect", "heap", "collect", 0, PrimId::HeapCollect));
    register(&mut v, filed("heap", "mark", 0, PrimId::HeapMark));
    register(&mut v, filed("heap", "sweep", 0, PrimId::HeapSweep));
    register(&mut v, filed("heap", "pin!", 1, PrimId::HeapPin));
    register(&mut v, filed("heap", "check", 0, PrimId::HeapCheck));
    register(&mut v, filed("heap", "mark-hook!", 1, PrimId::MarkHook));
    register(&mut v, filed("heap", "free-hook!", 1, PrimId::FreeHook));
    register(&mut v, filed("heap", "mark-root!", 1, PrimId::MarkRoot));
    register(&mut v, both("alloc-limit!", "alloc", "limit!", 1, PrimId::AllocLimit));
    register(&mut v, filed("sys", "clock", 0, PrimId::Clock));
    register(&mut v, bare("sigint-install", 0, PrimId::SigintInstall));
    register(&mut v, bare("sigint-restore", 0, PrimId::SigintRestore));
    register(&mut v, filed("buf", "make", 1, PrimId::BufMake));
    register(&mut v, filed("buf", "read", 1, PrimId::BufRead));
    register(&mut v, filed("buf", "tok", 1, PrimId::BufTok));
    register(&mut v, filed("buf", "last-char", 1, PrimId::BufLastChar));
    register(&mut v, filed("buf", "retain", 1, PrimId::BufRetain));
    register(&mut v, filed("buf", "reset", 1, PrimId::BufReset));
    register(&mut v, filed("buf", "append", 2, PrimId::BufAppend));
    register(&mut v, filed("buf", "read-text", 1, PrimId::BufReadText));
    register(&mut v, both("token-read-string", "tok", "read-str", 2, PrimId::TokReadStr));
    register(&mut v, filed("tok", "read", 1, PrimId::TokRead));
    register(&mut v, filed("base", "make-tok", 0, PrimId::BaseMakeTok));
    register(&mut v, filed("base", "make-type", 3, PrimId::BaseMakeType));
    v
}

impl Engine {
    /// Run an instruction: `callee` is what is applied, `args` its operand
    /// forms (for an EVAL handler, the form being evaluated).
    pub fn dispatch(&mut self, id: PrimId, callee: Obj, args: Obj, env: EnvId, fuel: u64) -> (r: EvalResult)
        requires
            old(self).wf(),
        ensures
            final(self).wf(),
            id is SymEval && fuel > 0 ==> r == crate::prims::apply::spec_sym_answer(old(self).objects.mem(), env, args)
                && *final(self) == *old(self),
            id is ListEval && crate::eval::data_list(old(self), env, args) && fuel > 2 ==> r == Ok::<Obj, Cond>(args)
                && *final(self) == *old(self),
        decreases fuel, 1u64,
    {
        if fuel == 0 {
            return Err(Cond::TooDeep);
        }
        let f = fuel - 1;
        match id {
            PrimId::Def => self.syntax_def(args, env, f),
            PrimId::SetBang => self.syntax_set(args, env, f),
            PrimId::Fn => self.syntax_fn(args, env),
            PrimId::Op => self.syntax_op(args, env),
            PrimId::Sequence => self.eval_body_tail(args, env, f),
            PrimId::Atomic => self.eval_body_tail(args, env, f),
            PrimId::Error => self.syntax_error(args, env, f),
            PrimId::Guard => self.syntax_guard(args, env, f),
            PrimId::Match => self.syntax_match(args, env, f),
            PrimId::Lit => Ok(self.syntax_lit(args)),
            PrimId::EvalIn => self.prim_eval_in(args, env, f),
            PrimId::EvalHere => self.prim_eval_here(args, env, f),
            PrimId::Apply => self.prim_apply(args, env, f),
            PrimId::ProcedureEntry => self.apply_closure(callee, args, env, f),
            PrimId::OperativeEntry => self.apply_op(callee, args, env, f),
            PrimId::WrapEntry => self.apply_wrapper(callee, args, env, f),
            PrimId::CallableCall => self.callable_call(callee, args, env, f),
            PrimId::ListCall => self.list_call(callee, args, env, f),
            PrimId::SymEval => self.sym_eval(args, env),
            PrimId::ListEval => self.list_eval(args, env, f),
            PrimId::Include => self.include_file(args, env, f),
            _ => {
                let vals = match self.eargs(args, env, 4, f) {
                    Ok(v) => v,
                    Err(c) => {
                        return Err(c);
                    },
                };
                match id {
                    PrimId::ContEntry => self.invoke_cont(callee, vals[0]),
                    PrimId::CcInvoke => self.invoke_cont(vals[0], vals[1]),
                    PrimId::BaseEval => self.base_eval(vals[0], vals[1], f),
                    PrimId::CallCc => {
                        let top = self.current_env();
                        self.with_escape(vals[0], top, f)
                    },
                    PrimId::IterNext => self.iter_next(vals[0], f),
                    PrimId::IterEmpty => self.iter_empty(vals[0], f),
                    PrimId::IterStep => self.iter_step_fresh(vals[0], f),
                    PrimId::Add | PrimId::Sub | PrimId::Mul | PrimId::Div | PrimId::Rem | PrimId::Lt
                    | PrimId::NumEq => match self.op_try(id, vals[0], vals[1], f) {
                        Ok(Some(v)) => Ok(v),
                        Ok(None) => self.value_prim(id, &vals),
                        Err(c) => Err(c),
                    },
                    PrimId::TokReadStr => self.read_str(vals[0], vals[1], f),
                    PrimId::TokRead => self.read_form_at(vals[0], f),
                    PrimId::BaseMakeTok => Ok(self.make_tok()),
                    PrimId::BaseMakeType => Ok(self.make_type(vals[0], vals[1], vals[2])),
                    PrimId::ReadForm => match self.read_form(f) {
                        Ok(Some(v)) => Ok(v),
                        Ok(None) => Ok(nil()),
                        Err(c) => Err(c),
                    },
                    PrimId::ReplRead => match self.read_form(f) {
                        Ok(Some(v)) => Ok(v),
                        Ok(None) => Ok(self.token_eof),
                        Err(c) => Err(c),
                    },
                    _ => self.value_prim(id, &vals),
                }
            },
        }
    }

    /// The first step of an iterator: its step function applied to its
    /// state, as (value, next state); None when it is exhausted.
    fn iter_peek(&mut self, it: Obj, fuel: u64) -> (r: Result<Option<(Obj, Obj)>, Cond>)
        requires
            old(self).wf(),
        ensures
            final(self).wf(),
        decreases fuel, 10u64,
    {
        let f = self.objects.iter_step(it);
        let st = self.objects.iter_state(it);
        let mut vals: Vec<Obj> = Vec::new();
        vals.push(st);
        let env = self.current_env();
        let r = match self.call_with_values(f, vals, env, fuel) {
            Ok(v) => v,
            Err(c) => {
                return Err(c);
            },
        };
        if r.0 == 0 {
            return Ok(None);
        }
        Ok(Some((self.objects.first(r), self.objects.rest(r))))
    }

    /// `(iter next it)`: the next value, advancing `it`; nil when exhausted.
    fn iter_next(&mut self, it: Obj, fuel: u64) -> (r: EvalResult)
        requires
            old(self).wf(),
        ensures
            final(self).wf(),
        decreases fuel, 11u64,
    {
        match self.iter_peek(it, fuel) {
            Ok(Some((v, rest))) => {
                self.objects.set_iter_state(it, rest);
                Ok(v)
            },
            Ok(None) => Ok(nil()),
            Err(c) => Err(c),
        }
    }

    /// `(iter empty? it)`: whether `it` is exhausted, consuming nothing.
    fn iter_empty(&mut self, it: Obj, fuel: u64) -> (r: EvalResult)
        requires
            old(self).wf(),
        ensures
            final(self).wf(),
        decreases fuel, 11u64,
    {
        match self.iter_peek(it, fuel) {
            Ok(p) => Ok(self.objects.truth(p.is_none())),
            Err(c) => Err(c),
        }
    }

    /// `(iter step it)`: `(value . next-iterator)`, leaving `it` as it was.
    fn iter_step_fresh(&mut self, it: Obj, fuel: u64) -> (r: EvalResult)
        requires
            old(self).wf(),
        ensures
            final(self).wf(),
        decreases fuel, 11u64,
    {
        match self.iter_peek(it, fuel) {
            Ok(Some((v, rest))) => {
                let f = self.objects.iter_step(it);
                let nit = self.objects.iter(f, rest);
                Ok(self.objects.pair(v, nit))
            },
            Ok(None) => Ok(nil()),
            Err(c) => Err(c),
        }
    }

    /// The instructions that read only their operands' values.
    pub fn value_prim(&mut self, id: PrimId, a: &Vec<Obj>) -> (r: EvalResult)
        requires
            old(self).wf(),
            a@.len() >= 4,
        ensures
            final(self).wf(),
            is_arith(id) && a@[0].0 != 0 && a@[1].0 != 0 ==> (r matches Ok(o) && (o.0 != 0 ==> {
                &&& spec_is(final(self).objects.mem(), o, INT_BITS)
                &&& word_signed(spec_data(final(self).objects.mem(), o, 0)) == spec_arith(
                    id,
                    word_signed(spec_data(old(self).objects.mem(), a@[0], 0)),
                    word_signed(spec_data(old(self).objects.mem(), a@[1], 0)),
                )
            })),
            is_arith(id) && (a@[0].0 == 0 || a@[1].0 == 0) ==> r is Err,
            id is BitNot && a@[0].0 != 0 ==> (r matches Ok(o) && (o.0 != 0 ==> {
                &&& spec_is(final(self).objects.mem(), o, INT_BITS)
                &&& word_signed(spec_data(final(self).objects.mem(), o, 0)) == !word_signed(
                    spec_data(old(self).objects.mem(), a@[0], 0),
                )
            })),
            id is BitNot && a@[0].0 == 0 ==> r is Err,
            id is Lt ==> r == Ok::<Obj, Cond>(
                if word_signed(spec_data(old(self).objects.mem(), a@[0], 0)) < word_signed(
                    spec_data(old(self).objects.mem(), a@[1], 0),
                ) {
                    old(self).objects.true_obj
                } else {
                    old(self).objects.false_obj
                },
            ),
            id is NumEq ==> r == Ok::<Obj, Cond>(
                if word_signed(spec_data(old(self).objects.mem(), a@[0], 0)) == word_signed(
                    spec_data(old(self).objects.mem(), a@[1], 0),
                ) {
                    old(self).objects.true_obj
                } else {
                    old(self).objects.false_obj
                },
            ),
            id is ObjToPtr ==> (r matches Ok(p) && (p.0 != 0 ==> spec_is(final(self).objects.mem(), p, PTR_BITS)
                && spec_data(final(self).objects.mem(), p, 0) == a@[0].0)),
            id is PtrToObj ==> r == Ok::<Obj, Cond>(Obj(spec_data(old(self).objects.mem(), a@[0], 0))),
            id is PtrToInt ==> (r matches Ok(i) && (i.0 != 0 ==> spec_is(final(self).objects.mem(), i, INT_BITS)
                && spec_data(final(self).objects.mem(), i, 0) == spec_data(old(self).objects.mem(), a@[0], 0))),
            id is IntToPtr ==> (r matches Ok(p) && (p.0 != 0 ==> spec_is(final(self).objects.mem(), p, PTR_BITS)
                && spec_data(final(self).objects.mem(), p, 0) == spec_data(old(self).objects.mem(), a@[0], 0))),
            id is Same ==> r == Ok::<Obj, Cond>(
                if a@[0] == a@[1] {
                    old(self).objects.true_obj
                } else {
                    old(self).objects.false_obj
                },
            ),
    {
        match id {
            PrimId::Wrap => Ok(self.objects.wrapper(a[0])),
            PrimId::Unwrap => Ok(self.objects.wrapper_inner(a[0])),
            PrimId::TailEval => self.prim_tail_eval(a[0], a[1]),
            PrimId::Base => Ok(self.objects.base),
            PrimId::BaseMake => Ok(self.make_base()),
            PrimId::BaseBind => Ok(self.base_bind(a[0], a[1], a[2])),
            PrimId::Add | PrimId::Sub | PrimId::Mul | PrimId::Div | PrimId::Rem | PrimId::BitAnd
            | PrimId::BitOr | PrimId::BitXor | PrimId::Shl | PrimId::Shr => {
                if a[0].0 == 0 || a[1].0 == 0 {
                    return Err(self.nil_operand(arith_name(id)));
                }
                let x = self.objects.as_int(a[0]);
                let y = self.objects.as_int(a[1]);
                let v = crate::prims::num::arith(id, x, y);
                proof {
                    crate::obj::lemma_signed_word_round_trip(v);
                }
                Ok(self.objects.int_new(v))
            },
            PrimId::BitNot => {
                if a[0].0 == 0 {
                    return Err(self.nil_operand("~"));
                }
                let x = self.objects.as_int(a[0]);
                proof {
                    crate::obj::lemma_signed_word_round_trip(!x);
                }
                Ok(self.objects.int_new(!x))
            },
            PrimId::Lt => {
                let x = self.objects.as_int(a[0]);
                let y = self.objects.as_int(a[1]);
                Ok(self.objects.truth(x < y))
            },
            PrimId::NumEq => {
                let x = self.objects.as_int(a[0]);
                let y = self.objects.as_int(a[1]);
                Ok(self.objects.truth(x == y))
            },
            PrimId::CharToInt => Ok(self.objects.char_to_int(a[0])),
            PrimId::IntToChar => Ok(self.objects.int_to_char(a[0])),
            PrimId::Eq => {
                let b = self.objects.eq_values(a[0], a[1]);
                Ok(self.objects.truth(b))
            },
            PrimId::Same => Ok(self.objects.truth(a[0].0 == a[1].0)),
            PrimId::First => Ok(self.objects.first(a[0])),
            PrimId::Rest => Ok(self.objects.rest(a[0])),
            PrimId::Pair => Ok(self.objects.pair(a[0], a[1])),
            PrimId::TypeMake => Ok(self.type_make(a[0], a[1])),
            PrimId::TypeOf => Ok(self.objects.type_of(a[0])),
            PrimId::TypeIs => Ok(self.type_is(a[0], a[1])),
            PrimId::MakeInstance => Ok(self.make_instance(a[0], a[1])),
            PrimId::ObjMake => {
                let n = self.objects.as_int(a[1]);
                let k: u64 = if n < 0 {
                    0
                } else if n > 0x100_0000 {
                    0x100_0000
                } else {
                    n as u64
                };
                Ok(self.objects.instance(a[0], k))
            },
            PrimId::MakeCallable => {
                let at = self.objects.as_ptr(a[0]);
                Ok(self.objects.foreign(at.0))
            },
            PrimId::StrMake => {
                let n = self.objects.as_int(a[0]);
                let k: usize = if n < 0 {
                    0
                } else if n > 0x100_0000 {
                    0x100_0000
                } else {
                    n as usize
                };
                Ok(self.objects.str_make(k))
            },
            PrimId::StrByteLen => Ok(self.objects.str_len_obj(a[0])),
            PrimId::StrByteRef => {
                let i = self.objects.as_int(a[1]);
                Ok(self.objects.byte_ref(a[0], i))
            },
            PrimId::StrByteSub => {
                let off = self.objects.as_int(a[1]);
                let len = self.objects.as_int(a[2]);
                Ok(self.objects.byte_sub(a[0], off, len))
            },
            PrimId::StrAppend => Ok(self.objects.str_append(a[0], a[1])),
            PrimId::StrToSym => Ok(self.objects.str_to_sym(a[0])),
            PrimId::SymToStr => Ok(self.objects.sym_to_str(a[0])),
            PrimId::BytesToStr => Ok(self.objects.bytes_to_str(a[0])),
            PrimId::ObjToPtr => {
                let p = self.objects.ptr(a[0].addr());
                proof {
                    if p.0 != 0 {
                        assert(spec_data(self.objects.mem(), p, 0) == seq![a@[0].0][0]);
                    }
                }
                Ok(p)
            },
            PrimId::PtrToObj => Ok(self.objects.as_ptr(a[0]).as_obj()),
            PrimId::PtrToInt => {
                let v = self.objects.as_ptr(a[0]);
                let n = crate::obj::word_to_i64(v.0);
                proof {
                    crate::obj::lemma_word_signed_round_trip(v.0);
                }
                let i = self.objects.int_new(n);
                proof {
                    if i.0 != 0 {
                        assert(spec_data(self.objects.mem(), i, 0) == seq![crate::obj::signed_word(n)][0]);
                    }
                }
                Ok(i)
            },
            PrimId::IntToPtr => {
                let v = self.objects.as_int(a[0]);
                let w = crate::obj::i64_to_word(v);
                proof {
                    crate::obj::lemma_word_signed_round_trip(spec_data(old(self).objects.mem(), a@[0], 0));
                }
                let p = self.objects.ptr(Addr::new(w));
                proof {
                    if p.0 != 0 {
                        assert(spec_data(self.objects.mem(), p, 0) == seq![w][0]);
                    }
                }
                Ok(p)
            },
            PrimId::StrToPtr => {
                let at = self.objects.str_bytes(a[0]);
                Ok(self.objects.ptr(at))
            },
            PrimId::PtrToStr => Ok(self.objects.ptr_to_str(a[0])),
            PrimId::PtrRef => {
                let off = self.objects.as_int(a[1]);
                let w = self.objects.as_int(a[2]);
                Ok(self.objects.ptr_read(a[0], off, w))
            },
            PrimId::PtrSet => {
                let off = self.objects.as_int(a[1]);
                let v = self.objects.as_int(a[2]);
                let w = self.objects.as_int(a[3]);
                self.objects.ptr_set(a[0], off, v, w);
                Ok(nil())
            },
            PrimId::PtrRefWord => {
                let off = self.objects.as_int(a[1]);
                Ok(self.objects.ptr_read_word(a[0], off))
            },
            PrimId::PtrSetWord => {
                let off = self.objects.as_int(a[1]);
                let v = self.objects.as_int(a[2]);
                self.objects.ptr_set_word(a[0], off, v);
                Ok(a[0])
            },
            PrimId::MemCompare => {
                let n = self.objects.as_int(a[2]);
                Ok(self.objects.mem_compare(a[0], a[1], n))
            },
            PrimId::MemCopy => {
                let n = self.objects.as_int(a[2]);
                self.objects.mem_copy(a[0], a[1], n);
                Ok(nil())
            },
            PrimId::MemSet => {
                let v = self.objects.as_int(a[1]);
                let n = self.objects.as_int(a[2]);
                self.objects.mem_set(a[0], v, n);
                Ok(nil())
            },
            PrimId::MemAlloc => {
                let n = self.objects.as_int(a[0]);
                Ok(self.objects.mem_alloc(n))
            },
            PrimId::MemFree => Ok(nil()),
            PrimId::IterMake => Ok(self.objects.iter(a[0], a[1])),
            PrimId::WriteStr => {
                let text = self.objects.bytes_of(a[0]);
                self.output.extend_from_slice(text.as_slice());
                Ok(nil())
            },
            PrimId::EngineRender => {
                let text = crate::diag::render_bytes(&self.objects, a[0]);
                self.output.extend_from_slice(text.as_slice());
                Ok(a[0])
            },
            PrimId::ReadChar => match self.read_byte() {
                Some(b) => Ok(self.objects.char_new(b as u32)),
                None => Ok(nil()),
            },
            PrimId::HeapCount => {
                let n = self.objects.alloc_count();
                Ok(self.objects.int_new(n as i64))
            },
            PrimId::HeapPin => Ok(a[0]),
            PrimId::HeapCollect => {
                self.collect_requested = true;
                Ok(nil())
            },
            PrimId::HeapCheck => {
                let bad = self.objects.heap_check();
                let n: i64 = if bad <= 0x7fff_ffff_ffff_ffff {
                    bad as i64
                } else {
                    0x7fff_ffff_ffff_ffff
                };
                Ok(self.objects.int_new(n))
            },
            PrimId::MarkHook => {
                let b = self.objects.base;
                crate::base::push(&mut self.objects, b, crate::base::MARK_HOOKS, a[0]);
                Ok(a[0])
            },
            PrimId::FreeHook => {
                let b = self.objects.base;
                crate::base::push(&mut self.objects, b, crate::base::FREE_HOOKS, a[0]);
                Ok(a[0])
            },
            PrimId::MarkRoot => {
                let b = self.objects.base;
                crate::base::push(&mut self.objects, b, crate::base::MARK_ROOTS, a[0]);
                Ok(a[0])
            },
            PrimId::AllocLimit => {
                let n = self.objects.as_int(a[0]);
                let b = self.objects.base;
                crate::base::set(&mut self.objects, b, crate::base::ALLOC_LIMIT, a[0]);
                self.alloc_limit = if n > 0 {
                    Some(n as usize)
                } else {
                    None
                };
                Ok(nil())
            },
            PrimId::Clock => Ok(self.clock()),
            PrimId::SigintInstall => {
                let flag = self.sigint_flag;
                self.objects.set_data(flag, 0, crate::obj::Word(0));
                Ok(nil())
            },
            PrimId::SigintRestore => Ok(nil()),
            PrimId::BufMake => crate::prims::tok::make(&mut self.objects, a.as_slice()),
            PrimId::BufRead => crate::prims::tok::read(&mut self.objects, a.as_slice()),
            PrimId::BufTok => crate::prims::tok::tok(&mut self.objects, a.as_slice()),
            PrimId::BufLastChar => crate::prims::tok::last_char(&mut self.objects, a.as_slice()),
            PrimId::BufRetain => crate::prims::tok::retain(&mut self.objects, a.as_slice()),
            PrimId::BufReset => crate::prims::tok::reset(&mut self.objects, a.as_slice()),
            PrimId::BufAppend => crate::prims::tok::append(&mut self.objects, a.as_slice()),
            PrimId::BufReadText => crate::prims::tok::read_text(&mut self.objects, a.as_slice()),
            _ => Ok(nil()),
        }
    }
}

/// The spelling of an arithmetic instruction, for its nil-operand raise.
fn arith_name(id: PrimId) -> (r: &'static str)
    ensures
        r@ == match id {
            PrimId::Add => "+"@,
            PrimId::Sub => "-"@,
            PrimId::Mul => "*"@,
            PrimId::Div => "/"@,
            PrimId::Rem => "%"@,
            PrimId::BitAnd => "&"@,
            PrimId::BitOr => "|"@,
            PrimId::BitXor => "^"@,
            PrimId::Shl => "<<"@,
            _ => ">>"@,
        },
{
    match id {
        PrimId::Add => "+",
        PrimId::Sub => "-",
        PrimId::Mul => "*",
        PrimId::Div => "/",
        PrimId::Rem => "%",
        PrimId::BitAnd => "&",
        PrimId::BitOr => "|",
        PrimId::BitXor => "^",
        PrimId::Shl => "<<",
        _ => ">>",
    }
}

} // verus!
