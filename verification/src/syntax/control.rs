//! `%seq`, `error`, `guard`, `match`.

use crate::diag::Cond;
use crate::engine::Engine;
use crate::eval::EvalResult;
use crate::obj::{nil, EnvId, Obj};
use crate::objects::{spec_data, spec_is, PAIR_BITS, SPAIR_BITS};
use crate::value::pair::spec_walk;
use vstd::prelude::*;

verus! {

/// An arm of `match` that fires: a cell whose test, a plain form, is
/// truthy.
pub open spec fn fires(s: Seq<u64>, arm: Obj) -> bool {
    let test = Obj(spec_data(s, arm, 0));
    &&& (spec_is(s, arm, PAIR_BITS) || spec_is(s, arm, SPAIR_BITS))
    &&& test.0 != 0
    &&& !spec_is(s, test, crate::objects::FALSE_BITS)
}

/// Arms whose tests are all plain forms.
pub open spec fn plain_tests(s: Seq<u64>, arms: Seq<Obj>) -> bool {
    forall|k: int|
        0 <= k < arms.len() && (spec_is(s, #[trigger] arms[k], PAIR_BITS) || spec_is(s, arms[k], SPAIR_BITS))
            ==> crate::eval::plain_form(s, Obj(spec_data(s, arms[k], 0)))
}

/// A body whose forms all evaluate to themselves, and go on doing so
/// whatever pushing a handler for `env` on `node` writes: the walk of the
/// body and each form read the same in every heap such a push can leave.
pub open spec fn plain_under_push(o: crate::objects::Objects, node: Obj, env: EnvId, body: Obj) -> bool {
    let s = o.mem();
    let forms = spec_walk(s, body, s.len(), false);
    forall|mid: Seq<u64>, cell: Obj, s1: Seq<u64>|
        #[trigger] crate::eval::pushed_on(o, s1, node, env.0, mid, cell) ==> spec_walk(s1, body, s1.len(), false)
            == forms && crate::eval::all_plain(s1, forms)
}

/// What a body of forms answers when none raises: the last form's value, nil
/// for an empty body.
pub open spec fn body_answer(forms: Seq<Obj>) -> Obj {
    if forms.len() == 0 {
        Obj(0)
    } else {
        forms.last()
    }
}

impl Engine {
    /// `(error form)`: raise the form's value.
    pub fn syntax_error(&mut self, args: Obj, env: EnvId, fuel: u64) -> (r: EvalResult)
        requires
            old(self).wf(),
        ensures
            final(self).wf(),
            r is Err,
        decreases fuel, 9u64,
    {
        let form = self.nth(args, 0);
        match self.ev(form, env, fuel) {
            Ok(v) => Err(Cond::Raised(v)),
            Err(c) => Err(c),
        }
    }

    /// `(guard (name handler...) body...)`: the body's value, or — when it
    /// raises — the handler's, with the raised value bound to `name`. An
    /// escaping continuation passes through.
    pub fn syntax_guard(&mut self, args: Obj, env: EnvId, fuel: u64) -> (r: EvalResult)
        requires
            old(self).wf(),
        ensures
            final(self).wf(),
            ({
                let s = old(self).objects.mem();
                let body = Obj(spec_data(s, args, 1));
                plain_under_push(old(self).objects, old(self).objects.handler_node, env, body) && fuel > 1
                    && old(self).alloc_limit is None ==> r == Ok::<Obj, Cond>(
                    body_answer(spec_walk(s, body, s.len(), false)),
                )
            }),
        decreases fuel, 9u64,
    {
        let spec = self.nth(args, 0);
        let body = self.objects.rest(args);
        let ghost s0 = old(self).objects.mem();
        let ghost plain = plain_under_push(old(self).objects, old(self).objects.handler_node, env, body) && fuel > 1
            && old(self).alloc_limit is None;
        self.handler_push_env(env);
        proof {
            if plain {
                let (mid, cell) = choose|mid: Seq<u64>, cell: Obj|
                    #[trigger] crate::eval::pushed_on(
                        old(self).objects,
                        self.objects.mem(),
                        old(self).objects.handler_node,
                        env.0,
                        mid,
                        cell,
                    );
                assert(crate::eval::pushed_on(
                    old(self).objects,
                    self.objects.mem(),
                    old(self).objects.handler_node,
                    env.0,
                    mid,
                    cell,
                ));
                let s1 = self.objects.mem();
                assert(spec_walk(s1, body, s1.len(), false) == spec_walk(s0, body, s0.len(), false));
                assert(crate::eval::all_plain(s1, spec_walk(s1, body, s1.len(), false)));
            }
        }
        let outcome = self.eval_body(body, env, fuel);
        self.handler_pop_env();
        match outcome {
            Ok(v) => Ok(v),
            Err(cond) => {
                if self.is_escaping() {
                    return Err(cond);
                }
                let (name, handler) = if self.objects.is_cell(spec) {
                    (self.objects.first(spec), self.objects.rest(spec))
                } else {
                    (nil(), nil())
                };
                let frame = self.envs.push(&mut self.objects, env);
                if name.0 != 0 {
                    let v = cond.value(&mut self.objects);
                    self.envs.bind(&mut self.objects, frame, name, v);
                }
                self.eval_body_tail(handler, frame, fuel)
            },
        }
    }

    /// `(match (test body...) ...)`: the first arm whose test is truthy runs
    /// its body in tail position; nil when none is.
    pub fn syntax_match(&mut self, args: Obj, env: EnvId, fuel: u64) -> (r: EvalResult)
        requires
            old(self).wf(),
        ensures
            final(self).wf(),
            ({
                let s = old(self).objects.mem();
                let arms = spec_walk(s, args, s.len(), false);
                plain_tests(s, arms) && fuel > 1 && old(self).alloc_limit is None ==> {
                    &&& (forall|k: int| 0 <= k < arms.len() ==> !#[trigger] fires(s, arms[k])) ==> r == Ok::<Obj, Cond>(
                        Obj(0),
                    ) && *final(self) == *old(self)
                    &&& forall|k: int|
                        0 <= k < arms.len() && #[trigger] fires(s, arms[k]) && (forall|j: int|
                            0 <= j < k ==> !fires(s, arms[j])) ==> {
                            let forms = spec_walk(s, Obj(spec_data(s, arms[k], 1)), s.len(), false);
                            &&& forms.len() == 0 ==> r == Ok::<Obj, Cond>(Obj(0)) && *final(self) == *old(self)
                            &&& forms.len() > 0 && crate::eval::all_plain(s, forms) ==> r == Ok::<Obj, Cond>(Obj(0))
                                && final(self).objects.mem() == crate::value::tok::with_data(
                                crate::value::tok::with_data(s, old(self).objects.tco_expr_node, 0, forms.last().0),
                                old(self).objects.tco_env_node,
                                0,
                                env.0.0,
                            )
                        }
                }
            }),
        decreases fuel, 9u64,
    {
        let arms = self.objects.list(args);
        let ghost s0 = old(self).objects.mem();
        let ghost plain = plain_tests(s0, arms@) && fuel > 1 && old(self).alloc_limit is None;
        let mut i: usize = 0;
        while i < arms.len()
            invariant
                self.wf(),
                i <= arms@.len(),
                s0 == old(self).objects.mem(),
                arms@ == spec_walk(s0, args, s0.len(), false),
                plain == (plain_tests(s0, arms@) && fuel > 1 && old(self).alloc_limit is None),
                plain ==> *self == *old(self) && forall|j: int| 0 <= j < i ==> !#[trigger] fires(s0, arms@[j]),
            decreases arms@.len() - i,
        {
            let arm = arms[i];
            proof {
                if plain {
                    assert(arms@[i as int] == arm);
                }
            }
            if self.objects.is_cell(arm) {
                let test = self.objects.first(arm);
                proof {
                    if plain {
                        assert(crate::eval::plain_form(s0, test));
                    }
                }
                let v = match self.ev(test, env, fuel) {
                    Ok(v) => v,
                    Err(c) => {
                        return Err(c);
                    },
                };
                if self.objects.truthy(v) {
                    let rest = self.objects.rest(arm);
                    proof {
                        if plain {
                            assert(fires(s0, arms@[i as int]));
                        }
                    }
                    return self.eval_body_tail(rest, env, fuel);
                }
            }
            proof {
                if plain {
                    assert(!fires(s0, arms@[i as int]));
                }
            }
            i = i + 1;
        }
        Ok(nil())
    }
}

} // verus!
