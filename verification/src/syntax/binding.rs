//! `def` and `set!`.

use crate::diag::Cond;
use crate::engine::Engine;
use crate::eval::{ControlRec, EvalResult};
use crate::obj::{EnvId, Obj};
use crate::objects::spec_data;
use vstd::prelude::*;

verus! {

impl Engine {
    /// `(def name form)`: bind in the current frame — globally when no
    /// applicative is in progress — answering the name.
    pub fn syntax_def(&mut self, args: Obj, env: EnvId, fuel: u64) -> (r: EvalResult)
        requires
            old(self).wf(),
        ensures
            final(self).wf(),
            ({
                let s = old(self).objects.mem();
                let name = old(self).spec_nth(args, 0);
                let form = old(self).spec_nth(args, 1);
                let target = if spec_data(s, old(self).objects.save_node, 0) == 0 {
                    crate::base::spec_env_of(s, old(self).objects.base)
                } else {
                    env
                };
                let chain = Obj(spec_data(s, target.0, crate::env::CHAIN));
                crate::eval::plain_form(s, form) && fuel > 0 && old(self).alloc_limit is None ==> {
                    &&& r == Ok::<Obj, Cond>(name)
                    &&& crate::env::spec_find(s, chain, name, s.len()) matches Some(p) ==> spec_data(
                        final(self).objects.mem(),
                        p,
                        1,
                    ) == form.0
                    &&& crate::env::spec_find(s, chain, name, s.len()) is None && crate::env::in_heap(s, target.0, 3)
                        && s.len() + 2 * (crate::objects::META_MAX + 6) <= crate::heap::MAX_WORDS
                        ==> crate::env::spec_lookup(final(self).objects.mem(), target.0, name, final(self).objects.mem().len())
                        == Some(form.0)
                }
            }),
        decreases fuel, 9u64,
    {
        let name = self.nth(args, 0);
        let form = self.nth(args, 1);
        let depth = self.active_evals;
        self.rec_push(ControlRec::Bind { name, env, set: false, depth });
        let step = self.ev(form, env, fuel);
        self.rec_pop();
        let v = match step {
            Ok(v) => v,
            Err(c) => {
                return Err(c);
            },
        };
        let target = if self.nothing_pending() {
            self.current_env()
        } else {
            env
        };
        self.envs.bind(&mut self.objects, target, name, v);
        Ok(name)
    }

    /// `(set! name form)`: rebind where the name lives; an unbound name
    /// raises.
    pub fn syntax_set(&mut self, args: Obj, env: EnvId, fuel: u64) -> (r: EvalResult)
        requires
            old(self).wf(),
        ensures
            final(self).wf(),
            ({
                let s = old(self).objects.mem();
                let name = old(self).spec_nth(args, 0);
                let form = old(self).spec_nth(args, 1);
                crate::eval::plain_form(s, form) && fuel > 0 && old(self).alloc_limit is None ==> {
                    &&& crate::env::spec_lookup(s, env.0, name, s.len()) is Some ==> r == Ok::<Obj, Cond>(form)
                    &&& crate::env::spec_lookup(s, env.0, name, s.len()) is None ==> r == Err::<Obj, Cond>(
                        Cond::Unbound(name),
                    ) && final(self).objects.mem() == s
                }
            }),
        decreases fuel, 9u64,
    {
        let name = self.nth(args, 0);
        let form = self.nth(args, 1);
        let depth = self.active_evals;
        self.rec_push(ControlRec::Bind { name, env, set: true, depth });
        let step = self.ev(form, env, fuel);
        self.rec_pop();
        let v = match step {
            Ok(v) => v,
            Err(c) => {
                return Err(c);
            },
        };
        if self.envs.set_existing(&mut self.objects, env, name, v) {
            Ok(v)
        } else {
            Err(Cond::Unbound(name))
        }
    }
}

} // verus!
