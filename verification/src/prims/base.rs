//! Bases as values: make one, evaluate in one, bind into one.

use crate::engine::Engine;
use crate::eval::EvalResult;
use crate::obj::{EnvId, Obj};
use vstd::prelude::*;

verus! {

impl Engine {
    /// `(base eval b form)`: evaluate `form` in base `b`, with `b`'s name
    /// table current, then come back.
    pub fn base_eval(&mut self, b: Obj, form: Obj, fuel: u64) -> (r: EvalResult)
        requires
            old(self).wf(),
        ensures
            final(self).wf(),
        decreases fuel, 9u64,
    {
        let prev = self.objects.base;
        self.enter(b);
        let env = self.base_env(b);
        let out = self.ev(form, env, fuel);
        self.enter(prev);
        out
    }

    /// `(base bind b name value)`: bind in `b`'s root frame.
    pub fn base_bind(&mut self, b: Obj, name: Obj, value: Obj) -> (r: Obj)
        requires
            old(self).wf(),
        ensures
            final(self).wf(),
            r == value,
    {
        let env = self.base_env(b);
        self.envs.bind(&mut self.objects, env, name, value);
        value
    }
}

} // verus!
