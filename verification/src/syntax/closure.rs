//! `fn` and `op`.

use crate::engine::Engine;
use crate::eval::EvalResult;
use crate::obj::{EnvId, Obj};
use crate::objects::{made, spec_data, FN_BITS, OP_BITS};
use vstd::prelude::*;

verus! {

impl Engine {
    /// `(fn params body...)`: a procedure closed over `env`. Its first
    /// parameter is bound to the procedure itself.
    pub fn syntax_fn(&mut self, args: Obj, env: EnvId) -> (r: EvalResult)
        requires
            old(self).wf(),
        ensures
            final(self).wf(),
            r matches Ok(c) && (c.0 != 0 ==> made(
                old(self).objects.mem(),
                final(self).objects.mem(),
                c,
                FN_BITS,
                0,
                seq![old(self).spec_nth(args, 0).0, spec_data(old(self).objects.mem(), args, 1), env.0.0],
            )),
            r matches Ok(c) && (c.0 == 0 ==> old(self).objects.mem().len() + 7 > crate::heap::MAX_WORDS
                - crate::objects::META_MAX),
    {
        let params = self.nth(args, 0);
        let body = self.objects.rest(args);
        Ok(self.objects.closure(params, body, env))
    }

    /// `(op params envname body...)`: an operative closed over `env`.
    pub fn syntax_op(&mut self, args: Obj, env: EnvId) -> (r: EvalResult)
        requires
            old(self).wf(),
        ensures
            final(self).wf(),
            r matches Ok(c) && (c.0 != 0 ==> made(
                old(self).objects.mem(),
                final(self).objects.mem(),
                c,
                OP_BITS,
                0,
                seq![
                    old(self).spec_nth(args, 0).0,
                    old(self).spec_nth(args, 1).0,
                    spec_data(old(self).objects.mem(), Obj(spec_data(old(self).objects.mem(), args, 1)), 1),
                    env.0.0,
                ],
            )),
            r matches Ok(c) && (c.0 == 0 ==> old(self).objects.mem().len() + 8 > crate::heap::MAX_WORDS
                - crate::objects::META_MAX),
    {
        let params = self.nth(args, 0);
        let envname = self.nth(args, 1);
        let rest = self.objects.rest(args);
        let body = self.objects.rest(rest);
        Ok(self.objects.operative(params, envname, body, env))
    }
}

} // verus!
