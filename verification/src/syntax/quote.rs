//! `lit`.

use crate::engine::Engine;
use crate::obj::Obj;
use vstd::prelude::*;

verus! {

impl Engine {
    /// `(lit x)`: `x`, unevaluated.
    pub fn syntax_lit(&self, args: Obj) -> (r: Obj)
        ensures
            r == self.spec_nth(args, 0),
    {
        self.nth(args, 0)
    }
}

} // verus!
