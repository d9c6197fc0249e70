//! Callables: primitives, closures, operatives, wrappers, continuations,
//! foreign addresses, and first-class environments.
//!
//! A primitive's data word is an INDEX into the engine's instruction table.

use crate::obj::{nil, EnvId, Flags, Obj, Word};
use crate::objects::{
    spec_data, spec_is, Objects, CONT_BITS, ENV_BITS, FN_BITS, FOREIGN_BITS, OP_BITS, PRIM_BITS,
    WRAP_BITS,
};
use vstd::prelude::*;

verus! {

impl Objects {
    /// The primitive at instruction `idx`; nil when the heap is full.
    pub fn prim(&mut self, idx: usize) -> (r: Obj)
        requires
            old(self).wf(),
        ensures
            final(self).built(*old(self), r, PRIM_BITS, 0, seq![idx as u64]),
    {
        self.alloc_init(Flags(PRIM_BITS), nil(), &[idx as u64])
    }

    pub fn is_prim(&self, o: Obj) -> (r: bool)
        ensures
            r == spec_is(self.mem(), o, PRIM_BITS),
    {
        self.is(o, Flags(PRIM_BITS))
    }

    /// The instruction index a primitive carries.
    pub fn prim_idx(&self, o: Obj) -> (r: u64)
        ensures
            r == spec_data(self.mem(), o, 0),
    {
        self.data(o, 0).0
    }

    /// An address dressed as something callable. Its own kind, so that it can
    /// never alias an instruction index.
    pub fn foreign(&mut self, addr: u64) -> (r: Obj)
        requires
            old(self).wf(),
        ensures
            final(self).built(*old(self), r, FOREIGN_BITS, 0, seq![addr]),
    {
        self.alloc_init(Flags(FOREIGN_BITS), nil(), &[addr])
    }

    pub fn is_foreign(&self, o: Obj) -> (r: bool)
        ensures
            r == spec_is(self.mem(), o, FOREIGN_BITS),
    {
        self.is(o, Flags(FOREIGN_BITS))
    }

    pub fn foreign_addr(&self, o: Obj) -> (r: u64)
        ensures
            r == spec_data(self.mem(), o, 0),
    {
        self.data(o, 0).0
    }

    /// A procedure: parameters, body, and the environment it was written in.
    pub fn closure(&mut self, params: Obj, body: Obj, env: EnvId) -> (r: Obj)
        requires
            old(self).wf(),
        ensures
            final(self).built(*old(self), r, FN_BITS, 0, seq![params.0, body.0, env.0.0]),
    {
        self.alloc_init(Flags(FN_BITS), nil(), &[params.0, body.0, env.0.0])
    }

    pub fn is_closure(&self, o: Obj) -> (r: bool)
        ensures
            r == spec_is(self.mem(), o, FN_BITS),
    {
        self.is(o, Flags(FN_BITS))
    }

    pub fn closure_params(&self, o: Obj) -> (r: Obj)
        ensures
            r.0 == spec_data(self.mem(), o, 0),
    {
        self.data(o, 0).as_obj()
    }

    pub fn closure_body(&self, o: Obj) -> (r: Obj)
        ensures
            r.0 == spec_data(self.mem(), o, 1),
    {
        self.data(o, 1).as_obj()
    }

    pub fn closure_env(&self, o: Obj) -> (r: EnvId)
        ensures
            r.0.0 == spec_data(self.mem(), o, 2),
    {
        EnvId::from_word(self.data(o, 2))
    }

    /// An operative: parameters, the name its caller's environment is bound
    /// to, body, and its own environment.
    pub fn operative(&mut self, params: Obj, envname: Obj, body: Obj, env: EnvId) -> (r: Obj)
        requires
            old(self).wf(),
        ensures
            final(self).built(
                *old(self),
                r,
                OP_BITS,
                0,
                seq![params.0, envname.0, body.0, env.0.0],
            ),
    {
        self.alloc_init(Flags(OP_BITS), nil(), &[params.0, envname.0, body.0, env.0.0])
    }

    pub fn is_op(&self, o: Obj) -> (r: bool)
        ensures
            r == spec_is(self.mem(), o, OP_BITS),
    {
        self.is(o, Flags(OP_BITS))
    }

    pub fn op_params(&self, o: Obj) -> (r: Obj)
        ensures
            r.0 == spec_data(self.mem(), o, 0),
    {
        self.data(o, 0).as_obj()
    }

    pub fn op_envname(&self, o: Obj) -> (r: Obj)
        ensures
            r.0 == spec_data(self.mem(), o, 1),
    {
        self.data(o, 1).as_obj()
    }

    pub fn op_body(&self, o: Obj) -> (r: Obj)
        ensures
            r.0 == spec_data(self.mem(), o, 2),
    {
        self.data(o, 2).as_obj()
    }

    pub fn op_env(&self, o: Obj) -> (r: EnvId)
        ensures
            r.0.0 == spec_data(self.mem(), o, 3),
    {
        EnvId::from_word(self.data(o, 3))
    }

    /// A first-class environment value.
    pub fn env_obj(&mut self, id: EnvId) -> (r: Obj)
        requires
            old(self).wf(),
        ensures
            final(self).built(*old(self), r, ENV_BITS, 0, seq![id.0.0]),
    {
        self.alloc_init(Flags(ENV_BITS), nil(), &[id.0.0])
    }

    pub fn is_env(&self, o: Obj) -> (r: bool)
        ensures
            r == spec_is(self.mem(), o, ENV_BITS),
    {
        self.is(o, Flags(ENV_BITS))
    }

    pub fn env_id(&self, o: Obj) -> (r: EnvId)
        ensures
            r.0.0 == spec_data(self.mem(), o, 0),
    {
        EnvId::from_word(self.data(o, 0))
    }

    /// An escape continuation, identified by a serial number.
    pub fn cont(&mut self, id: u64) -> (r: Obj)
        requires
            old(self).wf(),
        ensures
            final(self).built(*old(self), r, CONT_BITS, 0, seq![id]),
    {
        self.alloc_init(Flags(CONT_BITS), nil(), &[id])
    }

    pub fn is_cont(&self, o: Obj) -> (r: bool)
        ensures
            r == spec_is(self.mem(), o, CONT_BITS),
    {
        self.is(o, Flags(CONT_BITS))
    }

    pub fn cont_id(&self, o: Obj) -> (r: u64)
        ensures
            r == spec_data(self.mem(), o, 0),
    {
        self.data(o, 0).0
    }

    /// An applicative wrapper around the very operative given.
    pub fn wrapper(&mut self, inner: Obj) -> (r: Obj)
        requires
            old(self).wf(),
        ensures
            final(self).built(*old(self), r, WRAP_BITS, 0, seq![inner.0]),
    {
        self.alloc_init(Flags(WRAP_BITS), nil(), &[inner.0])
    }

    pub fn is_wrapper(&self, o: Obj) -> (r: bool)
        ensures
            r == spec_is(self.mem(), o, WRAP_BITS),
    {
        self.is(o, Flags(WRAP_BITS))
    }

    pub fn wrapper_inner(&self, o: Obj) -> (r: Obj)
        ensures
            r.0 == spec_data(self.mem(), o, 0),
    {
        self.data(o, 0).as_obj()
    }
}

} // verus!
