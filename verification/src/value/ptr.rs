//! Pointers: a byte offset into the heap, carried as a value.

use crate::obj::{nil, Addr, Flags, Obj};
use crate::objects::{spec_is, Objects, PTR_BITS};
use vstd::prelude::*;

verus! {

impl Objects {
    /// A pointer carrying `at`; nil when the heap is full.
    pub fn ptr(&mut self, at: Addr) -> (r: Obj)
        requires
            old(self).wf(),
        ensures
            final(self).built(*old(self), r, PTR_BITS, 0, seq![at.0]),
    {
        self.alloc_init(Flags(PTR_BITS), nil(), &[at.0])
    }

    pub fn is_ptr(&self, o: Obj) -> (r: bool)
        ensures
            r == spec_is(self.mem(), o, PTR_BITS),
    {
        self.is(o, Flags(PTR_BITS))
    }
}

} // verus!
