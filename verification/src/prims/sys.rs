//! The clock.

use crate::engine::Engine;
use crate::obj::Obj;
use vstd::prelude::*;

verus! {

#[verifier::external_type_specification]
#[verifier::external_body]
pub struct ExInstant(std::time::Instant);

/// Calls `std::time::Instant::now`: a reading of the monotonic clock. Nothing
/// is claimed of it.
#[verifier::external_body]
pub fn clock_now() -> (r: std::time::Instant) {
    std::time::Instant::now()
}

/// Calls `Instant::elapsed` on `start`, converting the duration to whole
/// microseconds. Nothing is claimed of the reading: it depends on the time.
#[verifier::external_body]
pub fn micros_since(start: &std::time::Instant) -> (r: i64) {
    start.elapsed().as_micros() as i64
}

impl Engine {
    /// `(sys clock)`: microseconds since the engine started.
    pub fn clock(&mut self) -> (r: Obj)
        requires
            old(self).wf(),
        ensures
            final(self).wf(),
            r.0 != 0 ==> crate::objects::spec_is(final(self).objects.mem(), r, crate::objects::INT_BITS),
            r.0 == 0 ==> final(self).objects.mem() == old(self).objects.mem() && old(self).objects.mem().len() + 5
                > crate::heap::MAX_WORDS - crate::objects::META_MAX,
    {
        let t = micros_since(&self.clock_start);
        self.objects.int_new(t)
    }
}

} // verus!
