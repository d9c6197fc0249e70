//! The special forms: each receives its operand FORMS and the environment.

pub mod binding;
pub mod closure;
pub mod control;
pub mod quote;

use vstd::prelude::*;

verus! {

} // verus!
