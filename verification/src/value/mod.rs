//! One file per object kind: its constructor, its predicate, its accessors.

pub mod num;
pub mod pair;
pub mod ptr;
pub mod callable;
pub mod text;
pub mod tok;
pub mod typed;

use vstd::prelude::*;

verus! {

} // verus!
