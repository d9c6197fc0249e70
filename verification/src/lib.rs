//! An x-lang engine, verified.
//!
//! The engine is a MACHINE: it reads the word at a slot and applies an
//! operator. Objects live in one flat heap of machine words, and an object
//! reference is a byte offset into that heap, so every reflective read the
//! language performs lands back inside the heap by construction.
//!
//! | module | what it knows |
//! |---|---|
//! | [`obj`] | the four things a machine word can mean |
//! | [`heap`] | words and bytes |
//! | [`symbols`] | name to object |
//! | [`objects`] | the object model over the heap |
//! | [`value`] | one file per object kind |
//! | [`env`] | frame chains |
//! | [`collect`] | mark and sweep |
//! | [`base`] | the execution context, reachable by reflection |
//! | [`eval`] | the evaluator |
//! | [`diag`] | conditions, and how they are shown |

pub mod obj;
pub mod heap;
pub mod symbols;
pub mod objects;
pub mod value;
pub mod base;
pub mod env;
pub mod collect;
pub mod diag;
pub mod prim;
pub mod prims;
pub mod engine;
pub mod eval;
pub mod syntax;
pub mod read;
pub mod form;
pub mod session;
pub mod vocabulary;

use vstd::prelude::*;

verus! {

} // verus!
