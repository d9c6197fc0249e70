//! The instruction table: one row per primitive.
//!
//! A row names what the primitive is bound to — a bare name, a catalog
//! coordinate, or both — how many operands it reads, and which instruction
//! runs it. A primitive object's data word is its row's index.

use vstd::prelude::*;

verus! {

/// Every instruction the engine can run.
#[derive(Clone, Copy, PartialEq, Eq, Debug, Structural)]
pub enum PrimId {
    Def,
    SetBang,
    Fn,
    Op,
    Sequence,
    Error,
    Guard,
    Match,
    Lit,
    EvalIn,
    EvalHere,
    Apply,
    Atomic,
    Wrap,
    Unwrap,
    TailEval,
    Base,
    ProcedureEntry,
    OperativeEntry,
    WrapEntry,
    ContEntry,
    CallableCall,
    ListCall,
    SymEval,
    ListEval,
    BaseMake,
    BaseEval,
    BaseBind,
    CallCc,
    CcInvoke,
    Add,
    Sub,
    Mul,
    BitAnd,
    BitOr,
    BitXor,
    Shl,
    Shr,
    BitNot,
    Lt,
    NumEq,
    Div,
    Rem,
    CharToInt,
    IntToChar,
    Eq,
    Same,
    First,
    Rest,
    Pair,
    TypeMake,
    TypeOf,
    TypeIs,
    MakeInstance,
    ObjMake,
    MakeCallable,
    StrMake,
    StrByteLen,
    StrByteRef,
    StrByteSub,
    StrAppend,
    StrToSym,
    SymToStr,
    BytesToStr,
    ObjToPtr,
    PtrToObj,
    PtrToInt,
    IntToPtr,
    StrToPtr,
    PtrToStr,
    PtrRef,
    PtrSet,
    PtrRefWord,
    PtrSetWord,
    MemCompare,
    MemCopy,
    MemSet,
    MemAlloc,
    MemFree,
    IterMake,
    IterNext,
    IterEmpty,
    IterStep,
    Include,
    WriteStr,
    ReadChar,
    ReadForm,
    ReplRead,
    EngineRender,
    HeapCount,
    HeapCollect,
    HeapMark,
    HeapSweep,
    HeapPin,
    HeapCheck,
    MarkHook,
    FreeHook,
    MarkRoot,
    AllocLimit,
    Clock,
    SigintInstall,
    SigintRestore,
    BufMake,
    BufRead,
    BufTok,
    BufLastChar,
    BufRetain,
    BufReset,
    BufAppend,
    BufReadText,
    TokReadStr,
    TokRead,
    BaseMakeTok,
    BaseMakeType,
}

/// One row of the instruction table.
#[derive(Clone, Copy)]
pub struct PrimDef {
    /// The name it is bound to in every base, if any.
    pub bare: Option<&'static str>,
    /// Its catalog coordinate, namespace then method, if any.
    pub coord: Option<(&'static str, &'static str)>,
    /// How many operands it reads, at least and at most.
    pub arity: (usize, Option<usize>),
    /// What runs it.
    pub f: PrimId,
}

impl PrimDef {
    /// A row reading exactly `n` operands.
    pub fn row(
        bare: Option<&'static str>,
        coord: Option<(&'static str, &'static str)>,
        n: usize,
        f: PrimId,
    ) -> (r: PrimDef)
        ensures
            r.bare == bare,
            r.coord == coord,
            r.arity == (n, Some(n)),
            r.f == f,
    {
        PrimDef { bare, coord, arity: (n, Some(n)), f }
    }
}

} // verus!
