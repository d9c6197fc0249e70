//! The names the engine and the language agree on.

use vstd::prelude::*;
use vstd::string::StringSliceAdditionalSpecFns;

verus! {

/// A handler family: the slot of a type a handler is filed under.
#[derive(Clone, Copy, PartialEq, Eq, Debug, Structural)]
pub enum Family {
    Mark,
    Make,
    Free,
    Clone,
    Units,
    Length,
    Call,
    Eval,
    From,
    To,
    Analyse,
    Delimit,
    Read,
    Write,
    Display,
    Iter,
    Ops,
    Data,
}

/// How many families there are.
pub const N_FAMILIES: usize = 18;

/// The family at position `i` of the declared order.
pub open spec fn spec_family_at(i: int) -> Family {
    if i == 0 { Family::Mark }
    else if i == 1 { Family::Make }
    else if i == 2 { Family::Free }
    else if i == 3 { Family::Clone }
    else if i == 4 { Family::Units }
    else if i == 5 { Family::Length }
    else if i == 6 { Family::Call }
    else if i == 7 { Family::Eval }
    else if i == 8 { Family::From }
    else if i == 9 { Family::To }
    else if i == 10 { Family::Analyse }
    else if i == 11 { Family::Delimit }
    else if i == 12 { Family::Read }
    else if i == 13 { Family::Write }
    else if i == 14 { Family::Display }
    else if i == 15 { Family::Iter }
    else if i == 16 { Family::Ops }
    else { Family::Data }
}

/// The spelling of each family, as bytes.
pub open spec fn spec_family_name(f: Family) -> Seq<u8> {
    match f {
        Family::Mark => "mark".spec_bytes(),
        Family::Make => "make".spec_bytes(),
        Family::Free => "free".spec_bytes(),
        Family::Clone => "clone".spec_bytes(),
        Family::Units => "units".spec_bytes(),
        Family::Length => "length".spec_bytes(),
        Family::Call => "call".spec_bytes(),
        Family::Eval => "eval".spec_bytes(),
        Family::From => "from".spec_bytes(),
        Family::To => "to".spec_bytes(),
        Family::Analyse => "analyse".spec_bytes(),
        Family::Delimit => "delimit".spec_bytes(),
        Family::Read => "read".spec_bytes(),
        Family::Write => "write".spec_bytes(),
        Family::Display => "display".spec_bytes(),
        Family::Iter => "iter".spec_bytes(),
        Family::Ops => "ops".spec_bytes(),
        Family::Data => "data".spec_bytes(),
    }
}

/// The family at position `i` of the declared order.
pub fn family_at(i: usize) -> (r: Family)
    requires
        i < N_FAMILIES,
    ensures
        r == spec_family_at(i as int),
{
    match i {
        0 => Family::Mark,
        1 => Family::Make,
        2 => Family::Free,
        3 => Family::Clone,
        4 => Family::Units,
        5 => Family::Length,
        6 => Family::Call,
        7 => Family::Eval,
        8 => Family::From,
        9 => Family::To,
        10 => Family::Analyse,
        11 => Family::Delimit,
        12 => Family::Read,
        13 => Family::Write,
        14 => Family::Display,
        15 => Family::Iter,
        16 => Family::Ops,
        _ => Family::Data,
    }
}

/// Every family, in declared order.
pub fn all_families() -> (r: Vec<Family>)
    ensures
        r@.len() == N_FAMILIES,
        forall|i: int| 0 <= i < N_FAMILIES ==> r@[i] == spec_family_at(i),
{
    let mut v: Vec<Family> = Vec::new();
    let mut i: usize = 0;
    while i < N_FAMILIES
        invariant
            i <= N_FAMILIES,
            v@.len() == i,
            forall|k: int| 0 <= k < i ==> v@[k] == spec_family_at(k),
        decreases N_FAMILIES - i,
    {
        v.push(family_at(i));
        i = i + 1;
    }
    v
}

/// Where each family stands in the declared order.
pub open spec fn spec_family_index(f: Family) -> int {
    match f {
        Family::Mark => 0,
        Family::Make => 1,
        Family::Free => 2,
        Family::Clone => 3,
        Family::Units => 4,
        Family::Length => 5,
        Family::Call => 6,
        Family::Eval => 7,
        Family::From => 8,
        Family::To => 9,
        Family::Analyse => 10,
        Family::Delimit => 11,
        Family::Read => 12,
        Family::Write => 13,
        Family::Display => 14,
        Family::Iter => 15,
        Family::Ops => 16,
        Family::Data => 17,
    }
}

impl Family {
    /// The family's spelling.
    pub fn name(self) -> (r: &'static str)
        ensures
            r.spec_bytes() == spec_family_name(self),
    {
        match self {
            Family::Mark => "mark",
            Family::Make => "make",
            Family::Free => "free",
            Family::Clone => "clone",
            Family::Units => "units",
            Family::Length => "length",
            Family::Call => "call",
            Family::Eval => "eval",
            Family::From => "from",
            Family::To => "to",
            Family::Analyse => "analyse",
            Family::Delimit => "delimit",
            Family::Read => "read",
            Family::Write => "write",
            Family::Display => "display",
            Family::Iter => "iter",
            Family::Ops => "ops",
            Family::Data => "data",
        }
    }

    /// The family spelled by these bytes: the first in declared order.
    pub fn from_name_bytes(name: &[u8]) -> (r: Option<Family>)
        ensures
            r matches Some(f) ==> name@ == spec_family_name(f),
            r is None ==> forall|f: Family| name@ != #[trigger] spec_family_name(f),
    {
        let mut i: usize = 0;
        while i < N_FAMILIES
            invariant
                i <= N_FAMILIES,
                forall|f: Family| spec_family_index(f) < i ==> name@ != #[trigger] spec_family_name(f),
            decreases N_FAMILIES - i,
        {
            let f = family_at(i);
            if crate::symbols::bytes_eq(f.name().as_bytes(), name) {
                return Some(f);
            }
            proof {
                assert forall|g: Family| spec_family_index(g) < i + 1 implies name@ != #[trigger] spec_family_name(g) by {
                    if spec_family_index(g) == i {
                        assert(g == f);
                    }
                }
            }
            i = i + 1;
        }
        None
    }

    /// The family with this name, if any.
    pub fn from_name(name: &str) -> (r: Option<Family>)
        ensures
            r matches Some(f) ==> name.spec_bytes() == spec_family_name(f),
            r is None ==> forall|f: Family| name.spec_bytes() != #[trigger] spec_family_name(f),
    {
        Family::from_name_bytes(name.as_bytes())
    }
}

/// Each named character and its code.
pub open spec fn spec_char_name(i: usize) -> (&'static str, u32) {
    match i {
        0 => ("alarm", 7),
        1 => ("backspace", 8),
        2 => ("delete", 127),
        3 => ("escape", 27),
        4 => ("newline", 10),
        5 => ("null", 0),
        6 => ("return", 13),
        7 => ("space", 32),
        _ => ("tab", 9),
    }
}

/// The nine named characters, in the order the reader tries them.
pub fn char_name(i: usize) -> (r: (&'static str, u32))
    requires
        i < 9,
    ensures
        r == spec_char_name(i),
{
    match i {
        0 => ("alarm", 7),
        1 => ("backspace", 8),
        2 => ("delete", 127),
        3 => ("escape", 27),
        4 => ("newline", 10),
        5 => ("null", 0),
        6 => ("return", 13),
        7 => ("space", 32),
        _ => ("tab", 9),
    }
}

pub const OPAQUE_OPEN: &'static str = "#<";
pub const OPAQUE_CLOSE: &'static str = ">";
/// The name an unnamed type renders with.
pub const UNNAMED: &'static str = "?";
pub const MSG_CANNOT_INCLUDE: &'static str = "cannot include ";
pub const MSG_NOT_AN_ENV: &'static str = "tail-eval: not an environment";
pub const MSG_NO_PROGRAM: &'static str = "cannot read program from stdin";
pub const MSG_ALLOC_LIMIT: &'static str = "allocation limit exceeded";
pub const MSG_TOO_DEEP: &'static str = "evaluation nested too deeply";
pub const MSG_NOT_RESUMABLE: &'static str = "continuation: extent is not resumable";
pub const MSG_UNBOUND: &'static str = "Unbound SYMBOL '";
pub const MSG_IMPROPER_ARGS: &'static str = "improper argument list";
pub const MSG_UNTERMINATED: &'static str = "Unterminated input";
pub const MSG_STOP: &'static str = "STOP";
pub const MSG_NO_CVT_RELATION: &'static str = "no conversion relates the operands' types: ";
pub const CHAR_PREFIX: &'static str = "#\\";
pub const CHAR_UNKNOWN: &'static str = "?";
pub const TRUE: &'static str = "#t";
pub const FALSE: &'static str = "#f";
pub const ARGS: &'static str = "args";
pub const TOKEN_EOF: &'static str = "%token-eof";
pub const SIGINT_FLAG: &'static str = "%sigint-flag";
pub const LIT: &'static str = "lit";

/// `#<name>`: how a value with no printed form renders.
pub fn opaque(name: &str) -> (r: String)
    ensures
        r@ == crate::value::text::lossy_text(
            OPAQUE_OPEN.spec_bytes() + name.spec_bytes() + OPAQUE_CLOSE.spec_bytes(),
        ),
{
    let out = opaque_bytes(name.as_bytes());
    crate::value::text::text_of_bytes(out.as_slice())
}

/// `#<name>`, as bytes.
pub fn opaque_bytes(name: &[u8]) -> (r: Vec<u8>)
    ensures
        r@ == OPAQUE_OPEN.spec_bytes() + name@ + OPAQUE_CLOSE.spec_bytes(),
{
    let mut out: Vec<u8> = Vec::new();
    out.extend_from_slice(OPAQUE_OPEN.as_bytes());
    out.extend_from_slice(name);
    out.extend_from_slice(OPAQUE_CLOSE.as_bytes());
    out
}

} // verus!
