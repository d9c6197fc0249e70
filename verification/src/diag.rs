//! Conditions, and how they are shown.
//!
//! A raise carries a value; the engine's own refusals are conditions that
//! become text when caught. The diagnostic line carries the contract prefix.

use crate::obj::{word_signed, Obj};
use crate::objects::{spec_data, spec_is, Objects, INT_BITS, STR_BITS, SYM_BITS};
use crate::value::text::{lossy_text, spec_text, text_of_bytes};
use vstd::prelude::*;
use vstd::string::StringSliceAdditionalSpecFns;

verus! {

/// The prefix every diagnostic line starts with.
pub const PREFIX: &'static str = "*** ERROR: ";

/// Why evaluation stopped.
#[derive(Debug)]
pub enum Cond {
    /// `(error v)`: a value raised by the program.
    Raised(Obj),
    /// A symbol with no binding.
    Unbound(Obj),
    /// An include whose source could not be had.
    CannotInclude(Vec<u8>),
    /// `tail-eval` handed something that is not an environment.
    NotAnEnvironment(Obj),
    /// No program could be read.
    NoProgram,
    /// The allocation ceiling was passed.
    AllocLimit,
    /// Evaluation nested deeper than the engine allows.
    TooDeep,
    /// A continuation re-entered after its extent whose capture did not
    /// describe every nested evaluation.
    NotResumable,
}

/// The decimal spelling of a signed integer.
pub open spec fn spec_decimal(v: int) -> Seq<u8>
    decreases (if v < 0 { -v } else { v }), (if v < 0 { 1int } else { 0int }),
{
    if v < 0 {
        seq![45u8] + spec_decimal(-v)
    } else if v < 10 {
        seq![(48 + v) as u8]
    } else {
        spec_decimal(v / 10) + seq![(48 + v % 10) as u8]
    }
}

/// Append the decimal spelling of an unsigned integer.
fn push_unsigned(out: &mut Vec<u8>, v: u64)
    ensures
        final(out)@ == old(out)@ + spec_decimal(v as int),
    decreases v,
{
    if v >= 10 {
        push_unsigned(out, v / 10);
    }
    out.push((48 + v % 10) as u8);
}

/// Append the decimal spelling of a signed integer.
pub fn push_decimal(out: &mut Vec<u8>, v: i64)
    ensures
        final(out)@ == old(out)@ + spec_decimal(v as int),
{
    if v < 0 {
        out.push(45u8);
        let m: u64 = if v == i64::MIN {
            0x8000_0000_0000_0000u64
        } else {
            (-v) as u64
        };
        push_unsigned(out, m);
        proof {
            assert(spec_decimal(v as int) == seq![45u8] + spec_decimal(-(v as int)));
        }
    } else {
        push_unsigned(out, v as u64);
    }
}

/// Append the UTF-8 encoding of a code point; a value that is no character
/// appends nothing and answers false.
pub open spec fn spec_utf8_bytes(c: u32) -> Option<Seq<u8>> {
    if c < 0x80 {
        Some(seq![c as u8])
    } else if c < 0x800 {
        Some(seq![(0xC0 | (c >> 6)) as u8, (0x80 | (c & 0x3F)) as u8])
    } else if c < 0x10000 {
        if c >= 0xD800 && c < 0xE000 {
            None
        } else {
            Some(seq![(0xE0 | (c >> 12)) as u8, (0x80 | ((c >> 6) & 0x3F)) as u8, (0x80 | (c & 0x3F)) as u8])
        }
    } else if c < 0x110000 {
        Some(
            seq![
                (0xF0 | (c >> 18)) as u8,
                (0x80 | ((c >> 12) & 0x3F)) as u8,
                (0x80 | ((c >> 6) & 0x3F)) as u8,
                (0x80 | (c & 0x3F)) as u8,
            ],
        )
    } else {
        None
    }
}

/// Append the UTF-8 encoding of `c`, as `spec_utf8_bytes` spells it.
pub fn push_utf8(out: &mut Vec<u8>, c: u32) -> (r: bool)
    ensures
        r ==> final(out)@.len() > old(out)@.len(),
        !r ==> final(out)@ == old(out)@,
        r == spec_utf8_bytes(c) is Some,
        r ==> final(out)@ == old(out)@ + spec_utf8_bytes(c)->0,
{
    if c < 0x80 {
        out.push(c as u8);
        true
    } else if c < 0x800 {
        out.push((0xC0 | (c >> 6)) as u8);
        out.push((0x80 | (c & 0x3F)) as u8);
        true
    } else if c < 0x10000 {
        if c >= 0xD800 && c < 0xE000 {
            return false;
        }
        out.push((0xE0 | (c >> 12)) as u8);
        out.push((0x80 | ((c >> 6) & 0x3F)) as u8);
        out.push((0x80 | (c & 0x3F)) as u8);
        true
    } else if c < 0x110000 {
        out.push((0xF0 | (c >> 18)) as u8);
        out.push((0x80 | ((c >> 12) & 0x3F)) as u8);
        out.push((0x80 | ((c >> 6) & 0x3F)) as u8);
        out.push((0x80 | (c & 0x3F)) as u8);
        true
    } else {
        false
    }
}

/// A condition's diagnostic line.
pub struct Diagnostic {
    pub bytes: Vec<u8>,
}

impl Diagnostic {
    /// The line, as text.
    pub fn to_string(&self) -> (r: String)
        ensures
            r@ == lossy_text(self.bytes@),
    {
        text_of_bytes(self.bytes.as_slice())
    }
}

/// A condition's message as bytes: a raised value as the printer spells
/// it, every other condition by its words; None where the printer's
/// spelling is left open.
pub open spec fn spec_message(a: Objects, c: Cond) -> Option<Seq<u8>> {
    match c {
        Cond::Raised(v) => spec_render(a, v, 0),
        Cond::Unbound(sym) => Some(crate::vocabulary::MSG_UNBOUND.spec_bytes() + spec_text(a.mem(), sym) + seq![39u8]),
        Cond::CannotInclude(path) => Some(crate::vocabulary::MSG_CANNOT_INCLUDE.spec_bytes() + path@),
        Cond::NotAnEnvironment(_) => Some(crate::vocabulary::MSG_NOT_AN_ENV.spec_bytes()),
        Cond::NoProgram => Some(crate::vocabulary::MSG_NO_PROGRAM.spec_bytes()),
        Cond::AllocLimit => Some(crate::vocabulary::MSG_ALLOC_LIMIT.spec_bytes()),
        Cond::TooDeep => Some(crate::vocabulary::MSG_TOO_DEEP.spec_bytes()),
        Cond::NotResumable => Some(crate::vocabulary::MSG_NOT_RESUMABLE.spec_bytes()),
    }
}

impl Cond {
    /// The condition as bytes of text.
    pub fn message_bytes(&self, a: &Objects) -> (r: Vec<u8>)
        requires
            a.wf(),
        ensures
            self matches Cond::Raised(v) ==> (spec_atom_text(a.mem(), *v) matches Some(t) ==> r@ == t),
            self matches Cond::Unbound(sym) ==> r@ == crate::vocabulary::MSG_UNBOUND.spec_bytes() + spec_text(
                a.mem(),
                *sym,
            ) + seq![39u8],
            self matches Cond::CannotInclude(path) ==> r@ == crate::vocabulary::MSG_CANNOT_INCLUDE.spec_bytes()
                + path@,
            self is NotAnEnvironment ==> r@ == crate::vocabulary::MSG_NOT_AN_ENV.spec_bytes(),
            self is NoProgram ==> r@ == crate::vocabulary::MSG_NO_PROGRAM.spec_bytes(),
            self is AllocLimit ==> r@ == crate::vocabulary::MSG_ALLOC_LIMIT.spec_bytes(),
            self is TooDeep ==> r@ == crate::vocabulary::MSG_TOO_DEEP.spec_bytes(),
            self is NotResumable ==> r@ == crate::vocabulary::MSG_NOT_RESUMABLE.spec_bytes(),
            spec_message(*a, *self) matches Some(t) ==> r@ == t,
    {
        match self {
            Cond::Raised(v) => render_bytes(a, *v),
            Cond::Unbound(sym) => {
                let mut out: Vec<u8> = Vec::new();
                out.extend_from_slice(crate::vocabulary::MSG_UNBOUND.as_bytes());
                let name = a.bytes_of(*sym);
                out.extend_from_slice(name.as_slice());
                out.push(39u8);
                out
            },
            Cond::CannotInclude(path) => {
                let mut out: Vec<u8> = Vec::new();
                out.extend_from_slice(crate::vocabulary::MSG_CANNOT_INCLUDE.as_bytes());
                out.extend_from_slice(path.as_slice());
                out
            },
            Cond::NotAnEnvironment(_) => bytes_of_str(crate::vocabulary::MSG_NOT_AN_ENV),
            Cond::NoProgram => bytes_of_str(crate::vocabulary::MSG_NO_PROGRAM),
            Cond::AllocLimit => bytes_of_str(crate::vocabulary::MSG_ALLOC_LIMIT),
            Cond::TooDeep => bytes_of_str(crate::vocabulary::MSG_TOO_DEEP),
            Cond::NotResumable => bytes_of_str(crate::vocabulary::MSG_NOT_RESUMABLE),
        }
    }

    /// The condition as text.
    pub fn message(&self, a: &Objects) -> (r: String)
        requires
            a.wf(),
        ensures
            exists|b: Seq<u8>| r@ == lossy_text(b) && (self matches Cond::Unbound(sym) ==> b
                == crate::vocabulary::MSG_UNBOUND.spec_bytes() + spec_text(a.mem(), *sym) + seq![39u8]),
            spec_message(*a, *self) matches Some(t) ==> r@ == lossy_text(t) && ((forall|i: int|
                0 <= i < t.len() ==> t[i] < 128) ==> r@ == crate::value::text::ascii_text(t)),
    {
        let b = self.message_bytes(a);
        text_of_bytes(b.as_slice())
    }

    /// The value a guard binds: a raised value itself, anything else its
    /// message as a fresh string.
    pub fn value(&self, a: &mut Objects) -> (r: Obj)
        requires
            old(a).wf(),
        ensures
            final(a).only_grew(*old(a)),
            self matches Cond::Raised(v) ==> r == v && *final(a) == *old(a),
            !(self is Raised) && r.0 != 0 ==> spec_is(final(a).mem(), r, crate::objects::STR_BITS)
                && crate::value::text::stored_at(
                final(a).mem(),
                spec_data(final(a).mem(), r, 0),
                spec_message(*old(a), *self)->0,
            ),
            !(self is Raised) && r.0 == 0 ==> crate::value::text::no_room_for_text(
                old(a).mem().len(),
                spec_message(*old(a), *self)->0.len(),
            ),
    {
        match self {
            Cond::Raised(v) => {
                proof {
                    crate::objects::lemma_grew_refl(a.mem());
                }
                *v
            },
            _ => {
                let text = self.message_bytes(a);
                a.str_from_bytes(text.as_slice())
            },
        }
    }

    /// The diagnostic line: the contract prefix, then the message.
    pub fn diagnostic(&self, objects: &Objects) -> (r: Diagnostic)
        requires
            objects.wf(),
        ensures
            r.bytes@.len() >= PREFIX.spec_bytes().len(),
            r.bytes@.subrange(0, PREFIX.spec_bytes().len() as int) == PREFIX.spec_bytes(),
    {
        let mut out: Vec<u8> = Vec::new();
        out.extend_from_slice(PREFIX.as_bytes());
        let ghost p = out@;
        let m = self.message_bytes(objects);
        out.extend_from_slice(m.as_slice());
        proof {
            assert(out@.subrange(0, p.len() as int) =~= p);
        }
        Diagnostic { bytes: out }
    }
}

/// A string slice's bytes, owned.
pub fn bytes_of_str(s: &str) -> (r: Vec<u8>)
    ensures
        r@ == s.spec_bytes(),
{
    let mut out: Vec<u8> = Vec::new();
    out.extend_from_slice(s.as_bytes());
    out
}

/// How an atom prints: nil as `()`, a string or symbol as its bytes, an
/// integer in decimal; None for every other kind.
pub open spec fn spec_atom_text(s: Seq<u64>, v: Obj) -> Option<Seq<u8>> {
    if v.0 == 0 {
        Some(seq![40u8, 41u8])
    } else if spec_is(s, v, STR_BITS) || spec_is(s, v, SYM_BITS) {
        Some(spec_text(s, v))
    } else if spec_is(s, v, INT_BITS) {
        Some(spec_decimal(word_signed(spec_data(s, v, 0)) as int))
    } else {
        None
    }
}

/// How the printer spells `v` at nesting `depth`: nil as `()`, strings and
/// symbols by their bytes, integers in decimal, characters after `#\\`,
/// cells as a list of at most eight elements, `...` four levels down, and
/// a value of a named type as `#<name>`; None for a value the model gives no
/// name to print by.
pub open spec fn spec_render(o: Objects, v: Obj, depth: int) -> Option<Seq<u8>>
    decreases 4 - depth, 9int,
{
    let s = o.mem();
    if v.0 == 0 {
        Some(seq![40u8, 41u8])
    } else if spec_is(s, v, STR_BITS) || spec_is(s, v, SYM_BITS) {
        Some(spec_text(s, v))
    } else if spec_is(s, v, INT_BITS) {
        Some(spec_decimal(word_signed(spec_data(s, v, 0)) as int))
    } else if spec_is(s, v, crate::objects::CHAR_BITS) {
        let c = (spec_data(s, v, 0) % 0x1_0000_0000) as u32;
        Some(crate::vocabulary::CHAR_PREFIX.spec_bytes() + match spec_utf8_bytes(c) {
            Some(b) => b,
            None => crate::vocabulary::CHAR_UNKNOWN.spec_bytes(),
        })
    } else if depth >= 4 {
        Some(seq![46u8, 46u8, 46u8])
    } else if spec_is(s, v, crate::objects::PAIR_BITS) || spec_is(s, v, crate::objects::SPAIR_BITS) {
        match spec_render_list(o, v, 0, depth) {
            Some(b) => Some(seq![40u8] + b + seq![41u8]),
            None => None,
        }
    } else if o.carries_type(v) {
        let h = o.spec_handle_of(Obj(crate::objects::spec_type_word(s, v)));
        Some(crate::vocabulary::OPAQUE_OPEN.spec_bytes() + (if h == 0 {
            crate::vocabulary::UNNAMED.spec_bytes()
        } else {
            spec_text(s, Obj(h))
        }) + crate::vocabulary::OPAQUE_CLOSE.spec_bytes())
    } else {
        None
    }
}

/// How the printer spells the elements of a list from cell `at`, the `n`th
/// element on, inside a list at nesting `depth`: separated by spaces, eight
/// at most, then ` . ` and whatever follows them when that is not nil, or
/// ` ...` after exactly eight.
pub open spec fn spec_render_list(o: Objects, at: Obj, n: int, depth: int) -> Option<Seq<u8>>
    decreases 4 - depth, 8 - n,
{
    let s = o.mem();
    let cell = spec_is(s, at, crate::objects::PAIR_BITS) || spec_is(s, at, crate::objects::SPAIR_BITS);
    if depth < 4 && 0 <= n && cell && n < 8 {
        match (spec_render(o, Obj(spec_data(s, at, 0)), depth + 1), spec_render_list(o, Obj(spec_data(s, at, 1)), n + 1, depth)) {
            (Some(x), Some(y)) => Some((if n > 0 { seq![32u8] } else { Seq::<u8>::empty() }) + x + y),
            _ => None,
        }
    } else if depth < 4 && at.0 != 0 {
        match spec_render(o, at, depth + 1) {
            Some(x) => Some(seq![32u8, 46u8, 32u8] + x),
            None => None,
        }
    } else if n == 8 {
        Some(seq![32u8, 46u8, 46u8, 46u8])
    } else {
        Some(Seq::<u8>::empty())
    }
}

/// A prefix of a prefix is a prefix.
proof fn lemma_prefix_trans(x: Seq<u8>, y: Seq<u8>, z: Seq<u8>)
    requires
        y.len() >= x.len(),
        y.subrange(0, x.len() as int) == x,
        z.len() >= y.len(),
        z.subrange(0, y.len() as int) == y,
    ensures
        z.subrange(0, x.len() as int) == x,
{
    assert(z.subrange(0, x.len() as int) =~= y.subrange(0, x.len() as int));
}

/// How a value prints, as text.
pub fn value_text(a: &Objects, v: Obj) -> (r: String)
    requires
        a.wf(),
    ensures
        spec_atom_text(a.mem(), v) matches Some(t) ==> r@ == lossy_text(t),
        spec_render(*a, v, 0) matches Some(t) ==> r@ == lossy_text(t) && ((forall|i: int|
            0 <= i < t.len() ==> t[i] < 128) ==> r@ == crate::value::text::ascii_text(t)),
{
    let b = render_bytes(a, v);
    text_of_bytes(b.as_slice())
}

/// How a value prints, as bytes.
pub fn render_bytes(a: &Objects, v: Obj) -> (r: Vec<u8>)
    requires
        a.wf(),
    ensures
        spec_atom_text(a.mem(), v) matches Some(t) ==> r@ == t,
        spec_render(*a, v, 0) matches Some(t) ==> r@ == t,
{
    let mut out: Vec<u8> = Vec::new();
    render(a, v, 0, &mut out);
    proof {
        assert(out@ =~= Seq::<u8>::empty() + out@);
    }
    out
}

/// Nil is `()`; strings and symbols print their bytes; integers in decimal;
/// characters after `#\`; lists in parentheses, eight elements and four levels
/// deep at most, a tail that is not nil after ` . `; anything else as
/// `#<type-name>`.
fn render(a: &Objects, v: Obj, depth: usize, out: &mut Vec<u8>)
    requires
        a.wf(),
        depth <= 4,
    ensures
        spec_atom_text(a.mem(), v) matches Some(t) ==> final(out)@ == old(out)@ + t,
        spec_render(*a, v, depth as int) matches Some(t) ==> final(out)@ == old(out)@ + t,
        final(out)@.len() >= old(out)@.len(),
        final(out)@.subrange(0, old(out)@.len() as int) == old(out)@,
    decreases 4 - depth,
{
    let ghost out0 = out@;
    if v.0 == 0 {
        out.push(40u8);
        out.push(41u8);
        return;
    }
    if a.is_str(v) || a.is_sym(v) {
        let b = a.bytes_of(v);
        out.extend_from_slice(b.as_slice());
        return;
    }
    if a.is_int(v) {
        push_decimal(out, a.int_val(v));
        return;
    }
    if a.is_char(v) {
        out.extend_from_slice(crate::vocabulary::CHAR_PREFIX.as_bytes());
        if !push_utf8(out, a.as_char(v)) {
            out.extend_from_slice(crate::vocabulary::CHAR_UNKNOWN.as_bytes());
        }
        return;
    }
    if depth >= 4 {
        out.push(46u8);
        out.push(46u8);
        out.push(46u8);
        return;
    }
    if a.is_cell(v) {
        out.push(40u8);
        let ghost whole = spec_render_list(*a, v, 0, depth as int);
        let ghost mut pre: Seq<u8> = Seq::empty();
        let mut at = v;
        let mut n: usize = 0;
        while a.is_cell(at) && n < 8
            invariant
                a.wf(),
                depth < 4,
                n <= 8,
                whole == spec_render_list(*a, v, 0, depth as int),
                out0 == old(out)@,
                out@.len() > out0.len(),
                out@.subrange(0, out0.len() as int) == out0,
                whole is Some ==> out@ == out0 + seq![40u8] + pre,
                whole is Some ==> spec_render_list(*a, at, n as int, depth as int) is Some && whole->0 == pre
                    + spec_render_list(*a, at, n as int, depth as int)->0,
            decreases 8 - n,
        {
            let ghost here = spec_render_list(*a, at, n as int, depth as int);
            let ghost sep: Seq<u8> = if n > 0 {
                seq![32u8]
            } else {
                Seq::empty()
            };
            let ghost before = out@;
            if n > 0 {
                out.push(32u8);
            }
            let ghost mid = out@;
            let first = a.first(at);
            render(a, first, depth + 1, out);
            proof {
                assert(mid.subrange(0, before.len() as int) =~= before);
                lemma_prefix_trans(out0, before, mid);
                lemma_prefix_trans(out0, mid, out@);
                if whole is Some {
                    let x = spec_render(*a, first, depth + 1)->0;
                    let y = spec_render_list(*a, Obj(spec_data(a.mem(), at, 1)), n + 1, depth as int)->0;
                    assert(here->0 == sep + x + y);
                    assert(mid =~= before + sep);
                    assert(out@ =~= out0 + seq![40u8] + (pre + sep + x));
                    assert(whole->0 =~= (pre + sep + x) + y);
                    pre = pre + sep + x;
                }
            }
            at = a.rest(at);
            n = n + 1;
        }
        let ghost tail = spec_render_list(*a, at, n as int, depth as int);
        let ghost before = out@;
        if at.0 != 0 {
            out.push(32u8);
            out.push(46u8);
            out.push(32u8);
            let ghost dot = out@;
            render(a, at, depth + 1, out);
            proof {
                assert(dot.subrange(0, before.len() as int) =~= before);
                lemma_prefix_trans(out0, before, dot);
                lemma_prefix_trans(out0, dot, out@);
                if whole is Some {
                    assert(dot =~= before + seq![32u8, 46u8, 32u8]);
                    assert(out@ =~= before + (seq![32u8, 46u8, 32u8] + spec_render(*a, at, depth + 1)->0));
                }
            }
        } else if n == 8 {
            out.push(32u8);
            out.push(46u8);
            out.push(46u8);
            out.push(46u8);
            proof {
                assert(out@ =~= before + seq![32u8, 46u8, 46u8, 46u8]);
                assert(out@.subrange(0, before.len() as int) =~= before);
                lemma_prefix_trans(out0, before, out@);
            }
        }
        proof {
            if whole is Some {
                assert(out@ =~= before + tail->0);
            }
        }
        let ghost closing = out@;
        out.push(41u8);
        proof {
            assert(out@.subrange(0, closing.len() as int) =~= closing);
            lemma_prefix_trans(out0, closing, out@);
            if whole is Some {
                assert(out@ =~= out0 + (seq![40u8] + whole->0 + seq![41u8]));
            }
        }
        return;
    }
    let name = match a.type_name_bytes(v) {
        Some(n) => n,
        None => bytes_of_str(crate::vocabulary::UNNAMED),
    };
    let o = crate::vocabulary::opaque_bytes(name.as_slice());
    out.extend_from_slice(o.as_slice());
}

} // verus!
