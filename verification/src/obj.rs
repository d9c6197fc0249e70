//! The four things a machine word can mean here, as four types.
//!
//! An object reference, a byte offset, a raw word read out of storage and a
//! header bitfield are one width and four meanings. They are newtypes, so every
//! crossing between them is written down.

use vstd::prelude::*;

verus! {

/// Bytes per machine word, and per fixnum.
pub const WORD: u64 = 8;

/// Two to the sixty-fourth, the modulus every machine word wraps at.
pub open spec fn word_modulus() -> int {
    0x1_0000_0000_0000_0000int
}

/// Machine addition: the mathematical sum, wrapped into a word.
pub open spec fn wrap_add(a: u64, b: u64) -> u64 {
    if a + b < word_modulus() {
        (a + b) as u64
    } else {
        (a + b - word_modulus()) as u64
    }
}

/// Machine subtraction, wrapped into a word.
pub open spec fn wrap_sub(a: u64, b: u64) -> u64 {
    if a >= b {
        (a - b) as u64
    } else {
        (a - b + word_modulus()) as u64
    }
}

/// A signed byte count, as the two's-complement word that adds it.
pub open spec fn signed_word(v: i64) -> u64 {
    if v >= 0 {
        v as u64
    } else {
        (v + word_modulus()) as u64
    }
}

/// Wrapping addition of two words, computed without overflow.
pub fn add_wrapping(a: u64, b: u64) -> (r: u64)
    ensures
        r == wrap_add(a, b),
{
    if b <= u64::MAX - a {
        a + b
    } else {
        b - (u64::MAX - a) - 1
    }
}

/// Wrapping subtraction of two words, computed without overflow.
pub fn sub_wrapping(a: u64, b: u64) -> (r: u64)
    ensures
        r == wrap_sub(a, b),
{
    if a >= b {
        a - b
    } else {
        u64::MAX - (b - a) + 1
    }
}

/// The two's-complement word of a signed integer.
pub fn i64_to_word(v: i64) -> (r: u64)
    ensures
        r == signed_word(v),
{
    if v >= 0 {
        v as u64
    } else {
        let m: i64 = v + 1;
        let pos: u64 = (-m) as u64;
        u64::MAX - pos
    }
}

/// The signed integer a word's bits spell.
pub open spec fn word_signed(w: u64) -> i64 {
    if w <= 0x7fff_ffff_ffff_ffff {
        w as i64
    } else {
        (w - word_modulus()) as i64
    }
}

/// The signed integer a word's bits spell, computed.
pub fn word_to_i64(w: u64) -> (r: i64)
    ensures
        r == word_signed(w),
{
    if w <= 0x7fff_ffff_ffff_ffff {
        w as i64
    } else {
        let d: u64 = u64::MAX - w;
        let di: i64 = d as i64;
        -di - 1
    }
}

/// An object reference. It happens to be a byte offset into the heap; code
/// that wants the offset says `addr()` and means it.
#[derive(Clone, Copy, Debug, PartialEq, Eq, Structural)]
pub struct Obj(pub u64);

/// Nil. x-lang's `()` is nil is offset zero — one value.
pub fn nil() -> (r: Obj)
    ensures
        r.0 == 0,
{
    Obj(0)
}

impl Obj {
    pub open spec fn spec_is_nil(self) -> bool {
        self.0 == 0
    }

    #[verifier::when_used_as_spec(spec_is_nil)]
    pub fn is_nil(self) -> (r: bool)
        ensures
            r == (self.0 == 0),
    {
        self.0 == 0
    }

    /// The address this object begins at — a re-tagging, not a conversion.
    pub fn addr(self) -> (r: Addr)
        ensures
            r.0 == self.0,
    {
        Addr(self.0)
    }

    /// Stored form, for writing an object reference into a data slot.
    pub fn word(self) -> (r: Word)
        ensures
            r.0 == self.0,
    {
        Word(self.0)
    }
}

/// A byte offset into the heap. Most addresses are NOT objects.
#[derive(Clone, Copy, Debug, PartialEq, Eq, Structural)]
pub struct Addr(pub u64);

impl Addr {
    pub fn new(raw: u64) -> (r: Addr)
        ensures
            r.0 == raw,
    {
        Addr(raw)
    }

    pub fn raw(self) -> (r: u64)
        ensures
            r == self.0,
    {
        self.0
    }

    /// The object beginning at this address.
    pub fn as_obj(self) -> (r: Obj)
        ensures
            r.0 == self.0,
    {
        Obj(self.0)
    }

    /// Move by a SIGNED byte count, wrapping: reflection reads meta units
    /// below the object it started from.
    pub fn offset(self, bytes: i64) -> (r: Addr)
        ensures
            r.0 == wrap_add(self.0, signed_word(bytes)),
    {
        let d = i64_to_word(bytes);
        Addr(add_wrapping(self.0, d))
    }

    /// Move forward by an unsigned byte count, wrapping.
    pub fn plus(self, bytes: u64) -> (r: Addr)
        ensures
            r.0 == wrap_add(self.0, bytes),
    {
        Addr(add_wrapping(self.0, bytes))
    }

    /// Index of the word this address falls in.
    pub fn word_index(self) -> (r: u64)
        ensures
            r == self.0 / 8,
    {
        self.0 / WORD
    }

    /// Which byte within that word.
    pub fn byte_in_word(self) -> (r: u32)
        ensures
            r == self.0 % 8,
            r < 8,
    {
        (self.0 % WORD) as u32
    }

    /// The start of the word this address falls in.
    pub fn word_base(self) -> (r: Addr)
        ensures
            r.0 == self.0 - self.0 % 8,
    {
        Addr(self.0 - self.0 % WORD)
    }
}

/// A raw machine word, as read out of storage. It has no meaning until a
/// caller says what it is.
#[derive(Clone, Copy, Debug, PartialEq, Eq, Structural)]
pub struct Word(pub u64);

impl Word {
    pub fn raw(self) -> (r: u64)
        ensures
            r == self.0,
    {
        self.0
    }

    pub fn as_obj(self) -> (r: Obj)
        ensures
            r.0 == self.0,
    {
        Obj(self.0)
    }

    pub fn as_addr(self) -> (r: Addr)
        ensures
            r.0 == self.0,
    {
        Addr(self.0)
    }

    /// Two's-complement reinterpretation.
    pub fn as_i64(self) -> (r: i64)
        ensures
            r == word_signed(self.0),
    {
        word_to_i64(self.0)
    }

    pub fn as_usize(self) -> (r: usize)
        ensures
            r == self.0 as usize,
    {
        self.0 as usize
    }

    pub fn from_i64(v: i64) -> (r: Word)
        ensures
            r.0 == signed_word(v),
    {
        Word(i64_to_word(v))
    }

    pub fn from_usize(v: usize) -> (r: Word)
        ensures
            r.0 == v as u64,
    {
        Word(v as u64)
    }
}

/// An object header's flag bitfield.
#[derive(Clone, Copy, Debug, PartialEq, Eq, Structural)]
pub struct Flags(pub u64);

impl Flags {
    pub fn new(raw: u64) -> (r: Flags)
        ensures
            r.0 == raw,
    {
        Flags(raw)
    }

    pub fn raw(self) -> (r: u64)
        ensures
            r == self.0,
    {
        self.0
    }

    pub fn from_word(w: Word) -> (r: Flags)
        ensures
            r.0 == w.0,
    {
        Flags(w.0)
    }
}

/// An environment's identity: a newtype over its holder object.
#[derive(Clone, Copy, Debug, PartialEq, Eq, Structural)]
pub struct EnvId(pub Obj);

impl EnvId {
    pub fn from_obj(o: Obj) -> (r: EnvId)
        ensures
            r.0 == o,
    {
        EnvId(o)
    }

    pub fn obj(self) -> (r: Obj)
        ensures
            r == self.0,
    {
        self.0
    }

    pub fn word(self) -> (r: Word)
        ensures
            r.0 == self.0.0,
    {
        self.0.word()
    }

    pub fn from_word(w: Word) -> (r: EnvId)
        ensures
            r.0.0 == w.0,
    {
        EnvId(w.as_obj())
    }

    /// An id over the holder at a raw offset.
    pub fn new(raw: u64) -> (r: EnvId)
        ensures
            r.0.0 == raw,
    {
        EnvId(Obj(raw))
    }
}

/// The pointer casts' law: an object's address taken as a pointer, that
/// pointer's word taken as an integer, and that integer taken back as a
/// pointer and an object give the object again; `obj->ptr`, `ptr->int`,
/// `int->ptr` and `ptr->obj` each keep the word (see `value_prim`).
pub proof fn law_pointer_casts_round_trip(o: Obj)
    ensures
        Addr(o.0).as_obj_spec() == o,
        Obj(signed_word(word_signed(o.0))) == o,
{
    lemma_word_signed_round_trip(o.0);
}

impl Addr {
    pub open spec fn as_obj_spec(self) -> Obj {
        Obj(self.0)
    }
}

/// A word written from a signed integer reads back as that integer: fixnums
/// are machine integers, so a negative value survives storage.
pub proof fn lemma_signed_word_round_trip(v: i64)
    ensures
        word_signed(signed_word(v)) == v,
{
}

/// A word read as a signed integer writes back as the same word.
pub proof fn lemma_word_signed_round_trip(w: u64)
    ensures
        signed_word(word_signed(w)) == w,
{
}


} // verus!
