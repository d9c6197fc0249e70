//! Strings, symbols and handles: a pointer to NUL-terminated bytes in the heap.
//!
//! A string value IS a C string: bytes past the NUL are unobservable.

use crate::heap::{byte_at_off, is_c_string_at, spec_byte, spec_word, text_at, MAX_WORDS};
use crate::obj::{nil, Addr, Flags, Obj};
use crate::objects::{grew, lemma_grew_refl, lemma_grew_trans, spec_data, spec_is, Objects, HANDLE_BITS, META_MAX, STR_BITS, SYM_BITS};
use vstd::prelude::*;
use vstd::string::StringSliceAdditionalSpecFns;

verus! {

/// What `String::from_utf8_lossy` makes of these bytes.
pub uninterp spec fn lossy_text(bytes: Seq<u8>) -> Seq<char>;

/// Bytes all below 0x80, read one character each.
pub open spec fn ascii_text(bytes: Seq<u8>) -> Seq<char> {
    bytes.map_values(|b: u8| b as char)
}

/// The text of these bytes, invalid UTF-8 replaced. Calls
/// `String::from_utf8_lossy`; the contract claims that its result is a
/// function of the bytes, and that ASCII bytes come back one character each.
#[verifier::external_body]
pub fn text_of_bytes(bytes: &[u8]) -> (r: String)
    ensures
        r@ == lossy_text(bytes@),
        (forall|i: int| 0 <= i < bytes@.len() ==> bytes@[i] < 128) ==> r@ == ascii_text(bytes@),
{
    String::from_utf8_lossy(bytes).into_owned()
}

/// A byte read below a preserved prefix reads what it read before.
pub proof fn lemma_prefix_byte(s1: Seq<u64>, s2: Seq<u64>, a: u64)
    requires
        s2.len() >= s1.len(),
        s2.subrange(0, s1.len() as int) == s1,
        ((a / 8) as int) < s1.len(),
    ensures
        spec_byte(s2, a) == spec_byte(s1, a),
{
    assert(s2[(a / 8) as int] == s2.subrange(0, s1.len() as int)[(a / 8) as int]);
}

/// The bytes a string, symbol or handle spells: the NUL-terminated run its
/// data word points at.
pub open spec fn spec_text(s: Seq<u64>, o: Obj) -> Seq<u8> {
    text_at(s, spec_data(s, o, 0))
}

/// `bytes` followed by a NUL sit at `at` in `s`.
pub open spec fn stored_at(s: Seq<u64>, at: u64, bytes: Seq<u8>) -> bool {
    &&& forall|k: int| 0 <= k < bytes.len() ==> #[trigger] byte_at_off(s, at, k) == bytes[k]
    &&& byte_at_off(s, at, bytes.len() as int) == 0
}

/// The heap of `len` words has no room for a text of `n` bytes and the
/// object that holds it.
pub open spec fn no_room_for_text(len: nat, n: nat) -> bool {
    len + (n + 8) / 8 + 5 + META_MAX > MAX_WORDS
}

impl Objects {
    /// A string whose bytes start at `at`.
    pub fn str_at(&mut self, at: Addr) -> (r: Obj)
        requires
            old(self).wf(),
        ensures
            final(self).built(*old(self), r, STR_BITS, 0, seq![at.0]),
    {
        self.alloc_init(Flags(STR_BITS), nil(), &[at.0])
    }

    /// Store bytes and a NUL, then make `flags` object pointing at them.
    fn text_obj(&mut self, bytes: &[u8], flags: Flags) -> (r: Obj)
        requires
            old(self).wf(),
            flags.0 == STR_BITS || flags.0 == SYM_BITS || flags.0 == HANDLE_BITS,
        ensures
            final(self).only_grew(*old(self)),
            r.0 != 0 ==> spec_is(final(self).mem(), r, flags.0),
            r.0 != 0 ==> stored_at(final(self).mem(), spec_data(final(self).mem(), r, 0), bytes@),
            r.0 == 0 ==> no_room_for_text(old(self).mem().len(), bytes@.len()),
    {
        let ghost s0 = self.mem();
        let len: usize = self.heap.words_len();
        if bytes.len() >= MAX_WORDS * 8 || len + (bytes.len() + 8) / 8 > MAX_WORDS {
            proof {
                lemma_grew_refl(s0);
            }
            return nil();
        }
        let at = self.heap.store_bytes(bytes);
        let ghost s1 = self.mem();
        let tag = if flags.0 == HANDLE_BITS {
            self.satom_marker
        } else {
            nil()
        };
        let o = self.alloc_init(flags, tag, &[at.0]);
        proof {
            lemma_grew_trans(s0, s1, self.mem());
            if o.0 != 0 {
                assert(s0.len() + (bytes@.len() + 8) / 8 <= MAX_WORDS);
                assert forall|k: int| 0 <= k <= bytes@.len() implies byte_at_off(self.mem(), at.0, k)
                    == byte_at_off(s1, at.0, k) by {
                    assert(((at.0 + k) / 8) < s1.len()) by (nonlinear_arith)
                        requires
                            at.0 == s0.len() * 8,
                            s1.len() == s0.len() + (bytes@.len() + 8) / 8,
                            0 <= k <= bytes@.len();
                    lemma_prefix_byte(s1, self.mem(), (at.0 + k) as u64);
                }
                assert(spec_data(self.mem(), o, 0) == at.0);
                assert(stored_at(s1, at.0, bytes@));
                assert forall|k: int| 0 <= k < bytes@.len() implies #[trigger] byte_at_off(self.mem(), at.0, k) == bytes@[k] by {
                    assert(byte_at_off(s1, at.0, k) == bytes@[k]);
                }
            }
        }
        o
    }

    /// A fresh string holding `s`'s bytes; nil when the heap is full.
    pub fn str_new(&mut self, s: &str) -> (r: Obj)
        requires
            old(self).wf(),
        ensures
            final(self).only_grew(*old(self)),
            r.0 != 0 ==> spec_is(final(self).mem(), r, STR_BITS),
            r.0 != 0 ==> stored_at(final(self).mem(), spec_data(final(self).mem(), r, 0), s.spec_bytes()),
            r.0 == 0 ==> no_room_for_text(old(self).mem().len(), s.spec_bytes().len()),
    {
        self.text_obj(s.as_bytes(), Flags(STR_BITS))
    }

    /// A fresh string holding these bytes; nil when the heap is full.
    pub fn str_from_bytes(&mut self, bytes: &[u8]) -> (r: Obj)
        requires
            old(self).wf(),
        ensures
            final(self).only_grew(*old(self)),
            r.0 != 0 ==> spec_is(final(self).mem(), r, STR_BITS),
            r.0 != 0 ==> stored_at(final(self).mem(), spec_data(final(self).mem(), r, 0), bytes@),
            r.0 == 0 ==> no_room_for_text(old(self).mem().len(), bytes@.len()),
    {
        self.text_obj(bytes, Flags(STR_BITS))
    }

    /// A fresh string of `n` spaces; nil when the heap is full.
    pub fn str_make(&mut self, n: usize) -> (r: Obj)
        requires
            old(self).wf(),
        ensures
            final(self).only_grew(*old(self)),
            r.0 != 0 ==> spec_is(final(self).mem(), r, STR_BITS),
            r.0 != 0 ==> stored_at(
                final(self).mem(),
                spec_data(final(self).mem(), r, 0),
                Seq::new(n as nat, |i: int| 32u8),
            ),
    {
        if n >= MAX_WORDS * 8 {
            proof {
                lemma_grew_refl(self.mem());
            }
            return nil();
        }
        let mut bytes: Vec<u8> = Vec::new();
        let mut i: usize = 0;
        while i < n
            invariant
                i <= n,
                bytes@ == Seq::new(i as nat, |j: int| 32u8),
            decreases n - i,
        {
            bytes.push(32u8);
            assert(bytes@ =~= Seq::new((i + 1) as nat, |j: int| 32u8));
            i = i + 1;
        }
        self.text_obj(bytes.as_slice(), Flags(STR_BITS))
    }

    /// Where a string's bytes start.
    pub fn str_bytes(&self, o: Obj) -> (r: Addr)
        ensures
            r.0 == spec_data(self.mem(), o, 0),
    {
        self.data(o, 0).as_addr()
    }

    /// The bytes of a string, up to the NUL.
    pub fn bytes_of(&self, o: Obj) -> (r: Vec<u8>)
        requires
            self.wf(),
        ensures
            is_c_string_at(self.mem(), spec_data(self.mem(), o, 0), r@),
            r@ == spec_text(self.mem(), o),
            r@.len() <= self.mem().len() * 8,
    {
        self.heap.bytes_at(self.str_bytes(o))
    }

    /// How many bytes before the NUL.
    pub fn byte_len(&self, o: Obj) -> (r: usize)
        requires
            self.wf(),
        ensures
            exists|b: Seq<u8>| is_c_string_at(self.mem(), spec_data(self.mem(), o, 0), b) && b.len() == r,
            r == spec_text(self.mem(), o).len(),
            r <= self.mem().len() * 8,
    {
        let b = self.bytes_of(o);
        b.len()
    }

    /// The text of a string, invalid UTF-8 replaced.
    pub fn str_val(&self, o: Obj) -> (r: String)
        requires
            self.wf(),
        ensures
            exists|b: Seq<u8>| is_c_string_at(self.mem(), spec_data(self.mem(), o, 0), b) && r@ == lossy_text(b),
            r@ == lossy_text(spec_text(self.mem(), o)),
    {
        let b = self.bytes_of(o);
        text_of_bytes(b.as_slice())
    }

    pub fn is_str(&self, o: Obj) -> (r: bool)
        ensures
            r == spec_is(self.mem(), o, STR_BITS),
    {
        self.is(o, Flags(STR_BITS))
    }

    /// The object interned under a spelling: the shared table first, then the
    /// running program's.
    pub open spec fn spec_interned(&self, name: Seq<u8>) -> Option<Obj> {
        match self.shared_symbols.spec_get(name) {
            Some(o) => Some(o),
            None => self.symbols.spec_get(name),
        }
    }

    /// What interning `name` does, from `before` to `after`, answering `r`:
    /// a spelling either table already holds answers its object and changes
    /// nothing; a new one is stored as a fresh symbol in the running
    /// program's table, every other spelling's answer unchanged; a full heap
    /// answers nil and leaves the tables alone.
    pub open spec fn interned_by(before: Objects, after: Objects, name: Seq<u8>, r: Obj) -> bool {
        &&& after.wf()
        &&& after.same_frame(&before)
        &&& grew(before.mem(), after.mem())
        &&& after.shared_symbols == before.shared_symbols
        &&& before.spec_interned(name) is Some ==> r == before.spec_interned(name).unwrap()
            && after.mem() == before.mem() && after.symbols == before.symbols
        &&& before.spec_interned(name) is None && r.0 != 0 ==> {
            &&& spec_is(after.mem(), r, SYM_BITS)
            &&& stored_at(after.mem(), spec_data(after.mem(), r, 0), name)
            &&& after.symbols.spec_get(name) == Some(r)
            &&& forall|m: Seq<u8>| m != name ==> after.symbols.spec_get(m) == before.symbols.spec_get(m)
        }
        &&& before.spec_interned(name) is None && r.0 == 0 ==> after.symbols == before.symbols
            && no_room_for_text(before.mem().len(), name.len())
        &&& r.0 != 0 ==> after.spec_interned(name) == Some(r)
    }

    /// The one symbol spelled `name`, interned in the running program's table
    /// when neither table has it yet; nil when the heap is full.
    pub fn sym_bytes(&mut self, name: &[u8]) -> (r: Obj)
        requires
            old(self).wf(),
        ensures
            Objects::interned_by(*old(self), *final(self), name@, r),
    {
        proof {
            lemma_grew_refl(self.mem());
        }
        if let Some(o) = self.shared_symbols.get_bytes(name) {
            return o;
        }
        if let Some(o) = self.symbols.get_bytes(name) {
            return o;
        }
        let o = self.text_obj(name, Flags(SYM_BITS));
        if o.0 != 0 {
            self.symbols.put_bytes(name, o);
        }
        o
    }

    /// The one symbol spelled `name`.
    pub fn sym(&mut self, name: &str) -> (r: Obj)
        requires
            old(self).wf(),
        ensures
            final(self).wf(),
            final(self).same_frame(old(self)),
            grew(old(self).mem(), final(self).mem()),
            final(self).shared_symbols == old(self).shared_symbols,
            old(self).spec_interned(name.spec_bytes()) is Some ==> r == old(
                self,
            ).spec_interned(name.spec_bytes()).unwrap() && final(self).mem() == old(self).mem(),
            r.0 != 0 ==> final(self).spec_interned(name.spec_bytes()) == Some(r),
            Objects::interned_by(*old(self), *final(self), name.spec_bytes(), r),
    {
        self.sym_bytes(name.as_bytes())
    }

    /// The one symbol spelled `name` in the table every base shares.
    pub fn sym_shared_bytes(&mut self, name: &[u8]) -> (r: Obj)
        requires
            old(self).wf(),
        ensures
            final(self).wf(),
            final(self).same_frame(old(self)),
            grew(old(self).mem(), final(self).mem()),
            final(self).symbols == old(self).symbols,
            old(self).shared_symbols.spec_get(name@) is Some ==> r == old(
                self,
            ).shared_symbols.spec_get(name@).unwrap() && final(self).mem() == old(self).mem(),
            r.0 != 0 ==> final(self).shared_symbols.spec_get(name@) == Some(r),
            r.0 != 0 ==> spec_is(final(self).mem(), r, SYM_BITS) || old(self).shared_symbols.spec_get(name@) is Some,
    {
        proof {
            lemma_grew_refl(self.mem());
        }
        if let Some(o) = self.shared_symbols.get_bytes(name) {
            return o;
        }
        let o = self.text_obj(name, Flags(SYM_BITS));
        if o.0 != 0 {
            self.shared_symbols.put_bytes(name, o);
        }
        o
    }

    /// The one symbol spelled `name` in the shared table.
    pub fn sym_shared(&mut self, name: &str) -> (r: Obj)
        requires
            old(self).wf(),
        ensures
            final(self).wf(),
            final(self).same_frame(old(self)),
            grew(old(self).mem(), final(self).mem()),
            final(self).symbols == old(self).symbols,
            old(self).shared_symbols.spec_get(name.spec_bytes()) is Some ==> r == old(
                self,
            ).shared_symbols.spec_get(name.spec_bytes()).unwrap() && final(self).mem() == old(self).mem(),
            r.0 != 0 ==> final(self).shared_symbols.spec_get(name.spec_bytes()) == Some(r),
    {
        self.sym_shared_bytes(name.as_bytes())
    }

    /// A symbol's name.
    pub fn sym_name(&self, o: Obj) -> (r: String)
        requires
            self.wf(),
        ensures
            r@ == lossy_text(spec_text(self.mem(), o)),
    {
        self.str_val(o)
    }

    pub fn is_sym(&self, o: Obj) -> (r: bool)
        ensures
            r == spec_is(self.mem(), o, SYM_BITS),
    {
        self.is(o, Flags(SYM_BITS))
    }

    /// A fresh type HANDLE named `text`: an atom, never interned, carrying the
    /// handle tag.
    pub fn handle_bytes(&mut self, text: &[u8]) -> (r: Obj)
        requires
            old(self).wf(),
        ensures
            final(self).only_grew(*old(self)),
            r.0 != 0 ==> spec_is(final(self).mem(), r, HANDLE_BITS),
            r.0 != 0 ==> stored_at(final(self).mem(), spec_data(final(self).mem(), r, 0), text@),
            r.0 == 0 ==> no_room_for_text(old(self).mem().len(), text@.len()),
    {
        self.text_obj(text, Flags(HANDLE_BITS))
    }

    pub fn is_handle(&self, o: Obj) -> (r: bool)
        ensures
            r == spec_is(self.mem(), o, HANDLE_BITS),
    {
        self.is(o, Flags(HANDLE_BITS))
    }
}

/// Interning's law: symbol identity is spelling identity. Once a spelling
/// has been interned, interning it again answers the same symbol and
/// allocates nothing.
pub proof fn law_one_symbol_per_spelling(o0: Objects, o1: Objects, o2: Objects, name: Seq<u8>, r1: Obj, r2: Obj)
    requires
        Objects::interned_by(o0, o1, name, r1),
        Objects::interned_by(o1, o2, name, r2),
        r1.0 != 0,
    ensures
        r2 == r1,
        o2.mem() == o1.mem(),
{
}

} // verus!
