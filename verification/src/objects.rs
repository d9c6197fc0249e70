//! The object model.
//!
//! Every object lives in one flat heap of words, and an object reference is a
//! BYTE OFFSET into it. x-lang computes byte offsets itself, from the layout
//! descriptors, and every offset it computes lands back inside the heap.
//!
//! ```text
//!   word 0   heap link  the previous allocation
//!   word 1   type       offset of the type object, or NIL
//!   word 2   flags      bitfield; carries the simple-type code
//!   word 3   length     how many data words follow
//!   word 4+  data
//! ```
//!
//! Storage answers `Word`, not meaning: `data(o, i)` cannot know whether the
//! slot holds an object, an integer or an address, so the typed accessors above
//! it decide.

use crate::heap::{spec_word, Heap, MAX_WORDS};
use crate::obj::{add_wrapping, nil, wrap_add, Addr, Flags, Obj, Word};
use crate::symbols::Symbols;
use vstd::prelude::*;

verus! {

/// The collector's chain link: every object is threaded here at birth.
pub const SLOT_HEAP: u64 = 0;
pub const SLOT_TYPE: u64 = 1;
pub const SLOT_FLAGS: u64 = 2;
/// How many data words follow.
pub const SLOT_LEN: u64 = 3;
/// Header words before the data.
pub const META_LEN: u64 = 4;

/// The simple types share the 0x10 marker; every other kind is a single bit.
pub const PRIM_BITS: u64 = 0x10;
pub const FN_BITS: u64 = 0x11;
pub const INT_BITS: u64 = 0x12;
pub const CHAR_BITS: u64 = 0x13;
pub const STR_BITS: u64 = 0x14;
pub const PTR_BITS: u64 = 0x15;
pub const PAIR_BITS: u64 = 0x100;
/// A structural pair: an interpreter spine, not an x-lang list.
pub const SPAIR_BITS: u64 = 0x101;
/// A type handle: the atom `type of` answers.
pub const HANDLE_BITS: u64 = 0x102;
pub const SYM_BITS: u64 = 0x200;
/// `#f`, the one falsy object besides nil.
pub const FALSE_BITS: u64 = 0x400;
pub const OP_BITS: u64 = 0x800;
pub const ENV_BITS: u64 = 0x1000;
/// An environment holder: chain head, parent holder, base.
pub const ENVH_BITS: u64 = 0x1001;
pub const TYPE_BITS: u64 = 0x2000;
pub const ITER_BITS: u64 = 0x4000;
pub const WRAP_BITS: u64 = 0x8000;
pub const CONT_BITS: u64 = 0x10000;
pub const BUF_BITS: u64 = 0x20000;
/// A buffer's `(read . write)` marks: raw words, not objects.
pub const BUFMARKS_BITS: u64 = 0x20001;
pub const FOREIGN_BITS: u64 = 0x80000;
pub const TOKEOF_BITS: u64 = 0x100000;

/// Set on an object whose allocation prepended meta words before its header.
pub const FLAG_META_BIT: u64 = 0x80;
/// Where the meta-word count rides in the stored flags word.
pub const FLAG_META_SHIFT: u64 = 56;
/// Set in every allocated object's stored flags word.
pub const FLAG_MAGIC_BIT: u64 = 0x4000_0000_0000_0000;
/// The most meta words one allocation prepends.
pub const META_MAX: u64 = 16;

/// The kinds whose type word is stamped at birth, by position.
pub const N_STAMPED: usize = 15;

/// A kind's position among the stamped kinds, or None for one nobody stamps.
pub open spec fn spec_kind_index(f: u64) -> Option<usize> {
    match f {
        0x12 => Some(0usize),
        0x13 => Some(1usize),
        0x14 => Some(2usize),
        0x200 => Some(3usize),
        0x100 => Some(4usize),
        0x15 => Some(5usize),
        0x10 => Some(6usize),
        0x11 => Some(7usize),
        0x800 => Some(8usize),
        0x8000 => Some(9usize),
        0x1000 => Some(10usize),
        0x2000 => Some(11usize),
        0x4000 => Some(12usize),
        0x20000 => Some(13usize),
        0x10000 => Some(14usize),
        _ => None,
    }
}

pub fn kind_index(flags: Flags) -> (r: Option<usize>)
    ensures
        r == spec_kind_index(flags.0),
        r matches Some(i) ==> i < N_STAMPED,
        r is Some <==> stamped_kind(flags.0),
{
    match flags.0 {
        0x12 => Some(0),
        0x13 => Some(1),
        0x14 => Some(2),
        0x200 => Some(3),
        0x100 => Some(4),
        0x15 => Some(5),
        0x10 => Some(6),
        0x11 => Some(7),
        0x800 => Some(8),
        0x8000 => Some(9),
        0x1000 => Some(10),
        0x2000 => Some(11),
        0x4000 => Some(12),
        0x20000 => Some(13),
        0x10000 => Some(14),
        _ => None,
    }
}

/// The kinds an ordinary value can be.
pub open spec fn stamped_kind(f: u64) -> bool {
    f == INT_BITS || f == CHAR_BITS || f == STR_BITS || f == SYM_BITS || f == PAIR_BITS
        || f == PTR_BITS || f == PRIM_BITS || f == FN_BITS || f == OP_BITS || f == WRAP_BITS
        || f == ENV_BITS || f == TYPE_BITS || f == ITER_BITS || f == BUF_BITS || f == CONT_BITS
}

/// The kind a value reports as: a foreign address is a POINTER, and a wrapper
/// and a continuation are PROCEDUREs.
pub open spec fn spec_reported(f: u64) -> u64 {
    if f == FOREIGN_BITS {
        PTR_BITS
    } else if f == WRAP_BITS || f == CONT_BITS {
        FN_BITS
    } else {
        f
    }
}

/// The kind a value REPORTS as, which is not always the one it carries.
pub fn reported_kind(flags: Flags) -> (r: Flags)
    ensures
        r.0 == spec_reported(flags.0),
{
    if flags.0 == FOREIGN_BITS {
        Flags(PTR_BITS)
    } else if flags.0 == WRAP_BITS || flags.0 == CONT_BITS {
        Flags(FN_BITS)
    } else {
        flags
    }
}

/// The name each kind reports.
pub open spec fn spec_kind_name(f: u64) -> &'static str {
    match f {
        0x12 => "INTEGER",
        0x13 => "CHARACTER",
        0x14 => "STRING",
        0x200 => "SYMBOL",
        0x100 => "LIST",
        0x15 => "POINTER",
        0x10 => "PRIMITIVE",
        0x11 => "PROCEDURE",
        0x800 => "OPERATIVE",
        0x8000 => "PROCEDURE",
        0x1000 => "ENVIRONMENT",
        0x2000 => "TYPE",
        0x4000 => "ITER",
        0x20000 => "BUFFER",
        0x10000 => "CONTINUATION",
        _ => "BUILTIN",
    }
}

/// The name a kind reports, or `BUILTIN` for one nobody has named.
pub fn kind_name(flags: Flags) -> (r: &'static str)
    ensures
        r == spec_kind_name(flags.0),
{
    match flags.0 {
        0x12 => "INTEGER",
        0x13 => "CHARACTER",
        0x14 => "STRING",
        0x200 => "SYMBOL",
        0x100 => "LIST",
        0x15 => "POINTER",
        0x10 => "PRIMITIVE",
        0x11 => "PROCEDURE",
        0x800 => "OPERATIVE",
        0x8000 => "PROCEDURE",
        0x1000 => "ENVIRONMENT",
        0x2000 => "TYPE",
        0x4000 => "ITER",
        0x20000 => "BUFFER",
        0x10000 => "CONTINUATION",
        _ => "BUILTIN",
    }
}

/// Two to the sixty-first: slot indexes are taken modulo this, so that the
/// byte offset of a slot is computed in one word.
pub open spec fn slot_span() -> int {
    0x2000_0000_0000_0000int
}

/// The byte address of data slot `i` of `o`.
pub open spec fn spec_slot(o: Obj, i: u64) -> u64 {
    wrap_add(wrap_add(o.0, 32), ((i as int % slot_span()) * 8) as u64)
}

/// The byte address of a header word.
pub open spec fn spec_header(o: Obj, k: u64) -> u64 {
    wrap_add(o.0, (k * 8) as u64)
}

/// Data slot `i` of `o` in heap contents `s`; nil has only zeros.
pub open spec fn spec_data(s: Seq<u64>, o: Obj, i: u64) -> u64 {
    if o.0 == 0 {
        0
    } else {
        spec_word(s, spec_slot(o, i))
    }
}

/// The stored flags word, meta bits and magic included.
pub open spec fn spec_flags_raw(s: Seq<u64>, o: Obj) -> u64 {
    spec_word(s, spec_header(o, SLOT_FLAGS))
}

/// The kind bits of the stored flags word.
pub open spec fn kind_bits(w: u64) -> u64 {
    w & 0x00ff_ffff_ffff_ff7f
}

/// The kind of `o` in heap contents `s`.
pub open spec fn spec_flags(s: Seq<u64>, o: Obj) -> u64 {
    kind_bits(spec_flags_raw(s, o))
}

/// Is `o` a non-nil object of this kind?
pub open spec fn spec_is(s: Seq<u64>, o: Obj, f: u64) -> bool {
    o.0 != 0 && spec_flags(s, o) == f
}

/// The type word of `o`.
pub open spec fn spec_type_word(s: Seq<u64>, o: Obj) -> u64 {
    if o.0 == 0 {
        0
    } else {
        spec_word(s, spec_header(o, SLOT_TYPE))
    }
}

/// The stored flags word for a fresh object of this kind with `meta` words.
pub open spec fn stored_flags(f: u64, meta: u64) -> u64 {
    if meta > 0 {
        f | FLAG_MAGIC_BIT | FLAG_META_BIT | (meta << FLAG_META_SHIFT)
    } else {
        f | FLAG_MAGIC_BIT
    }
}

/// Every kind this engine allocates, and zero for an untyped instance.
pub open spec fn known_kind(f: u64) -> bool {
    f == 0 || f == PRIM_BITS || f == FN_BITS || f == INT_BITS || f == CHAR_BITS || f == STR_BITS
        || f == PTR_BITS || f == PAIR_BITS || f == SPAIR_BITS || f == HANDLE_BITS || f == SYM_BITS
        || f == FALSE_BITS || f == OP_BITS || f == ENV_BITS || f == ENVH_BITS || f == TYPE_BITS
        || f == ITER_BITS || f == WRAP_BITS || f == CONT_BITS || f == BUF_BITS || f == BUFMARKS_BITS
        || f == FOREIGN_BITS || f == TOKEOF_BITS
}

pub proof fn lemma_kind_round_trip(f: u64, meta: u64)
    requires
        known_kind(f),
        meta <= META_MAX,
    ensures
        kind_bits(stored_flags(f, meta)) == f,
{
    assert(f < 0x0100_0000_0000_0000u64 && f & 0x80u64 == 0) by (bit_vector)
        requires
            f == 0 || f == 0x10u64 || f == 0x11u64 || f == 0x12u64 || f == 0x13u64 || f == 0x14u64
                || f == 0x15u64 || f == 0x100u64 || f == 0x101u64 || f == 0x102u64 || f == 0x200u64
                || f == 0x400u64 || f == 0x800u64 || f == 0x1000u64 || f == 0x1001u64 || f
                == 0x2000u64 || f == 0x4000u64 || f == 0x8000u64 || f == 0x10000u64 || f
                == 0x20000u64 || f == 0x20001u64 || f == 0x80000u64 || f == 0x100000u64,
    ;
    assert(kind_bits(f | 0x4000_0000_0000_0000u64) == f) by (bit_vector)
        requires
            f < 0x0100_0000_0000_0000u64,
            f & 0x80u64 == 0,
    ;
    assert(meta > 0 ==> kind_bits(
        f | 0x4000_0000_0000_0000u64 | 0x80u64 | (meta << 56u64),
    ) == f) by (bit_vector)
        requires
            f < 0x0100_0000_0000_0000u64,
            f & 0x80u64 == 0,
            meta <= 16,
    ;
}

/// The heap, the interned names and the engine's singletons.
pub struct Objects {
    /// The words. Public because reaching for raw storage should SAY that it is
    /// reaching past the object model.
    pub heap: Heap,
    /// Names interned by the running program, per base.
    pub symbols: Symbols,
    /// Instruction names, shared by every base and consulted first.
    pub shared_symbols: Symbols,
    /// `#f`: one allocated object, compared by identity.
    pub false_obj: Obj,
    /// `#t`: the very object the name `#t` evaluates to.
    pub true_obj: Obj,
    /// The current base: allocation stamps resolve through its type-alist.
    pub base: Obj,
    /// The current base's save-stack, tco-expr, tco-env and error-handler
    /// spine nodes.
    pub save_node: Obj,
    pub tco_expr_node: Obj,
    pub tco_env_node: Obj,
    pub handler_node: Obj,
    /// The current base's line and obj-meta-extra spine nodes.
    pub line_node: Obj,
    pub meta_node: Obj,
    /// The tag every registered type carries in its own type word.
    pub spair_marker: Obj,
    /// The tag every type handle carries.
    pub satom_marker: Obj,
    /// The newest allocation; every object links to the one before it.
    pub heap_chain: Obj,
    /// Objects allocated and not reclaimed.
    pub live: usize,
    /// One handle per kind, shared by every base's types: (kind, handle).
    pub kind_handles: Vec<(u64, Obj)>,
    /// The engine's eval handlers: symbol, list.
    pub sym_eval_handler: Obj,
    pub list_eval_handler: Obj,
    /// The handler installed as CALL on every callable kind's type.
    pub callable_call_handler: Obj,
    /// The LIST type's CALL handler: indexing and slicing.
    pub list_call_handler: Obj,
    /// The one tag atom every base's type word carries.
    pub base_tag_atom: Obj,
    /// The instruction-table indexes of the callable entries — procedure,
    /// operative, wrap, continuation — stamped into slot 0 by constructors.
    pub entry_words: Vec<u64>,
    /// The bytes of a streamed input not yet taken into its buffer.
    pub input: Vec<u8>,
    /// How many of them have been taken.
    pub input_at: usize,
    /// Whether the engine reads a stream, refilling one byte at a time.
    pub streaming: bool,
    /// The streamed buffer's capacity in bytes.
    pub input_cap: u64,
}

impl Objects {
    /// Well-formed: the heap within its bounds, and one entry per spelling in
    /// each name table.
    pub open spec fn wf(&self) -> bool {
        &&& self.heap.wf()
        &&& self.symbols.wf()
        &&& self.shared_symbols.wf()
    }

    /// The heap's words.
    pub open spec fn mem(&self) -> Seq<u64> {
        self.heap@
    }

    /// Do two states share the singletons every rule about truth reads?
    pub open spec fn same_truth(&self, other: &Objects) -> bool {
        self.false_obj == other.false_obj && self.true_obj == other.true_obj
    }

    /// The byte address of data slot `i`.
    fn slot(o: Obj, i: u64) -> (r: Addr)
        ensures
            r.0 == spec_slot(o, i),
    {
        let k: u64 = i % 0x2000_0000_0000_0000;
        Addr(add_wrapping(add_wrapping(o.0, 32), k * 8))
    }

    /// The byte address of header word `k`.
    fn header(o: Obj, k: u64) -> (r: Addr)
        requires
            k < 4,
        ensures
            r.0 == spec_header(o, k),
    {
        Addr(add_wrapping(o.0, k * 8))
    }

    /// Data slot `i` of `o`, as a raw word. Nil has only zeros.
    pub fn data(&self, o: Obj, i: u64) -> (r: Word)
        ensures
            r.0 == spec_data(self.mem(), o, i),
    {
        if o.0 == 0 {
            return Word(0);
        }
        self.heap.word(Self::slot(o, i))
    }

    /// Write data slot `i` of `o`. A write to nil is ignored.
    pub fn set_data(&mut self, o: Obj, i: u64, v: Word)
        requires
            old(self).wf(),
        ensures
            final(self).wf(),
            final(self).mem() == if o.0 == 0 {
                old(self).mem()
            } else {
                crate::heap::spec_set_word(old(self).mem(), spec_slot(o, i), v.0)
            },
            final(self).mem().len() == old(self).mem().len(),
            final(self).same_rest(old(self)),
            final(self).input_at == old(self).input_at,
            final(self).input_cap == old(self).input_cap,
            final(self).live == old(self).live,
            final(self).heap.spec_allocations() == old(self).heap.spec_allocations(),
    {
        if o.0 == 0 {
            return;
        }
        self.heap.set_word(Self::slot(o, i), v);
    }

    /// Everything but the heap's words is as it was.
    pub open spec fn same_rest(&self, other: &Objects) -> bool {
        &&& self.symbols == other.symbols
        &&& self.shared_symbols == other.shared_symbols
        &&& self.same_frame(other)
    }

    /// Everything but the heap's words and the name tables is as it was.
    pub open spec fn same_frame(&self, other: &Objects) -> bool {
        &&& self.same_truth(other)
        &&& self.base == other.base
        &&& self.spair_marker == other.spair_marker
        &&& self.satom_marker == other.satom_marker
        &&& self.save_node == other.save_node
        &&& self.tco_expr_node == other.tco_expr_node
        &&& self.tco_env_node == other.tco_env_node
        &&& self.handler_node == other.handler_node
        &&& self.line_node == other.line_node
        &&& self.meta_node == other.meta_node
        &&& self.streaming == other.streaming
    }

    /// The raw flags word, meta bits included.
    pub fn flags_raw(&self, o: Obj) -> (r: u64)
        ensures
            r == spec_flags_raw(self.mem(), o),
    {
        self.heap.word(Self::header(o, SLOT_FLAGS)).0
    }

    /// The kind of `o`: its flags word with the meta and magic bits masked out.
    pub fn flags(&self, o: Obj) -> (r: Flags)
        ensures
            r.0 == spec_flags(self.mem(), o),
    {
        Flags(self.flags_raw(o) & 0x00ff_ffff_ffff_ff7f)
    }

    /// Is `o` a non-nil object of this kind?
    pub fn is(&self, o: Obj, flags: Flags) -> (r: bool)
        ensures
            r == spec_is(self.mem(), o, flags.0),
    {
        o.0 != 0 && self.flags(o).0 == flags.0
    }

    /// The type word of `o`; nil for nil.
    pub fn type_of_word(&self, o: Obj) -> (r: Obj)
        ensures
            r.0 == spec_type_word(self.mem(), o),
    {
        if o.0 == 0 {
            nil()
        } else {
            self.heap.word(Self::header(o, SLOT_TYPE)).as_obj()
        }
    }

    /// Overwrite the type word of `o`. A write to nil is ignored.
    pub fn set_type_word(&mut self, o: Obj, t: Obj)
        requires
            old(self).wf(),
        ensures
            final(self).wf(),
            final(self).mem().len() == old(self).mem().len(),
            final(self).same_rest(old(self)),
            o.0 != 0 ==> final(self).mem() == crate::heap::spec_set_word(
                old(self).mem(),
                spec_header(o, SLOT_TYPE),
                t.0,
            ),
            o.0 == 0 ==> final(self).mem() == old(self).mem(),
    {
        if o.0 == 0 {
            return;
        }
        self.heap.set_word(Self::header(o, SLOT_TYPE), t.word());
    }

    /// How many data words `o` was allocated with.
    pub fn data_len(&self, o: Obj) -> (r: u64)
        ensures
            r == spec_word(self.mem(), spec_header(o, SLOT_LEN)),
    {
        self.heap.word(Self::header(o, SLOT_LEN)).0
    }
}


/// `k` words of zeros.
pub open spec fn zeros(k: nat) -> Seq<u64> {
    Seq::new(k, |j: int| 0u64)
}

/// The words a fresh object occupies: its meta words, its header, its data.
pub open spec fn fresh_words(meta: u64, chain: u64, ty: u64, stored: u64, n: u64) -> Seq<u64> {
    zeros(meta as nat) + seq![chain, ty, stored, n] + zeros(n as nat)
}

/// A word address in a heap of at most `MAX_WORDS` words addresses the word it
/// names.
pub proof fn lemma_word_at(a: int, k: int)
    requires
        0 <= a,
        0 <= k,
    ensures
        (a * 8 + k * 8) / 8 == a + k,
        (a * 8 + k * 8) % 8 == 0,
{
    assert((a * 8 + k * 8) == (a + k) * 8) by (nonlinear_arith);
}

/// Facts about a fresh object `o` at word index `w` in `s`: where its header
/// and data sit.
pub proof fn lemma_fresh_reads(s: Seq<u64>, base: Seq<u64>, w: int, meta: u64, chain: u64, ty: u64, stored: u64, n: u64, o: Obj)
    requires
        s == base + fresh_words(meta, chain, ty, stored, n),
        w == base.len() + meta,
        o.0 == w * 8,
        s.len() <= MAX_WORDS,
    ensures
        spec_word(s, spec_header(o, SLOT_HEAP)) == chain,
        spec_word(s, spec_header(o, SLOT_TYPE)) == ty,
        spec_word(s, spec_header(o, SLOT_FLAGS)) == stored,
        spec_word(s, spec_header(o, SLOT_LEN)) == n,
        forall|i: u64| i < n ==> #[trigger] spec_data(s, o, i) == 0,
        s.subrange(0, base.len() as int) == base,
{
    let f = fresh_words(meta, chain, ty, stored, n);
    assert(s.len() == base.len() + meta + 4 + n);
    lemma_word_at(w, 0);
    lemma_word_at(w, 1);
    lemma_word_at(w, 2);
    lemma_word_at(w, 3);
    assert(s[w] == f[meta as int]);
    assert(s[w + 1] == f[meta as int + 1]);
    assert(s[w + 2] == f[meta as int + 2]);
    assert(s[w + 3] == f[meta as int + 3]);
    assert forall|i: u64| i < n implies #[trigger] spec_data(s, o, i) == 0 by {
        lemma_word_at(w, 4 + i);
        assert(i as int % slot_span() == i as int);
        assert(spec_slot(o, i) == (w + 4 + i) * 8);
        assert(s[w + 4 + i] == f[meta + 4 + i]);
    }
    assert(s.subrange(0, base.len() as int) =~= base);
}

impl Objects {
    /// `k` words of zeros on the end of the heap.
    fn push_zeros(&mut self, k: u64)
        requires
            old(self).wf(),
            old(self).mem().len() + k <= MAX_WORDS,
        ensures
            final(self).wf(),
            final(self).mem() == old(self).mem() + zeros(k as nat),
            final(self).same_rest(old(self)),
            final(self).heap_chain == old(self).heap_chain,
            final(self).live == old(self).live,
            final(self).heap.spec_allocations() == old(self).heap.spec_allocations(),
    {
        let ghost s0 = self.mem();
        let mut j: u64 = 0;
        while j < k
            invariant
                j <= k,
                self.wf(),
                s0.len() + k <= MAX_WORDS,
                self.mem() == s0 + zeros(j as nat),
                self.same_rest(old(self)),
                self.heap_chain == old(self).heap_chain,
                self.live == old(self).live,
                self.heap.spec_allocations() == old(self).heap.spec_allocations(),
            decreases k - j,
        {
            self.heap.push(Word(0));
            assert(self.mem() =~= s0 + zeros((j + 1) as nat));
            j = j + 1;
        }
    }

    /// A header plus `n` data words, with `meta` words prepended and the type
    /// word given, answering the object; nil when the heap has no room for it.
    pub fn alloc_stamped(&mut self, flags: Flags, ty: Obj, n: u64, meta: u64) -> (r: Obj)
        requires
            old(self).wf(),
        ensures
            final(self).wf(),
            final(self).same_rest(old(self)),
            r.0 == 0 <==> old(self).mem().len() + meta + 4 + n > MAX_WORDS,
            r.0 == 0 ==> final(self).mem() == old(self).mem(),
            r.0 != 0 ==> {
                &&& r.0 == (old(self).mem().len() + meta) * 8
                &&& final(self).mem() == old(self).mem() + fresh_words(
                    meta,
                    old(self).heap_chain.0,
                    ty.0,
                    stored_flags(flags.0, meta),
                    n,
                )
                &&& final(self).heap_chain == r
            },
            counted(*old(self), *final(self), r),
    {
        let len: u64 = self.heap.words_len() as u64;
        if meta > MAX_WORDS as u64 - len {
            return nil();
        }
        if MAX_WORDS as u64 - len - meta < 4 {
            return nil();
        }
        if n > MAX_WORDS as u64 - len - meta - 4 {
            return nil();
        }
        self.heap.note_allocation();
        let ghost s0 = self.mem();
        let chain = self.heap_chain;
        self.push_zeros(meta);
        let at = self.heap.frontier();
        let stored: u64 = if meta > 0 {
            flags.0 | FLAG_MAGIC_BIT | FLAG_META_BIT | (meta << FLAG_META_SHIFT)
        } else {
            flags.0 | FLAG_MAGIC_BIT
        };
        self.heap.push(chain.word());
        self.heap.push(ty.word());
        self.heap.push(Word(stored));
        self.heap.push(Word(n));
        let ghost s1 = self.mem();
        self.push_zeros(n);
        proof {
            assert(self.mem() =~= s0 + fresh_words(meta, chain.0, ty.0, stored, n));
        }
        let o = Obj(at.0);
        self.heap_chain = o;
        if self.live < usize::MAX {
            self.live = self.live + 1;
        }
        o
    }

    /// How many meta words the current base asks each allocation to carry.
    pub fn meta_extra(&self) -> (r: u64)
        ensures
            r <= META_MAX,
            r == if self.meta_node.0 == 0 {
                0
            } else {
                let cell = Obj(spec_data(self.mem(), self.meta_node, 0));
                if cell.0 == 0 {
                    0
                } else {
                    let v = spec_data(self.mem(), cell, 0);
                    if v > META_MAX {
                        META_MAX
                    } else {
                        v
                    }
                }
            },
    {
        let node = self.meta_node;
        if node.0 == 0 {
            return 0;
        }
        let cell = self.data(node, 0).as_obj();
        if cell.0 == 0 {
            return 0;
        }
        let v = self.data(cell, 0).0;
        if v > META_MAX {
            META_MAX
        } else {
            v
        }
    }

    /// A fresh object of this kind with `n` zeroed data words; nil when the
    /// heap has no room. Its type word is nil: a builtin kind's type is
    /// resolved through the current base when asked for.
    pub fn allocate(&mut self, flags: Flags, n: u64) -> (r: Obj)
        requires
            old(self).wf(),
            known_kind(flags.0),
        ensures
            final(self).wf(),
            final(self).same_rest(old(self)),
            final(self).mem().len() >= old(self).mem().len(),
            final(self).mem().subrange(0, old(self).mem().len() as int) == old(self).mem(),
            r.0 == 0 ==> final(self).mem() == old(self).mem(),
            r.0 == 0 ==> old(self).mem().len() + 4 + n > MAX_WORDS - META_MAX,
            final(self).mem().len() <= old(self).mem().len() + META_MAX + 4 + n,
            r.0 != 0 ==> fresh_object(old(self).mem(), final(self).mem(), r, flags.0, 0, n),
            counted(*old(self), *final(self), r),
    {
        let meta = self.meta_extra();
        self.alloc_typed(flags, nil(), n, meta)
    }

    /// A fresh object carrying the given type word.
    pub fn alloc_typed(&mut self, flags: Flags, ty: Obj, n: u64, meta: u64) -> (r: Obj)
        requires
            old(self).wf(),
            known_kind(flags.0),
            meta <= META_MAX,
        ensures
            final(self).wf(),
            final(self).same_rest(old(self)),
            final(self).mem().len() >= old(self).mem().len(),
            final(self).mem().subrange(0, old(self).mem().len() as int) == old(self).mem(),
            r.0 == 0 ==> final(self).mem() == old(self).mem(),
            r.0 == 0 ==> old(self).mem().len() + 4 + n > MAX_WORDS - META_MAX,
            final(self).mem().len() <= old(self).mem().len() + meta + 4 + n,
            r.0 != 0 ==> fresh_object(old(self).mem(), final(self).mem(), r, flags.0, ty.0, n),
            counted(*old(self), *final(self), r),
    {
        let ghost s0 = self.mem();
        let ghost chain = self.heap_chain.0;
        let o = self.alloc_stamped(flags, ty, n, meta);
        proof {
            if o.0 != 0 {
                let w = s0.len() + meta;
                lemma_fresh_reads(self.mem(), s0, w, meta, chain, ty.0, stored_flags(flags.0, meta), n, o);
                lemma_kind_round_trip(flags.0, meta);
            } else {
                assert(self.mem() == s0);
            }
            assert(self.mem().subrange(0, s0.len() as int) =~= s0) by {
                if o.0 != 0 {
                    lemma_fresh_reads(self.mem(), s0, s0.len() + meta, meta, chain, ty.0, stored_flags(flags.0, meta), n, o);
                }
            }
        }
        o
    }
}

/// A count that saturates at the machine's limit.
pub open spec fn saturating_inc(n: nat) -> nat {
    if n < usize::MAX {
        n + 1
    } else {
        n
    }
}

/// The allocation counters after an allocation that answered `r`: the heap's
/// count of allocations ever made and the count of live objects each rise
/// by one for a fresh object, and stay put for nil.
pub open spec fn counted(before: Objects, after: Objects, r: Obj) -> bool {
    &&& r.0 != 0 ==> after.heap.spec_allocations() == saturating_inc(before.heap.spec_allocations())
        && after.live as nat == saturating_inc(before.live as nat)
    &&& r.0 == 0 ==> after.heap.spec_allocations() == before.heap.spec_allocations() && after.live == before.live
}

/// `o` is a fresh object in `after`, laid past every word of `before`: of kind
/// `f`, carrying type word `ty`, with `n` zeroed data words.
pub open spec fn fresh_object(before: Seq<u64>, after: Seq<u64>, o: Obj, f: u64, ty: u64, n: u64) -> bool {
    &&& o.0 != 0
    &&& o.0 % 8 == 0
    &&& o.0 / 8 >= before.len()
    &&& (o.0 / 8) + 4 + n <= after.len()
    &&& after.len() <= MAX_WORDS
    &&& spec_flags(after, o) == f
    &&& spec_type_word(after, o) == ty
    &&& spec_word(after, spec_header(o, SLOT_LEN)) == n
    &&& forall|i: u64| i < n ==> #[trigger] spec_data(after, o, i) == 0
}

/// `o` is a fresh object in `after`, laid past every word of `before`, of kind
/// `f` and type word `ty`, whose data words are `vals`.
pub open spec fn made(before: Seq<u64>, after: Seq<u64>, o: Obj, f: u64, ty: u64, vals: Seq<u64>) -> bool {
    &&& o.0 != 0
    &&& o.0 % 8 == 0
    &&& o.0 / 8 >= before.len()
    &&& (o.0 / 8) + 4 + vals.len() <= after.len()
    &&& after.len() <= MAX_WORDS
    &&& spec_flags(after, o) == f
    &&& spec_type_word(after, o) == ty
    &&& spec_word(after, spec_header(o, SLOT_LEN)) == vals.len()
    &&& forall|i: u64| i < vals.len() ==> #[trigger] spec_data(after, o, i) == vals[i as int]
}

/// The heap only grew: every word that was there is there still.
pub open spec fn grew(before: Seq<u64>, after: Seq<u64>) -> bool {
    &&& after.len() >= before.len()
    &&& after.len() <= MAX_WORDS
    &&& after.subrange(0, before.len() as int) == before
}

/// Where data slot `i` of an aligned, in-heap object sits.
pub proof fn lemma_slot_index(o: Obj, i: u64)
    requires
        o.0 % 8 == 0,
        o.0 / 8 + 4 + i <= MAX_WORDS,
    ensures
        spec_slot(o, i) == o.0 + 32 + i * 8,
        spec_slot(o, i) / 8 == o.0 / 8 + 4 + i,
{
    assert(i as int % slot_span() == i as int);
    lemma_word_at((o.0 / 8) as int, 4 + i);
}

/// Where header word `k` of an aligned, in-heap object sits.
pub proof fn lemma_header_index(o: Obj, k: u64)
    requires
        o.0 % 8 == 0,
        o.0 / 8 + 4 <= MAX_WORDS,
        k < 4,
    ensures
        spec_header(o, k) / 8 == o.0 / 8 + k,
{
    lemma_word_at((o.0 / 8) as int, k as int);
}

impl Objects {
    /// A fresh object of this kind and type word whose data words are `vals`;
    /// nil when the heap has no room.
    pub fn alloc_init(&mut self, flags: Flags, ty: Obj, vals: &[u64]) -> (r: Obj)
        requires
            old(self).wf(),
            known_kind(flags.0),
        ensures
            final(self).wf(),
            final(self).same_rest(old(self)),
            grew(old(self).mem(), final(self).mem()),
            r.0 == 0 ==> final(self).mem() == old(self).mem(),
            r.0 == 0 ==> old(self).mem().len() + 4 + vals@.len() > MAX_WORDS - META_MAX,
            final(self).mem().len() <= old(self).mem().len() + META_MAX + 4 + vals@.len(),
            r.0 != 0 ==> made(old(self).mem(), final(self).mem(), r, flags.0, ty.0, vals@),
            counted(*old(self), *final(self), r),
    {
        let ghost s0 = self.mem();
        let meta = self.meta_extra();
        let n: u64 = vals.len() as u64;
        let o = self.alloc_typed(flags, ty, n, meta);
        if o.0 == 0 {
            return o;
        }
        let ghost s1 = self.mem();
        let ghost live1 = self.live;
        let ghost count1 = self.heap.spec_allocations();
        let mut j: usize = 0;
        while j < vals.len()
            invariant
                self.wf(),
                self.same_rest(old(self)),
                self.live == live1,
                self.heap.spec_allocations() == count1,
                counted(*old(self), Objects { live: live1, ..*self }, o),
                o.0 != 0,
                j <= vals@.len(),
                n == vals@.len(),
                fresh_object(s0, s1, o, flags.0, ty.0, n),
                s1.len() <= s0.len() + META_MAX + 4 + n,
                self.mem().len() == s1.len(),
                self.mem().subrange(0, s0.len() as int) == s0,
                spec_flags(self.mem(), o) == flags.0,
                spec_type_word(self.mem(), o) == ty.0,
                spec_word(self.mem(), spec_header(o, SLOT_LEN)) == n,
                forall|i: u64| i < j ==> #[trigger] spec_data(self.mem(), o, i) == vals@[i as int],
                forall|i: u64| j <= i < n ==> #[trigger] spec_data(self.mem(), o, i) == 0,
            decreases vals@.len() - j,
        {
            let ghost before = self.mem();
            self.set_data(o, j as u64, Word(vals[j]));
            proof {
                let a = spec_slot(o, j as u64);
                lemma_slot_index(o, j as u64);
                lemma_header_index(o, SLOT_FLAGS);
                lemma_header_index(o, SLOT_TYPE);
                lemma_header_index(o, SLOT_LEN);
                crate::heap::lemma_set_word_read(before, a, spec_header(o, SLOT_FLAGS), vals@[j as int]);
                crate::heap::lemma_set_word_read(before, a, spec_header(o, SLOT_TYPE), vals@[j as int]);
                crate::heap::lemma_set_word_read(before, a, spec_header(o, SLOT_LEN), vals@[j as int]);
                assert forall|i: u64| i < n implies #[trigger] spec_data(self.mem(), o, i) == if i == j {
                    vals@[j as int]
                } else {
                    spec_data(before, o, i)
                } by {
                    lemma_slot_index(o, i);
                    crate::heap::lemma_set_word_read(before, a, spec_slot(o, i), vals@[j as int]);
                }
                assert(self.mem().subrange(0, s0.len() as int) =~= s0) by {
                    assert forall|k: int| 0 <= k < s0.len() implies self.mem()[k] == s0[k] by {
                        assert(before[k] == s0[k]);
                    }
                }
            }
            j = j + 1;
        }
        proof {
            assert(self.mem().subrange(0, s0.len() as int) =~= s0);
        }
        o
    }
}

impl Objects {
    /// This state is `before` with one constructor run: well-formed, nothing
    /// but the heap changed, the heap only grew, and `r` is a fresh object of
    /// kind `f` and type word `ty` holding `vals` — or nil, with the heap
    /// untouched, when there was no room.
    pub open spec fn built(&self, before: Objects, r: Obj, f: u64, ty: u64, vals: Seq<u64>) -> bool {
        &&& self.wf()
        &&& self.same_rest(&before)
        &&& grew(before.mem(), self.mem())
        &&& self.mem().len() <= before.mem().len() + META_MAX + 4 + vals.len()
        &&& r.0 != 0 ==> made(before.mem(), self.mem(), r, f, ty, vals)
        &&& r.0 == 0 ==> self.mem() == before.mem() && before.mem().len() + 4 + vals.len()
            > MAX_WORDS - META_MAX
    }

    /// `self` is `before` with words possibly rewritten and added, and nothing
    /// else changed.
    pub open spec fn kept(&self, before: Objects) -> bool {
        &&& self.wf()
        &&& self.same_rest(&before)
        &&& self.mem().len() >= before.mem().len()
    }

    /// `self` is `before` with the heap grown and nothing else changed.
    pub open spec fn only_grew(&self, before: Objects) -> bool {
        &&& self.wf()
        &&& self.same_rest(&before)
        &&& grew(before.mem(), self.mem())
    }
}

/// A heap grew from itself.
pub proof fn lemma_grew_refl(s: Seq<u64>)
    requires
        s.len() <= MAX_WORDS,
    ensures
        grew(s, s),
{
    assert(s.subrange(0, s.len() as int) =~= s);
}

/// Growing twice is growing.
pub proof fn lemma_grew_trans(a: Seq<u64>, b: Seq<u64>, c: Seq<u64>)
    requires
        grew(a, b),
        grew(b, c),
    ensures
        grew(a, c),
{
    assert(c.subrange(0, a.len() as int) =~= a) by {
        assert forall|k: int| 0 <= k < a.len() implies c[k] == a[k] by {
            assert(c.subrange(0, b.len() as int)[k] == b[k]);
            assert(b.subrange(0, a.len() as int)[k] == a[k]);
        }
    }
}

/// What was made stays made as the heap grows.
pub proof fn lemma_made_grew(before: Seq<u64>, s1: Seq<u64>, s2: Seq<u64>, o: Obj, f: u64, ty: u64, vals: Seq<u64>)
    requires
        made(before, s1, o, f, ty, vals),
        grew(s1, s2),
    ensures
        made(before, s2, o, f, ty, vals),
{
    let w = (o.0 / 8) as int;
    lemma_header_index(o, SLOT_FLAGS);
    lemma_header_index(o, SLOT_TYPE);
    lemma_header_index(o, SLOT_LEN);
    assert(s2[w + 1] == s1[w + 1]);
    assert(s2[w + 2] == s1[w + 2]);
    assert(s2[w + 3] == s1[w + 3]);
    assert forall|i: u64| i < vals.len() implies #[trigger] spec_data(s2, o, i) == vals[i as int] by {
        lemma_slot_index(o, i);
        assert(s2[w + 4 + i] == s1[w + 4 + i]);
        assert(spec_data(s1, o, i) == vals[i as int]);
    }
}

/// Nothing is ever false but nil and `#f`.
pub open spec fn spec_truthy(s: Seq<u64>, f: Obj, o: Obj) -> bool {
    o.0 != 0 && !spec_is(s, o, FALSE_BITS)
}

impl Objects {
    /// A fresh object model: the two tags, `#f`, and `#t` interned in the
    /// shared table.
    pub fn new() -> (r: Objects)
        ensures
            r.wf(),
            r.base.0 == 0,
            r.save_node.0 == 0,
            r.meta_node.0 == 0,
            r.false_obj.0 != 0,
            spec_is(r.mem(), r.false_obj, FALSE_BITS),
            r.spair_marker.0 != 0,
            r.satom_marker.0 != 0,
            r.spair_marker != r.satom_marker,
    {
        let mut a = Objects {
            heap: Heap::new(),
            symbols: Symbols::new(),
            shared_symbols: Symbols::new(),
            false_obj: nil(),
            true_obj: nil(),
            base: nil(),
            save_node: nil(),
            tco_expr_node: nil(),
            tco_env_node: nil(),
            handler_node: nil(),
            line_node: nil(),
            meta_node: nil(),
            spair_marker: nil(),
            satom_marker: nil(),
            heap_chain: nil(),
            live: 0,
            kind_handles: Vec::new(),
            sym_eval_handler: nil(),
            list_eval_handler: nil(),
            callable_call_handler: nil(),
            list_call_handler: nil(),
            base_tag_atom: nil(),
            entry_words: Vec::new(),
            input: Vec::new(),
            input_at: 0,
            streaming: false,
            input_cap: 0,
        };
        let ghost s0 = a.mem();
        let m1 = a.alloc_init(Flags(0), nil(), &[0]);
        let ghost s1 = a.mem();
        let m2 = a.alloc_init(Flags(0), nil(), &[0]);
        let ghost s2 = a.mem();
        let f = a.alloc_init(Flags(FALSE_BITS), nil(), &[0, 0]);
        a.spair_marker = m1;
        a.satom_marker = m2;
        a.false_obj = f;
        let t = a.sym_shared("#t");
        a.true_obj = t;
        proof {
            assert(m2.0 / 8 >= s1.len());
            assert(m1.0 / 8 + 4 < s1.len() + 1);
        }
        a
    }

    /// Whether this object's allocation prepended meta words.
    pub fn meta_stamped(&self, o: Obj) -> (r: bool)
        ensures
            r == (o.0 != 0 && spec_flags_raw(self.mem(), o) & FLAG_META_BIT != 0),
    {
        o.0 != 0 && self.flags_raw(o) & FLAG_META_BIT != 0
    }

    /// The address of meta word `i`, `i + 1` words before the object.
    pub open spec fn spec_meta_addr(o: Obj, i: u64) -> u64 {
        crate::obj::wrap_sub(o.0, ((i % 0x1000_0000_0000_0000 + 1) * 8) as u64)
    }

    /// `o` carries meta words.
    pub open spec fn spec_meta_stamped(&self, o: Obj) -> bool {
        o.0 != 0 && spec_flags_raw(self.mem(), o) & FLAG_META_BIT != 0
    }

    /// The address of meta word `i`, `i + 1` words before the object.
    fn meta_addr(o: Obj, i: u64) -> (r: Addr)
        ensures
            r.0 == Self::spec_meta_addr(o, i),
    {
        let k: u64 = (i % 0x1000_0000_0000_0000 + 1) * 8;
        Addr(crate::obj::sub_wrapping(o.0, k))
    }

    /// Meta unit `i`; zero for an object with none.
    pub fn meta_i(&self, o: Obj, i: u64) -> (r: i64)
        ensures
            !(o.0 != 0 && spec_flags_raw(self.mem(), o) & FLAG_META_BIT != 0) ==> r == 0,
            self.spec_meta_stamped(o) ==> r == crate::obj::word_signed(
                crate::heap::spec_word(self.mem(), Self::spec_meta_addr(o, i)),
            ),
    {
        if !self.meta_stamped(o) {
            return 0;
        }
        crate::obj::word_to_i64(self.heap.word(Self::meta_addr(o, i)).0)
    }

    /// Write meta unit `i`; nothing for an object with none.
    pub fn set_meta_i(&mut self, o: Obj, i: u64, v: i64)
        requires
            old(self).wf(),
        ensures
            final(self).wf(),
            final(self).same_rest(old(self)),
            final(self).mem().len() == old(self).mem().len(),
            final(self).mem() == if old(self).spec_meta_stamped(o) {
                crate::heap::spec_set_word(old(self).mem(), Self::spec_meta_addr(o, i), crate::obj::signed_word(v))
            } else {
                old(self).mem()
            },
    {
        if !self.meta_stamped(o) {
            return;
        }
        self.heap.set_word(Self::meta_addr(o, i), Word(crate::obj::i64_to_word(v)));
    }

    /// Stamp an object's source line and file, where it has room for them.
    pub fn stamp_meta(&mut self, o: Obj, line: i64, file: i64)
        requires
            old(self).wf(),
        ensures
            final(self).wf(),
            final(self).same_rest(old(self)),
            final(self).mem().len() == old(self).mem().len(),
            !old(self).spec_meta_stamped(o) ==> final(self).mem() == old(self).mem(),
            old(self).spec_meta_stamped(o) && Self::spec_meta_addr(o, 0) / 8 != spec_header(o, SLOT_FLAGS) / 8
                ==> final(self).mem() == crate::heap::spec_set_word(
                crate::heap::spec_set_word(old(self).mem(), Self::spec_meta_addr(o, 0), crate::obj::signed_word(line)),
                Self::spec_meta_addr(o, 1),
                crate::obj::signed_word(file),
            ),
    {
        let ghost s0 = self.mem();
        self.set_meta_i(o, 0, line);
        proof {
            crate::heap::lemma_set_word_read(
                s0,
                Self::spec_meta_addr(o, 0),
                spec_header(o, SLOT_FLAGS),
                crate::obj::signed_word(line),
            );
        }
        self.set_meta_i(o, 1, file);
    }

    pub fn false_obj(&self) -> (r: Obj)
        ensures
            r == self.false_obj,
    {
        self.false_obj
    }

    pub fn true_obj(&self) -> (r: Obj)
        ensures
            r == self.true_obj,
    {
        self.true_obj
    }

    /// `#t` or `#f`.
    pub fn truth(&self, b: bool) -> (r: Obj)
        ensures
            r == if b {
                self.true_obj
            } else {
                self.false_obj
            },
    {
        if b {
            self.true_obj
        } else {
            self.false_obj
        }
    }

    pub fn is_false(&self, o: Obj) -> (r: bool)
        ensures
            r == spec_is(self.mem(), o, FALSE_BITS),
    {
        self.is(o, Flags(FALSE_BITS))
    }

    /// x-lang's falsy set is exactly {nil, #f}: zero is true, the empty
    /// string is true.
    pub fn truthy(&self, o: Obj) -> (r: bool)
        ensures
            r == (o.0 != 0 && !spec_is(self.mem(), o, FALSE_BITS)),
    {
        o.0 != 0 && !self.is_false(o)
    }

    /// Every interned symbol: the running program's, then the shared ones.
    pub fn interned(&self) -> (r: Vec<Obj>)
        ensures
            r@.len() == self.symbols@.len() + self.shared_symbols@.len(),
            forall|i: int| 0 <= i < self.symbols@.len() ==> r@[i] == (#[trigger] self.symbols@[i]).1,
            forall|j: int|
                0 <= j < self.shared_symbols@.len() ==> r@[self.symbols@.len() + j] == (
                #[trigger] self.shared_symbols@[j]).1,
    {
        let mut out = self.symbols.all();
        let mut more = self.shared_symbols.all();
        out.append(&mut more);
        out
    }

    pub fn heap_words(&self) -> (r: usize)
        ensures
            r == self.mem().len(),
    {
        self.heap.words_len()
    }

    /// Every allocation ever made, as the heap counts them.
    pub fn alloc_count(&self) -> (r: usize)
        ensures
            r == self.heap.spec_allocations(),
    {
        self.heap.allocations()
    }

    /// Install another name table for the running program, answering the one
    /// it replaces.
    pub fn swap_symbols(&mut self, table: Symbols) -> (r: Symbols)
        requires
            old(self).wf(),
            table.wf(),
        ensures
            final(self).wf(),
            final(self).symbols == table,
            r == old(self).symbols,
            final(self).mem() == old(self).mem(),
            final(self).shared_symbols == old(self).shared_symbols,
            final(self).same_frame(old(self)),
    {
        let mut t = table;
        std::mem::swap(&mut self.symbols, &mut t);
        t
    }
}

} // verus!
