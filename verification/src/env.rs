//! Environments: holder objects whose chain is a spine of ordinary cells.
//!
//! ```text
//!   holder data 0   chain    spine of (name . value) binding cells
//!   holder data 1   parent   the enclosing holder, or nil
//!   holder data 2   base     the base this environment belongs to
//! ```
//!
//! A name is found by IDENTITY: the binding cell whose first is the very
//! symbol object, nearest frame first.

use crate::heap::MAX_WORDS;
use crate::obj::{nil, EnvId, Flags, Obj, Word};
use crate::objects::{
    grew, lemma_grew_trans, made, spec_data, spec_is, Objects, ENVH_BITS, META_MAX, SPAIR_BITS,
};
use vstd::prelude::*;

verus! {

pub const CHAIN: u64 = 0;
pub const PARENT: u64 = 1;
pub const BASE: u64 = 2;

/// `o` is an aligned object whose header and first `n` data words lie inside
/// the heap.
pub open spec fn in_heap(s: Seq<u64>, o: Obj, n: nat) -> bool {
    o.0 != 0 && o.0 % 8 == 0 && o.0 / 8 + 4 + n <= s.len()
}

/// The binding cell for `name` on a frame's chain: the first whose first is
/// `name`, at most `fuel` cells down.
pub open spec fn spec_find(s: Seq<u64>, chain: Obj, name: Obj, fuel: nat) -> Option<Obj>
    decreases fuel,
{
    if fuel == 0 || chain.0 == 0 {
        None
    } else {
        let p = Obj(spec_data(s, chain, 0));
        if in_heap(s, p, 2) && spec_data(s, p, 0) == name.0 {
            Some(p)
        } else {
            spec_find(s, Obj(spec_data(s, chain, 1)), name, (fine_sub(fuel)))
        }
    }
}

/// A frame's binding chain from `chain` lies in the heap: spine cells, each
/// holding a binding cell, both inside the heap, ending in nil within `fuel`
/// cells.
pub open spec fn chain_in_heap(s: Seq<u64>, chain: Obj, fuel: nat) -> bool
    decreases fuel,
{
    if chain.0 == 0 {
        true
    } else if fuel == 0 {
        false
    } else {
        &&& in_heap(s, chain, 2)
        &&& in_heap(s, Obj(spec_data(s, chain, 0)), 2)
        &&& chain_in_heap(s, Obj(spec_data(s, chain, 1)), (fuel - 1) as nat)
    }
}

/// Word `w` is none of the words a walk down the chain reads: a spine
/// cell's first and rest, a binding cell's name.
pub open spec fn chain_avoids(s: Seq<u64>, chain: Obj, fuel: nat, w: int) -> bool
    decreases fuel,
{
    if chain.0 == 0 || fuel == 0 {
        true
    } else {
        let p = Obj(spec_data(s, chain, 0));
        &&& w != (crate::objects::spec_slot(chain, 0) / 8) as int
        &&& w != (crate::objects::spec_slot(chain, 1) / 8) as int
        &&& w != (crate::objects::spec_slot(p, 0) / 8) as int
        &&& chain_avoids(s, Obj(spec_data(s, chain, 1)), (fuel - 1) as nat, w)
    }
}

/// A walk down a chain that lies in the heap reads the same in a heap that
/// keeps every word the walk reads.
pub proof fn lemma_find_stable(s: Seq<u64>, t: Seq<u64>, chain: Obj, name: Obj, f: nat, g: nat, w: int)
    requires
        chain_in_heap(s, chain, f),
        chain_avoids(s, chain, f, w),
        g >= f,
        s.len() <= MAX_WORDS,
        t.len() >= s.len(),
        forall|i: int| 0 <= i < s.len() && i != w ==> t[i] == s[i],
    ensures
        spec_find(t, chain, name, g) == spec_find(s, chain, name, f),
    decreases f,
{
    if chain.0 != 0 {
        let p = Obj(spec_data(s, chain, 0));
        crate::objects::lemma_slot_index(chain, 0);
        crate::objects::lemma_slot_index(chain, 1);
        crate::objects::lemma_slot_index(p, 0);
        assert(spec_data(t, chain, 0) == spec_data(s, chain, 0));
        assert(spec_data(t, chain, 1) == spec_data(s, chain, 1));
        assert(spec_data(t, p, 0) == spec_data(s, p, 0));
        lemma_find_stable(s, t, Obj(spec_data(s, chain, 1)), name, (f - 1) as nat, fine_sub(g), w);
    }
}

/// A binding cell the walk answers is in the heap and holds the name.
pub proof fn lemma_find_in_heap(s: Seq<u64>, chain: Obj, name: Obj, fuel: nat)
    requires
        spec_find(s, chain, name, fuel) is Some,
    ensures
        in_heap(s, spec_find(s, chain, name, fuel).unwrap(), 2),
        spec_data(s, spec_find(s, chain, name, fuel).unwrap(), 0) == name.0,
    decreases fuel,
{
    if fuel > 0 && chain.0 != 0 {
        let p = Obj(spec_data(s, chain, 0));
        if !(in_heap(s, p, 2) && spec_data(s, p, 0) == name.0) {
            lemma_find_in_heap(s, Obj(spec_data(s, chain, 1)), name, fine_sub(fuel));
        }
    }
}

/// One less, at zero zero.
pub open spec fn fine_sub(n: nat) -> nat {
    if n == 0 {
        0
    } else {
        (n - 1) as nat
    }
}

/// What `name` is bound to seen from holder `env`: the nearest frame that
/// binds it, at most `fuel` frames out.
pub open spec fn spec_lookup(s: Seq<u64>, env: Obj, name: Obj, fuel: nat) -> Option<u64>
    decreases fuel,
{
    if fuel == 0 || env.0 == 0 {
        None
    } else {
        match spec_find(s, Obj(spec_data(s, env, CHAIN)), name, s.len()) {
            Some(p) => Some(spec_data(s, p, 1)),
            None => spec_lookup(s, Obj(spec_data(s, env, PARENT)), name, fine_sub(fuel)),
        }
    }
}

/// The binding cell the lookup of `name` from holder `env` answers from:
/// the nearest frame's cell for it, at most `fuel` frames out.
pub open spec fn spec_binding_cell(s: Seq<u64>, env: Obj, name: Obj, fuel: nat) -> Option<Obj>
    decreases fuel,
{
    if fuel == 0 || env.0 == 0 {
        None
    } else {
        match spec_find(s, Obj(spec_data(s, env, CHAIN)), name, s.len()) {
            Some(p) => Some(p),
            None => spec_binding_cell(s, Obj(spec_data(s, env, PARENT)), name, fine_sub(fuel)),
        }
    }
}

/// `f` is an environment frame in `s` whose three data words are `vals`.
pub open spec fn frame_is(s: Seq<u64>, f: Obj, vals: Seq<u64>) -> bool {
    &&& in_heap(s, f, 3)
    &&& spec_is(s, f, ENVH_BITS)
    &&& spec_data(s, f, CHAIN) == vals[0]
    &&& spec_data(s, f, PARENT) == vals[1]
    &&& spec_data(s, f, BASE) == vals[2]
}

/// The environment registry. Frames live on the heap; this counts the ones
/// made and keeps the ones a collection reclaimed, for reuse.
pub struct Envs {
    made: usize,
    free: Vec<Obj>,
}

impl Envs {
    pub fn new() -> (r: Envs)
        ensures
            r.frame_total() == 0,
    {
        Envs { made: 0, free: Vec::new() }
    }

    /// Hand reclaimed frames back for reuse.
    pub fn reclaim(&mut self, frames: Vec<Obj>)
        ensures
            final(self).frame_total() == old(self).frame_total(),
            final(self).free_frames() == old(self).free_frames() + frames@,
    {
        let mut i: usize = 0;
        while i < frames.len()
            invariant
                i <= frames@.len(),
                self.frame_total() == old(self).frame_total(),
                self.free_frames() == old(self).free_frames() + frames@.subrange(0, i as int),
            decreases frames@.len() - i,
        {
            self.free.push(frames[i]);
            i = i + 1;
            proof {
                assert(self.free_frames() =~= old(self).free_frames() + frames@.subrange(0, i as int));
            }
        }
        proof {
            assert(frames@.subrange(0, frames@.len() as int) =~= frames@);
        }
    }

    /// How many reclaimed frames wait to be reused.
    pub fn free_count(&self) -> (r: usize) {
        self.free.len()
    }

    /// How many frames were ever made.
    pub closed spec fn frame_total(&self) -> nat {
        self.made as nat
    }

    /// The reclaimed frames waiting for reuse, the next one last.
    pub closed spec fn free_frames(&self) -> Seq<Obj> {
        self.free@
    }

    /// A root frame: no parent, no base.
    pub fn push_root(&mut self, o: &mut Objects) -> (r: EnvId)
        requires
            old(o).wf(),
        ensures
            final(o).kept(*old(o)),
            r.0.0 == 0 ==> old(o).mem().len() + 7 > crate::heap::MAX_WORDS - crate::objects::META_MAX,
            r.0.0 != 0 ==> frame_is(final(o).mem(), r.0, seq![0u64, 0u64, 0u64]),
            r.0.0 != 0 ==> forall|name: Obj, fuel: nat| #[trigger] spec_lookup(final(o).mem(), r.0, name, fuel) is None,
            old(self).free_frames().len() == 0 ==> final(self).frame_total() == crate::objects::saturating_inc(
                old(self).frame_total(),
            ) && final(self).free_frames() == old(self).free_frames(),
            old(self).free_frames().len() > 0 ==> final(self).free_frames() == old(self).free_frames().drop_last(),
            final(self).frame_total() == old(self).frame_total() || final(self).frame_total()
                == crate::objects::saturating_inc(old(self).frame_total()),
    {
        let r = self.make(o, nil(), nil());
        proof {
            if r.0.0 != 0 {
                assert forall|name: Obj, fuel: nat| #[trigger] spec_lookup(o.mem(), r.0, name, fuel) is None by {
                    reveal_with_fuel(spec_lookup, 2);
                }
            }
        }
        r
    }

    /// A frame under `parent`, in the parent's base.
    pub fn push(&mut self, o: &mut Objects, parent: EnvId) -> (r: EnvId)
        requires
            old(o).wf(),
        ensures
            final(o).kept(*old(o)),
            r.0.0 == 0 ==> old(o).mem().len() + 7 > crate::heap::MAX_WORDS - crate::objects::META_MAX,
            r.0.0 != 0 ==> frame_is(
                final(o).mem(),
                r.0,
                seq![0u64, parent.0.0, spec_data(old(o).mem(), parent.0, BASE)],
            ),
            old(self).free_frames().len() == 0 ==> final(self).frame_total() == crate::objects::saturating_inc(
                old(self).frame_total(),
            ) && final(self).free_frames() == old(self).free_frames(),
            old(self).free_frames().len() > 0 ==> final(self).free_frames() == old(self).free_frames().drop_last(),
            final(self).frame_total() == old(self).frame_total() || final(self).frame_total()
                == crate::objects::saturating_inc(old(self).frame_total()),
    {
        let base = o.data(parent.obj(), BASE).as_obj();
        self.make(o, parent.obj(), base)
    }

    fn make(&mut self, o: &mut Objects, parent: Obj, base: Obj) -> (r: EnvId)
        requires
            old(o).wf(),
        ensures
            final(o).kept(*old(o)),
            r.0.0 == 0 ==> old(o).mem().len() + 7 > crate::heap::MAX_WORDS - crate::objects::META_MAX,
            r.0.0 != 0 ==> frame_is(final(o).mem(), r.0, seq![0u64, parent.0, base.0]),
            old(self).free_frames().len() == 0 ==> final(self).frame_total() == crate::objects::saturating_inc(
                old(self).frame_total(),
            ) && final(self).free_frames() == old(self).free_frames(),
            old(self).free_frames().len() > 0 ==> final(self).free_frames() == old(self).free_frames().drop_last(),
            final(self).frame_total() == old(self).frame_total() || final(self).frame_total()
                == crate::objects::saturating_inc(old(self).frame_total()),
    {
        match self.free.pop() {
            Some(f) => {
                let len = o.heap_words();
                if o.is(f, Flags(ENVH_BITS)) && f.0 % 8 == 0 && f.0 / 8 < len as u64 && len as u64 - f.0 / 8 >= 7 {
                    let ghost s0 = o.mem();
                    o.set_data(f, CHAIN, Word(0));
                    let ghost s1 = o.mem();
                    o.set_data(f, PARENT, parent.word());
                    let ghost s2 = o.mem();
                    o.set_data(f, BASE, base.word());
                    let ghost s3 = o.mem();
                    o.relink(f);
                    proof {
                        crate::objects::lemma_slot_index(f, 0);
                        crate::objects::lemma_slot_index(f, 1);
                        crate::objects::lemma_slot_index(f, 2);
                        crate::objects::lemma_header_index(f, crate::objects::SLOT_FLAGS);
                        crate::objects::lemma_header_index(f, 0);
                        let a0 = crate::objects::spec_slot(f, 0);
                        let a1 = crate::objects::spec_slot(f, 1);
                        let a2 = crate::objects::spec_slot(f, 2);
                        let hf = crate::objects::spec_header(f, crate::objects::SLOT_FLAGS);
                        crate::heap::lemma_set_word_read(s0, a0, hf, 0);
                        crate::heap::lemma_set_word_read(s1, a1, hf, parent.0);
                        crate::heap::lemma_set_word_read(s2, a2, hf, base.0);
                        crate::heap::lemma_set_word_read(s3, f.0, hf, s3[0]);
                        crate::heap::lemma_set_word_read(s0, a0, a0, 0);
                        crate::heap::lemma_set_word_read(s1, a1, a0, parent.0);
                        crate::heap::lemma_set_word_read(s2, a2, a0, base.0);
                        crate::heap::lemma_set_word_read(s1, a1, a1, parent.0);
                        crate::heap::lemma_set_word_read(s2, a2, a1, base.0);
                        crate::heap::lemma_set_word_read(s2, a2, a2, base.0);
                        let chain = old(o).heap_chain.0;
                        crate::heap::lemma_set_word_read(s3, f.0, a0, chain);
                        crate::heap::lemma_set_word_read(s3, f.0, a1, chain);
                        crate::heap::lemma_set_word_read(s3, f.0, a2, chain);
                    }
                    return EnvId::from_obj(f);
                }
            },
            None => {},
        }
        let h = o.alloc_init(Flags(ENVH_BITS), nil(), &[0, parent.0, base.0]);
        if self.made < usize::MAX {
            self.made = self.made + 1;
        }
        proof {
            if h.0 != 0 {
                assert(spec_data(o.mem(), h, 0) == seq![0u64, parent.0, base.0][0]);
                assert(spec_data(o.mem(), h, 1) == seq![0u64, parent.0, base.0][1]);
                assert(spec_data(o.mem(), h, 2) == seq![0u64, parent.0, base.0][2]);
            }
        }
        EnvId::from_obj(h)
    }

    /// Move a frame to another base.
    pub fn set_base(&mut self, o: &mut Objects, id: EnvId, base: Obj)
        requires
            old(o).wf(),
        ensures
            final(o).wf(),
            final(o).same_rest(old(o)),
            final(o).mem().len() == old(o).mem().len(),
            final(o).mem() == crate::value::tok::with_data(old(o).mem(), id.0, BASE, base.0),
    {
        o.set_data(id.obj(), BASE, base.word());
    }

    pub fn base_of(&self, o: &Objects, id: EnvId) -> (r: Obj)
        ensures
            r.0 == spec_data(o.mem(), id.0, BASE),
    {
        o.data(id.obj(), BASE).as_obj()
    }

    pub fn parent_of(&self, o: &Objects, id: EnvId) -> (r: Option<EnvId>)
        ensures
            spec_data(o.mem(), id.0, PARENT) == 0 ==> r is None,
            spec_data(o.mem(), id.0, PARENT) != 0 ==> r == Some(EnvId(Obj(spec_data(o.mem(), id.0, PARENT)))),
    {
        let p = o.data(id.obj(), PARENT).as_obj();
        if p.0 == 0 {
            None
        } else {
            Some(EnvId::from_obj(p))
        }
    }

    /// The binding cell for `name` in this frame alone.
    fn find_in_frame(&self, o: &Objects, env: EnvId, name: Obj) -> (r: Option<Obj>)
        requires
            o.wf(),
        ensures
            r == spec_find(o.mem(), Obj(spec_data(o.mem(), env.0, CHAIN)), name, o.mem().len()),
    {
        let len: usize = o.heap_words();
        let mut at = o.data(env.obj(), CHAIN).as_obj();
        let mut fuel: usize = len;
        while fuel > 0 && at.0 != 0
            invariant
                fuel <= len,
                len == o.mem().len(),
                spec_find(o.mem(), Obj(spec_data(o.mem(), env.0, CHAIN)), name, len as nat)
                    == spec_find(o.mem(), at, name, fuel as nat),
            decreases fuel,
        {
            let p = o.first(at);
            if p.0 != 0 && p.0 % 8 == 0 && p.0 / 8 <= len as u64 && (len as u64) - p.0 / 8 >= 6 && o.data(p, 0).0
                == name.0 {
                return Some(p);
            }
            at = o.rest(at);
            fuel = fuel - 1;
        }
        None
    }

    /// Bind `name` to `value` in this frame: the binding already there is
    /// updated in place, and otherwise a new one goes at the head of the chain.
    pub fn bind(&mut self, o: &mut Objects, env: EnvId, name: Obj, value: Obj)
        requires
            old(o).wf(),
        ensures
            final(o).wf(),
            final(o).same_rest(old(o)),
            grew_or_rewrote(old(o).mem(), final(o).mem()),
            spec_find(old(o).mem(), Obj(spec_data(old(o).mem(), env.0, CHAIN)), name, old(o).mem().len())
                matches Some(p) ==> spec_data(final(o).mem(), p, 1) == value.0 && final(o).mem()
                == crate::heap::spec_set_word(old(o).mem(), crate::objects::spec_slot(p, 1), value.0),
            spec_find(old(o).mem(), Obj(spec_data(old(o).mem(), env.0, CHAIN)), name, old(o).mem().len())
                is None && in_heap(old(o).mem(), env.0, 3) && old(o).mem().len() + 2 * (META_MAX
                + 6) <= MAX_WORDS ==> spec_lookup(final(o).mem(), env.0, name, final(o).mem().len())
                == Some(value.0),
            ({
                let s = old(o).mem();
                let chain0 = Obj(spec_data(s, env.0, CHAIN));
                spec_find(s, chain0, name, s.len()) is None && in_heap(s, env.0, 3) && s.len() + 2 * (META_MAX + 6)
                    <= MAX_WORDS && chain_in_heap(s, chain0, s.len()) && chain_avoids(
                    s,
                    chain0,
                    s.len(),
                    (crate::objects::spec_slot(env.0, CHAIN) / 8) as int,
                ) ==> forall|n2: Obj|
                    n2 != name ==> #[trigger] spec_find(
                        final(o).mem(),
                        Obj(spec_data(final(o).mem(), env.0, CHAIN)),
                        n2,
                        final(o).mem().len(),
                    ) == spec_find(s, chain0, n2, s.len())
            }),
            ({
                let s = old(o).mem();
                let chain0 = Obj(spec_data(s, env.0, CHAIN));
                spec_find(s, chain0, name, s.len()) matches Some(p) && chain_in_heap(s, chain0, s.len())
                    && chain_avoids(s, chain0, s.len(), (crate::objects::spec_slot(p, 1) / 8) as int) && (env.0.0 != 0
                    ==> crate::objects::spec_slot(env.0, CHAIN) / 8 != crate::objects::spec_slot(p, 1) / 8) ==> forall|
                    n2: Obj,
                | #[trigger]
                    spec_find(final(o).mem(), Obj(spec_data(final(o).mem(), env.0, CHAIN)), n2, final(o).mem().len())
                        == spec_find(s, chain0, n2, s.len())
            }),
    {
        let h = env.obj();
        match self.find_in_frame(o, env, name) {
            Some(cell) => {
                let ghost s0 = o.mem();
                o.set_data(cell, 1, value.word());
                proof {
                    lemma_find_in_heap(s0, Obj(spec_data(s0, env.0, CHAIN)), name, s0.len());
                    crate::objects::lemma_slot_index(cell, 1);
                    let a = crate::objects::spec_slot(cell, 1);
                    crate::heap::lemma_set_word_read(s0, a, a, value.0);
                    let chain0 = Obj(spec_data(s0, env.0, CHAIN));
                    let s3 = o.mem();
                    if chain_in_heap(s0, chain0, s0.len()) && chain_avoids(s0, chain0, s0.len(), (a / 8) as int) && (
                    env.0.0 != 0 ==> crate::objects::spec_slot(env.0, CHAIN) / 8 != a / 8) {
                        crate::heap::lemma_set_word_read(s0, a, crate::objects::spec_slot(env.0, CHAIN), value.0);
                        assert(spec_data(s3, env.0, CHAIN) == chain0.0);
                        assert forall|n2: Obj| #[trigger]
                            spec_find(s3, Obj(spec_data(s3, env.0, CHAIN)), n2, s3.len()) == spec_find(
                                s0,
                                chain0,
                                n2,
                                s0.len(),
                            ) by {
                            lemma_find_stable(s0, s3, chain0, n2, s0.len(), s3.len(), (a / 8) as int);
                        }
                    }
                }
                return;
            },
            None => {},
        }
        let ghost s0 = o.mem();
        let pair = o.spair(name, value);
        let ghost s1 = o.mem();
        let head = o.data(h, CHAIN).as_obj();
        let cell = o.spair(pair, head);
        let ghost s2 = o.mem();
        o.set_data(h, CHAIN, cell.word());
        proof {
            lemma_grew_trans(s0, s1, s2);
            if in_heap(s0, env.0, 3) && s0.len() + 2 * (META_MAX + 6) <= MAX_WORDS {
                assert(pair.0 != 0);
                assert(cell.0 != 0);
                crate::objects::lemma_made_grew(s0, s1, s2, pair, SPAIR_BITS, o.spair_marker.0, seq![name.0, value.0]);
                let a = crate::objects::spec_slot(env.0, CHAIN);
                crate::objects::lemma_slot_index(env.0, CHAIN);
                crate::objects::lemma_slot_index(pair, 0);
                crate::objects::lemma_slot_index(pair, 1);
                crate::objects::lemma_slot_index(cell, 0);
                crate::heap::lemma_set_word_read(s2, a, crate::objects::spec_slot(pair, 0), cell.0);
                crate::heap::lemma_set_word_read(s2, a, crate::objects::spec_slot(pair, 1), cell.0);
                crate::heap::lemma_set_word_read(s2, a, crate::objects::spec_slot(cell, 0), cell.0);
                crate::heap::lemma_set_word_read(s2, a, a, cell.0);
                let s3 = o.mem();
                assert(spec_data(s2, cell, 0) == pair.0);
                assert(spec_data(s2, pair, 0) == name.0);
                assert(spec_data(s2, pair, 1) == value.0);
                assert(spec_data(s3, env.0, CHAIN) == cell.0);
                assert(spec_data(s3, cell, 0) == pair.0);
                assert(spec_data(s3, pair, 0) == name.0);
                assert(spec_data(s3, pair, 1) == value.0);
                assert(in_heap(s3, pair, 2));
                assert(spec_find(s3, cell, name, s3.len()) == Some(pair));
                let chain0 = Obj(spec_data(s0, env.0, CHAIN));
                if chain_in_heap(s0, chain0, s0.len()) && chain_avoids(s0, chain0, s0.len(), (a / 8) as int) {
                    crate::objects::lemma_slot_index(cell, 1);
                    assert(spec_data(s2, cell, 1) == seq![pair.0, head.0][1]);
                    crate::heap::lemma_set_word_read(s2, a, crate::objects::spec_slot(cell, 1), cell.0);
                    assert(spec_data(s3, cell, 1) == head.0);
                    assert(head == chain0);
                    assert forall|i: int| 0 <= i < s0.len() && i != (a / 8) as int implies s3[i] == s0[i] by {
                        assert(s2[i] == s0[i]);
                    }
                    assert forall|n2: Obj| n2 != name implies #[trigger] spec_find(
                        s3,
                        Obj(spec_data(s3, env.0, CHAIN)),
                        n2,
                        s3.len(),
                    ) == spec_find(s0, chain0, n2, s0.len()) by {
                        lemma_find_stable(s0, s3, chain0, n2, s0.len(), fine_sub(s3.len()), (a / 8) as int);
                    }
                }
            }
        }
    }

    /// What `name` is bound to, seen from `env`: nearest frame first.
    pub fn lookup(&self, o: &Objects, env: EnvId, name: Obj) -> (r: Option<Obj>)
        requires
            o.wf(),
        ensures
            r matches Some(v) ==> spec_lookup(o.mem(), env.0, name, o.mem().len()) == Some(v.0),
            r is None ==> spec_lookup(o.mem(), env.0, name, o.mem().len()) is None,
    {
        let len: usize = o.heap_words();
        let mut at = env;
        let mut fuel: usize = len;
        while fuel > 0 && at.0.0 != 0
            invariant
                fuel <= len,
                len == o.mem().len(),
                o.wf(),
                spec_lookup(o.mem(), env.0, name, len as nat) == spec_lookup(o.mem(), at.0, name, fuel as nat),
            decreases fuel,
        {
            match self.find_in_frame(o, at, name) {
                Some(p) => {
                    return Some(o.rest(p));
                },
                None => {},
            }
            at = EnvId::from_obj(o.data(at.obj(), PARENT).as_obj());
            fuel = fuel - 1;
        }
        None
    }

    /// Rebind `name` in the nearest frame that binds it, answering whether
    /// one did.
    pub fn set_existing(&mut self, o: &mut Objects, env: EnvId, name: Obj, value: Obj) -> (r: bool)
        requires
            old(o).wf(),
        ensures
            final(o).wf(),
            final(o).same_rest(old(o)),
            final(o).mem().len() == old(o).mem().len(),
            r == spec_lookup(old(o).mem(), env.0, name, old(o).mem().len()) is Some,
            !r ==> final(o).mem() == old(o).mem(),
            r ==> spec_binding_cell(old(o).mem(), env.0, name, old(o).mem().len()) is Some && final(o).mem()
                == crate::heap::spec_set_word(
                old(o).mem(),
                crate::objects::spec_slot(spec_binding_cell(old(o).mem(), env.0, name, old(o).mem().len())->0, 1),
                value.0,
            ),
    {
        let len: usize = o.heap_words();
        let mut at = env;
        let mut fuel: usize = len;
        while fuel > 0 && at.0.0 != 0
            invariant
                fuel <= len,
                len == o.mem().len(),
                o.wf(),
                o.mem() == old(o).mem(),
                o.same_rest(old(o)),
                spec_lookup(o.mem(), env.0, name, len as nat) == spec_lookup(o.mem(), at.0, name, fuel as nat),
                spec_binding_cell(o.mem(), env.0, name, len as nat) == spec_binding_cell(o.mem(), at.0, name, fuel as nat),
            decreases fuel,
        {
            match self.find_in_frame(o, at, name) {
                Some(p) => {
                    proof {
                        lemma_find_in_heap(o.mem(), Obj(spec_data(o.mem(), at.0, CHAIN)), name, o.mem().len());
                    }
                    o.set_data(p, 1, value.word());
                    return true;
                },
                None => {},
            }
            at = EnvId::from_obj(o.data(at.obj(), PARENT).as_obj());
            fuel = fuel - 1;
        }
        false
    }

    /// How many frames were ever made.
    pub fn frame_count(&self) -> (r: usize)
        ensures
            r == self.frame_total(),
    {
        self.made
    }
}

/// The heap kept its length or grew; words may have been rewritten.
pub open spec fn grew_or_rewrote(before: Seq<u64>, after: Seq<u64>) -> bool {
    after.len() >= before.len() && after.len() <= MAX_WORDS
}

} // verus!
