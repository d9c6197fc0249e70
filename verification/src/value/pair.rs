//! Pairs: the list pair x-lang walks and the structural spine it does not.

use crate::obj::{nil, Flags, Obj};
use crate::heap::MAX_WORDS;
use crate::objects::{grew, spec_data, spec_is, Objects, META_MAX, PAIR_BITS, SLOT_FLAGS, SPAIR_BITS};
use vstd::prelude::*;

verus! {

/// The elements of a proper prefix of a list: walk `rest` while the cell is a
/// pair (or a spine cell, when `spines` is set), at most `fuel` steps.
pub open spec fn spec_walk(s: Seq<u64>, at: Obj, fuel: nat, spines: bool) -> Seq<Obj>
    decreases fuel,
{
    if fuel == 0 || !(spec_is(s, at, PAIR_BITS) || (spines && spec_is(s, at, SPAIR_BITS))) {
        Seq::empty()
    } else {
        seq![Obj(spec_data(s, at, 0))] + spec_walk(s, Obj(spec_data(s, at, 1)), (fuel - 1) as nat, spines)
    }
}

/// `at` heads a proper list of exactly `items`: each cell a list pair laid
/// wholly in the heap, below the cell before it, the last one's rest nil.
pub open spec fn spec_list_at(s: Seq<u64>, at: Obj, items: Seq<Obj>) -> bool
    decreases items.len(),
{
    if items.len() == 0 {
        at.0 == 0
    } else {
        &&& spec_is(s, at, PAIR_BITS)
        &&& at.0 % 8 == 0
        &&& at.0 / 8 + 6 <= s.len()
        &&& spec_data(s, at, 0) == items[0].0
        &&& (spec_data(s, at, 1) == 0 || spec_data(s, at, 1) / 8 + 6 <= at.0 / 8)
        &&& spec_list_at(s, Obj(spec_data(s, at, 1)), items.drop_first())
    }
}

/// Room for `n` fresh pairs past `len` heap words.
pub open spec fn room_for_pairs(len: nat, n: nat) -> bool {
    len + n * (META_MAX + 6) <= MAX_WORDS - META_MAX
}

/// A list stays the same list as the heap grows.
pub proof fn lemma_list_at_grew(s1: Seq<u64>, s2: Seq<u64>, at: Obj, items: Seq<Obj>)
    requires
        grew(s1, s2),
        spec_list_at(s1, at, items),
    ensures
        spec_list_at(s2, at, items),
    decreases items.len(),
{
    if items.len() > 0 {
        crate::objects::lemma_header_index(at, SLOT_FLAGS);
        crate::objects::lemma_slot_index(at, 0);
        crate::objects::lemma_slot_index(at, 1);
        let w = (at.0 / 8) as int;
        assert(s2[w + 2] == s1[w + 2]);
        assert(s2[w + 4] == s1[w + 4]);
        assert(s2[w + 5] == s1[w + 5]);
        lemma_list_at_grew(s1, s2, Obj(spec_data(s1, at, 1)), items.drop_first());
    }
}

/// A rest parameter's list holds every value past the positional ones, in
/// order: as many as there are values beyond `from`, the first of them at
/// its head.
pub proof fn law_a_rest_list_holds_every_value_past_the_positionals(
    s: Seq<u64>,
    l: Obj,
    vals: Seq<Obj>,
    from: int,
)
    requires
        0 <= from <= vals.len(),
        spec_list_at(s, l, vals.subrange(from, vals.len() as int)),
    ensures
        spec_walk(s, l, s.len(), false).len() == vals.len() - from,
        forall|k: int| 0 <= k < vals.len() - from ==> #[trigger] spec_walk(s, l, s.len(), false)[k] == vals[from + k],
        from < vals.len() ==> l.0 != 0 && spec_data(s, l, 0) == vals[from].0,
        from == vals.len() ==> l.0 == 0,
{
    let rest = vals.subrange(from, vals.len() as int);
    lemma_list_at_len(s, l, rest);
    lemma_list_at_walk(s, l, rest, s.len());
}

/// A list of `n` cells takes at least six words a cell.
pub proof fn lemma_list_at_len(s: Seq<u64>, at: Obj, items: Seq<Obj>)
    requires
        spec_list_at(s, at, items),
    ensures
        items.len() == 0 || items.len() * 6 <= at.0 / 8 + 6,
        items.len() <= s.len(),
    decreases items.len(),
{
    if items.len() > 0 {
        lemma_list_at_len(s, Obj(spec_data(s, at, 1)), items.drop_first());
    }
}

/// Walking a proper list with enough steps gives back its items.
pub proof fn lemma_list_at_walk(s: Seq<u64>, at: Obj, items: Seq<Obj>, fuel: nat)
    requires
        spec_list_at(s, at, items),
        fuel >= items.len(),
    ensures
        spec_walk(s, at, fuel, false) == items,
    decreases items.len(),
{
    if items.len() > 0 {
        lemma_list_at_walk(s, Obj(spec_data(s, at, 1)), items.drop_first(), (fuel - 1) as nat);
        assert(items =~= seq![Obj(spec_data(s, at, 0))] + items.drop_first());
    }
}

/// A walk takes at most as many steps as it is given.
pub proof fn lemma_walk_len(s: Seq<u64>, at: Obj, fuel: nat, spines: bool)
    ensures
        spec_walk(s, at, fuel, spines).len() <= fuel,
    decreases fuel,
{
    if fuel > 0 {
        lemma_walk_len(s, Obj(spec_data(s, at, 1)), (fuel - 1) as nat, spines);
    }
}

impl Objects {
    /// A fresh list of `items`, in order, built from the last item forward.
    /// Where the heap has room for every pair it is a proper list of exactly
    /// `items`; a pair the heap has no room for is nil, which cuts the list.
    pub fn list_from(&mut self, items: &Vec<Obj>) -> (r: Obj)
        requires
            old(self).wf(),
        ensures
            final(self).only_grew(*old(self)),
            final(self).mem().len() <= old(self).mem().len() + items@.len() * (META_MAX + 6),
            room_for_pairs(old(self).mem().len(), items@.len()) ==> spec_list_at(final(self).mem(), r, items@),
            room_for_pairs(old(self).mem().len(), items@.len()) ==> spec_walk(
                final(self).mem(),
                r,
                final(self).mem().len(),
                false,
            ) == items@,
    {
        let ghost s0 = self.mem();
        let ghost room = room_for_pairs(s0.len(), items@.len());
        let mut out = nil();
        let mut k: usize = items.len();
        proof {
            crate::objects::lemma_grew_refl(s0);
            assert(items@.subrange(k as int, items@.len() as int).len() == 0);
        }
        while k > 0
            invariant
                k <= items@.len(),
                s0 == old(self).mem(),
                room == room_for_pairs(s0.len(), items@.len()),
                self.only_grew(*old(self)),
                self.mem().len() <= s0.len() + (items@.len() - k) * (META_MAX + 6),
                room ==> spec_list_at(self.mem(), out, items@.subrange(k as int, items@.len() as int)),
            decreases k,
        {
            k = k - 1;
            let ghost before = self.mem();
            let ghost tail = items@.subrange(k + 1, items@.len() as int);
            let p = self.pair(items[k], out);
            proof {
                crate::objects::lemma_grew_trans(s0, before, self.mem());
                assert(seq![items@[k as int].0, out.0].len() == 2);
                assert((items@.len() - k) * (META_MAX + 6) == (items@.len() - (k + 1)) * (META_MAX + 6) + (META_MAX + 6))
                    by (nonlinear_arith);
                assert(items@.len() * (META_MAX + 6) >= (items@.len() - k) * (META_MAX + 6)) by (nonlinear_arith)
                    requires
                        k <= items@.len(),
                ;
                if room {
                    assert(p.0 != 0);
                    assert(spec_data(self.mem(), p, 0) == items@[k as int].0);
                    assert(spec_data(self.mem(), p, 1) == out.0);
                    assert(items@.subrange(k as int, items@.len() as int).drop_first() =~= tail);
                    assert(items@.subrange(k + 1, items@.len() as int) =~= tail);
                    lemma_list_at_grew(before, self.mem(), out, tail);
                    if tail.len() > 0 {
                        assert(out.0 / 8 + 6 <= before.len());
                    }
                    assert(spec_list_at(self.mem(), p, items@.subrange(k as int, items@.len() as int)));
                }
            }
            out = p;
        }
        proof {
            assert(items@.subrange(0, items@.len() as int) =~= items@);
            if room {
                lemma_list_at_len(self.mem(), out, items@);
                lemma_list_at_walk(self.mem(), out, items@, self.mem().len());
            }
        }
        out
    }

    /// A fresh list of the items from position `from` on, in order: what a
    /// rest parameter takes.
    pub fn list_past(&mut self, items: &Vec<Obj>, from: usize) -> (r: Obj)
        requires
            old(self).wf(),
            from <= items@.len(),
        ensures
            final(self).only_grew(*old(self)),
            room_for_pairs(old(self).mem().len(), (items@.len() - from) as nat) ==> spec_list_at(
                final(self).mem(),
                r,
                items@.subrange(from as int, items@.len() as int),
            ),
    {
        let mut more: Vec<Obj> = Vec::new();
        let mut k: usize = from;
        while k < items.len()
            invariant
                from <= k <= items@.len(),
                more@ == items@.subrange(from as int, k as int),
            decreases items@.len() - k,
        {
            more.push(items[k]);
            k = k + 1;
            proof {
                assert(more@ =~= items@.subrange(from as int, k as int));
            }
        }
        self.list_from(&more)
    }

    /// A list pair; nil when the heap is full.
    pub fn pair(&mut self, first: Obj, rest: Obj) -> (r: Obj)
        requires
            old(self).wf(),
        ensures
            final(self).built(*old(self), r, PAIR_BITS, 0, seq![first.0, rest.0]),
    {
        self.alloc_init(Flags(PAIR_BITS), nil(), &[first.0, rest.0])
    }

    /// A structural pair, carrying the spine tag as its type word.
    pub fn spair(&mut self, first: Obj, rest: Obj) -> (r: Obj)
        requires
            old(self).wf(),
        ensures
            final(self).built(*old(self), r, SPAIR_BITS, old(self).spair_marker.0, seq![first.0, rest.0]),
    {
        let tag = self.spair_marker;
        self.alloc_init(Flags(SPAIR_BITS), tag, &[first.0, rest.0])
    }

    /// Either kind of pair.
    pub fn is_cell(&self, o: Obj) -> (r: bool)
        ensures
            r == (spec_is(self.mem(), o, PAIR_BITS) || spec_is(self.mem(), o, SPAIR_BITS)),
    {
        self.is(o, Flags(PAIR_BITS)) || self.is(o, Flags(SPAIR_BITS))
    }

    pub fn is_spair(&self, o: Obj) -> (r: bool)
        ensures
            r == spec_is(self.mem(), o, SPAIR_BITS),
    {
        self.is(o, Flags(SPAIR_BITS))
    }

    /// Data word 0 as an object: the head of a pair, the payload of anything.
    pub fn first(&self, o: Obj) -> (r: Obj)
        ensures
            r.0 == spec_data(self.mem(), o, 0),
    {
        self.data(o, 0).as_obj()
    }

    /// Data word 1 as an object.
    pub fn rest(&self, o: Obj) -> (r: Obj)
        ensures
            r.0 == spec_data(self.mem(), o, 1),
    {
        self.data(o, 1).as_obj()
    }

    pub fn is_pair(&self, o: Obj) -> (r: bool)
        ensures
            r == spec_is(self.mem(), o, PAIR_BITS),
    {
        self.is(o, Flags(PAIR_BITS))
    }

    /// The elements of a list, stopping at the first tail that is not a list
    /// pair. A cycle stops after as many steps as the heap has words.
    pub fn list(&self, head: Obj) -> (r: Vec<Obj>)
        requires
            self.wf(),
        ensures
            r@ == spec_walk(self.mem(), head, self.mem().len(), false),
    {
        self.walk(head, false)
    }

    /// The elements of a chain of pairs or spine cells.
    pub fn cells(&self, head: Obj) -> (r: Vec<Obj>)
        requires
            self.wf(),
        ensures
            r@ == spec_walk(self.mem(), head, self.mem().len(), true),
    {
        self.walk(head, true)
    }

    fn walk(&self, head: Obj, spines: bool) -> (r: Vec<Obj>)
        requires
            self.wf(),
        ensures
            r@ == spec_walk(self.mem(), head, self.mem().len(), spines),
    {
        let fuel0: usize = self.heap.words_len();
        let mut out: Vec<Obj> = Vec::new();
        let mut at = head;
        let mut fuel: usize = fuel0;
        while fuel > 0 && (self.is_pair(at) || (spines && self.is_spair(at)))
            invariant
                fuel <= fuel0,
                fuel0 == self.mem().len(),
                out@ + spec_walk(self.mem(), at, fuel as nat, spines) == spec_walk(self.mem(), head, fuel0 as nat, spines),
            decreases fuel,
        {
            let v = self.first(at);
            proof {
                assert(out@.push(v) + spec_walk(self.mem(), Obj(spec_data(self.mem(), at, 1)), (fuel - 1) as nat, spines)
                    =~= out@ + spec_walk(self.mem(), at, fuel as nat, spines));
            }
            out.push(v);
            at = self.rest(at);
            fuel = fuel - 1;
        }
        proof {
            assert(out@ =~= out@ + spec_walk(self.mem(), at, fuel as nat, spines));
        }
        out
    }
}

/// A walk over a list, one element per call of [`ListIter::next`].
pub struct ListIter {
    pub at: Obj,
}

impl ListIter {
    pub fn new(head: Obj) -> (r: ListIter)
        ensures
            r.at == head,
    {
        ListIter { at: head }
    }

    /// The next element, or None at the first tail that is not a list pair.
    pub fn next(&mut self, objects: &Objects) -> (r: Option<Obj>)
        ensures
            spec_is(objects.mem(), old(self).at, PAIR_BITS) ==> r == Some(
                Obj(spec_data(objects.mem(), old(self).at, 0)),
            ) && final(self).at.0 == spec_data(objects.mem(), old(self).at, 1),
            !spec_is(objects.mem(), old(self).at, PAIR_BITS) ==> r is None && final(self).at == old(self).at,
    {
        if !objects.is_pair(self.at) {
            return None;
        }
        let v = objects.first(self.at);
        self.at = objects.rest(self.at);
        Some(v)
    }
}

} // verus!
