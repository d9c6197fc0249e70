//! Mark and sweep.
//!
//! An object can be found at all only through the allocation chain threaded
//! through header word 0, so the chain is walked first to learn where objects
//! start. Marking is then EXACT: a word is followed only when it is the start
//! of an object on the chain, so a word that merely looks like an address
//! never leads the mark into the middle of something. Each kind names which
//! of its data words are references; an instance's words are the program's
//! to use, so every one of them is followed, and the same for `#f`, which the
//! library uses as scratch space. The type word is a reference for every
//! kind.
//!
//! Sweeping is NON-MOVING: an object's words stay where they are. What is
//! unmarked leaves the chain; a reclaimed environment frame is handed back to
//! the next frame allocation, which is the one kind of object reused.

use crate::engine::Engine;
use crate::eval::DEPTH;
use crate::heap::{spec_word, MAX_WORDS};
use crate::obj::{nil, Addr, Obj, Word};
use crate::objects::{
    spec_data, spec_flags, spec_header, spec_is, spec_type_word, Objects, BUF_BITS, ENVH_BITS, ENV_BITS,
    FALSE_BITS, FN_BITS, ITER_BITS, OP_BITS, PAIR_BITS, SLOT_HEAP, SLOT_LEN, SLOT_TYPE, SPAIR_BITS,
    WRAP_BITS,
};
use vstd::prelude::*;

verus! {

/// How many leading data words of an object of kind `f` with `n` data words
/// are references.
pub open spec fn traced(f: u64, n: u64) -> int {
    if f == PAIR_BITS || f == SPAIR_BITS || f == ITER_BITS {
        2
    } else if f == FN_BITS || f == ENVH_BITS || f == BUF_BITS {
        3
    } else if f == OP_BITS {
        4
    } else if f == WRAP_BITS || f == ENV_BITS {
        1
    } else if f == FALSE_BITS || f == 0 {
        if n < MAX_WORDS { n as int } else { MAX_WORDS as int }
    } else {
        0
    }
}

/// How many references `o` holds: its type word, then its traced data words.
pub open spec fn ref_len(s: Seq<u64>, o: Obj) -> int {
    1 + traced(spec_flags(s, o), spec_word(s, spec_header(o, SLOT_LEN)))
}

/// Reference `j` of `o`.
pub open spec fn spec_ref(s: Seq<u64>, o: Obj, j: int) -> u64 {
    if j == 0 {
        spec_type_word(s, o)
    } else {
        spec_data(s, o, (j - 1) as u64)
    }
}

/// Is `w` the start of an object on the chain, by the table of starts?
pub open spec fn is_start(starts: Seq<bool>, w: u64) -> bool {
    &&& w != 0
    &&& w % 8 == 0
    &&& ((w / 8) as int) < starts.len()
    &&& starts[(w / 8) as int]
}

/// Every reference of `o` that starts an object is marked.
pub open spec fn refs_marked(s: Seq<u64>, starts: Seq<bool>, marked: Seq<bool>, o: Obj) -> bool {
    forall|j: int|
        0 <= j < ref_len(s, o) && #[trigger] is_start(starts, spec_ref(s, o, j)) ==> marked[(spec_ref(s, o, j)
            / 8) as int]
}

/// Marking is closed: every marked object's references are marked.
pub open spec fn closed(s: Seq<u64>, starts: Seq<bool>, marked: Seq<bool>) -> bool {
    forall|i: int| 0 <= i < marked.len() && #[trigger] marked[i] ==> refs_marked(s, starts, marked, Obj((i * 8) as u64))
}

/// How many starts below `n` are unmarked.
pub open spec fn unmarked(starts: Seq<bool>, marked: Seq<bool>, n: int) -> nat
    decreases n,
{
    if n <= 0 {
        0
    } else {
        unmarked(starts, marked, n - 1) + if starts[n - 1] && !marked[n - 1] { 1nat } else { 0nat }
    }
}

/// Marking one unmarked start takes one off the unmarked count.
proof fn lemma_unmarked_step(starts: Seq<bool>, marked: Seq<bool>, k: int, n: int)
    requires
        0 <= k < n <= starts.len(),
        marked.len() == starts.len(),
        starts[k],
        !marked[k],
    ensures
        unmarked(starts, marked.update(k, true), n) + 1 == unmarked(starts, marked, n),
    decreases n,
{
    if n - 1 > k {
        lemma_unmarked_step(starts, marked, k, n - 1);
    } else {
        lemma_unmarked_same(starts, marked, k, k);
    }
}

/// Changing a mark at or past `n` leaves the count below `n` alone.
proof fn lemma_unmarked_same(starts: Seq<bool>, marked: Seq<bool>, k: int, n: int)
    requires
        0 <= n <= k < starts.len(),
        marked.len() == starts.len(),
    ensures
        unmarked(starts, marked.update(k, true), n) == unmarked(starts, marked, n),
    decreases n,
{
    if n > 0 {
        lemma_unmarked_same(starts, marked, k, n - 1);
    }
}

/// More marks keep every object's references marked.
proof fn lemma_refs_marked_grow(s: Seq<u64>, starts: Seq<bool>, m1: Seq<bool>, m2: Seq<bool>, o: Obj)
    requires
        refs_marked(s, starts, m1, o),
        m1.len() == m2.len(),
        forall|k: int| 0 <= k < m1.len() && m1[k] ==> m2[k],
        m1.len() == starts.len(),
    ensures
        refs_marked(s, starts, m2, o),
{
    assert forall|j: int| 0 <= j < ref_len(s, o) && #[trigger] is_start(starts, spec_ref(s, o, j)) implies m2[(
    spec_ref(s, o, j) / 8) as int] by {
        assert(m1[(spec_ref(s, o, j) / 8) as int]);
    }
}

/// Is `w` waiting on the worklist?
pub open spec fn in_work(work: Seq<u64>, w: u64) -> bool {
    exists|q: int| 0 <= q < work.len() && work[q] == w
}

/// Every marked object either has its references marked or waits on the
/// worklist.
pub open spec fn pending_ok(s: Seq<u64>, starts: Seq<bool>, marked: Seq<bool>, work: Seq<u64>) -> bool {
    forall|i: int|
        0 <= i < marked.len() && #[trigger] marked[i] ==> refs_marked(s, starts, marked, Obj((i * 8) as u64))
            || in_work(work, (i * 8) as u64)
}

/// A word that starts an object names it by its word index.
proof fn lemma_start_index(w: u64)
    requires
        w % 8 == 0,
    ensures
        ((w / 8) * 8) as u64 == w,
        (((w / 8) as int) * 8) as u64 == w,
{
}

/// `path` is a trail of references, `steps` saying which: every step an
/// object start, and each after the first reference `steps[k]` of the one
/// before it.
pub open spec fn ref_path(s: Seq<u64>, starts: Seq<bool>, path: Seq<u64>, steps: Seq<int>) -> bool {
    &&& path.len() > 0
    &&& steps.len() + 1 == path.len()
    &&& forall|k: int| 0 <= k < path.len() ==> is_start(starts, #[trigger] path[k])
    &&& forall|k: int|
        0 <= k < steps.len() ==> 0 <= #[trigger] steps[k] < ref_len(s, Obj(path[k])) && spec_ref(
            s,
            Obj(path[k]),
            steps[k],
        ) == path[k + 1]
}

/// `path` is a trail of references from root `k` of `roots` to `w`.
pub open spec fn trail_from_root(
    s: Seq<u64>,
    starts: Seq<bool>,
    roots: Seq<Obj>,
    path: Seq<u64>,
    steps: Seq<int>,
    k: int,
    w: u64,
) -> bool {
    &&& ref_path(s, starts, path, steps)
    &&& 0 <= k < roots.len()
    &&& roots[k].0 == path[0]
    &&& path.last() == w
}

/// `w` is reached from a root along references between object starts.
pub open spec fn reached(s: Seq<u64>, starts: Seq<bool>, roots: Seq<Obj>, w: u64) -> bool {
    exists|path: Seq<u64>, steps: Seq<int>, k: int| #[trigger] trail_from_root(s, starts, roots, path, steps, k, w)
}

/// The marks a complete mark leaves: exactly the object starts reached from
/// the roots.
pub open spec fn reach_marks(s: Seq<u64>, starts: Seq<bool>, roots: Seq<Obj>) -> Seq<bool> {
    Seq::new(starts.len(), |i: int| starts[i] && reached(s, starts, roots, (i * 8) as u64))
}

/// A closed marking that marks every root reaches everything reached.
proof fn lemma_reached_marked(s: Seq<u64>, starts: Seq<bool>, roots: Seq<Obj>, marked: Seq<bool>, w: u64)
    requires
        closed(s, starts, marked),
        marked.len() == starts.len(),
        forall|k: int|
            0 <= k < roots.len() && is_start(starts, #[trigger] roots[k].0) ==> marked[(roots[k].0 / 8) as int],
        reached(s, starts, roots, w),
    ensures
        marked[(w / 8) as int],
{
    let (path, steps, k) = choose|path: Seq<u64>, steps: Seq<int>, k: int|
        #[trigger] trail_from_root(s, starts, roots, path, steps, k, w);
    assert(is_start(starts, path[0]));
    assert(marked[(roots[k].0 / 8) as int]);
    law_whatever_a_marked_object_reaches_is_marked(s, starts, marked, path, steps);
    assert(marked[(path[path.len() - 1] / 8) as int]);
}

/// A trail to `w` goes on through reference `j` of `w` to the object it
/// starts.
proof fn lemma_reached_step(s: Seq<u64>, starts: Seq<bool>, roots: Seq<Obj>, w: u64, j: int)
    requires
        reached(s, starts, roots, w),
        0 <= j < ref_len(s, Obj(w)),
        is_start(starts, spec_ref(s, Obj(w), j)),
    ensures
        reached(s, starts, roots, spec_ref(s, Obj(w), j)),
{
    let (path, steps, k) = choose|path: Seq<u64>, steps: Seq<int>, k: int|
        #[trigger] trail_from_root(s, starts, roots, path, steps, k, w);
    let v = spec_ref(s, Obj(w), j);
    let p2 = path.push(v);
    let st2 = steps.push(j);
    assert forall|q: int| 0 <= q < p2.len() implies is_start(starts, #[trigger] p2[q]) by {
        if q < path.len() {
            assert(p2[q] == path[q]);
        }
    }
    assert forall|q: int| 0 <= q < st2.len() implies 0 <= #[trigger] st2[q] < ref_len(s, Obj(p2[q])) && spec_ref(
        s,
        Obj(p2[q]),
        st2[q],
    ) == p2[q + 1] by {
        if q < steps.len() {
            assert(st2[q] == steps[q]);
            assert(p2[q] == path[q]);
            assert(p2[q + 1] == path[q + 1]);
        } else {
            assert(p2[q] == path.last());
        }
    }
    assert(trail_from_root(s, starts, roots, p2, st2, k, v));
}

/// The engine's base holds no collection hooks.
pub open spec fn no_gc_hooks(e: &Engine) -> bool {
    &&& crate::base::spec_route(e.objects.mem(), e.base, crate::base::MARK_HOOKS as nat).0 == 0
    &&& crate::base::spec_route(e.objects.mem(), e.base, crate::base::FREE_HOOKS as nat).0 == 0
}

/// A collection of heap `s`, whose chain starts at `head`, from `roots`
/// (which hold every root in `fixed`) took `r` objects: those on the chain
/// that no reference trail from a root reaches.
pub open spec fn collected(s: Seq<u64>, head: u64, roots: Seq<Obj>, fixed: Seq<Obj>, r: u64) -> bool {
    let starts = spec_starts(s, head);
    &&& holds_all(roots, fixed)
    &&& r as nat == count_swept(spec_chain(s, head, s.len()), reach_marks(s, starts, roots), s.len() as u64)
}

/// The allocation chain from `at` through header word 0, at most `fuel`
/// links, stopping at nil.
pub open spec fn spec_chain(s: Seq<u64>, at: u64, fuel: nat) -> Seq<u64>
    decreases fuel,
{
    if fuel == 0 || at == 0 {
        Seq::empty()
    } else {
        seq![at] + spec_chain(s, spec_word(s, at), (fuel - 1) as nat)
    }
}

/// Whether some link of chain `c` is an aligned start at word `i` with room
/// for a header in a heap of `len` words.
pub open spec fn starts_at(c: Seq<u64>, len: nat, i: int) -> bool {
    exists|k: int| 0 <= k < c.len() && #[trigger] starts_here(c[k], len, i)
}

/// Link `a` starts an object at word `i` of a heap of `len` words.
pub open spec fn starts_here(a: u64, len: nat, i: int) -> bool {
    a % 8 == 0 && a / 8 == i && i + 4 <= len
}

/// Where objects start: the words the allocation chain passes through, each
/// with room for a header.
pub open spec fn spec_starts(s: Seq<u64>, head: u64) -> Seq<bool> {
    let c = spec_chain(s, head, s.len());
    Seq::new(s.len(), |i: int| starts_at(c, s.len(), i))
}

/// A chain that passes no heap word twice.
pub open spec fn chain_apart(c: Seq<u64>) -> bool {
    forall|i: int, j: int| 0 <= i < j < c.len() ==> #[trigger] (c[i] / 8) != #[trigger] (c[j] / 8)
}

/// Does a sweep take the object at `a` off the chain?
pub open spec fn swept(marked: Seq<bool>, keep_from: u64, a: u64) -> bool {
    &&& a % 8 == 0
    &&& ((a / 8) as int) < marked.len()
    &&& !marked[(a / 8) as int]
    &&& a / 8 < keep_from
}

/// How many objects of a chain a sweep takes.
pub open spec fn count_swept(c: Seq<u64>, marked: Seq<bool>, keep_from: u64) -> nat
    decreases c.len(),
{
    if c.len() == 0 {
        0
    } else {
        count_swept(c.drop_last(), marked, keep_from) + if swept(marked, keep_from, c.last()) { 1nat } else { 0nat }
    }
}

/// The mark's law: whatever a marked object reaches through references is
/// marked, so everything reachable from the roots is.
pub proof fn law_whatever_a_marked_object_reaches_is_marked(
    s: Seq<u64>,
    starts: Seq<bool>,
    marked: Seq<bool>,
    path: Seq<u64>,
    steps: Seq<int>,
)
    requires
        closed(s, starts, marked),
        marked.len() == starts.len(),
        ref_path(s, starts, path, steps),
        marked[(path[0] / 8) as int],
    ensures
        forall|k: int| 0 <= k < path.len() ==> marked[(#[trigger] path[k] / 8) as int],
{
    assert forall|k: int| 0 <= k < path.len() implies marked[(#[trigger] path[k] / 8) as int] by {
        lemma_marked_along(s, starts, marked, path, steps, k);
    }
}

/// Step `k` of a trail from a marked object is marked.
proof fn lemma_marked_along(
    s: Seq<u64>,
    starts: Seq<bool>,
    marked: Seq<bool>,
    path: Seq<u64>,
    steps: Seq<int>,
    k: int,
)
    requires
        closed(s, starts, marked),
        marked.len() == starts.len(),
        ref_path(s, starts, path, steps),
        marked[(path[0] / 8) as int],
        0 <= k < path.len(),
    ensures
        marked[(path[k] / 8) as int],
    decreases k,
{
    if k > 0 {
        lemma_marked_along(s, starts, marked, path, steps, k - 1);
        let p = path[k - 1];
        assert(is_start(starts, path[k - 1]));
        assert(is_start(starts, path[k]));
        let i = (p / 8) as int;
        lemma_start_index(p);
        assert(refs_marked(s, starts, marked, Obj((i * 8) as u64)));
        assert(Obj((i * 8) as u64) == Obj(p));
        let j = steps[k - 1];
        assert(0 <= j < ref_len(s, Obj(p)) && spec_ref(s, Obj(p), j) == path[k]);
        assert(is_start(starts, spec_ref(s, Obj(p), j)));
    }
}

impl Objects {
    /// Where objects start: the words the allocation chain passes through,
    /// each with room for a header, at most as many as the heap has words.
    pub fn object_starts(&self) -> (r: Vec<bool>)
        requires
            self.wf(),
        ensures
            r@.len() == self.mem().len(),
            forall|i: int| 0 <= i < r@.len() && #[trigger] r@[i] ==> i + 4 <= r@.len(),
            r@ == spec_starts(self.mem(), self.heap_chain.0),
    {
        let len: usize = self.heap.words_len();
        let mut starts: Vec<bool> = Vec::new();
        let mut i: usize = 0;
        while i < len
            invariant
                i <= len,
                starts@.len() == i,
                forall|k: int| 0 <= k < i ==> !#[trigger] starts@[k],
            decreases len - i,
        {
            starts.push(false);
            i = i + 1;
        }
        let mut at = self.heap_chain;
        let mut fuel: usize = len;
        let ghost s = self.mem();
        let ghost full = spec_chain(s, self.heap_chain.0, len as nat);
        let ghost mut seen: Seq<u64> = Seq::empty();
        proof {
            assert(starts@ =~= Seq::new(len as nat, |i: int| starts_at(seen, len as nat, i)));
        }
        while fuel > 0 && at.0 != 0
            invariant
                len == self.mem().len(),
                s == self.mem(),
                starts@.len() == len,
                forall|k: int| 0 <= k < len && #[trigger] starts@[k] ==> k + 4 <= len,
                full == spec_chain(s, self.heap_chain.0, len as nat),
                full == seen + spec_chain(s, at.0, fuel as nat),
                starts@ == Seq::new(len as nat, |i: int| starts_at(seen, len as nat, i)),
            decreases fuel,
        {
            let ghost seen0 = seen;
            let ghost st0 = starts@;
            let idx = at.0 / 8;
            let hit = at.0 % 8 == 0 && idx < len as u64 && len as u64 - idx >= 4;
            if hit {
                starts.set(idx as usize, true);
            }
            let next = Obj(self.heap.word(Addr(at.0)).0);
            proof {
                seen = seen0.push(at.0);
                assert(spec_chain(s, at.0, fuel as nat) =~= seq![at.0] + spec_chain(s, next.0, (fuel - 1) as nat));
                assert(full =~= seen + spec_chain(s, next.0, (fuel - 1) as nat));
                assert forall|i: int| 0 <= i < len implies #[trigger] starts@[i] == starts_at(seen, len as nat, i) by {
                    assert(seen[seen0.len() as int] == at.0);
                    if starts_at(seen0, len as nat, i) {
                        let k = choose|k: int| 0 <= k < seen0.len() && #[trigger] starts_here(seen0[k], len as nat, i);
                        assert(seen[k] == seen0[k]);
                        assert(starts_here(seen[k], len as nat, i));
                    }
                    if starts_at(seen, len as nat, i) {
                        let k = choose|k: int| 0 <= k < seen.len() && #[trigger] starts_here(seen[k], len as nat, i);
                        if k < seen0.len() {
                            assert(seen0[k] == seen[k]);
                            assert(starts_here(seen0[k], len as nat, i));
                        } else {
                            assert(hit && idx == i);
                        }
                    }
                    if hit && i == idx {
                        assert(starts_here(seen[seen0.len() as int], len as nat, i));
                    }
                    assert(st0[i] == starts_at(seen0, len as nat, i));
                }
                assert(starts@ =~= Seq::new(len as nat, |i: int| starts_at(seen, len as nat, i)));
            }
            at = next;
            fuel = fuel - 1;
        }
        proof {
            assert(spec_chain(s, at.0, fuel as nat) =~= Seq::<u64>::empty());
            assert(full =~= seen);
        }
        starts
    }

    /// Mark everything reachable from `roots`: every root that starts an
    /// object is marked, every marked object's references that start objects
    /// are marked, and nothing but object starts is marked.
    pub fn mark(&self, roots: &Vec<Obj>, starts: &Vec<bool>) -> (r: Vec<bool>)
        requires
            self.wf(),
            starts@.len() == self.mem().len(),
        ensures
            r@.len() == starts@.len(),
            forall|i: int| 0 <= i < r@.len() && #[trigger] r@[i] ==> starts@[i],
            forall|k: int|
                0 <= k < roots@.len() && is_start(starts@, #[trigger] roots@[k].0) ==> r@[(roots@[k].0 / 8) as int],
            closed(self.mem(), starts@, r@),
            forall|i: int| 0 <= i < r@.len() && #[trigger] r@[i] ==> reached(self.mem(), starts@, roots@, (i * 8) as u64),
            r@ == reach_marks(self.mem(), starts@, roots@),
    {
        let n: usize = starts.len();
        let ghost s = self.mem();
        let mut marked: Vec<bool> = Vec::new();
        let mut i: usize = 0;
        while i < n
            invariant
                i <= n,
                n == starts@.len(),
                marked@.len() == i,
                forall|k: int| 0 <= k < i ==> !#[trigger] marked@[k],
            decreases n - i,
        {
            marked.push(false);
            i = i + 1;
        }
        let mut work: Vec<u64> = Vec::new();
        let mut k: usize = 0;
        while k < roots.len()
            invariant
                k <= roots@.len(),
                n == starts@.len(),
                s == self.mem(),
                marked@.len() == n,
                forall|i: int| 0 <= i < n && #[trigger] marked@[i] ==> starts@[i],
                forall|q: int| 0 <= q < work@.len() ==> is_start(starts@, #[trigger] work@[q]),
                pending_ok(s, starts@, marked@, work@),
                forall|kk: int|
                    0 <= kk < k && is_start(starts@, #[trigger] roots@[kk].0) ==> marked@[(roots@[kk].0 / 8) as int],
                forall|i: int| 0 <= i < n && #[trigger] marked@[i] ==> reached(s, starts@, roots@, (i * 8) as u64),
                forall|q: int| 0 <= q < work@.len() ==> marked@[(#[trigger] work@[q] / 8) as int],
            decreases roots@.len() - k,
        {
            let w = roots[k].0;
            if w != 0 && w % 8 == 0 && w / 8 < n as u64 && starts[(w / 8) as usize] && !marked[(w / 8) as usize] {
                let ghost m0 = marked@;
                let ghost w0 = work@;
                marked.set((w / 8) as usize, true);
                work.push(w);
                proof {
                    lemma_start_index(w);
                    let path = seq![w];
                    let steps = Seq::<int>::empty();
                    assert(trail_from_root(s, starts@, roots@, path, steps, k as int, w));
                    assert forall|q: int| 0 <= q < work@.len() implies marked@[(#[trigger] work@[q] / 8) as int] by {
                        if q < w0.len() {
                            assert(work@[q] == w0[q]);
                        }
                    }
                    assert forall|i: int| 0 <= i < n && #[trigger] marked@[i] implies refs_marked(
                        s,
                        starts@,
                        marked@,
                        Obj((i * 8) as u64),
                    ) || in_work(work@, (i * 8) as u64) by {
                        if i == (w / 8) as int {
                            assert(work@[w0.len() as int] == w);
                        } else {
                            assert(m0[i]);
                            if refs_marked(s, starts@, m0, Obj((i * 8) as u64)) {
                                lemma_refs_marked_grow(s, starts@, m0, marked@, Obj((i * 8) as u64));
                            } else {
                                let q = choose|q: int| 0 <= q < w0.len() && w0[q] == (i * 8) as u64;
                                assert(work@[q] == (i * 8) as u64);
                            }
                        }
                    }
                }
            }
            k = k + 1;
        }
        while work.len() > 0
            invariant
                n == starts@.len(),
                s == self.mem(),
                self.wf(),
                marked@.len() == n,
                forall|i: int| 0 <= i < n && #[trigger] marked@[i] ==> starts@[i],
                forall|q: int| 0 <= q < work@.len() ==> is_start(starts@, #[trigger] work@[q]),
                pending_ok(s, starts@, marked@, work@),
                forall|kk: int|
                    0 <= kk < roots@.len() && is_start(starts@, #[trigger] roots@[kk].0) ==> marked@[(roots@[kk].0 / 8) as int],
                forall|i: int| 0 <= i < n && #[trigger] marked@[i] ==> reached(s, starts@, roots@, (i * 8) as u64),
                forall|q: int| 0 <= q < work@.len() ==> marked@[(#[trigger] work@[q] / 8) as int],
            decreases 2 * unmarked(starts@, marked@, n as int) + work@.len(),
        {
            let ghost before = work@;
            let w = match work.pop() {
                Some(x) => x,
                None => 0,
            };
            proof {
                assert(w == before.last());
                assert(work@ == before.drop_last());
                assert(is_start(starts@, before[before.len() - 1]));
                lemma_start_index(w);
                assert(marked@[(w / 8) as int]);
                assert(reached(s, starts@, roots@, ((w / 8) as int * 8) as u64));
                assert forall|q: int| 0 <= q < work@.len() implies marked@[(#[trigger] work@[q] / 8) as int] by {
                    assert(work@[q] == before[q]);
                }
            }
            let o = Obj(w);
            proof {
                assert forall|i: int| 0 <= i < n && #[trigger] marked@[i] && (i * 8) as u64 != w implies refs_marked(
                    s,
                    starts@,
                    marked@,
                    Obj((i * 8) as u64),
                ) || in_work(work@, (i * 8) as u64) by {
                    if in_work(before, (i * 8) as u64) {
                        let q = choose|q: int| 0 <= q < before.len() && before[q] == (i * 8) as u64;
                        assert(q != before.len() - 1);
                        assert(work@[q] == (i * 8) as u64);
                    }
                }
            }
            let cnt = self.ref_count(o);
            let ghost measure = 2 * unmarked(starts@, marked@, n as int) + work@.len();
            let ghost popped = work@;
            let ghost m_at_pop = marked@;
            let mut j: u64 = 0;
            while j < cnt
                invariant
                    j <= cnt,
                    cnt == ref_len(s, o),
                    n == starts@.len(),
                    s == self.mem(),
                    marked@.len() == n,
                    is_start(starts@, w),
                    forall|i: int| 0 <= i < n && #[trigger] marked@[i] ==> starts@[i],
                    forall|q: int| 0 <= q < work@.len() ==> is_start(starts@, #[trigger] work@[q]),
                    forall|q: int| 0 <= q < popped.len() ==> work@[q] == popped[q],
                    popped.len() <= work@.len(),
                    forall|kk: int| 0 <= kk < m_at_pop.len() && m_at_pop[kk] ==> marked@[kk],
                    m_at_pop.len() == n,
                    forall|i: int|
                        0 <= i < n && #[trigger] marked@[i] && (i * 8) as u64 != w ==> refs_marked(
                            s,
                            starts@,
                            marked@,
                            Obj((i * 8) as u64),
                        ) || in_work(work@, (i * 8) as u64),
                    forall|jj: int|
                        0 <= jj < j && #[trigger] is_start(starts@, spec_ref(s, o, jj)) ==> marked@[(spec_ref(s, o, jj)
                            / 8) as int],
                    2 * unmarked(starts@, marked@, n as int) + work@.len() <= measure,
                    forall|kk: int|
                        0 <= kk < roots@.len() && is_start(starts@, #[trigger] roots@[kk].0) ==> marked@[(roots@[kk].0 / 8) as int],
                    forall|i: int| 0 <= i < n && #[trigger] marked@[i] ==> reached(s, starts@, roots@, (i * 8) as u64),
                    forall|q: int| 0 <= q < work@.len() ==> marked@[(#[trigger] work@[q] / 8) as int],
                    reached(s, starts@, roots@, w),
                    o == Obj(w),
                decreases cnt - j,
            {
                let v = self.ref_at(o, j);
                if v != 0 && v % 8 == 0 && v / 8 < n as u64 && starts[(v / 8) as usize] && !marked[(v / 8) as usize] {
                    let ghost m0 = marked@;
                    let ghost w0 = work@;
                    proof {
                        lemma_unmarked_step(starts@, m0, (v / 8) as int, n as int);
                    }
                    marked.set((v / 8) as usize, true);
                    work.push(v);
                    proof {
                        lemma_start_index(v);
                        lemma_reached_step(s, starts@, roots@, w, j as int);
                        assert forall|q: int| 0 <= q < work@.len() implies marked@[(#[trigger] work@[q] / 8) as int] by {
                            if q < w0.len() {
                                assert(work@[q] == w0[q]);
                            }
                        }
                        assert forall|i: int|
                            0 <= i < n && #[trigger] marked@[i] && (i * 8) as u64 != w implies refs_marked(
                            s,
                            starts@,
                            marked@,
                            Obj((i * 8) as u64),
                        ) || in_work(work@, (i * 8) as u64) by {
                            if i == (v / 8) as int {
                                assert(work@[w0.len() as int] == v);
                            } else {
                                assert(m0[i]);
                                if refs_marked(s, starts@, m0, Obj((i * 8) as u64)) {
                                    lemma_refs_marked_grow(s, starts@, m0, marked@, Obj((i * 8) as u64));
                                } else {
                                    let q = choose|q: int| 0 <= q < w0.len() && w0[q] == (i * 8) as u64;
                                    assert(work@[q] == (i * 8) as u64);
                                }
                            }
                        }
                    }
                }
                j = j + 1;
            }
            proof {
                assert(refs_marked(s, starts@, marked@, o));
                assert forall|i: int| 0 <= i < n && #[trigger] marked@[i] implies refs_marked(
                    s,
                    starts@,
                    marked@,
                    Obj((i * 8) as u64),
                ) || in_work(work@, (i * 8) as u64) by {
                    if (i * 8) as u64 == w {
                        assert(Obj((i * 8) as u64) == o);
                    }
                }
            }
        }
        proof {
            assert forall|i: int| 0 <= i < marked@.len() && #[trigger] marked@[i] implies refs_marked(
                s,
                starts@,
                marked@,
                Obj((i * 8) as u64),
            ) by {
                if in_work(work@, (i * 8) as u64) {
                    let q = choose|q: int| 0 <= q < work@.len() && work@[q] == (i * 8) as u64;
                    assert(false);
                }
            }
        }
        proof {
            assert forall|i: int| 0 <= i < marked@.len() implies #[trigger] marked@[i] == (starts@[i] && reached(
                s,
                starts@,
                roots@,
                (i * 8) as u64,
            )) by {
                if starts@[i] && reached(s, starts@, roots@, (i * 8) as u64) {
                    lemma_reached_marked(s, starts@, roots@, marked@, (i * 8) as u64);
                    assert(((i * 8) as u64 / 8) as int == i);
                }
            }
            assert(marked@ =~= reach_marks(s, starts@, roots@));
        }
        marked
    }

    /// Take every object that is neither marked nor born at or past word
    /// `keep_from` off the allocation chain, keeping the rest on it; answers
    /// how many were taken and the environment frames among them, which may
    /// be used again. Nothing moves: a taken object's words stay as they
    /// were.
    pub fn sweep(&mut self, marked: &Vec<bool>, keep_from: u64) -> (r: (u64, Vec<Obj>))
        requires
            old(self).wf(),
        ensures
            final(self).wf(),
            final(self).same_rest(old(self)),
            final(self).mem().len() == old(self).mem().len(),
            forall|k: int| 0 <= k < r.1@.len() ==> {
                let f = #[trigger] r.1@[k];
                &&& f.0 != 0
                &&& f.0 % 8 == 0
                &&& ((f.0 / 8) as int) < marked@.len()
                &&& !marked@[(f.0 / 8) as int]
                &&& f.0 / 8 < keep_from
            },
            ({
                let c = spec_chain(old(self).mem(), old(self).heap_chain.0, old(self).mem().len());
                chain_apart(c) ==> r.0 == count_swept(c, marked@, keep_from)
            }),
            final(self).live as int == if old(self).live as int >= r.0 as int {
                old(self).live - r.0
            } else {
                0
            },
            ({
                let s = old(self).mem();
                let c = spec_chain(s, old(self).heap_chain.0, s.len());
                chain_apart(c) ==> forall|i: int|
                    0 <= i < s.len() && (forall|k: int| 0 <= k < c.len() ==> (#[trigger] c[k] / 8) != i)
                        ==> final(self).mem()[i] == s[i]
            }),
    {
        let len: usize = self.heap.words_len();
        let mut at = self.heap_chain;
        let mut kept = nil();
        let mut fuel: usize = len;
        let mut freed: u64 = 0;
        let mut frames: Vec<Obj> = Vec::new();
        let ghost s0 = old(self).mem();
        let ghost full = spec_chain(s0, old(self).heap_chain.0, len as nat);
        let ghost apart = chain_apart(full);
        let ghost mut seen: Seq<u64> = Seq::empty();
        while fuel > 0 && at.0 != 0
            invariant
                self.wf(),
                self.same_rest(old(self)),
                self.live == old(self).live,
                self.mem().len() == old(self).mem().len(),
                len == self.mem().len(),
                fuel <= len,
                freed <= len - fuel,
                len <= MAX_WORDS,
                s0 == old(self).mem(),
                full == spec_chain(s0, old(self).heap_chain.0, len as nat),
                apart == chain_apart(full),
                seen.len() == len - fuel,
                apart ==> full == seen + spec_chain(s0, at.0, fuel as nat),
                apart ==> freed == count_swept(seen, marked@, keep_from),
                apart ==> forall|i: int|
                    0 <= i < s0.len() && (forall|q: int| 0 <= q < seen.len() ==> (#[trigger] seen[q] / 8) != i)
                        ==> self.mem()[i] == s0[i],
                forall|k: int| 0 <= k < frames@.len() ==> {
                    let f = #[trigger] frames@[k];
                    &&& f.0 != 0
                    &&& f.0 % 8 == 0
                    &&& ((f.0 / 8) as int) < marked@.len()
                    &&& !marked@[(f.0 / 8) as int]
                    &&& f.0 / 8 < keep_from
                },
            decreases fuel,
        {
            let ghost s1 = self.mem();
            let next = Obj(self.heap.word(Addr(at.0)).0);
            proof {
                if apart {
                    let rest = spec_chain(s0, at.0, fuel as nat);
                    assert(rest[0] == at.0);
                    assert(full[seen.len() as int] == at.0);
                    assert forall|q: int| 0 <= q < seen.len() implies (#[trigger] seen[q] / 8) != (at.0 / 8) as int by {
                        assert(full[q] == seen[q]);
                    }
                    if ((at.0 / 8) as int) < s0.len() {
                        assert(s1[(at.0 / 8) as int] == s0[(at.0 / 8) as int]);
                    }
                    assert(next.0 == spec_word(s0, at.0));
                }
            }
            let idx = at.0 / 8;
            let reclaim = at.0 % 8 == 0 && idx < marked.len() as u64 && !marked[idx as usize] && idx < keep_from;
            let ghost seen0 = seen;
            if reclaim {
                freed = freed + 1;
                if self.flags(at).0 == ENVH_BITS {
                    frames.push(at);
                }
            } else {
                self.heap.set_word(Addr(at.0), kept.word());
                kept = at;
            }
            proof {
                seen = seen0.push(at.0);
                if apart {
                    assert(seen.drop_last() =~= seen0);
                    assert(swept(marked@, keep_from, at.0) == reclaim);
                    assert(spec_chain(s0, at.0, fuel as nat) =~= seq![at.0] + spec_chain(
                        s0,
                        next.0,
                        (fuel - 1) as nat,
                    ));
                    assert(full =~= seen + spec_chain(s0, next.0, (fuel - 1) as nat));
                    assert forall|i: int|
                        0 <= i < s0.len() && (forall|q: int| 0 <= q < seen.len() ==> (#[trigger] seen[q] / 8) != i)
                        implies self.mem()[i] == s0[i] by {
                        assert(seen[seen0.len() as int] == at.0);
                        assert forall|q: int| 0 <= q < seen0.len() implies (#[trigger] seen0[q] / 8) != i by {
                            assert(seen[q] == seen0[q]);
                        }
                    }
                }
            }
            at = next;
            fuel = fuel - 1;
        }
        proof {
            if apart {
                assert(spec_chain(s0, at.0, fuel as nat) =~= Seq::<u64>::empty());
                assert(full =~= seen);
            }
        }
        self.heap_chain = kept;
        self.live = if self.live as u64 >= freed {
            (self.live as u64 - freed) as usize
        } else {
            0
        };
        (freed, frames)
    }

    /// Put a reused object back on the allocation chain.
    pub fn relink(&mut self, o: Obj)
        requires
            old(self).wf(),
        ensures
            final(self).wf(),
            final(self).same_rest(old(self)),
            final(self).mem().len() == old(self).mem().len(),
            final(self).mem() == crate::heap::spec_set_word(old(self).mem(), o.0, old(self).heap_chain.0),
    {
        let chain = self.heap_chain;
        self.heap.set_word(Addr(o.0), chain.word());
        self.heap_chain = o;
        if self.live < usize::MAX {
            self.live = self.live + 1;
        }
    }

    /// The number of references `o` holds, computed.
    fn ref_count(&self, o: Obj) -> (r: u64)
        ensures
            r == ref_len(self.mem(), o),
    {
        let f = self.flags(o).0;
        let n = self.data_len(o);
        let k: u64 = if f == PAIR_BITS || f == SPAIR_BITS || f == ITER_BITS {
            2
        } else if f == FN_BITS || f == ENVH_BITS || f == BUF_BITS {
            3
        } else if f == OP_BITS {
            4
        } else if f == WRAP_BITS || f == ENV_BITS {
            1
        } else if f == FALSE_BITS || f == 0 {
            if n < MAX_WORDS as u64 {
                n
            } else {
                MAX_WORDS as u64
            }
        } else {
            0
        };
        1 + k
    }

    /// Reference `j` of `o`, computed.
    fn ref_at(&self, o: Obj, j: u64) -> (r: u64)
        ensures
            r == spec_ref(self.mem(), o, j as int),
    {
        if j == 0 {
            self.type_of_word(o).0
        } else {
            self.data(o, j - 1).0
        }
    }
}

/// The collector's law: no object a root reaches is ever reclaimed. The
/// mark answers `marked` with every root start marked and marking closed,
/// and the sweep reclaims only unmarked objects, so along any trail of
/// references from a root nothing is what the sweep reclaimed.
pub proof fn law_a_reachable_object_is_never_reclaimed(
    s: Seq<u64>,
    starts: Seq<bool>,
    marked: Seq<bool>,
    path: Seq<u64>,
    steps: Seq<int>,
    reclaimed: Obj,
)
    requires
        closed(s, starts, marked),
        marked.len() == starts.len(),
        ref_path(s, starts, path, steps),
        marked[(path[0] / 8) as int],
        reclaimed.0 % 8 == 0,
        ((reclaimed.0 / 8) as int) < marked.len(),
        !marked[(reclaimed.0 / 8) as int],
    ensures
        forall|k: int| 0 <= k < path.len() ==> #[trigger] path[k] != reclaimed.0,
{
    law_whatever_a_marked_object_reaches_is_marked(s, starts, marked, path, steps);
    assert forall|k: int| 0 <= k < path.len() implies #[trigger] path[k] != reclaimed.0 by {
        assert(marked[(path[k] / 8) as int]);
    }
}

/// Every one of `xs` is among `r`.
pub open spec fn holds_all(r: Seq<Obj>, xs: Seq<Obj>) -> bool {
    forall|k: int| 0 <= k < xs.len() ==> r.contains(#[trigger] xs[k])
}

/// Pushing keeps everything that was there, and adds what was pushed.
pub proof fn lemma_push_keeps(r: Seq<Obj>, x: Obj)
    ensures
        forall|y: Obj| r.contains(y) ==> #[trigger] r.push(x).contains(y),
        r.push(x).contains(x),
        forall|xs: Seq<Obj>| holds_all(r, xs) ==> #[trigger] holds_all(r.push(x), xs),
{
    assert forall|y: Obj| r.contains(y) implies #[trigger] r.push(x).contains(y) by {
        let i = choose|i: int| 0 <= i < r.len() && r[i] == y;
        assert(r.push(x)[i] == y);
    }
    assert(r.push(x)[r.len() as int] == x);
}

impl Engine {
    /// The engine's own roots: its base and tables, the singletons and
    /// handlers, and the latest top-level value.
    pub open spec fn fixed_roots(&self) -> Seq<Obj> {
        let o = self.objects;
        seq![
            self.base,
            self.catalog,
            self.token_eof,
            self.sigint_flag,
            self.held,
            o.false_obj,
            o.true_obj,
            o.base,
            o.save_node,
            o.tco_expr_node,
            o.tco_env_node,
            o.handler_node,
            o.line_node,
            o.meta_node,
            o.spair_marker,
            o.satom_marker,
            o.sym_eval_handler,
            o.list_eval_handler,
            o.callable_call_handler,
            o.list_call_handler,
            o.base_tag_atom,
        ]
    }

    /// Everything a collection between top-level forms starts from: the
    /// engine's own base and tables, every base's names, the singletons, the
    /// escaping value, and the latest top-level value.
    pub fn root_set(&self) -> (r: Vec<Obj>)
        requires
            self.wf(),
        ensures
            holds_all(r@, self.fixed_roots()),
            self.escaping matches Some((_, v)) ==> r@.contains(v),
            forall|i: int| 0 <= i < self.objects.kind_handles@.len() ==> r@.contains(
                (#[trigger] self.objects.kind_handles@[i]).1,
            ),
            forall|i: int| 0 <= i < self.objects.symbols@.len() ==> r@.contains((#[trigger] self.objects.symbols@[i]).1),
            forall|i: int|
                0 <= i < self.objects.shared_symbols@.len() ==> r@.contains(
                    (#[trigger] self.objects.shared_symbols@[i]).1,
                ),
            forall|i: int|
                0 <= i < self.prim_bindings@.len() ==> r@.contains((#[trigger] self.prim_bindings@[i]).0) && r@.contains(
                    self.prim_bindings@[i].1,
                ),
            forall|i: int| 0 <= i < self.base_syms@.len() ==> r@.contains((#[trigger] self.base_syms@[i]).0),
            forall|i: int, k: int|
                0 <= i < self.base_syms@.len() && 0 <= k < self.base_syms@[i].1@.len() ==> r@.contains(
                    (#[trigger] self.base_syms@[i].1@[k]).1,
                ),
            forall|i: int| 0 <= i < self.line_stack@.len() ==> r@.contains(#[trigger] self.line_stack@[i]),
    {
        let mut r: Vec<Obj> = Vec::new();
        r.push(self.base);
        r.push(self.catalog);
        r.push(self.token_eof);
        r.push(self.sigint_flag);
        r.push(self.held);
        let o = &self.objects;
        r.push(o.false_obj);
        r.push(o.true_obj);
        r.push(o.base);
        r.push(o.save_node);
        r.push(o.tco_expr_node);
        r.push(o.tco_env_node);
        r.push(o.handler_node);
        r.push(o.line_node);
        r.push(o.meta_node);
        r.push(o.spair_marker);
        r.push(o.satom_marker);
        r.push(o.sym_eval_handler);
        r.push(o.list_eval_handler);
        r.push(o.callable_call_handler);
        r.push(o.list_call_handler);
        r.push(o.base_tag_atom);
        proof {
            assert(r@ =~= self.fixed_roots());
            assert forall|k: int| 0 <= k < self.fixed_roots().len() implies r@.contains(#[trigger] self.fixed_roots()[k]) by {
                assert(r@[k] == self.fixed_roots()[k]);
            }
        }
        match self.escaping {
            Some((_, v)) => {
                proof {
                    lemma_push_keeps(r@, v);
                }
                r.push(v);
            },
            None => {},
        }
        let ghost fixed = self.fixed_roots();
        let ghost esc = self.escaping;
        let mut i: usize = 0;
        while i < o.kind_handles.len()
            invariant
                i <= o.kind_handles@.len(),
                holds_all(r@, fixed),
                esc matches Some((_, v)) ==> r@.contains(v),
                forall|j: int| 0 <= j < i ==> r@.contains((#[trigger] o.kind_handles@[j]).1),
            decreases o.kind_handles@.len() - i,
        {
            proof {
                lemma_push_keeps(r@, o.kind_handles@[i as int].1);
            }
            r.push(o.kind_handles[i].1);
            i = i + 1;
        }
        let names = o.interned();
        let mut i: usize = 0;
        while i < names.len()
            invariant
                i <= names@.len(),
                holds_all(r@, fixed),
                esc matches Some((_, v)) ==> r@.contains(v),
                forall|j: int| 0 <= j < o.kind_handles@.len() ==> r@.contains((#[trigger] o.kind_handles@[j]).1),
                forall|j: int| 0 <= j < i ==> r@.contains(#[trigger] names@[j]),
            decreases names@.len() - i,
        {
            proof {
                lemma_push_keeps(r@, names@[i as int]);
            }
            r.push(names[i]);
            i = i + 1;
        }
        proof {
            assert forall|j: int| 0 <= j < o.symbols@.len() implies r@.contains((#[trigger] o.symbols@[j]).1) by {
                assert(names@[j] == o.symbols@[j].1);
            }
            assert forall|j: int| 0 <= j < o.shared_symbols@.len() implies r@.contains(
                (#[trigger] o.shared_symbols@[j]).1,
            ) by {
                assert(names@[o.symbols@.len() + j] == o.shared_symbols@[j].1);
            }
        }
        let ghost syms = o.symbols@;
        let ghost shared = o.shared_symbols@;
        let mut i: usize = 0;
        while i < self.prim_bindings.len()
            invariant
                i <= self.prim_bindings@.len(),
                holds_all(r@, fixed),
                esc matches Some((_, v)) ==> r@.contains(v),
                forall|j: int| 0 <= j < o.kind_handles@.len() ==> r@.contains((#[trigger] o.kind_handles@[j]).1),
                forall|j: int| 0 <= j < syms.len() ==> r@.contains((#[trigger] syms[j]).1),
                forall|j: int| 0 <= j < shared.len() ==> r@.contains((#[trigger] shared[j]).1),
                forall|j: int|
                    0 <= j < i ==> r@.contains((#[trigger] self.prim_bindings@[j]).0) && r@.contains(
                        self.prim_bindings@[j].1,
                    ),
            decreases self.prim_bindings@.len() - i,
        {
            proof {
                lemma_push_keeps(r@, self.prim_bindings@[i as int].0);
            }
            r.push(self.prim_bindings[i].0);
            proof {
                lemma_push_keeps(r@, self.prim_bindings@[i as int].1);
            }
            r.push(self.prim_bindings[i].1);
            i = i + 1;
        }
        let mut i: usize = 0;
        while i < self.base_syms.len()
            invariant
                i <= self.base_syms@.len(),
                self.wf(),
                holds_all(r@, fixed),
                esc matches Some((_, v)) ==> r@.contains(v),
                forall|j: int| 0 <= j < o.kind_handles@.len() ==> r@.contains((#[trigger] o.kind_handles@[j]).1),
                forall|j: int| 0 <= j < syms.len() ==> r@.contains((#[trigger] syms[j]).1),
                forall|j: int| 0 <= j < shared.len() ==> r@.contains((#[trigger] shared[j]).1),
                forall|j: int|
                    0 <= j < self.prim_bindings@.len() ==> r@.contains((#[trigger] self.prim_bindings@[j]).0)
                        && r@.contains(self.prim_bindings@[j].1),
                forall|j: int| 0 <= j < i ==> r@.contains((#[trigger] self.base_syms@[j]).0),
                forall|j: int, k: int|
                    0 <= j < i && 0 <= k < self.base_syms@[j].1@.len() ==> r@.contains(
                        (#[trigger] self.base_syms@[j].1@[k]).1,
                    ),
            decreases self.base_syms@.len() - i,
        {
            proof {
                lemma_push_keeps(r@, self.base_syms@[i as int].0);
            }
            r.push(self.base_syms[i].0);
            let names = self.base_syms[i].1.all();
            let mut k: usize = 0;
            while k < names.len()
                invariant
                    k <= names@.len(),
                    i < self.base_syms@.len(),
                    names@.len() == self.base_syms@[i as int].1@.len(),
                    forall|m: int| 0 <= m < names@.len() ==> names@[m] == (#[trigger] self.base_syms@[i as int].1@[m]).1,
                    holds_all(r@, fixed),
                    esc matches Some((_, v)) ==> r@.contains(v),
                    forall|j: int| 0 <= j < o.kind_handles@.len() ==> r@.contains((#[trigger] o.kind_handles@[j]).1),
                    forall|j: int| 0 <= j < syms.len() ==> r@.contains((#[trigger] syms[j]).1),
                    forall|j: int| 0 <= j < shared.len() ==> r@.contains((#[trigger] shared[j]).1),
                    forall|j: int|
                        0 <= j < self.prim_bindings@.len() ==> r@.contains((#[trigger] self.prim_bindings@[j]).0)
                            && r@.contains(self.prim_bindings@[j].1),
                    forall|j: int| 0 <= j <= i ==> r@.contains((#[trigger] self.base_syms@[j]).0),
                    forall|j: int, m: int|
                        0 <= j < i && 0 <= m < self.base_syms@[j].1@.len() ==> r@.contains(
                            (#[trigger] self.base_syms@[j].1@[m]).1,
                        ),
                    forall|m: int| 0 <= m < k ==> r@.contains((#[trigger] self.base_syms@[i as int].1@[m]).1),
                decreases names@.len() - k,
            {
                proof {
                    lemma_push_keeps(r@, names@[k as int]);
                }
                r.push(names[k]);
                k = k + 1;
            }
            i = i + 1;
        }
        let mut i: usize = 0;
        while i < self.line_stack.len()
            invariant
                i <= self.line_stack@.len(),
                holds_all(r@, fixed),
                esc matches Some((_, v)) ==> r@.contains(v),
                forall|j: int| 0 <= j < o.kind_handles@.len() ==> r@.contains((#[trigger] o.kind_handles@[j]).1),
                forall|j: int| 0 <= j < syms.len() ==> r@.contains((#[trigger] syms[j]).1),
                forall|j: int| 0 <= j < shared.len() ==> r@.contains((#[trigger] shared[j]).1),
                forall|j: int|
                    0 <= j < self.prim_bindings@.len() ==> r@.contains((#[trigger] self.prim_bindings@[j]).0)
                        && r@.contains(self.prim_bindings@[j].1),
                forall|j: int| 0 <= j < self.base_syms@.len() ==> r@.contains((#[trigger] self.base_syms@[j]).0),
                forall|j: int, m: int|
                    0 <= j < self.base_syms@.len() && 0 <= m < self.base_syms@[j].1@.len() ==> r@.contains(
                        (#[trigger] self.base_syms@[j].1@[m]).1,
                    ),
                forall|j: int| 0 <= j < i ==> r@.contains(#[trigger] self.line_stack@[j]),
            decreases self.line_stack@.len() - i,
        {
            proof {
                lemma_push_keeps(r@, self.line_stack@[i as int]);
            }
            r.push(self.line_stack[i]);
            i = i + 1;
        }
        r
    }

    /// Call every callable on one of the base's hook lists with no
    /// arguments; a hook that raises does not stop the others.
    fn run_gc_hooks(&mut self, route: usize)
        requires
            old(self).wf(),
        ensures
            final(self).wf(),
            crate::base::spec_route(old(self).objects.mem(), old(self).base, route as nat).0 == 0 ==> *final(self)
                == *old(self),
    {
        let b = self.base;
        let list = crate::base::get(&self.objects, b, route);
        if list.0 == 0 {
            return;
        }
        let hooks = self.objects.list(list);
        let env = self.root_env();
        let mut i: usize = 0;
        while i < hooks.len()
            invariant
                self.wf(),
                i <= hooks@.len(),
            decreases hooks@.len() - i,
        {
            let vals: Vec<Obj> = Vec::new();
            let _ = self.call_with_values(hooks[i], vals, env, DEPTH);
            i = i + 1;
        }
    }

    /// Reclaim what nothing reaches: the base's mark hooks run first, then
    /// everything reachable from `root_set` is marked, the free hooks run,
    /// and the sweep takes the rest off the allocation chain, handing
    /// reclaimed environment frames back for reuse. What a free hook makes
    /// is kept. Answers how many objects were reclaimed. It runs between
    /// top-level forms, where nothing but the roots holds an object: a
    /// program's `(heap collect)` asks for one and it runs when the form
    /// that asked is done.
    pub fn collect(&mut self) -> (r: u64)
        requires
            old(self).wf(),
        ensures
            final(self).wf(),
            ({
                let s = old(self).objects.mem();
                let head = old(self).objects.heap_chain.0;
                no_gc_hooks(old(self)) && chain_apart(spec_chain(s, head, s.len())) ==> exists|roots: Seq<Obj>|
                    #[trigger] collected(s, head, roots, old(self).fixed_roots(), r)
            }),
    {
        let ghost quiet = no_gc_hooks(&*self);
        let ghost s = self.objects.mem();
        let ghost head = self.objects.heap_chain.0;
        self.collect_requested = false;
        self.run_gc_hooks(crate::base::MARK_HOOKS);
        let starts = self.objects.object_starts();
        let roots = self.root_set();
        let marked = self.objects.mark(&roots, &starts);
        let keep_from = self.objects.heap_words() as u64;
        self.run_gc_hooks(crate::base::FREE_HOOKS);
        let (freed, frames) = self.objects.sweep(&marked, keep_from);
        proof {
            if quiet && chain_apart(spec_chain(s, head, s.len())) {
                assert(collected(s, head, roots@, old(self).fixed_roots(), freed));
            }
        }
        self.envs.reclaim(frames);
        freed
    }

    /// Run a collection the program asked for, holding `last`.
    pub fn collect_if_requested(&mut self, last: Obj)
        requires
            old(self).wf(),
        ensures
            final(self).wf(),
            !old(self).collect_requested ==> *final(self) == *old(self),
    {
        if self.collect_requested {
            self.held = last;
            let _ = self.collect();
        }
    }
}

} // verus!
