//! `(heap check)`: a structural audit of the object chain.

use crate::heap::spec_word;
use crate::obj::Obj;
use crate::objects::{
    spec_data, spec_flags, spec_header, Objects, ENVH_BITS, META_LEN, PAIR_BITS, SLOT_HEAP,
    SLOT_LEN, SPAIR_BITS,
};
use vstd::prelude::*;

verus! {

/// How many of an object's data slots hold references the layout promises:
/// two for either pair, three for an environment holder, none otherwise.
pub open spec fn ref_slots(f: u64) -> u64 {
    if f == PAIR_BITS || f == SPAIR_BITS {
        2
    } else if f == ENVH_BITS {
        3
    } else {
        0
    }
}

/// A reference word that cannot be an object of this heap: non-nil, and
/// either unaligned or with no room for a header before the heap's end.
pub open spec fn implausible(s: Seq<u64>, w: u64) -> bool {
    w != 0 && (w % 8 != 0 || w / 8 + META_LEN > s.len())
}

/// How many of `o`'s first `k` reference slots are implausible.
pub open spec fn bad_in(s: Seq<u64>, o: Obj, k: u64) -> nat
    decreases k,
{
    if k == 0 {
        0
    } else {
        let i = (k - 1) as u64;
        let here: nat = if i < spec_word(s, spec_header(o, SLOT_LEN)) && implausible(s, spec_data(s, o, i)) {
            1
        } else {
            0
        };
        bad_in(s, o, i) + here
    }
}

/// The implausible reference slots of the objects on the allocation chain
/// from `at`, at most `fuel` objects down.
pub open spec fn chain_bad(s: Seq<u64>, at: Obj, fuel: nat) -> nat
    decreases fuel,
{
    if fuel == 0 || at.0 == 0 {
        0
    } else {
        bad_in(s, at, ref_slots(spec_flags(s, at))) + chain_bad(
            s,
            Obj(spec_word(s, spec_header(at, SLOT_HEAP))),
            (fuel - 1) as nat,
        )
    }
}

impl Objects {
    /// The implausible reference slots of one object.
    fn bad_slots(&self, o: Obj) -> (r: u64)
        ensures
            r == bad_in(self.mem(), o, ref_slots(spec_flags(self.mem(), o))),
    {
        let f = self.flags(o).0;
        let k: u64 = if f == PAIR_BITS || f == SPAIR_BITS {
            2
        } else if f == ENVH_BITS {
            3
        } else {
            0
        };
        let n = self.data_len(o);
        let words = self.heap.words_len() as u64;
        let mut bad: u64 = 0;
        let mut i: u64 = 0;
        while i < k
            invariant
                i <= k,
                k <= 3,
                bad == bad_in(self.mem(), o, i),
                bad <= i,
                n == spec_word(self.mem(), spec_header(o, SLOT_LEN)),
                words == self.mem().len(),
            decreases k - i,
        {
            let w = self.data(o, i).0;
            if i < n && w != 0 && (w % 8 != 0 || w / 8 + META_LEN > words) {
                bad = bad + 1;
            }
            i = i + 1;
        }
        bad
    }

    /// `(heap check)`: how many reference slots on the allocation chain
    /// hold a word that cannot be an object, walking at most as many
    /// objects as the heap has words.
    pub fn heap_check(&self) -> (r: u64)
        requires
            self.wf(),
        ensures
            r == chain_bad(self.mem(), self.heap_chain, self.mem().len()),
    {
        let len: usize = self.heap.words_len();
        let mut fuel: usize = len;
        let mut at = self.heap_chain;
        let mut bad: u64 = 0;
        while fuel > 0 && at.0 != 0
            invariant
                fuel <= len,
                len == self.mem().len(),
                len <= crate::heap::MAX_WORDS,
                bad + chain_bad(self.mem(), at, fuel as nat) == chain_bad(self.mem(), self.heap_chain, len as nat),
                bad <= 3 * (len - fuel),
            decreases fuel,
        {
            let here = self.bad_slots(at);
            proof {
                lemma_bad_in_bound(self.mem(), at, ref_slots(spec_flags(self.mem(), at)));
            }
            bad = bad + here;
            at = Obj(self.heap.word(crate::obj::Addr(crate::obj::add_wrapping(at.0, SLOT_HEAP * 8))).0);
            fuel = fuel - 1;
        }
        bad
    }
}

/// An object's count of bad slots is at most the slots looked at.
proof fn lemma_bad_in_bound(s: Seq<u64>, o: Obj, k: u64)
    ensures
        bad_in(s, o, k) <= k,
    decreases k,
{
    if k > 0 {
        lemma_bad_in_bound(s, o, (k - 1) as u64);
    }
}

} // verus!
