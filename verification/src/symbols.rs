//! The symbol table.
//!
//! Name to object, and nothing else. Interning is a POLICY over object
//! construction: the objects can make a symbol object any time, and this
//! decides that it should make at most one per spelling. x-lang requires that
//! policy — `eq?` on two spellings of one name must hold, so symbol identity IS
//! pointer identity.

use crate::obj::Obj;
use vstd::prelude::*;
use vstd::string::StringSliceAdditionalSpecFns;

verus! {

/// Do two byte runs hold the same bytes?
pub fn bytes_eq(a: &[u8], b: &[u8]) -> (r: bool)
    ensures
        r == (a@ == b@),
{
    if a.len() != b.len() {
        return false;
    }
    let mut i: usize = 0;
    while i < a.len()
        invariant
            i <= a@.len(),
            a@.len() == b@.len(),
            forall|k: int| 0 <= k < i ==> a@[k] == b@[k],
        decreases a@.len() - i,
    {
        if a[i] != b[i] {
            return false;
        }
        i = i + 1;
    }
    assert(a@ =~= b@);
    true
}

/// Is `name` bound in these entries, and to what?
pub open spec fn spec_lookup(entries: Seq<(Seq<u8>, Obj)>, name: Seq<u8>) -> Option<Obj> {
    if exists|i: int| 0 <= i < entries.len() && (#[trigger] entries[i]).0 == name {
        let i = choose|i: int| 0 <= i < entries.len() && (#[trigger] entries[i]).0 == name;
        Some(entries[i].1)
    } else {
        None
    }
}

/// No spelling appears twice.
pub open spec fn distinct_names(entries: Seq<(Seq<u8>, Obj)>) -> bool {
    forall|i: int, j: int|
        0 <= i < entries.len() && 0 <= j < entries.len() && i != j ==> (#[trigger] entries[i]).0
            != (#[trigger] entries[j]).0
}

pub struct Symbols {
    table: Vec<(Vec<u8>, Obj)>,
}

impl View for Symbols {
    type V = Seq<(Seq<u8>, Obj)>;

    closed spec fn view(&self) -> Seq<(Seq<u8>, Obj)> {
        self.table@.map_values(|e: (Vec<u8>, Obj)| (e.0@, e.1))
    }
}

impl Symbols {
    /// Well-formed: one entry per spelling.
    pub open spec fn wf(&self) -> bool {
        distinct_names(self@)
    }

    /// The object interned under a spelling, as the model sees it.
    pub open spec fn spec_get(&self, name: Seq<u8>) -> Option<Obj> {
        spec_lookup(self@, name)
    }

    pub fn new() -> (r: Symbols)
        ensures
            r.wf(),
            r@ == Seq::<(Seq<u8>, Obj)>::empty(),
            forall|n: Seq<u8>| r.spec_get(n) == None::<Obj>,
    {
        let r = Symbols { table: Vec::new() };
        assert(r@ =~= Seq::<(Seq<u8>, Obj)>::empty());
        r
    }

    /// The index holding a spelling, if any.
    fn find(&self, name: &[u8]) -> (r: Option<usize>)
        ensures
            match r {
                Some(i) => i < self@.len() && self@[i as int].0 == name@,
                None => forall|i: int| 0 <= i < self@.len() ==> (#[trigger] self@[i]).0 != name@,
            },
    {
        let mut i: usize = 0;
        while i < self.table.len()
            invariant
                i <= self.table@.len(),
                self@.len() == self.table@.len(),
                forall|k: int| 0 <= k < i ==> (#[trigger] self@[k]).0 != name@,
            decreases self.table@.len() - i,
        {
            if bytes_eq(self.table[i].0.as_slice(), name) {
                return Some(i);
            }
            i = i + 1;
        }
        None
    }

    /// The object already interned under this spelling, if any.
    pub fn get_bytes(&self, name: &[u8]) -> (r: Option<Obj>)
        requires
            self.wf(),
        ensures
            r == self.spec_get(name@),
    {
        match self.find(name) {
            Some(i) => {
                proof {
                    assert(self@[i as int].0 == name@);
                    let j = choose|j: int| 0 <= j < self@.len() && (#[trigger] self@[j]).0 == name@;
                    assert(j == i as int);
                }
                Some(self.table[i].1)
            },
            None => None,
        }
    }

    /// The object already interned under this name, if any.
    pub fn get(&self, name: &str) -> (r: Option<Obj>)
        requires
            self.wf(),
        ensures
            r == self.spec_get(name.spec_bytes()),
    {
        self.get_bytes(name.as_bytes())
    }

    /// Record the object for this spelling, replacing any earlier one.
    pub fn put_bytes(&mut self, name: &[u8], o: Obj)
        requires
            old(self).wf(),
        ensures
            final(self).wf(),
            final(self).spec_get(name@) == Some(o),
            forall|m: Seq<u8>| m != name@ ==> final(self).spec_get(m) == old(self).spec_get(m),
    {
        let ghost s0 = self@;
        match self.find(name) {
            Some(i) => {
                let mut copy: Vec<u8> = Vec::new();
                copy.extend_from_slice(name);
                assert(copy@ =~= name@);
                self.table.set(i, (copy, o));
                proof {
                    assert(self@ =~= s0.update(i as int, (name@, o)));
                    let s = self@;
                    assert forall|m: Seq<u8>| m != name@ implies self.spec_get(m) == spec_lookup(s0, m) by {
                        if exists|k: int| 0 <= k < s.len() && (#[trigger] s[k]).0 == m {
                            let k = choose|k: int| 0 <= k < s.len() && (#[trigger] s[k]).0 == m;
                            assert(s0[k].0 == m);
                            let k0 = choose|k: int| 0 <= k < s0.len() && (#[trigger] s0[k]).0 == m;
                            assert(k0 == k);
                        } else {
                            assert forall|k: int| 0 <= k < s0.len() implies (#[trigger] s0[k]).0 != m by {
                                assert(s[k].0 != m);
                            }
                        }
                    }
                    assert(s[i as int].0 == name@);
                    let k = choose|k: int| 0 <= k < s.len() && (#[trigger] s[k]).0 == name@;
                    assert(k == i as int);
                }
            },
            None => {
                let mut copy: Vec<u8> = Vec::new();
                copy.extend_from_slice(name);
                assert(copy@ =~= name@);
                self.table.push((copy, o));
                proof {
                    assert(self@ =~= s0.push((name@, o)));
                    let s = self@;
                    let n = s0.len() as int;
                    assert(s[n].0 == name@);
                    let k = choose|k: int| 0 <= k < s.len() && (#[trigger] s[k]).0 == name@;
                    assert(k == n);
                    assert forall|m: Seq<u8>| m != name@ implies self.spec_get(m) == spec_lookup(s0, m) by {
                        if exists|k: int| 0 <= k < s.len() && (#[trigger] s[k]).0 == m {
                            let k = choose|k: int| 0 <= k < s.len() && (#[trigger] s[k]).0 == m;
                            assert(k < n);
                            assert(s0[k].0 == m);
                            let k0 = choose|k: int| 0 <= k < s0.len() && (#[trigger] s0[k]).0 == m;
                            assert(k0 == k);
                        } else {
                            assert forall|k: int| 0 <= k < s0.len() implies (#[trigger] s0[k]).0 != m by {
                                assert(s[k].0 != m);
                            }
                        }
                    }
                }
            },
        }
    }

    /// Record the object for this name. The caller constructs it, because
    /// constructing objects is the objects' job, not this table's.
    pub fn put(&mut self, name: &str, o: Obj)
        requires
            old(self).wf(),
        ensures
            final(self).wf(),
            final(self).spec_get(name.spec_bytes()) == Some(o),
            forall|m: Seq<u8>|
                m != name.spec_bytes() ==> final(self).spec_get(m) == old(self).spec_get(m),
    {
        self.put_bytes(name.as_bytes(), o)
    }

    /// Every interned object, in table order.
    pub fn all(&self) -> (r: Vec<Obj>)
        ensures
            r@.len() == self@.len(),
            forall|i: int| 0 <= i < r@.len() ==> r@[i] == (#[trigger] self@[i]).1,
    {
        let mut out: Vec<Obj> = Vec::new();
        let mut i: usize = 0;
        while i < self.table.len()
            invariant
                i <= self.table@.len(),
                self@.len() == self.table@.len(),
                out@.len() == i,
                forall|k: int| 0 <= k < i ==> out@[k] == (#[trigger] self@[k]).1,
            decreases self.table@.len() - i,
        {
            out.push(self.table[i].1);
            i = i + 1;
        }
        out
    }
}

} // verus!
