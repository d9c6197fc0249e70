//! Escape continuations.
//!
//! `(call/cc f)` hands `f` a continuation; invoking it unwinds to the capture
//! with the value delivered. The capture also keeps the control records in
//! flight: an invocation that arrives after the capture's extent is gone
//! unwinds to the top level, which replays those records, innermost first,
//! with the value delivered where `call/cc` returned.

use crate::diag::Cond;
use crate::engine::Engine;
use crate::eval::{ControlRec, EvalResult, RecNode, DEPTH};
use crate::obj::{nil, EnvId, Obj};
use vstd::prelude::*;

verus! {

/// How deep the evaluation that made a record was.
pub open spec fn rec_depth(r: ControlRec) -> u32 {
    match r {
        ControlRec::Body { depth, .. } => depth,
        ControlRec::Args { depth, .. } => depth,
        ControlRec::Bind { depth, .. } => depth,
        ControlRec::Pass { depth } => depth,
    }
}

/// Records that describe every nested evaluation under `depth`: one for each
/// depth from one up, outermost first.
pub open spec fn covers(recs: Seq<ControlRec>, depth: u32) -> bool {
    &&& depth > 0
    &&& recs.len() == depth - 1
    &&& forall|i: int| 0 <= i < recs.len() ==> rec_depth(#[trigger] recs[i]) == i + 1
}

/// Whether records describe every nested evaluation under `depth`.
pub fn covers_every_frame(recs: &Vec<ControlRec>, depth: u32) -> (r: bool)
    ensures
        r == covers(recs@, depth),
{
    if depth == 0 {
        return false;
    }
    if recs.len() as u64 != depth as u64 - 1 {
        return false;
    }
    let mut i: usize = 0;
    while i < recs.len()
        invariant
            i <= recs@.len(),
            recs@.len() == depth - 1,
            forall|k: int| 0 <= k < i ==> rec_depth(#[trigger] recs@[k]) == k + 1,
        decreases recs@.len() - i,
    {
        if recs[i].depth() as u64 != i as u64 + 1 {
            return false;
        }
        i = i + 1;
    }
    true
}

/// How many records a chain holds.
pub open spec fn spec_records_len(node: Option<Box<RecNode>>) -> nat
    decreases node,
{
    match node {
        Some(n) => 1 + spec_records_len(n.next),
        None => 0,
    }
}

/// Copy the records of a chain onto `out`, outermost first.
fn records_of(node: &Option<Box<RecNode>>, out: &mut Vec<ControlRec>)
    ensures
        final(out)@.len() == old(out)@.len() + spec_records_len(*node),
    decreases *node,
{
    match node {
        Some(n) => {
            records_of(&n.next, out);
            out.push(n.rec.clone());
        },
        None => {},
    }
}

impl Engine {
    /// Deliver `v` to the capture of `k`: an escape begins.
    pub fn invoke_cont(&mut self, k: Obj, v: Obj) -> (r: EvalResult)
        requires
            old(self).wf(),
        ensures
            final(self).wf(),
            final(self).escaping == Some((crate::objects::spec_data(old(self).objects.mem(), k, 0), v)),
            r == Err::<Obj, Cond>(Cond::Raised(v)),
    {
        let id = self.objects.cont_id(k);
        self.escaping = Some((id, v));
        Err(Cond::Raised(v))
    }

    /// Apply `f` to a fresh continuation; an escape to it answers the value
    /// delivered.
    pub fn with_escape(&mut self, f: Obj, env: EnvId, fuel: u64) -> (r: EvalResult)
        requires
            old(self).wf(),
        ensures
            final(self).wf(),
        decreases fuel, 9u64,
    {
        let id = self.next_cont;
        if self.next_cont < u64::MAX {
            self.next_cont = self.next_cont + 1;
        }
        let k = self.objects.cont(id);
        self.capture(id);
        let mut vals: Vec<Obj> = Vec::new();
        vals.push(k);
        let res = self.call_with_values(f, vals, env, fuel);
        self.catch_escape(id, res)
    }

    /// Keep the records in flight for continuation `id`, with whether they
    /// describe every nested evaluation.
    fn capture(&mut self, id: u64)
        requires
            old(self).wf(),
        ensures
            final(self).wf(),
            final(self).objects == old(self).objects,
            final(self).snapshots@.len() == old(self).snapshots@.len() + 1,
            final(self).snapshots@.last().0 == id,
            final(self).snapshots@.last().1@.len() == spec_records_len(old(self).control),
            final(self).snapshots@.last().2 == covers(final(self).snapshots@.last().1@, old(self).active_evals),
    {
        let mut recs: Vec<ControlRec> = Vec::new();
        records_of(&self.control, &mut recs);
        let resumable = covers_every_frame(&recs, self.active_evals);
        self.snapshots.push((id, recs, resumable));
    }

    /// An escape that reached the top level with no live capture to stop
    /// it: the capture's records are replayed with the value delivered when
    /// they described every nested evaluation, and refused otherwise. None
    /// when nothing is escaping.
    pub fn resume_escape(&mut self, fuel: u64) -> (r: Option<EvalResult>)
        requires
            old(self).wf(),
        ensures
            final(self).wf(),
            old(self).escaping is None ==> r is None && *final(self) == *old(self),
            old(self).escaping is Some ==> r is Some,
            match old(self).escaping {
                Some((id, _)) => (forall|j: int|
                    0 <= j < old(self).snapshots@.len() && (#[trigger] old(self).snapshots@[j]).0 == id
                        ==> !old(self).snapshots@[j].2) ==> r == Some(Err::<Obj, Cond>(Cond::NotResumable)),
                None => true,
            },
        decreases fuel, 11u64,
    {
        let (id, v) = match self.escaping {
            Some(p) => p,
            None => {
                return None;
            },
        };
        self.escaping = None;
        let mut i: usize = self.snapshots.len();
        let mut found: Option<usize> = None;
        while i > 0
            invariant
                i <= self.snapshots@.len(),
                found matches Some(k) ==> k < self.snapshots@.len() && self.snapshots@[k as int].0 == id,
            decreases i,
        {
            i = i - 1;
            if self.snapshots[i].0 == id {
                found = Some(i);
                break;
            }
        }
        match found {
            Some(k) => {
                if self.snapshots[k].2 {
                    let recs = self.snapshots[k].1.clone();
                    Some(self.replay(&recs, v, fuel))
                } else {
                    Some(Err(Cond::NotResumable))
                }
            },
            None => Some(Err(Cond::NotResumable)),
        }
    }

    /// Rebuild a captured evaluation, innermost record first, delivering
    /// `v` where `call/cc` returned; the first raise stops it.
    pub fn replay(&mut self, recs: &Vec<ControlRec>, v: Obj, fuel: u64) -> (r: EvalResult)
        requires
            old(self).wf(),
        ensures
            final(self).wf(),
            recs@.len() == 0 ==> r == Ok::<Obj, Cond>(v) && *final(self) == *old(self),
        decreases fuel, 10u64,
    {
        let mut val = v;
        let mut i: usize = recs.len();
        while i > 0
            invariant
                self.wf(),
                i <= recs@.len(),
                recs@.len() == 0 ==> val == v && *self == *old(self),
            decreases i,
        {
            i = i - 1;
            match self.resume_with(&recs[i], val, fuel) {
                Ok(x) => {
                    val = x;
                },
                Err(c) => {
                    return Err(c);
                },
            }
        }
        Ok(val)
    }

    /// What the capture of continuation `id` makes of its body's result: a
    /// value passes; a raise that is the escape to `id` answers the value
    /// delivered and ends the escape; any other raise passes on.
    pub fn catch_escape(&mut self, id: u64, res: EvalResult) -> (r: EvalResult)
        requires
            old(self).wf(),
        ensures
            final(self).wf(),
            final(self).objects == old(self).objects,
            final(self).envs == old(self).envs,
            match (res, old(self).escaping) {
                (Err(_), Some((eid, v))) => if eid == id {
                    r == Ok::<Obj, Cond>(v) && final(self).escaping is None
                } else {
                    r == res && *final(self) == *old(self)
                },
                _ => r == res && *final(self) == *old(self),
            },
    {
        match res {
            Ok(v) => Ok(v),
            Err(e) => {
                match self.escaping {
                    Some((eid, v)) => {
                        if eid == id {
                            self.escaping = None;
                            return Ok(v);
                        }
                        Err(e)
                    },
                    None => Err(e),
                }
            },
        }
    }

    /// Is a continuation escaping right now?
    pub fn is_escaping(&self) -> (r: bool)
        ensures
            r == self.escaping is Some,
    {
        self.escaping.is_some()
    }

    /// Resume from a record with the value delivered to it: a pass answers
    /// the value, a binding binds it, a body runs what remained, an
    /// application finishes its operands and applies.
    pub fn resume(&mut self, r: &ControlRec, val: Obj) -> (out: EvalResult)
        requires
            old(self).wf(),
        ensures
            final(self).wf(),
            r is Pass ==> out == Ok::<Obj, Cond>(val),
            match *r {
                ControlRec::Bind { name, set, .. } => (!set ==> out == Ok::<Obj, Cond>(name)) && (set ==> (out == Ok::<
                    Obj,
                    Cond,
                >(val) || out == Err::<Obj, Cond>(Cond::Unbound(name)))),
                ControlRec::Body { rest, .. } => rest.0 == 0 ==> out == Ok::<Obj, Cond>(val),
                _ => true,
            },
    {
        self.resume_with(r, val, DEPTH)
    }

    /// `resume` with `fuel` levels of nesting left for what remains.
    pub fn resume_with(&mut self, r: &ControlRec, val: Obj, fuel: u64) -> (out: EvalResult)
        requires
            old(self).wf(),
        ensures
            final(self).wf(),
            r is Pass ==> out == Ok::<Obj, Cond>(val),
            match *r {
                ControlRec::Bind { name, set, .. } => (!set ==> out == Ok::<Obj, Cond>(name)) && (set ==> (out == Ok::<
                    Obj,
                    Cond,
                >(val) || out == Err::<Obj, Cond>(Cond::Unbound(name)))),
                ControlRec::Body { rest, .. } => rest.0 == 0 ==> out == Ok::<Obj, Cond>(val),
                _ => true,
            },
        decreases fuel, 9u64,
    {
        match r {
            ControlRec::Pass { .. } => Ok(val),
            ControlRec::Bind { name, env, set, .. } => {
                if *set {
                    if self.envs.set_existing(&mut self.objects, *env, *name, val) {
                        Ok(val)
                    } else {
                        Err(Cond::Unbound(*name))
                    }
                } else {
                    let target = if self.nothing_pending() {
                        self.current_env()
                    } else {
                        *env
                    };
                    self.envs.bind(&mut self.objects, target, *name, val);
                    Ok(*name)
                }
            },
            ControlRec::Body { rest, env, .. } => {
                if rest.0 == 0 {
                    Ok(val)
                } else {
                    self.eval_body(*rest, *env, fuel)
                }
            },
            ControlRec::Args { callee, done, rest, env, n, .. } => {
                let mut vals: Vec<Obj> = Vec::new();
                let mut i: usize = 0;
                while i < done.len()
                    invariant
                        i <= done@.len(),
                    decreases done@.len() - i,
                {
                    vals.push(done[i]);
                    i = i + 1;
                }
                vals.push(val);
                let more = self.objects.list(*rest);
                let mut k: usize = 0;
                while k < more.len()
                    invariant
                        self.wf(),
                        k <= more@.len(),
                        !(r is Pass),
                        r is Args,
                    decreases more@.len() - k,
                {
                    match self.ev(more[k], *env, fuel) {
                        Ok(x) => {
                            vals.push(x);
                        },
                        Err(c) => {
                            return Err(c);
                        },
                    }
                    k = k + 1;
                }
                while vals.len() < *n
                    decreases *n - vals@.len(),
                {
                    vals.push(nil());
                }
                self.call_with_values(*callee, vals, *env, fuel)
            },
        }
    }
}

} // verus!
