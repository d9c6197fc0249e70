//! The engine: the object model, the frames, the instruction table, and the
//! base it boots into.

use crate::env::Envs;
use crate::eval::ControlRec;
use crate::obj::{nil, EnvId, Obj};
use crate::objects::Objects;
use crate::prim::{PrimDef, PrimId};
use crate::symbols::Symbols;
use vstd::prelude::*;

verus! {

/// The release the engine reports as `x-version`.
pub const X_EXPR_VERSION: &'static str = "0.1.0";
/// The machine the engine reports as `x-machine`.
pub const X_MACHINE: &'static str = "x-engine-verus";
/// The release the engine reports as `x-release`.
pub const X_RELEASE: &'static str = "0.1.0";

pub struct Engine {
    pub objects: Objects,
    pub envs: Envs,
    /// The instruction table; a primitive object's data word indexes it.
    pub prims: Vec<PrimDef>,
    /// The engine's own base.
    pub base: Obj,
    /// The instruction catalog every base files.
    pub catalog: Obj,
    /// (name, primitive) for every row with a bare name.
    pub prim_bindings: Vec<(Obj, Obj)>,
    /// The continuation escaping right now, if one is.
    pub escaping: Option<(u64, Obj)>,
    /// The serial number the next continuation gets.
    pub next_cont: u64,
    /// Each base's table of names interned by its running program.
    pub base_syms: Vec<(Obj, Symbols)>,
    /// The allocation ceiling, once armed.
    pub alloc_limit: Option<usize>,
    /// The clean end-of-input sentinel.
    pub token_eof: Obj,
    /// The interrupt flag, an integer object.
    pub sigint_flag: Obj,
    /// Sources an embedder registered for `include`: (path, text).
    pub sources: Vec<(Vec<u8>, Vec<u8>)>,
    /// Bytes the program wrote, for the embedder to deliver.
    pub output: Vec<u8>,
    /// The line cells each include displaced.
    pub line_stack: Vec<Obj>,
    /// When the engine started, for `(sys clock)`.
    pub clock_start: std::time::Instant,
    /// Whether the running program asked for a collection, which runs once
    /// the top-level form asking for it is done.
    pub collect_requested: bool,
    /// The latest top-level value: what the embedder may still hold.
    pub held: Obj,
    /// The control records of the evaluation in flight, innermost first.
    pub control: Option<Box<crate::eval::RecNode>>,
    /// How many evaluations are nested right now.
    pub active_evals: u32,
    /// What each capture kept: its continuation's number, the records in
    /// flight then, outermost first, and whether they described every
    /// nested evaluation.
    pub snapshots: Vec<(u64, Vec<ControlRec>, bool)>,
}

impl Engine {
    /// Well-formed: the object model is.
    pub open spec fn wf(&self) -> bool {
        &&& self.objects.wf()
        &&& forall|i: int| 0 <= i < self.base_syms@.len() ==> (#[trigger] self.base_syms@[i]).1.wf()
    }

    /// A booted engine: every instruction registered, bound and filed, and
    /// the engine's own base current.
    pub fn new() -> (r: Engine)
        ensures
            r.wf(),
            r.prims@.len() == crate::prims::table_ids().len(),
            crate::prims::all_reachable(r.prims@),
            crate::prims::table_prefix(r.prims@),
    {
        let mut e = Engine {
            objects: Objects::new(),
            envs: Envs::new(),
            prims: Vec::new(),
            base: nil(),
            catalog: nil(),
            prim_bindings: Vec::new(),
            escaping: None,
            next_cont: 1,
            base_syms: Vec::new(),
            alloc_limit: None,
            token_eof: nil(),
            sigint_flag: nil(),
            sources: Vec::new(),
            output: Vec::new(),
            line_stack: Vec::new(),
            clock_start: crate::prims::sys::clock_now(),
            collect_requested: false,
            held: nil(),
            control: None,
            active_evals: 0,
            snapshots: Vec::new(),
        };
        let defs = crate::prims::all();
        let mut coords: Vec<(&'static str, &'static str, Obj)> = Vec::new();
        let mut i: usize = 0;
        while i < defs.len()
            invariant
                e.wf(),
                i <= defs@.len(),
                e.prims@ == defs@.subrange(0, i as int),
            decreases defs@.len() - i,
        {
            let def = defs[i];
            let obj = e.objects.prim(e.prims.len());
            e.prims.push(def);
            match def.bare {
                Some(name) => {
                    let sym = e.objects.sym_shared(name);
                    e.prim_bindings.push((sym, obj));
                },
                None => {},
            }
            match def.coord {
                Some((ns, m)) => {
                    let _ = e.objects.sym_shared(ns);
                    let _ = e.objects.sym_shared(m);
                    coords.push((ns, m, obj));
                },
                None => {},
            }
            match def.f {
                PrimId::SymEval => {
                    e.objects.sym_eval_handler = obj;
                },
                PrimId::ListEval => {
                    e.objects.list_eval_handler = obj;
                },
                PrimId::CallableCall => {
                    e.objects.callable_call_handler = obj;
                },
                PrimId::ListCall => {
                    e.objects.list_call_handler = obj;
                },
                _ => {},
            }
            i = i + 1;
        }
        e.catalog = e.file_catalog(&coords);
        e.token_eof = e.objects.token_eof();
        e.sigint_flag = e.objects.int_new(0);
        let tag = e.objects.handle_bytes("BASE".as_bytes());
        e.objects.base_tag_atom = tag;
        let b = e.make_base();
        e.base = b;
        e.enter(b);
        proof {
            assert(defs@.subrange(0, defs@.len() as int) =~= defs@);
        }
        e
    }

    /// The catalog: an alist of namespaces, each an alist of methods, in
    /// registration order.
    fn file_catalog(&mut self, rows: &Vec<(&'static str, &'static str, Obj)>) -> (r: Obj)
        requires
            old(self).wf(),
        ensures
            final(self).wf(),
            rows@.len() == 0 ==> r.0 == 0 && *final(self) == *old(self),
            rows@.len() > 0 && r.0 == 0 ==> final(self).objects.mem().len() + 6 > crate::heap::MAX_WORDS
                - crate::objects::META_MAX,
            final(self).prims == old(self).prims,
    {
        if rows.len() == 0 {
            return nil();
        }
        let mut namespaces: Vec<&'static str> = Vec::new();
        let mut i: usize = 0;
        while i < rows.len()
            invariant
                self.wf(),
                i <= rows@.len(),
                i > 0 ==> namespaces@.len() > 0,
                self.prims == old(self).prims,
            decreases rows@.len() - i,
        {
            let ns = rows[i].0;
            let mut seen = false;
            let mut k: usize = 0;
            while k < namespaces.len()
                invariant
                    k <= namespaces@.len(),
                    seen ==> namespaces@.len() > 0,
                decreases namespaces@.len() - k,
            {
                if crate::symbols::bytes_eq(namespaces[k].as_bytes(), ns.as_bytes()) {
                    seen = true;
                }
                k = k + 1;
            }
            if !seen {
                namespaces.push(ns);
            }
            i = i + 1;
        }
        let mut cat = nil();
        let mut j: usize = namespaces.len();
        while j > 0
            invariant
                self.wf(),
                j <= namespaces@.len(),
                namespaces@.len() > 0,
                j < namespaces@.len() ==> cat.0 != 0 || self.objects.mem().len() + 6 > crate::heap::MAX_WORDS
                    - crate::objects::META_MAX,
                self.prims == old(self).prims,
            decreases j,
        {
            j = j - 1;
            let ns = namespaces[j];
            let mut methods = nil();
            let mut k: usize = rows.len();
            while k > 0
                invariant
                    self.wf(),
                    k <= rows@.len(),
                    self.prims == old(self).prims,
                decreases k,
            {
                k = k - 1;
                let (rns, m, o) = rows[k];
                if crate::symbols::bytes_eq(rns.as_bytes(), ns.as_bytes()) {
                    let msym = self.objects.sym(m);
                    let entry = self.objects.pair(msym, o);
                    methods = self.objects.pair(entry, methods);
                }
            }
            let nsym = self.objects.sym(ns);
            let nsentry = self.objects.pair(nsym, methods);
            cat = self.objects.pair(nsentry, cat);
        }
        cat
    }

    /// A fresh base: its own root frame, knowing `#t`, `#f`, the engine's
    /// reports, the sentinels and every bare instruction name.
    pub fn make_base(&mut self) -> (r: Obj)
        requires
            old(self).wf(),
        ensures
            final(self).wf(),
            final(self).base_syms@.len() == old(self).base_syms@.len() + 1,
            forall|i: int| 0 <= i < old(self).base_syms@.len() ==> final(self).base_syms@[i] == old(self).base_syms@[i],
            final(self).base_syms@.last().0 == r,
            final(self).base_syms@.last().1@.len() == 0,
            final(self).prims == old(self).prims,
    {
        let env = self.envs.push_root(&mut self.objects);
        let t = self.objects.sym_shared("#t");
        self.envs.bind(&mut self.objects, env, t, t);
        let f = self.objects.sym_shared("#f");
        let fo = self.objects.false_obj();
        self.envs.bind(&mut self.objects, env, f, fo);
        let m = self.objects.sym_shared("x-machine");
        let mv = self.objects.str_new(X_MACHINE);
        self.envs.bind(&mut self.objects, env, m, mv);
        let v = self.objects.sym_shared("x-version");
        let vv = self.objects.str_new(X_EXPR_VERSION);
        self.envs.bind(&mut self.objects, env, v, vv);
        let rl = self.objects.sym_shared("x-release");
        let rv = self.objects.str_new(X_RELEASE);
        self.envs.bind(&mut self.objects, env, rl, rv);
        let eof = self.objects.sym_shared("%token-eof");
        let te = self.token_eof;
        self.envs.bind(&mut self.objects, env, eof, te);
        let flag = self.objects.sym_shared("%sigint-flag");
        let sf = self.sigint_flag;
        self.envs.bind(&mut self.objects, env, flag, sf);
        let mut i: usize = 0;
        while i < self.prim_bindings.len()
            invariant
                self.wf(),
                i <= self.prim_bindings@.len(),
                self.base_syms == old(self).base_syms,
                self.prims == old(self).prims,
            decreases self.prim_bindings@.len() - i,
        {
            let (sym, obj) = self.prim_bindings[i];
            self.envs.bind(&mut self.objects, env, sym, obj);
            i = i + 1;
        }
        let catalog = self.catalog;
        let base = crate::base::build(&mut self.objects, catalog, env);
        let tag = self.objects.base_tag_atom;
        self.objects.set_type_word(base, tag);
        self.envs.set_base(&mut self.objects, env, base);
        self.base_syms.push((base, Symbols::new()));
        base
    }

    /// Make `base` the current one: its name table installed, the running
    /// table filed under the base it belonged to, and its state cells cached.
    pub fn enter(&mut self, base: Obj)
        requires
            old(self).wf(),
        ensures
            final(self).wf(),
            final(self).objects.base == base,
            final(self).prims == old(self).prims,
    {
        let current = self.objects.base;
        if current.0 == base.0 && current.0 != 0 {
            return;
        }
        let mut incoming = Symbols::new();
        let mut i: usize = 0;
        let mut found: bool = false;
        while i < self.base_syms.len()
            invariant
                i <= self.base_syms@.len(),
                incoming.wf(),
                self.wf(),
                self.prims == old(self).prims,
            decreases self.base_syms@.len() - i,
        {
            if self.base_syms[i].0.0 == base.0 {
                let (b, t) = self.base_syms.remove(i);
                proof {
                    assert(old(self).base_syms@.len() >= 0);
                }
                incoming = t;
                found = true;
                break;
            }
            i = i + 1;
        }
        let outgoing = self.objects.swap_symbols(incoming);
        if current.0 != 0 {
            self.base_syms.push((current, outgoing));
        }
        self.objects.base = base;
        let (s, te, tv, h) = crate::base::state_nodes(&self.objects, base);
        self.objects.save_node = s;
        self.objects.tco_expr_node = te;
        self.objects.tco_env_node = tv;
        self.objects.handler_node = h;
        let (l, m) = crate::base::loc_nodes(&self.objects, base);
        self.objects.line_node = l;
        self.objects.meta_node = m;
    }

    /// Arm two meta units per allocation — source line and file id — in the
    /// engine's own base.
    pub fn arm_source_meta(&mut self)
        requires
            old(self).wf(),
        ensures
            final(self).wf(),
            final(self).objects.mem() == crate::value::tok::with_data(
                old(self).objects.mem(),
                crate::base::spec_route(old(self).objects.mem(), old(self).base, crate::base::OBJ_META_EXTRA as nat),
                0,
                crate::obj::signed_word(2),
            ),
    {
        let b = self.base;
        crate::base::set_cell_int(&mut self.objects, b, crate::base::OBJ_META_EXTRA, 2);
    }

    /// The environment a base runs in.
    pub fn base_env(&self, base: Obj) -> (r: EnvId)
        ensures
            r == crate::base::spec_env_of(self.objects.mem(), base),
    {
        crate::base::env_of(&self.objects, base)
    }

    /// The engine's own base's environment.
    pub fn root_env(&self) -> (r: EnvId)
        ensures
            r == crate::base::spec_env_of(self.objects.mem(), self.base),
    {
        self.base_env(self.base)
    }

    /// The environment of the base evaluating right now.
    pub fn current_env(&self) -> (r: EnvId)
        ensures
            r == crate::base::spec_env_of(self.objects.mem(), self.objects.base),
    {
        self.base_env(self.objects.base)
    }
}

} // verus!
