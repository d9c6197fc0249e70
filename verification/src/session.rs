//! Feeding the engine: input, arguments, and evaluating sources.

use crate::diag::Cond;
use crate::engine::Engine;
use crate::eval::{EvalResult, DEPTH};
use crate::obj::{nil, EnvId, Obj, Word};
use vstd::prelude::*;
use vstd::string::StringSliceAdditionalSpecFns;

verus! {

/// The streamed input buffer's capacity, in bytes.
pub const INPUT_CAP: usize = 0x4_0000;

/// What popping an include's source does to the engine: the base's buffer
/// and file rows lose their heads, and the line row takes back the line
/// saved at the push, which leaves the saved lines.
pub open spec fn spec_pops_input(before: &Engine, after: &Engine) -> bool {
    let b = before.objects.base;
    let s0 = before.objects.mem();
    let s1 = crate::base::spec_set_route(
        s0,
        b,
        crate::base::BUFFER as nat,
        crate::objects::spec_data(s0, crate::base::spec_route(s0, b, crate::base::BUFFER as nat), 1),
    );
    let s2 = crate::base::spec_set_route(
        s1,
        b,
        crate::base::FILEIN as nat,
        crate::objects::spec_data(s1, crate::base::spec_route(s1, b, crate::base::FILEIN as nat), 1),
    );
    &&& before.line_stack@.len() > 0 ==> after.objects.mem() == crate::base::spec_set_route(
        s2,
        b,
        crate::base::LINE as nat,
        before.line_stack@.last().0,
    ) && after.line_stack@ == before.line_stack@.drop_last()
    &&& before.line_stack@.len() == 0 ==> after.objects.mem() == s2 && after.line_stack@ == before.line_stack@
}

impl Engine {
    /// Read from `src`: a read-only buffer at the head of the current base's
    /// buffer row, descriptor 0 at the head of its file row.
    pub fn set_input(&mut self, src: &str)
        requires
            old(self).wf(),
        ensures
            final(self).wf(),
    {
        let text = self.objects.str_new(src);
        let b = self.objects.buf(text, 0);
        let base = self.objects.base;
        let bcell = self.objects.spair(b, nil());
        crate::base::set(&mut self.objects, base, crate::base::BUFFER, bcell);
        let fd = self.objects.int_new(0);
        let fcell = self.objects.spair(fd, nil());
        crate::base::set(&mut self.objects, base, crate::base::FILEIN, fcell);
    }

    /// Read from a stream of bytes, taken into a writable buffer one byte at
    /// a time as the reader reaches its end.
    pub fn set_input_stream(&mut self, input: Vec<u8>)
        requires
            old(self).wf(),
        ensures
            final(self).wf(),
            final(self).objects.input@ == input@,
            final(self).objects.input_at == 0,
            final(self).objects.streaming,
            final(self).objects.input_cap == INPUT_CAP,
    {
        let region = self.objects.str_make(INPUT_CAP);
        let b = self.objects.buf_writable(region, 0, 0);
        let base = self.objects.base;
        let bcell = self.objects.spair(b, nil());
        crate::base::set(&mut self.objects, base, crate::base::BUFFER, bcell);
        let fd = self.objects.int_new(0);
        let fcell = self.objects.spair(fd, nil());
        crate::base::set(&mut self.objects, base, crate::base::FILEIN, fcell);
        self.objects.input = input;
        self.objects.input_at = 0;
        self.objects.streaming = true;
        self.objects.input_cap = INPUT_CAP as u64;
    }

    /// Move the unread bytes of a streamed buffer to its start.
    pub fn compact_input(&mut self)
        requires
            old(self).wf(),
        ensures
            final(self).wf(),
            ({
                let s = old(self).objects.mem();
                let row = crate::base::spec_route(s, old(self).objects.base, crate::base::BUFFER as nat);
                let b = if row.0 == 0 { Obj(0) } else { Obj(crate::objects::spec_data(s, row, 0)) };
                let c = crate::value::tok::spec_cursor(s, b);
                let w = crate::value::tok::spec_write(s, b);
                let at = crate::objects::spec_data(s, crate::value::tok::spec_buf_text(s, b), 0);
                let marks = crate::value::tok::spec_marks(s, b);
                if b.0 == 0 || crate::objects::spec_data(s, b, 3) != 0 || c == 0 || c > w {
                    final(self).objects.mem() == s
                } else {
                    let s1 = crate::heap::spec_copy(s, at, crate::obj::wrap_add(at, c), (w - c) as nat);
                    let s2 = crate::value::tok::with_data(s1, b, 0, 0);
                    let m2 = crate::value::tok::spec_marks(s2, b);
                    let s3 = crate::value::tok::with_data(s2, m2, 0, 0);
                    final(self).objects.mem() == crate::value::tok::with_data(
                        s3,
                        crate::value::tok::spec_marks(s3, b),
                        1,
                        (w - c) as u64,
                    )
                }
            }),
    {
        let b = self.current_buffer();
        if b.0 == 0 || self.objects.buf_ro(b) {
            return;
        }
        let c = self.objects.buf_cursor(b);
        let w = self.objects.buf_write(b);
        if c == 0 || c > w {
            return;
        }
        let text = self.objects.buf_text(b);
        let at = self.objects.str_bytes(text);
        self.objects.heap.copy_bytes(at, at.plus(c), w - c);
        self.objects.set_buf_retain(b, 0);
        self.objects.set_buf_cursor(b, 0);
        self.objects.set_buf_write(b, w - c);
    }

    /// Push a source on the current base's input rows, as an include does.
    fn input_push_file(&mut self, src: &[u8], fd: i64)
        requires
            old(self).wf(),
        ensures
            final(self).wf(),
    {
        let text = self.objects.str_from_bytes(src);
        let b = self.objects.buf(text, 0);
        let base = self.objects.base;
        let bhead = crate::base::get(&self.objects, base, crate::base::BUFFER);
        let bcell = self.objects.spair(b, bhead);
        crate::base::set(&mut self.objects, base, crate::base::BUFFER, bcell);
        let fdo = self.objects.int_new(fd);
        let fhead = crate::base::get(&self.objects, base, crate::base::FILEIN);
        let fcell = self.objects.spair(fdo, fhead);
        crate::base::set(&mut self.objects, base, crate::base::FILEIN, fcell);
        let line = crate::base::fresh_line_cell(&mut self.objects, 1);
        let lhead = crate::base::get(&self.objects, base, crate::base::LINE);
        crate::base::set(&mut self.objects, base, crate::base::LINE, line);
        self.line_stack.push(lhead);
    }

    /// Pop the source an include pushed.
    fn input_pop(&mut self)
        requires
            old(self).wf(),
        ensures
            final(self).wf(),
            spec_pops_input(old(self), final(self)),
    {
        let base = self.objects.base;
        let bhead = crate::base::get(&self.objects, base, crate::base::BUFFER);
        let brest = self.objects.rest(bhead);
        crate::base::set(&mut self.objects, base, crate::base::BUFFER, brest);
        let fhead = crate::base::get(&self.objects, base, crate::base::FILEIN);
        let frest = self.objects.rest(fhead);
        crate::base::set(&mut self.objects, base, crate::base::FILEIN, frest);
        match self.line_stack.pop() {
            Some(line) => {
                crate::base::set(&mut self.objects, base, crate::base::LINE, line);
            },
            None => {},
        }
    }

    /// The next form of the current input; None at its end or on a raise.
    pub fn next_form(&mut self) -> (r: Option<Obj>)
        requires
            old(self).wf(),
        ensures
            final(self).wf(),
            crate::base::spec_route(old(self).objects.mem(), old(self).objects.base, crate::base::BUFFER as nat).0 == 0
                ==> r is None && *final(self) == *old(self),
            crate::form::plain_reading(old(self), crate::form::engine_buffer(old(self))) ==> crate::form::next_read(
                old(self),
                final(self),
                crate::form::engine_buffer(old(self)),
                r,
            ),
    {
        let res = self.read_form(crate::eval::DEPTH);
        proof {
            if crate::form::plain_reading(old(self), crate::form::engine_buffer(old(self))) {
                assert(crate::form::read_result(old(self), self, crate::form::engine_buffer(old(self)), crate::eval::DEPTH, res));
            }
        }
        match res {
            Ok(f) => f,
            Err(_) => None,
        }
    }

    /// Bind `args` in the engine's root frame to the arguments, as a list of
    /// strings.
    pub fn bind_args(&mut self, argv: &[&str])
        requires
            old(self).wf(),
        ensures
            final(self).wf(),
    {
        let mut list = nil();
        let mut k: usize = argv.len();
        while k > 0
            invariant
                self.wf(),
                k <= argv@.len(),
            decreases k,
        {
            k = k - 1;
            let s = self.objects.str_new(argv[k]);
            list = self.objects.pair(s, list);
        }
        let name = self.objects.sym(crate::vocabulary::ARGS);
        let env = self.root_env();
        self.envs.bind(&mut self.objects, env, name, list);
    }

    /// Evaluate a top-level form in the engine's own base.
    pub fn eval_top(&mut self, form: Obj) -> (r: EvalResult)
        requires
            old(self).wf(),
        ensures
            final(self).wf(),
            crate::eval::plain_form(old(self).objects.mem(), form) && old(self).alloc_limit is None ==> r == Ok::<
                Obj,
                Cond,
            >(form),
            crate::eval::evaluates_by_lookup(old(self), form) ==> r == crate::prims::apply::spec_sym_answer(
                old(self).objects.mem(),
                crate::base::spec_env_of(old(self).objects.mem(), old(self).base),
                form,
            ),
            crate::eval::evaluates_as_data(
                old(self),
                crate::base::spec_env_of(old(self).objects.mem(), old(self).base),
                form,
            ) ==> r == Ok::<Obj, Cond>(form),
    {
        let env = self.root_env();
        let out = self.eval(form, env);
        match out {
            Ok(v) => {
                self.held = v;
                self.collect_if_requested(v);
            },
            Err(_) => {},
        }
        out
    }

    /// Evaluate every form of a source in the root environment, answering the
    /// last value.
    pub fn eval_str(&mut self, src: &str) -> (r: EvalResult)
        requires
            old(self).wf(),
        ensures
            final(self).wf(),
    {
        let env = self.root_env();
        self.eval_source(src, env)
    }

    pub fn eval_source(&mut self, src: &str, env: EnvId) -> (r: EvalResult)
        requires
            old(self).wf(),
        ensures
            final(self).wf(),
    {
        self.eval_source_fd(src, env, 0)
    }

    pub fn eval_source_fd(&mut self, src: &str, env: EnvId, fd: i64) -> (r: EvalResult)
        requires
            old(self).wf(),
        ensures
            final(self).wf(),
    {
        self.eval_source_file(src, env, fd, 0)
    }

    pub fn eval_source_file(&mut self, src: &str, env: EnvId, fd: i64, file_id: i64) -> (r: EvalResult)
        requires
            old(self).wf(),
        ensures
            final(self).wf(),
    {
        self.input_push_file(src.as_bytes(), fd);
        let mut last = nil();
        let mut budget: u64 = u64::MAX;
        let mut out: EvalResult = Ok(nil());
        while budget > 0
            invariant
                self.wf(),
            decreases budget,
        {
            budget = budget - 1;
            match self.read_form(DEPTH) {
                Ok(Some(form)) => match self.ev(form, env, DEPTH) {
                    Ok(v) => {
                        last = v;
                        self.collect_if_requested(v);
                    },
                    Err(c) => {
                        // an escape that reached the top level re-enters its
                        // capture; below the top a live capture may still
                        // stop it
                        let resumed = if self.active_evals == 0 {
                            self.resume_escape(DEPTH)
                        } else {
                            None
                        };
                        match resumed {
                            Some(Ok(v)) => {
                                last = v;
                                self.collect_if_requested(v);
                            },
                            Some(Err(c2)) => {
                                out = Err(c2);
                                break;
                            },
                            None => {
                                out = Err(c);
                                break;
                            },
                        }
                    },
                },
                Ok(None) => {
                    out = Ok(last);
                    break;
                },
                Err(c) => {
                    out = Err(c);
                    break;
                },
            }
        }
        self.input_pop();
        out
    }

    /// Read and evaluate a source's forms in order, stopping at the first
    /// raise; the last value, nil for none.
    pub fn eval_source_bytes(&mut self, src: &[u8], env: EnvId, fd: i64, file_id: i64, fuel: u64) -> (r: EvalResult)
        requires
            old(self).wf(),
        ensures
            final(self).wf(),
        decreases fuel, 12u64,
    {
        self.input_push_file(src, fd);
        let mut last = nil();
        let mut budget: u64 = u64::MAX;
        let mut out: EvalResult = Ok(nil());
        while budget > 0
            invariant
                self.wf(),
            decreases budget,
        {
            budget = budget - 1;
            match self.read_form(fuel) {
                Ok(Some(form)) => match self.ev(form, env, fuel) {
                    Ok(v) => {
                        last = v;
                    },
                    Err(c) => {
                        // an escape that reached the top level re-enters its
                        // capture; below the top a live capture may still
                        // stop it
                        let resumed = if self.active_evals == 0 {
                            self.resume_escape(fuel)
                        } else {
                            None
                        };
                        match resumed {
                            Some(Ok(v)) => {
                                last = v;
                            },
                            Some(Err(c2)) => {
                                out = Err(c2);
                                break;
                            },
                            None => {
                                out = Err(c);
                                break;
                            },
                        }
                    },
                },
                Ok(None) => {
                    out = Ok(last);
                    break;
                },
                Err(c) => {
                    out = Err(c);
                    break;
                },
            }
        }
        self.input_pop();
        out
    }

    /// Register a source `include` can find under `path`.
    pub fn add_source(&mut self, path: &str, text: &str)
        ensures
            final(self).sources@.len() == old(self).sources@.len() + 1,
            forall|j: int| 0 <= j < old(self).sources@.len() ==> final(self).sources@[j] == old(self).sources@[j],
            final(self).sources@.last().0@ == path.spec_bytes(),
            final(self).sources@.last().1@ == text.spec_bytes(),
            final(self).objects == old(self).objects,
    {
        let mut p: Vec<u8> = Vec::new();
        p.extend_from_slice(path.as_bytes());
        let mut t: Vec<u8> = Vec::new();
        t.extend_from_slice(text.as_bytes());
        self.sources.push((p, t));
    }

    /// The registered source for a path, if any.
    fn find_source(&self, path: &[u8]) -> (r: Option<usize>)
        ensures
            r matches Some(i) ==> i < self.sources@.len() && self.sources@[i as int].0@ == path@ && forall|j: int|
                0 <= j < i ==> (#[trigger] self.sources@[j]).0@ != path@,
            r is None ==> forall|j: int| 0 <= j < self.sources@.len() ==> (#[trigger] self.sources@[j]).0@ != path@,
    {
        let mut i: usize = 0;
        while i < self.sources.len()
            invariant
                i <= self.sources@.len(),
                forall|j: int| 0 <= j < i ==> (#[trigger] self.sources@[j]).0@ != path@,
            decreases self.sources@.len() - i,
        {
            if crate::symbols::bytes_eq(self.sources[i].0.as_slice(), path) {
                return Some(i);
            }
            i = i + 1;
        }
        None
    }

    /// `(include path)`: evaluate the source registered under the path's
    /// value in the root environment, with no applicative pending; a path
    /// with no source raises.
    pub fn include_file(&mut self, args: Obj, env: EnvId, fuel: u64) -> (r: EvalResult)
        requires
            old(self).wf(),
        ensures
            final(self).wf(),
            ({
                let s = old(self).objects.mem();
                let form = old(self).spec_nth(args, 0);
                let path = crate::value::text::spec_text(s, form);
                crate::eval::plain_form(s, form) && fuel > 0 && old(self).alloc_limit is None && (forall|j: int|
                    0 <= j < old(self).sources@.len() ==> (#[trigger] old(self).sources@[j]).0@ != path) ==> (r
                    matches Err(Cond::CannotInclude(p)) && p@ == path && *final(self) == *old(self))
            }),
        decreases fuel, 13u64,
    {
        let form = self.nth(args, 0);
        let p = match self.ev(form, env, fuel) {
            Ok(v) => v,
            Err(c) => {
                return Err(c);
            },
        };
        let path = self.objects.bytes_of(p);
        let idx = match self.find_source(path.as_slice()) {
            Some(i) => i,
            None => {
                return Err(Cond::CannotInclude(path));
            },
        };
        let mut src: Vec<u8> = Vec::new();
        src.extend_from_slice(self.sources[idx].1.as_slice());
        let base = self.objects.base;
        let alist = crate::base::get(&self.objects, base, crate::base::FILE_REGISTRY);
        let id: i64 = if alist.0 == 0 {
            1
        } else {
            let head = self.objects.first(alist);
            let prev = self.objects.data(self.objects.first(head), 0).0;
            if prev < 0x7fff_ffff_ffff_0000 {
                prev as i64 + 1
            } else {
                1
            }
        };
        let idc = self.objects.spair(nil(), nil());
        self.objects.set_data(idc, 0, Word(id as u64));
        let entry = self.objects.spair(idc, p);
        let cell = self.objects.spair(entry, alist);
        crate::base::set(&mut self.objects, base, crate::base::FILE_REGISTRY, cell);
        let top = self.root_env();
        let outer = self.hide_pending();
        let r = self.eval_source_bytes(src.as_slice(), top, -1, id, fuel);
        self.restore_pending(outer);
        r
    }
}

/// Does `pat` occur in `text` at `at`?
fn occurs_at(text: &[u8], at: usize, pat: &[u8]) -> (r: bool)
    ensures
        r == (at + pat@.len() <= text@.len() && text@.subrange(at as int, at + pat@.len()) == pat@),
{
    if at > text.len() || pat.len() > text.len() - at {
        return false;
    }
    let n: usize = text.len();
    let mut i: usize = 0;
    while i < pat.len()
        invariant
            i <= pat@.len(),
            n == text@.len(),
            at + pat@.len() <= text@.len(),
            forall|k: int| 0 <= k < i ==> text@[at + k] == pat@[k],
        decreases pat@.len() - i,
    {
        if text[at + i] != pat[i] {
            proof {
                assert(text@.subrange(at as int, at + pat@.len())[i as int] != pat@[i as int]);
            }
            return false;
        }
        i = i + 1;
    }
    proof {
        assert(text@.subrange(at as int, at + pat@.len()) =~= pat@);
    }
    true
}

/// How many blanks run from `k`.
pub open spec fn spec_blank_run(t: Seq<u8>, k: nat) -> nat
    decreases t.len() - k,
{
    if k < t.len() && crate::read::spec_blank(t[k as int]) {
        1 + spec_blank_run(t, k + 1)
    } else {
        0
    }
}

/// Where the first quote at or past `j` lies; the end where there is none.
pub open spec fn spec_quote_from(t: Seq<u8>, j: nat) -> nat
    decreases t.len() - j,
{
    if j >= t.len() {
        t.len()
    } else if t[j as int] == 34 {
        j
    } else {
        spec_quote_from(t, j + 1)
    }
}

/// The path an `(include "path")` form starting at `at` names, if one does:
/// the pattern, blanks, and a string literal closed before the end.
pub open spec fn spec_path_at(t: Seq<u8>, at: nat) -> Option<Seq<u8>> {
    let n = "(include".spec_bytes().len();
    if at + n <= t.len() && t.subrange(at as int, (at + n) as int) == "(include".spec_bytes() {
        let k = at + n + spec_blank_run(t, at + n);
        if k < t.len() && t[k as int] == 34 {
            let j = spec_quote_from(t, k + 1);
            if j < t.len() {
                Some(t.subrange((k + 1) as int, j as int))
            } else {
                None
            }
        } else {
            None
        }
    } else {
        None
    }
}

/// The paths named from `at` on, in order.
pub open spec fn spec_include_paths(t: Seq<u8>, at: nat) -> Seq<Seq<u8>>
    decreases t.len() - at,
{
    if at >= t.len() {
        Seq::empty()
    } else {
        (match spec_path_at(t, at) {
            Some(p) => seq![p],
            None => Seq::empty(),
        }) + spec_include_paths(t, at + 1)
    }
}

/// The paths a source names in `(include "path")` forms, in order: each
/// open paren followed by `include`, blanks, and a string literal without
/// escapes.
pub fn include_paths(text: &[u8]) -> (r: Vec<Vec<u8>>)
    ensures
        r@.map_values(|v: Vec<u8>| v@) == spec_include_paths(text@, 0),
{
    let pat = "(include".as_bytes();
    let mut out: Vec<Vec<u8>> = Vec::new();
    let mut at: usize = 0;
    proof {
        assert(out@.map_values(|v: Vec<u8>| v@) + spec_include_paths(text@, 0) =~= spec_include_paths(text@, 0));
    }
    while at < text.len()
        invariant
            at <= text@.len(),
            pat@ == "(include".spec_bytes(),
            out@.map_values(|v: Vec<u8>| v@) + spec_include_paths(text@, at as nat) == spec_include_paths(text@, 0),
        decreases text@.len() - at,
    {
        let ghost before = out@.map_values(|v: Vec<u8>| v@);
        if occurs_at(text, at, pat) {
            let mut k: usize = at + pat.len();
            while k < text.len() && crate::read::is_blank(text[k])
                invariant
                    at + pat@.len() <= k <= text@.len(),
                    pat@ == "(include".spec_bytes(),
                    spec_blank_run(text@, (at + pat@.len()) as nat) == (k - (at + pat@.len())) + spec_blank_run(
                        text@,
                        k as nat,
                    ),
                decreases text@.len() - k,
            {
                k = k + 1;
            }
            if k < text.len() && text[k] == 34 {
                let mut path: Vec<u8> = Vec::new();
                let mut j: usize = k + 1;
                while j < text.len() && text[j] != 34
                    invariant
                        k + 1 <= j <= text@.len(),
                        path@ == text@.subrange(k + 1, j as int),
                        spec_quote_from(text@, (k + 1) as nat) == spec_quote_from(text@, j as nat),
                    decreases text@.len() - j,
                {
                    path.push(text[j]);
                    j = j + 1;
                    proof {
                        assert(path@ =~= text@.subrange(k + 1, j as int));
                    }
                }
                if j < text.len() {
                    out.push(path);
                }
            }
        }
        proof {
            assert(out@.map_values(|v: Vec<u8>| v@) =~= before + match spec_path_at(text@, at as nat) {
                Some(p) => seq![p],
                None => Seq::empty(),
            });
            assert(out@.map_values(|v: Vec<u8>| v@) + spec_include_paths(text@, (at + 1) as nat) =~= before
                + spec_include_paths(text@, at as nat));
        }
        at = at + 1;
    }
    proof {
        assert(out@.map_values(|v: Vec<u8>| v@) + spec_include_paths(text@, at as nat) =~= out@.map_values(
            |v: Vec<u8>| v@,
        ));
    }
    out
}

} // verus!
