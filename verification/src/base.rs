//! The base: the execution context, as a spine of pairs x-lang can walk.
//!
//! A base is a spine of cells, one per ROUTE, in the order the routes are
//! declared: the cell for route `n` is `n` rests from the head, and the route's
//! value is that cell's first. Interpreter state lives here, reached by route.

use crate::heap::{spec_set_word, MAX_WORDS};
use crate::obj::{nil, EnvId, Flags, Obj, Word};
use crate::objects::{
    grew, lemma_grew_refl, lemma_grew_trans, made, spec_data, spec_is, Objects, BUFMARKS_BITS,
    SPAIR_BITS,
    spec_slot,
};
use vstd::prelude::*;

verus! {

/// How many routes a base carries.
pub const N_ROUTES: usize = 26;

pub const PRIMS: usize = 0;
pub const TYPE_ALIST: usize = 1;
pub const ERROR_STR: usize = 2;
pub const ERR_LINE: usize = 3;
pub const ERR_FILE: usize = 4;
pub const FILE_REGISTRY: usize = 5;
pub const OBJ_META_EXTRA: usize = 6;
pub const ENV: usize = 7;
pub const MARK_HOOKS: usize = 8;
pub const FREE_HOOKS: usize = 9;
pub const MARK_ROOTS: usize = 10;
pub const ALLOC_LIMIT: usize = 11;
pub const ALLOC_COUNT: usize = 12;
pub const LINE: usize = 13;
pub const FILES: usize = 14;
pub const PROFILE: usize = 15;
pub const FALSE: usize = 16;
pub const FILEIN: usize = 17;
pub const BUFFER: usize = 18;
pub const SAVE_STACK: usize = 19;
pub const TCO_EXPR: usize = 20;
pub const TCO_ENV: usize = 21;
pub const SIGINT: usize = 22;
pub const ERROR_HANDLER: usize = 23;
pub const TRUE: usize = 24;
pub const ENV_GLOBAL_TREE: usize = 25;

/// The name of each route, in declared order.
pub open spec fn spec_route_name(i: usize) -> &'static str {
    match i {
        0 => "prims",
        1 => "type-alist",
        2 => "error-str",
        3 => "err-line",
        4 => "err-file",
        5 => "file-registry",
        6 => "obj-meta-extra",
        7 => "env",
        8 => "heap-mark-hooks",
        9 => "heap-free-hooks",
        10 => "heap-mark-roots",
        11 => "alloc-limit",
        12 => "alloc-count",
        13 => "line",
        14 => "files",
        15 => "profile",
        16 => "false",
        17 => "filein",
        18 => "buffer",
        19 => "save-stack",
        20 => "tco-expr",
        21 => "tco-env",
        22 => "sigint",
        23 => "error-handler",
        24 => "true",
        _ => "env-global-tree",
    }
}

/// The name of route `i`, in declared order.
pub fn route_name(i: usize) -> (r: &'static str)
    requires
        i < N_ROUTES,
    ensures
        r == spec_route_name(i),
{
    match i {
        0 => "prims",
        1 => "type-alist",
        2 => "error-str",
        3 => "err-line",
        4 => "err-file",
        5 => "file-registry",
        6 => "obj-meta-extra",
        7 => "env",
        8 => "heap-mark-hooks",
        9 => "heap-free-hooks",
        10 => "heap-mark-roots",
        11 => "alloc-limit",
        12 => "alloc-count",
        13 => "line",
        14 => "files",
        15 => "profile",
        16 => "false",
        17 => "filein",
        18 => "buffer",
        19 => "save-stack",
        20 => "tco-expr",
        21 => "tco-env",
        22 => "sigint",
        23 => "error-handler",
        24 => "true",
        _ => "env-global-tree",
    }
}

/// The cell `n` rests from `at`.
pub open spec fn spec_cell(s: Seq<u64>, at: Obj, n: nat) -> Obj
    decreases n,
{
    if n == 0 {
        at
    } else {
        spec_cell(s, Obj(spec_data(s, at, 1)), (n - 1) as nat)
    }
}

/// The value of route `n` of a base.
pub open spec fn spec_route(s: Seq<u64>, base: Obj, n: nat) -> Obj {
    Obj(spec_data(s, spec_cell(s, base, n), 0))
}

/// `at` heads a chain of spine cells, inside the heap, whose firsts are
/// `items` and whose last rest is nil; each cell lies wholly below the one
/// that rests to it.
pub open spec fn spec_chain(s: Seq<u64>, at: Obj, items: Seq<u64>) -> bool
    decreases items.len(),
{
    if items.len() == 0 {
        at.0 == 0
    } else {
        &&& spec_is(s, at, SPAIR_BITS)
        &&& at.0 % 8 == 0
        &&& at.0 / 8 + 6 <= s.len()
        &&& spec_data(s, at, 0) == items[0]
        &&& (spec_data(s, at, 1) == 0 || spec_data(s, at, 1) / 8 + 6 <= at.0 / 8)
        &&& spec_chain(s, Obj(spec_data(s, at, 1)), items.drop_first())
    }
}

/// A chain whose cells all lie below word `lim` reads the same in any heap
/// that agrees with its own below `lim`.
pub proof fn lemma_chain_frame(s: Seq<u64>, s2: Seq<u64>, at: Obj, items: Seq<u64>, lim: int)
    requires
        spec_chain(s, at, items),
        s.len() <= MAX_WORDS,
        at.0 == 0 || at.0 / 8 + 6 <= lim,
        lim <= s.len(),
        s2.len() == s.len(),
        forall|k: int| 0 <= k < lim ==> s2[k] == s[k],
    ensures
        spec_chain(s2, at, items),
        forall|n: nat| n < items.len() ==> #[trigger] spec_cell(s2, at, n) == spec_cell(s, at, n),
        forall|n: nat| n < items.len() ==> #[trigger] spec_route(s2, at, n) == spec_route(s, at, n),
    decreases items.len(),
{
    if items.len() > 0 {
        let w = (at.0 / 8) as int;
        crate::objects::lemma_header_index(at, 2);
        crate::objects::lemma_slot_index(at, 0);
        crate::objects::lemma_slot_index(at, 1);
        assert(s2[w + 2] == s[w + 2]);
        assert(s2[w + 4] == s[w + 4]);
        assert(s2[w + 5] == s[w + 5]);
        let next = Obj(spec_data(s, at, 1));
        lemma_chain_frame(s, s2, next, items.drop_first(), lim);
        assert forall|n: nat| n < items.len() implies #[trigger] spec_cell(s2, at, n) == spec_cell(s, at, n) by {
            if n > 0 {
                assert(spec_cell(s2, at, n) == spec_cell(s2, next, (n - 1) as nat));
                assert(spec_cell(s, at, n) == spec_cell(s, next, (n - 1) as nat));
            }
        }
        assert forall|n: nat| n < items.len() implies #[trigger] spec_route(s2, at, n) == spec_route(s, at, n) by {
            if n > 0 {
                assert(spec_cell(s2, at, n) == spec_cell(s2, next, (n - 1) as nat));
                assert(spec_cell(s, at, n) == spec_cell(s, next, (n - 1) as nat));
                assert(spec_route(s2, next, (n - 1) as nat) == spec_route(s, next, (n - 1) as nat));
            }
        }
    }
}

/// The route law of writes: setting route `n` of a base makes route `n`
/// read what was written and leaves every other route, and the spine
/// itself, as they were.
pub proof fn law_a_route_reads_what_was_written(s: Seq<u64>, base: Obj, items: Seq<u64>, n: nat, v: u64)
    requires
        spec_chain(s, base, items),
        s.len() <= MAX_WORDS,
        n < items.len(),
    ensures
        ({
            let s2 = spec_set_word(s, spec_slot(spec_cell(s, base, n), 0), v);
            &&& spec_chain(s2, base, items.update(n as int, v))
            &&& spec_route(s2, base, n) == Obj(v)
            &&& forall|m: nat| m < items.len() && m != n ==> #[trigger] spec_route(s2, base, m) == spec_route(s, base, m)
        }),
    decreases n,
{
    let s2 = spec_set_word(s, spec_slot(spec_cell(s, base, n), 0), v);
    let w = (base.0 / 8) as int;
    let next = Obj(spec_data(s, base, 1));
    crate::objects::lemma_header_index(base, 2);
    crate::objects::lemma_slot_index(base, 0);
    crate::objects::lemma_slot_index(base, 1);
    if n == 0 {
        assert(s2 == s.update(w + 4, v));
        assert(s2[w + 2] == s[w + 2]);
        assert(s2[w + 5] == s[w + 5]);
        assert(s2[w + 4] == v);
        lemma_chain_frame(s, s2, next, items.drop_first(), w);
        assert(items.update(0, v).drop_first() =~= items.drop_first());
        assert forall|m: nat| m < items.len() && m != n implies #[trigger] spec_route(s2, base, m) == spec_route(s, base, m) by {
            assert(spec_data(s2, base, 1) == spec_data(s, base, 1));
            assert(spec_cell(s2, base, m) == spec_cell(s2, next, (m - 1) as nat));
            assert(spec_cell(s, base, m) == spec_cell(s, next, (m - 1) as nat));
            assert(spec_route(s2, next, (m - 1) as nat) == spec_route(s, next, (m - 1) as nat));
        }
    } else {
        assert(spec_cell(s, base, n) == spec_cell(s, next, (n - 1) as nat));
        law_a_route_reads_what_was_written(s, next, items.drop_first(), (n - 1) as nat, v);
        lemma_chain_reads(s, next, items.drop_first(), (n - 1) as nat);
        let c = spec_cell(s, next, (n - 1) as nat);
        lemma_cell_below(s, next, items.drop_first(), (n - 1) as nat);
        crate::objects::lemma_slot_index(c, 0);
        assert(s2 == s.update((c.0 / 8) as int + 4, v));
        assert((c.0 / 8) as int + 4 < w);
        assert(s2[w + 2] == s[w + 2]);
        assert(s2[w + 4] == s[w + 4]);
        assert(s2[w + 5] == s[w + 5]);
        assert(items.update(n as int, v).drop_first() =~= items.drop_first().update(n - 1, v));
        assert(spec_cell(s2, base, n) == spec_cell(s2, next, (n - 1) as nat));
        assert forall|m: nat| m < items.len() && m != n implies #[trigger] spec_route(s2, base, m) == spec_route(s, base, m) by {
            assert(spec_data(s2, base, 1) == spec_data(s, base, 1));
            if m > 0 {
                assert(spec_cell(s2, base, m) == spec_cell(s2, next, (m - 1) as nat));
                assert(spec_cell(s, base, m) == spec_cell(s, next, (m - 1) as nat));
                assert(spec_route(s2, next, (m - 1) as nat) == spec_route(s, next, (m - 1) as nat));
            }
        }
    }
}

/// Every cell of a chain lies wholly below its head's word bound.
proof fn lemma_cell_below(s: Seq<u64>, at: Obj, items: Seq<u64>, n: nat)
    requires
        spec_chain(s, at, items),
        n < items.len(),
    ensures
        spec_cell(s, at, n).0 % 8 == 0,
        spec_cell(s, at, n).0 / 8 + 6 <= at.0 / 8 + 6,
        spec_cell(s, at, n).0 / 8 + 6 <= s.len(),
    decreases n,
{
    if n > 0 {
        let next = Obj(spec_data(s, at, 1));
        lemma_cell_below(s, next, items.drop_first(), (n - 1) as nat);
        assert(spec_cell(s, at, n) == spec_cell(s, next, (n - 1) as nat));
    }
}

/// A chain stays a chain as the heap grows.
pub proof fn lemma_chain_grew(s1: Seq<u64>, s2: Seq<u64>, at: Obj, items: Seq<u64>)
    requires
        grew(s1, s2),
        spec_chain(s1, at, items),
    ensures
        spec_chain(s2, at, items),
    decreases items.len(),
{
    if items.len() > 0 {
        crate::objects::lemma_header_index(at, 2);
        crate::objects::lemma_slot_index(at, 0);
        crate::objects::lemma_slot_index(at, 1);
        let w = (at.0 / 8) as int;
        assert(s2[w + 2] == s1[w + 2]);
        assert(s2[w + 4] == s1[w + 4]);
        assert(s2[w + 5] == s1[w + 5]);
        lemma_chain_grew(s1, s2, Obj(spec_data(s1, at, 1)), items.drop_first());
    }
}

/// In a chain, the cell `n` rests in is a cell, and its first is item `n`.
pub proof fn lemma_chain_reads(s: Seq<u64>, at: Obj, items: Seq<u64>, n: nat)
    requires
        spec_chain(s, at, items),
        n < items.len(),
    ensures
        spec_cell(s, at, n).0 != 0,
        spec_data(s, spec_cell(s, at, n), 0) == items[n as int],
        n + 1 == items.len() ==> spec_data(s, spec_cell(s, at, n), 1) == 0,
    decreases n,
{
    reveal_with_fuel(spec_chain, 2);
    if n > 0 {
        lemma_chain_reads(s, Obj(spec_data(s, at, 1)), items.drop_first(), (n - 1) as nat);
    } else if items.len() == 1 {
        assert(items.drop_first().len() == 0);
        assert(spec_chain(s, Obj(spec_data(s, at, 1)), items.drop_first()));
    }
}

/// The cell `n` rests from `base`.
pub fn cell(o: &Objects, base: Obj, n: usize) -> (r: Obj)
    ensures
        r == spec_cell(o.mem(), base, n as nat),
{
    let mut at = base;
    let mut i: usize = 0;
    while i < n
        invariant
            i <= n,
            spec_cell(o.mem(), base, n as nat) == spec_cell(o.mem(), at, (n - i) as nat),
        decreases n - i,
    {
        at = o.rest(at);
        i = i + 1;
    }
    at
}

/// Heap `s` with route `n` of `base` set to `v`; unchanged where the route
/// has no cell.
pub open spec fn spec_set_route(s: Seq<u64>, base: Obj, n: nat, v: u64) -> Seq<u64> {
    if spec_cell(s, base, n).0 == 0 {
        s
    } else {
        spec_set_word(s, spec_slot(spec_cell(s, base, n), 0), v)
    }
}

/// The value of route `n`.
pub fn get(o: &Objects, base: Obj, n: usize) -> (r: Obj)
    ensures
        r == spec_route(o.mem(), base, n as nat),
{
    let c = cell(o, base, n);
    o.first(c)
}

/// Set the value of route `n`.
pub fn set(o: &mut Objects, base: Obj, n: usize, v: Obj)
    requires
        old(o).wf(),
    ensures
        final(o).wf(),
        final(o).same_rest(old(o)),
        final(o).mem().len() == old(o).mem().len(),
        final(o).mem() == if spec_cell(old(o).mem(), base, n as nat).0 == 0 {
            old(o).mem()
        } else {
            spec_set_word(old(o).mem(), spec_slot(spec_cell(old(o).mem(), base, n as nat), 0), v.0)
        },
{
    let c = cell(o, base, n);
    o.set_data(c, 0, v.word());
}

/// Push `v` onto the list held by route `n`, answering the new head cell.
pub fn push(o: &mut Objects, base: Obj, n: usize, v: Obj) -> (r: Obj)
    requires
        old(o).wf(),
    ensures
        final(o).wf(),
        final(o).same_rest(old(o)),
        final(o).mem().len() >= old(o).mem().len(),
        exists|mid: Seq<u64>|
            {
                &&& grew(old(o).mem(), mid)
                &&& (r.0 != 0 ==> crate::objects::made(
                    old(o).mem(),
                    mid,
                    r,
                    crate::objects::PAIR_BITS,
                    0,
                    seq![v.0, spec_route(old(o).mem(), base, n as nat).0],
                ))
                &&& (r.0 == 0 ==> mid == old(o).mem())
                &&& final(o).mem() == if spec_cell(mid, base, n as nat).0 == 0 {
                    mid
                } else {
                    spec_set_word(mid, spec_slot(spec_cell(mid, base, n as nat), 0), r.0)
                }
            },
{
    let head = get(o, base, n);
    let c = o.pair(v, head);
    let ghost mid = o.mem();
    set(o, base, n, c);
    proof {
        assert(grew(old(o).mem(), mid));
    }
    c
}

/// A raw-word cell: a marks pair whose slots the tracer never follows.
fn raw_cell(o: &mut Objects, v: u64) -> (r: Obj)
    requires
        old(o).wf(),
    ensures
        final(o).built(*old(o), r, BUFMARKS_BITS, 0, seq![v, 0u64]),
{
    o.alloc_init(Flags(BUFMARKS_BITS), nil(), &[v, 0])
}

/// A fresh line cell reading `n`.
pub fn fresh_line_cell(o: &mut Objects, n: i64) -> (r: Obj)
    requires
        old(o).wf(),
    ensures
        final(o).built(*old(o), r, BUFMARKS_BITS, 0, seq![crate::obj::signed_word(n), 0u64]),
{
    raw_cell(o, crate::obj::i64_to_word(n))
}

/// The raw integer in route `n`'s cell; zero when the route holds none.
pub fn cell_int(o: &Objects, base: Obj, n: usize) -> (r: i64)
    ensures
        spec_route(o.mem(), base, n as nat).0 == 0 ==> r == 0,
        spec_route(o.mem(), base, n as nat).0 != 0 ==> r == crate::obj::word_signed(
            spec_data(o.mem(), spec_route(o.mem(), base, n as nat), 0),
        ),
{
    let c = get(o, base, n);
    if c.0 == 0 {
        return 0;
    }
    crate::obj::word_to_i64(o.data(c, 0).0)
}

/// Write the raw integer in route `n`'s cell; nothing when it holds none.
pub fn set_cell_int(o: &mut Objects, base: Obj, n: usize, v: i64)
    requires
        old(o).wf(),
    ensures
        final(o).wf(),
        final(o).same_rest(old(o)),
        final(o).mem().len() == old(o).mem().len(),
        final(o).mem() == crate::value::tok::with_data(
            old(o).mem(),
            spec_route(old(o).mem(), base, n as nat),
            0,
            crate::obj::signed_word(v),
        ),
{
    let c = get(o, base, n);
    if c.0 == 0 {
        return;
    }
    o.set_data(c, 0, Word(crate::obj::i64_to_word(v)));
}

/// The files spine: one object cell per standard descriptor, each holding
/// the descriptor's number.
fn files_spine(o: &mut Objects) -> (r: Obj)
    requires
        old(o).wf(),
    ensures
        final(o).only_grew(*old(o)),
{
    let mut spine = nil();
    let mut fd: i64 = 3;
    proof {
        lemma_grew_refl(o.mem());
    }
    while fd > 0
        invariant
            fd >= 0,
            o.only_grew(*old(o)),
        decreases fd,
    {
        fd = fd - 1;
        let ghost s0 = o.mem();
        let v = o.int_new(fd);
        let ghost s1 = o.mem();
        let c = o.spair(v, nil());
        let ghost s2 = o.mem();
        spine = o.spair(c, spine);
        proof {
            lemma_grew_trans(old(o).mem(), s0, s1);
            lemma_grew_trans(old(o).mem(), s1, s2);
            lemma_grew_trans(old(o).mem(), s2, o.mem());
        }
    }
    spine
}

/// A spine of `k` raw cells reading zero.
fn raw_cell_spine(o: &mut Objects, k: usize) -> (r: Obj)
    requires
        old(o).wf(),
    ensures
        final(o).only_grew(*old(o)),
{
    let mut spine = nil();
    let mut i: usize = 0;
    proof {
        lemma_grew_refl(o.mem());
    }
    while i < k
        invariant
            i <= k,
            o.only_grew(*old(o)),
        decreases k - i,
    {
        let ghost s0 = o.mem();
        let c = raw_cell(o, 0);
        let ghost s1 = o.mem();
        spine = o.spair(c, spine);
        proof {
            lemma_grew_trans(old(o).mem(), s0, s1);
            lemma_grew_trans(old(o).mem(), s1, o.mem());
        }
        i = i + 1;
    }
    spine
}

/// Build a base: its routes filled, its catalog `catalog`, its environment
/// `env`. Answers nil when the heap has no room for it.
#[verifier::rlimit(40)]
pub fn build(o: &mut Objects, catalog: Obj, env: EnvId) -> (r: Obj)
    requires
        old(o).wf(),
    ensures
        final(o).only_grew(*old(o)),
        r.0 != 0 ==> exists|items: Seq<u64>| {
            &&& #[trigger] spec_chain(final(o).mem(), r, items)
            &&& items.len() == N_ROUTES
            &&& items[PRIMS as int] == catalog.0
            &&& items[ENV as int] != 0
            &&& spec_data(final(o).mem(), Obj(items[ENV as int]), 0) == env.0.0
            &&& items[LINE as int] != 0 ==> spec_data(final(o).mem(), Obj(items[LINE as int]), 0) == 1
        },
{
    let ghost s0 = o.mem();
    let env_obj = o.env_obj(env);
    let ghost s1 = o.mem();
    if env_obj.0 == 0 {
        return nil();
    }
    let scratch = o.str_new("");
    let ghost s2 = o.mem();
    let line = raw_cell(o, 1);
    let ghost s3 = o.mem();
    let mc = raw_cell(o, 0);
    let ghost s4 = o.mem();
    let el = raw_cell(o, 0);
    let ghost s5 = o.mem();
    let ef = raw_cell(o, 0);
    let ghost s6 = o.mem();
    let files = files_spine(o);
    let ghost s7 = o.mem();
    let profile = raw_cell_spine(o, 9);
    let ghost s8 = o.mem();
    let f = o.false_obj;
    let fh = o.spair(f, nil());
    let ghost s9 = o.mem();
    let t = o.true_obj;
    let th = o.spair(t, nil());
    let ghost s10 = o.mem();
    let fdc = raw_cell(o, 0);
    let ghost s11 = o.mem();
    let mut slots: Vec<u64> = Vec::new();
    let mut i: usize = 0;
    while i < N_ROUTES
        invariant
            i <= N_ROUTES,
            slots@.len() == i,
        decreases N_ROUTES - i,
    {
        slots.push(0);
        i = i + 1;
    }
    slots.set(PRIMS, catalog.0);
    slots.set(ERROR_STR, scratch.0);
    slots.set(ENV, env_obj.0);
    slots.set(LINE, line.0);
    slots.set(OBJ_META_EXTRA, mc.0);
    slots.set(ERR_LINE, el.0);
    slots.set(ERR_FILE, ef.0);
    slots.set(FILES, files.0);
    slots.set(PROFILE, profile.0);
    slots.set(FALSE, fh.0);
    slots.set(TRUE, th.0);
    slots.set(FILEIN, fdc.0);
    let r = chain_of(o, slots.as_slice());
    proof {
        lemma_grew_trans(s1, s2, s3);
        lemma_grew_trans(s1, s3, s4);
        lemma_grew_trans(s1, s4, s5);
        lemma_grew_trans(s1, s5, s6);
        lemma_grew_trans(s1, s6, s7);
        lemma_grew_trans(s1, s7, s8);
        lemma_grew_trans(s1, s8, s9);
        lemma_grew_trans(s1, s9, s10);
        lemma_grew_trans(s1, s10, s11);
        lemma_grew_trans(s1, s11, o.mem());
        lemma_grew_trans(s0, s1, o.mem());
        crate::objects::lemma_made_grew(s0, s1, o.mem(), env_obj, crate::objects::ENV_BITS, 0, seq![env.0.0]);
        assert(line.0 != 0 ==> spec_data(o.mem(), line, 0) == 1) by {
          if line.0 != 0 {
            lemma_grew_trans(s3, s4, s5);
            lemma_grew_trans(s3, s5, s6);
            lemma_grew_trans(s3, s6, s7);
            lemma_grew_trans(s3, s7, s8);
            lemma_grew_trans(s3, s8, s9);
            lemma_grew_trans(s3, s9, s10);
            lemma_grew_trans(s3, s10, s11);
            lemma_grew_trans(s3, s11, o.mem());
            crate::objects::lemma_made_grew(s2, s3, o.mem(), line, BUFMARKS_BITS, 0, seq![1u64, 0u64]);
          }
        }
        if r.0 != 0 {
            let items = slots@;
            assert(spec_chain(o.mem(), r, items));
        }
    }
    r
}

/// A fresh chain of spine cells holding `items`, its head tagged as a base;
/// nil when the heap has no room for all of it.
fn chain_of(o: &mut Objects, items: &[u64]) -> (r: Obj)
    requires
        old(o).wf(),
        items@.len() > 0,
    ensures
        final(o).wf(),
        final(o).same_rest(old(o)),
        grew(old(o).mem(), final(o).mem()),
        r.0 != 0 ==> spec_chain(final(o).mem(), r, items@),
{
    let ghost s0 = o.mem();
    let mut spine = nil();
    let mut i: usize = items.len();
    proof {
        lemma_grew_refl(s0);
        assert(items@.subrange(items@.len() as int, items@.len() as int).len() == 0);
    }
    while i > 0
        invariant
            i <= items@.len(),
            o.wf(),
            o.same_rest(old(o)),
            grew(s0, o.mem()),
            s0 == old(o).mem(),
            spec_chain(o.mem(), spine, items@.subrange(i as int, items@.len() as int)),
        decreases i,
    {
        let ghost before = o.mem();
        let c = o.spair(Obj(items[i - 1]), spine);
        if c.0 == 0 {
            proof {
                assert(o.mem() == before);
                assert(grew(s0, o.mem()));
                assert(s0 == old(o).mem());
            }
            return nil();
        }
        proof {
            let rest = items@.subrange(i as int, items@.len() as int);
            let now = items@.subrange(i - 1, items@.len() as int);
            lemma_chain_grew(before, o.mem(), spine, rest);
            assert(now.drop_first() =~= rest);
            assert(now[0] == items@[i - 1]);
            assert(spec_data(o.mem(), c, 0) == items@[i - 1]);
            assert(spec_data(o.mem(), c, 1) == spine.0);
            assert(spine.0 == 0 || spine.0 / 8 + 6 <= c.0 / 8) by {
                if spine.0 != 0 {
                    reveal_with_fuel(spec_chain, 1);
                }
            }
            lemma_grew_trans(s0, before, o.mem());
        }
        spine = c;
        i = i - 1;
    }
    proof {
        assert(items@.subrange(0, items@.len() as int) =~= items@);
    }
    spine
}

/// The environment a base runs in, as the model reads it.
pub open spec fn spec_env_of(s: Seq<u64>, base: Obj) -> EnvId {
    EnvId(Obj(spec_data(s, spec_route(s, base, ENV as nat), 0)))
}

/// The environment a base runs in.
pub fn env_of(o: &Objects, base: Obj) -> (r: EnvId)
    ensures
        r == spec_env_of(o.mem(), base),
{
    o.env_id(get(o, base, ENV))
}

/// The instruction catalog a base files.
pub fn catalog_of(o: &Objects, base: Obj) -> (r: Obj)
    ensures
        r == spec_route(o.mem(), base, PRIMS as nat),
{
    get(o, base, PRIMS)
}

/// The evaluator-state cells of a base: save-stack, tco-expr, tco-env,
/// error-handler.
pub fn state_nodes(o: &Objects, base: Obj) -> (r: (Obj, Obj, Obj, Obj))
    ensures
        r.0 == spec_cell(o.mem(), base, SAVE_STACK as nat),
        r.1 == spec_cell(o.mem(), base, TCO_EXPR as nat),
        r.2 == spec_cell(o.mem(), base, TCO_ENV as nat),
        r.3 == spec_cell(o.mem(), base, ERROR_HANDLER as nat),
{
    (cell(o, base, SAVE_STACK), cell(o, base, TCO_EXPR), cell(o, base, TCO_ENV), cell(o, base, ERROR_HANDLER))
}

/// The line and obj-meta-extra cells of a base.
pub fn loc_nodes(o: &Objects, base: Obj) -> (r: (Obj, Obj))
    ensures
        r.0 == spec_cell(o.mem(), base, LINE as nat),
        r.1 == spec_cell(o.mem(), base, OBJ_META_EXTRA as nat),
{
    (cell(o, base, LINE), cell(o, base, OBJ_META_EXTRA))
}

/// File a binding in the base's global tree, ordered by the key's address;
/// a key already filed is left as it is.
pub fn global_tree_insert(o: &mut Objects, base: Obj, binding: Obj)
    requires
        old(o).wf(),
    ensures
        final(o).wf(),
        final(o).same_rest(old(o)),
        final(o).mem().len() >= old(o).mem().len(),
        ({
            let s = old(o).mem();
            let c = spec_cell(s, base, ENV_GLOBAL_TREE as nat);
            let t = final(o).mem();
            let n = Obj(spec_data(t, c, 0));
            c.0 != 0 && spec_data(s, c, 0) == 0 && c.0 % 8 == 0 && c.0 / 8 + 5 <= s.len() && s.len() + 2 * (
            crate::objects::META_MAX + 6) <= MAX_WORDS - crate::objects::META_MAX ==> {
                &&& spec_is(t, n, SPAIR_BITS)
                &&& spec_data(t, n, 0) == binding.0
                &&& spec_is(t, Obj(spec_data(t, n, 1)), SPAIR_BITS)
                &&& spec_data(t, Obj(spec_data(t, n, 1)), 0) == 0
                &&& spec_data(t, Obj(spec_data(t, n, 1)), 1) == 0
            }
        }),
{
    let c = cell(o, base, ENV_GLOBAL_TREE);
    let root = o.first(c);
    if root.0 == 0 {
        let ghost s0 = o.mem();
        let kids = o.spair(nil(), nil());
        let ghost s1 = o.mem();
        let n = o.spair(binding, kids);
        let ghost s2 = o.mem();
        o.set_data(c, 0, n.word());
        proof {
            if c.0 != 0 && c.0 % 8 == 0 && c.0 / 8 + 5 <= s0.len() && s0.len() + 2 * (crate::objects::META_MAX + 6)
                <= MAX_WORDS - crate::objects::META_MAX {
                crate::objects::lemma_slot_index(c, 0);
                crate::objects::lemma_slot_index(n, 0);
                crate::objects::lemma_slot_index(n, 1);
                crate::objects::lemma_slot_index(kids, 0);
                crate::objects::lemma_slot_index(kids, 1);
                crate::objects::lemma_header_index(n, crate::objects::SLOT_FLAGS);
                crate::objects::lemma_header_index(kids, crate::objects::SLOT_FLAGS);
                crate::objects::lemma_made_grew(s0, s1, s2, kids, SPAIR_BITS, o.spair_marker.0, seq![0u64, 0u64]);
                let a = spec_slot(c, 0);
                crate::heap::lemma_set_word_read(s2, a, a, n.0);
                crate::heap::lemma_set_word_read(s2, a, spec_slot(n, 0), n.0);
                crate::heap::lemma_set_word_read(s2, a, spec_slot(n, 1), n.0);
                crate::heap::lemma_set_word_read(s2, a, spec_slot(kids, 0), n.0);
                crate::heap::lemma_set_word_read(s2, a, spec_slot(kids, 1), n.0);
                crate::heap::lemma_set_word_read(s2, a, crate::objects::spec_header(n, crate::objects::SLOT_FLAGS), n.0);
                crate::heap::lemma_set_word_read(s2, a, crate::objects::spec_header(kids, crate::objects::SLOT_FLAGS), n.0);
                assert(n.0 != 0);
                assert(spec_data(s2, n, 0) == binding.0);
                assert(spec_data(o.mem(), n, 0) == binding.0);
                assert(kids.0 != 0);
                assert(spec_data(s2, n, 1) == kids.0);
                assert(spec_data(o.mem(), n, 1) == kids.0);
                assert(spec_data(s2, kids, 0) == 0);
                assert(spec_data(s2, kids, 1) == 0);
                assert(crate::objects::spec_flags(s2, kids) == SPAIR_BITS);
            }
        }
        return;
    }
    let key = o.first(binding);
    let mut at = root;
    let mut fuel: usize = o.heap.words_len();
    while fuel > 0
        invariant
            o.wf(),
            o.same_rest(old(o)),
            o.mem().len() >= old(o).mem().len(),
            spec_data(old(o).mem(), spec_cell(old(o).mem(), base, ENV_GLOBAL_TREE as nat), 0) != 0,
        decreases fuel,
    {
        let b = o.first(at);
        let k = o.first(b);
        if k.0 == key.0 {
            return;
        }
        let kids = o.rest(at);
        let left = key.0 < k.0;
        let child = if left {
            o.first(kids)
        } else {
            o.rest(kids)
        };
        if child.0 == 0 {
            let kk = o.spair(nil(), nil());
            let n = o.spair(binding, kk);
            o.set_data(kids, if left {
                0
            } else {
                1
            }, n.word());
            return;
        }
        at = child;
        fuel = fuel - 1;
    }
}

/// The route law: in a base built with one cell per declared route, every
/// route resolves to a cell, and the spine ends exactly after the last one.
pub proof fn law_every_route_resolves(s: Seq<u64>, base: Obj, items: Seq<u64>)
    requires
        spec_chain(s, base, items),
        items.len() == N_ROUTES,
    ensures
        forall|n: nat| n < N_ROUTES ==> (#[trigger] spec_cell(s, base, n)).0 != 0,
        forall|n: nat| n < N_ROUTES ==> spec_route(s, base, n).0 == #[trigger] items[n as int],
        spec_data(s, spec_cell(s, base, (N_ROUTES - 1) as nat), 1) == 0,
{
    assert forall|n: nat| n < N_ROUTES implies (#[trigger] spec_cell(s, base, n)).0 != 0 by {
        lemma_chain_reads(s, base, items, n);
    }
    assert forall|n: nat| n < N_ROUTES implies spec_route(s, base, n).0 == #[trigger] items[n as int] by {
        lemma_chain_reads(s, base, items, n);
    }
    lemma_chain_reads(s, base, items, (N_ROUTES - 1) as nat);
}

} // verus!
