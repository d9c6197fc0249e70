use lib::diag::Cond;
use lib::engine::Engine;
use lib::obj::Obj;

const NIL: Obj = Obj(0);

const ROUTES: [&str; 26] = [
    "prims", "type-alist", "error-str", "err-line", "err-file", "file-registry",
    "obj-meta-extra", "env", "heap-mark-hooks", "heap-free-hooks", "heap-mark-roots",
    "alloc-limit", "alloc-count", "line", "files", "profile", "false", "filein", "buffer",
    "save-stack", "tco-expr", "tco-env", "sigint", "error-handler", "true", "env-global-tree",
];

/// The engine's committed route file: one `(name base r ...)` row per route.
fn base_paths() -> String {
    let mut rows = String::new();
    for (i, r) in ROUTES.iter().enumerate() {
        rows.push_str(&format!("({} base{})\n", r, " r".repeat(i)));
    }
    format!("(def %base-paths (lit (\n{})))\n", rows)
}

const CATALOG: &str = r#"
(include "tools/contract/base-paths.x")
(def %assoc (fn (self k l)
  (match ((eq? l ()) ())
         ((eq? (first (first l)) k) (first l))
         (#t (self k (rest l))))))
(def %walk (fn (self steps o)
  (match ((eq? steps ()) o)
         ((eq? (first steps) (lit f)) (self (rest steps) (first o)))
         (#t (self (rest steps) (rest o))))))
(def %cat (first (%walk (rest (rest (%assoc (lit prims) %base-paths))) (%base))))
(def %coord (fn (self ns m) (rest (%assoc m (rest (%assoc ns %cat))))))
"#;

fn fresh() -> Engine {
    let mut e = Engine::new();
    e.add_source("tools/contract/base-paths.x", &base_paths());
    e
}

#[allow(dead_code)]
fn coords(bindings: &[(&str, &str, &str)]) -> String {
    bindings
        .iter()
        .map(|(name, ns, method)| format!("(def {} (%coord (lit {}) (lit {})))\n", name, ns, method))
        .collect()
}

#[allow(dead_code)]
fn with_coords(bindings: &[(&str, &str, &str)], body: &str) -> String {
    format!("{}\n{}", coords(bindings), body)
}

#[allow(dead_code)]
fn eval(src: &str) -> (Engine, Result<Obj, Cond>) {
    let mut e = fresh();
    let full = format!("{}\n{}", CATALOG, src);
    let v = e.eval_str(&full);
    (e, v)
}

#[allow(dead_code)]
fn eval_ok(src: &str) -> (Engine, Obj) {
    let (e, v) = eval(src);
    match v {
        Ok(v) => (e, v),
        Err(cond) => panic!("{}\n  in: {}", cond.diagnostic(&e.objects).to_string(), src),
    }
}

#[allow(dead_code)]
fn raises(src: &str) -> bool {
    eval(src).1.is_err()
}

#[allow(dead_code)]
fn truthy(src: &str) -> bool {
    let (e, v) = eval_ok(src);
    e.objects.truthy(v)
}

#[allow(dead_code)]
fn int_of(src: &str) -> i64 {
    let (e, v) = eval_ok(src);
    assert!(e.objects.is_int(v), "expected an integer from: {}", src);
    e.objects.int_val(v)
}

#[allow(dead_code)]
fn text_of(src: &str) -> String {
    let (e, v) = eval_ok(src);
    lib::diag::value_text(&e.objects, v)
}

use lib::eval::ControlRec;

#[test]
fn a_bind_record_resumes_by_binding_the_delivered_value() {
    let (mut e, _) = eval_ok("(def probe 1)");
    let name = e.objects.sym("probe");
    let env = e.root_env();
    let v = e.objects.int_new(42);
    let rec = ControlRec::Bind {
        name,
        env,
        set: true,
        depth: 1,
    };
    let out = e.resume(&rec, v).expect("resumes");
    assert_eq!(e.objects.as_int(out), 42, "set! answers the value");
    let bound = e.envs.lookup(&e.objects, env, name).expect("bound");
    assert_eq!(e.objects.as_int(bound), 42, "and the binding took");
}

#[test]
fn a_body_record_resumes_by_running_the_remaining_forms() {
    let (mut e, _) = eval_ok("(def a 1)");
    e.set_input("(set! a 5) (+ a 2)");
    let rest = {
        let f1 = e.next_form().expect("form 1");
        let f2 = e.next_form().expect("form 2");
        let tail = e.objects.pair(f2, NIL);
        e.objects.pair(f1, tail)
    };
    let env = e.root_env();
    let rec = ControlRec::Body {
        rest,
        env,
        depth: 1,
    };
    let v = e.objects.int_new(0);
    let out = e.resume(&rec, v).expect("resumes");
    assert_eq!(e.objects.as_int(out), 7, "the remaining forms ran in order");
}

#[test]
fn an_exhausted_body_record_passes_the_value_through() {
    let (mut e, _) = eval_ok("1");
    let env = e.root_env();
    let rec = ControlRec::Body {
        rest: NIL,
        env,
        depth: 1,
    };
    let v = e.objects.int_new(9);
    let out = e.resume(&rec, v).expect("resumes");
    assert_eq!(e.objects.as_int(out), 9);
}

#[test]
fn an_args_record_resumes_by_finishing_the_application() {
    // Captured "inside" the second argument of (+ 1 _ ): delivering 2
    // completes the row and applies the callee.
    let (mut e, _) = eval_ok("1");
    let plus = e.objects.sym("+");
    let env = e.root_env();
    let callee = e.envs.lookup(&e.objects, env, plus).expect("+ bound");
    let one = e.objects.int_new(1);
    let rec = ControlRec::Args {
        callee,
        done: vec![one],
        rest: NIL,
        env,
        n: 2,
        depth: 1,
    };
    let v = e.objects.int_new(2);
    let out = e.resume(&rec, v).expect("resumes");
    assert_eq!(e.objects.as_int(out), 3, "the application completed");
}

#[test]
fn a_pass_record_is_the_identity() {
    let (mut e, _) = eval_ok("1");
    let rec = ControlRec::Pass { depth: 1 };
    let v = e.objects.int_new(4);
    let out = e.resume(&rec, v).expect("resumes");
    assert_eq!(e.objects.as_int(out), 4);
}


#[test]
fn call_cc_returns_its_bodys_value_when_the_continuation_is_unused() {
    assert_eq!(int_of("(call/cc (fn (self k) 7))"), 7);
}

#[test]
fn call_cc_gives_an_escape_continuation() {
    assert_eq!(int_of("(call/cc (fn (self k) (+ 1 (k 9))))"), 9);
}

#[test]
fn a_guard_does_not_catch_an_escaping_continuation() {
    assert_eq!(
        int_of("(call/cc (fn (self k) (guard (e 111) (k 9))))"),
        9,
        "the guard must not swallow the escape"
    );
}

#[test]
fn a_guard_still_catches_a_raise_inside_call_cc() {
    assert_eq!(
        int_of("(call/cc (fn (self k) (guard (e 111) (error 1))))"),
        111
    );
}

#[test]
fn an_escape_passes_through_an_inner_call_cc() {
    assert_eq!(
        int_of("(call/cc (fn (self outer) (call/cc (fn (s2 inner) (outer 5)))))"),
        5
    );
}


#[test]
fn a_dead_extent_invocation_re_enters_through_the_records() {
    // The closure body is the recorded spine, and after re-entry `cell`
    // holds 42, whose "application" echoes it (a non-callable head answers
    // itself).
    let src = "((fn (self) (def cell ()) (set! cell (call/cc (fn (_ k) k))) (match (cell (cell 42)) (#t ())) cell))";
    assert_eq!(int_of(src), 42);
}

#[test]
fn a_capture_that_misses_a_frame_is_refused_on_re_entry() {
    let mut e = Engine::new();
    e.escaping = Some((99, Obj(0)));
    assert!(matches!(e.resume_escape(100), Some(Err(Cond::NotResumable))));
    assert!(e.escaping.is_none());
    assert!(e.resume_escape(100).is_none());
}

#[test]
fn a_capture_in_an_operand_position_replays_the_application() {
    let src = "(def kk ()) (def f (fn (self a b) (+ a b))) (f 1 (call/cc (fn (_ k) (set! kk k) 2))) (kk 10)";
    assert_eq!(int_of(src), 11);
}
