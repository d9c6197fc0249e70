use lib::diag::Cond;
use lib::engine::Engine;
use lib::obj::Obj;

const NIL: Obj = Obj(0);

const ROUTES: [&str; 26] = [
    "prims", "type-alist", "error-str", "err-line", "err-file", "file-registry",
    "obj-meta-extra", "env", "heap-mark-hooks", "heap-free-hooks", "heap-mark-roots",
    "alloc-limit", "alloc-count", "line", "files", "profile", "false", "filein", "buffer",
    "save-stack", "tco-expr", "tco-env", "sigint", "error-handler", "true", "env-global-tree",
];

/// The engine's committed route file: one `(name base r ...)` row per route.
fn base_paths() -> String {
    let mut rows = String::new();
    for (i, r) in ROUTES.iter().enumerate() {
        rows.push_str(&format!("({} base{})\n", r, " r".repeat(i)));
    }
    format!("(def %base-paths (lit (\n{})))\n", rows)
}

const CATALOG: &str = r#"
(include "tools/contract/base-paths.x")
(def %assoc (fn (self k l)
  (match ((eq? l ()) ())
         ((eq? (first (first l)) k) (first l))
         (#t (self k (rest l))))))
(def %walk (fn (self steps o)
  (match ((eq? steps ()) o)
         ((eq? (first steps) (lit f)) (self (rest steps) (first o)))
         (#t (self (rest steps) (rest o))))))
(def %cat (first (%walk (rest (rest (%assoc (lit prims) %base-paths))) (%base))))
(def %coord (fn (self ns m) (rest (%assoc m (rest (%assoc ns %cat))))))
"#;

fn fresh() -> Engine {
    let mut e = Engine::new();
    e.add_source("tools/contract/base-paths.x", &base_paths());
    e
}

#[allow(dead_code)]
fn coords(bindings: &[(&str, &str, &str)]) -> String {
    bindings
        .iter()
        .map(|(name, ns, method)| format!("(def {} (%coord (lit {}) (lit {})))\n", name, ns, method))
        .collect()
}

#[allow(dead_code)]
fn with_coords(bindings: &[(&str, &str, &str)], body: &str) -> String {
    format!("{}\n{}", coords(bindings), body)
}

#[allow(dead_code)]
fn eval(src: &str) -> (Engine, Result<Obj, Cond>) {
    let mut e = fresh();
    let full = format!("{}\n{}", CATALOG, src);
    let v = e.eval_str(&full);
    (e, v)
}

#[allow(dead_code)]
fn eval_ok(src: &str) -> (Engine, Obj) {
    let (e, v) = eval(src);
    match v {
        Ok(v) => (e, v),
        Err(cond) => panic!("{}\n  in: {}", cond.diagnostic(&e.objects).to_string(), src),
    }
}

#[allow(dead_code)]
fn raises(src: &str) -> bool {
    eval(src).1.is_err()
}

#[allow(dead_code)]
fn truthy(src: &str) -> bool {
    let (e, v) = eval_ok(src);
    e.objects.truthy(v)
}

#[allow(dead_code)]
fn int_of(src: &str) -> i64 {
    let (e, v) = eval_ok(src);
    assert!(e.objects.is_int(v), "expected an integer from: {}", src);
    e.objects.int_val(v)
}

#[allow(dead_code)]
fn text_of(src: &str) -> String {
    let (e, v) = eval_ok(src);
    lib::diag::value_text(&e.objects, v)
}

const COORDS: &[(&str, &str, &str)] = &[
    ("%mk", "iter", "make"),
    ("%next", "iter", "next"),
    ("%empty", "iter", "empty?"),
    ("%stepp", "iter", "step"),
];

const STEP: &str = "(def %step (fn (self st)\n      (match ((eq? st ()) ()) (#t (pair (first st) (rest st))))))";

fn src(body: &str) -> String {
    format!("{}\n{}", with_coords(COORDS, STEP), body)
}

#[test]
fn next_advances_in_order() {
    let s = src("(def it (%mk %step (pair 1 (pair 2 (pair 3 ())))))
         (%next it) (%next it) (%next it)");
    assert_eq!(int_of(&s), 3);
}

#[test]
fn empty_is_false_before_exhaustion_and_true_after() {
    assert!(!truthy(&src(
        "(def it (%mk %step (pair 1 ()))) (%empty it)"
    )));
    assert!(truthy(&src(
        "(def it (%mk %step (pair 1 ()))) (%next it) (%empty it)"
    )));
    assert!(truthy(&src("(%empty (%mk %step ()))")));
}

#[test]
fn step_is_functional_and_does_not_advance_the_receiver() {
    let s = src("(def it (%mk %step (pair 1 (pair 2 ()))))
         (def a (%stepp it)) (def b (%stepp it)) (first b)");
    assert_eq!(int_of(&s), 1);
}

#[test]
fn empty_does_not_consume() {
    let s = src("(def it (%mk %step (pair 1 (pair 2 ()))))
         (%empty it) (%empty it) (%next it)");
    assert_eq!(int_of(&s), 1);
}

