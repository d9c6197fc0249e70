use lib::diag::Cond;
use lib::engine::Engine;
use lib::obj::Obj;

const NIL: Obj = Obj(0);

const ROUTES: [&str; 26] = [
    "prims", "type-alist", "error-str", "err-line", "err-file", "file-registry",
    "obj-meta-extra", "env", "heap-mark-hooks", "heap-free-hooks", "heap-mark-roots",
    "alloc-limit", "alloc-count", "line", "files", "profile", "false", "filein", "buffer",
    "save-stack", "tco-expr", "tco-env", "sigint", "error-handler", "true", "env-global-tree",
];

/// The engine's committed route file: one `(name base r ...)` row per route.
fn base_paths() -> String {
    let mut rows = String::new();
    for (i, r) in ROUTES.iter().enumerate() {
        rows.push_str(&format!("({} base{})\n", r, " r".repeat(i)));
    }
    format!("(def %base-paths (lit (\n{})))\n", rows)
}

const CATALOG: &str = r#"
(include "tools/contract/base-paths.x")
(def %assoc (fn (self k l)
  (match ((eq? l ()) ())
         ((eq? (first (first l)) k) (first l))
         (#t (self k (rest l))))))
(def %walk (fn (self steps o)
  (match ((eq? steps ()) o)
         ((eq? (first steps) (lit f)) (self (rest steps) (first o)))
         (#t (self (rest steps) (rest o))))))
(def %cat (first (%walk (rest (rest (%assoc (lit prims) %base-paths))) (%base))))
(def %coord (fn (self ns m) (rest (%assoc m (rest (%assoc ns %cat))))))
"#;

fn fresh() -> Engine {
    let mut e = Engine::new();
    e.add_source("tools/contract/base-paths.x", &base_paths());
    e
}

#[allow(dead_code)]
fn coords(bindings: &[(&str, &str, &str)]) -> String {
    bindings
        .iter()
        .map(|(name, ns, method)| format!("(def {} (%coord (lit {}) (lit {})))\n", name, ns, method))
        .collect()
}

#[allow(dead_code)]
fn with_coords(bindings: &[(&str, &str, &str)], body: &str) -> String {
    format!("{}\n{}", coords(bindings), body)
}

#[allow(dead_code)]
fn eval(src: &str) -> (Engine, Result<Obj, Cond>) {
    let mut e = fresh();
    let full = format!("{}\n{}", CATALOG, src);
    let v = e.eval_str(&full);
    (e, v)
}

#[allow(dead_code)]
fn eval_ok(src: &str) -> (Engine, Obj) {
    let (e, v) = eval(src);
    match v {
        Ok(v) => (e, v),
        Err(cond) => panic!("{}\n  in: {}", cond.diagnostic(&e.objects).to_string(), src),
    }
}

#[allow(dead_code)]
fn raises(src: &str) -> bool {
    eval(src).1.is_err()
}

#[allow(dead_code)]
fn truthy(src: &str) -> bool {
    let (e, v) = eval_ok(src);
    e.objects.truthy(v)
}

#[allow(dead_code)]
fn int_of(src: &str) -> i64 {
    let (e, v) = eval_ok(src);
    assert!(e.objects.is_int(v), "expected an integer from: {}", src);
    e.objects.int_val(v)
}

#[allow(dead_code)]
fn text_of(src: &str) -> String {
    let (e, v) = eval_ok(src);
    lib::diag::value_text(&e.objects, v)
}

#[test]
fn wrap_makes_an_operative_applicative() {
    assert_eq!(
        int_of("(def o (op (x) e x)) (def w (wrap o)) (w (+ 1 2))"),
        3
    );
}

#[test]
fn unwrap_recovers_the_very_same_operative() {
    assert!(truthy("(def o (op (x) e x)) (same? (unwrap (wrap o)) o)"));
}

#[test]
fn atomic_yields_its_bodys_value() {
    assert_eq!(int_of("(atomic (+ 20 22))"), 42);
}

#[test]
fn tail_eval_uses_the_environment_it_is_given() {
    assert_eq!(
        int_of("(def probe (op (x) e (tail-eval x e))) (def y 40) (probe (+ y 2))"),
        42
    );
}

#[test]
fn apply_does_not_evaluate_the_argument_list_twice() {
    assert!(truthy(
        "(def head (fn (self x) x))
         (eq? (apply head (pair (lit no-such-name) ())) (lit no-such-name))"
    ));
}

#[test]
fn base_is_not_nil() {
    assert!(truthy("(match ((eq? (%base) ()) ()) (#t 1))"));
}

