use lib::diag::Cond;
use lib::engine::Engine;
use lib::obj::Obj;

const NIL: Obj = Obj(0);

const ROUTES: [&str; 26] = [
    "prims", "type-alist", "error-str", "err-line", "err-file", "file-registry",
    "obj-meta-extra", "env", "heap-mark-hooks", "heap-free-hooks", "heap-mark-roots",
    "alloc-limit", "alloc-count", "line", "files", "profile", "false", "filein", "buffer",
    "save-stack", "tco-expr", "tco-env", "sigint", "error-handler", "true", "env-global-tree",
];

/// The engine's committed route file: one `(name base r ...)` row per route.
fn base_paths() -> String {
    let mut rows = String::new();
    for (i, r) in ROUTES.iter().enumerate() {
        rows.push_str(&format!("({} base{})\n", r, " r".repeat(i)));
    }
    format!("(def %base-paths (lit (\n{})))\n", rows)
}

const CATALOG: &str = r#"
(include "tools/contract/base-paths.x")
(def %assoc (fn (self k l)
  (match ((eq? l ()) ())
         ((eq? (first (first l)) k) (first l))
         (#t (self k (rest l))))))
(def %walk (fn (self steps o)
  (match ((eq? steps ()) o)
         ((eq? (first steps) (lit f)) (self (rest steps) (first o)))
         (#t (self (rest steps) (rest o))))))
(def %cat (first (%walk (rest (rest (%assoc (lit prims) %base-paths))) (%base))))
(def %coord (fn (self ns m) (rest (%assoc m (rest (%assoc ns %cat))))))
"#;

fn fresh() -> Engine {
    let mut e = Engine::new();
    e.add_source("tools/contract/base-paths.x", &base_paths());
    e
}

#[allow(dead_code)]
fn coords(bindings: &[(&str, &str, &str)]) -> String {
    bindings
        .iter()
        .map(|(name, ns, method)| format!("(def {} (%coord (lit {}) (lit {})))\n", name, ns, method))
        .collect()
}

#[allow(dead_code)]
fn with_coords(bindings: &[(&str, &str, &str)], body: &str) -> String {
    format!("{}\n{}", coords(bindings), body)
}

#[allow(dead_code)]
fn eval(src: &str) -> (Engine, Result<Obj, Cond>) {
    let mut e = fresh();
    let full = format!("{}\n{}", CATALOG, src);
    let v = e.eval_str(&full);
    (e, v)
}

#[allow(dead_code)]
fn eval_ok(src: &str) -> (Engine, Obj) {
    let (e, v) = eval(src);
    match v {
        Ok(v) => (e, v),
        Err(cond) => panic!("{}\n  in: {}", cond.diagnostic(&e.objects).to_string(), src),
    }
}

#[allow(dead_code)]
fn raises(src: &str) -> bool {
    eval(src).1.is_err()
}

#[allow(dead_code)]
fn truthy(src: &str) -> bool {
    let (e, v) = eval_ok(src);
    e.objects.truthy(v)
}

#[allow(dead_code)]
fn int_of(src: &str) -> i64 {
    let (e, v) = eval_ok(src);
    assert!(e.objects.is_int(v), "expected an integer from: {}", src);
    e.objects.int_val(v)
}

#[allow(dead_code)]
fn text_of(src: &str) -> String {
    let (e, v) = eval_ok(src);
    lib::diag::value_text(&e.objects, v)
}

const HEAP: &[(&str, &str, &str)] = &[
    ("%count", "heap", "count"),
    ("%collect", "heap", "collect"),
    ("%pin", "heap", "pin!"),
    ("%mkhook", "heap", "mark-hook!"),
    ("%fhook", "heap", "free-hook!"),
    ("%mkroot", "heap", "mark-root!"),
];

fn heap(body: &str) -> String {
    with_coords(HEAP, body)
}

#[test]
fn the_count_rises_when_something_is_allocated() {
    assert!(truthy(&heap(
        "(def before (%count)) (def junk (pair (pair 1 2) (pair 3 4)))
         (< before (%count))"
    )));
}

#[test]
fn collection_preserves_a_reachable_object() {
    assert!(truthy(&heap(
        "(def keep (pair 11 22)) (%collect)
         (match ((= (first keep) 11) (= (rest keep) 22)) (#t ()))"
    )));
}

#[test]
fn collection_is_idempotent_from_the_callers_view() {
    assert_eq!(
        int_of(&heap(
            "(def keep (pair 33 44)) (%collect) (%collect) (first keep)"
        )),
        33
    );
}

#[test]
fn a_pinned_object_survives_and_is_answered_back() {
    assert_eq!(
        int_of(&heap("(def p (pair 55 66)) (%pin p) (%collect) (first p)")),
        55
    );
    assert!(truthy(&heap("(def p (pair 1 2)) (same? (%pin p) p)")));
}

#[test]
fn the_allocation_ceiling_is_armable_without_a_library() {
    assert!(truthy("(match ((eq? alloc-limit! ()) ()) (#t 1))"));
}

#[test]
fn the_allocation_ceiling_is_enforced() {
    assert!(
        raises("(alloc-limit! 1) (def burn (fn (self n) (match ((= n 0) 1) (#t (%seq (pair n n) (self (- n 1))))))) (burn 1000)"),
        "allocating past the ceiling must raise"
    );
}

#[test]
fn the_hooks_prepend_to_their_lists() {
    for (reg, route) in [
        ("%mkhook", "heap-mark-hooks"),
        ("%fhook", "heap-free-hooks"),
        ("%mkroot", "heap-mark-roots"),
    ] {
        let src = heap(&format!(
            "(def %f (fn (_) 1)) ({} %f)
             (same? (first (first (%walk (rest (rest (%assoc (lit {}) %base-paths))) (%base)))) %f)",
            reg, route
        ));
        assert!(truthy(&src), "{} did not prepend to {}", reg, route);
    }
}

