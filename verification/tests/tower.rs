use lib::prims::num::{op_route, OpRoute};
use lib::diag::Cond;
use lib::engine::Engine;
use lib::obj::Obj;

const NIL: Obj = Obj(0);

const ROUTES: [&str; 26] = [
    "prims", "type-alist", "error-str", "err-line", "err-file", "file-registry",
    "obj-meta-extra", "env", "heap-mark-hooks", "heap-free-hooks", "heap-mark-roots",
    "alloc-limit", "alloc-count", "line", "files", "profile", "false", "filein", "buffer",
    "save-stack", "tco-expr", "tco-env", "sigint", "error-handler", "true", "env-global-tree",
];

/// The engine's committed route file: one `(name base r ...)` row per route.
fn base_paths() -> String {
    let mut rows = String::new();
    for (i, r) in ROUTES.iter().enumerate() {
        rows.push_str(&format!("({} base{})\n", r, " r".repeat(i)));
    }
    format!("(def %base-paths (lit (\n{})))\n", rows)
}

const CATALOG: &str = r#"
(include "tools/contract/base-paths.x")
(def %assoc (fn (self k l)
  (match ((eq? l ()) ())
         ((eq? (first (first l)) k) (first l))
         (#t (self k (rest l))))))
(def %walk (fn (self steps o)
  (match ((eq? steps ()) o)
         ((eq? (first steps) (lit f)) (self (rest steps) (first o)))
         (#t (self (rest steps) (rest o))))))
(def %cat (first (%walk (rest (rest (%assoc (lit prims) %base-paths))) (%base))))
(def %coord (fn (self ns m) (rest (%assoc m (rest (%assoc ns %cat))))))
"#;

fn fresh() -> Engine {
    let mut e = Engine::new();
    e.add_source("tools/contract/base-paths.x", &base_paths());
    e
}

#[allow(dead_code)]
fn coords(bindings: &[(&str, &str, &str)]) -> String {
    bindings
        .iter()
        .map(|(name, ns, method)| format!("(def {} (%coord (lit {}) (lit {})))\n", name, ns, method))
        .collect()
}

#[allow(dead_code)]
fn with_coords(bindings: &[(&str, &str, &str)], body: &str) -> String {
    format!("{}\n{}", coords(bindings), body)
}

#[allow(dead_code)]
fn eval(src: &str) -> (Engine, Result<Obj, Cond>) {
    let mut e = fresh();
    let full = format!("{}\n{}", CATALOG, src);
    let v = e.eval_str(&full);
    (e, v)
}

#[allow(dead_code)]
fn eval_ok(src: &str) -> (Engine, Obj) {
    let (e, v) = eval(src);
    match v {
        Ok(v) => (e, v),
        Err(cond) => panic!("{}\n  in: {}", cond.diagnostic(&e.objects).to_string(), src),
    }
}

#[allow(dead_code)]
fn raises(src: &str) -> bool {
    eval(src).1.is_err()
}

#[allow(dead_code)]
fn truthy(src: &str) -> bool {
    let (e, v) = eval_ok(src);
    e.objects.truthy(v)
}

#[allow(dead_code)]
fn int_of(src: &str) -> i64 {
    let (e, v) = eval_ok(src);
    assert!(e.objects.is_int(v), "expected an integer from: {}", src);
    e.objects.int_val(v)
}

#[allow(dead_code)]
fn text_of(src: &str) -> String {
    let (e, v) = eval_ok(src);
    lib::diag::value_text(&e.objects, v)
}

const TOWER: &str = r#"
(def %tmake (%coord (lit type) (lit make)))
(def %inst (%coord (lit type) (lit make-instance)))
(def V (%tmake "V" (pair (pair (lit ops)
                               (pair (pair (lit +) (fn (_ a b) 42))
                                     (pair (pair (lit =) (fn (_ a b) 7)) ())))
                         ())))
(def W (%tmake "W" (pair (pair (lit ops)
                               (pair (pair (lit +) (fn (_ a b) 99))
                                     (pair (pair (lit =) (fn (_ a b) 8)) ())))
                         ())))
(def U (%tmake "U" (pair (pair (lit ops) (pair (pair (lit <) (fn (_ a b) 5)) ())) ())))
(def u (%inst U 3))
(def v (%inst V 1))
(def w (%inst W 2))
"#;

#[test]
fn a_type_that_files_an_operator_takes_it_over() {
    assert_eq!(int_of(&format!("{} (+ v 1)", TOWER)), 42);
    assert_eq!(int_of(&format!("{} (+ 1 v)", TOWER)), 42, "either operand's type may hold the handler");
}

#[test]
fn untyped_operands_keep_the_machine_operation() {
    assert_eq!(int_of(&format!("{} (+ 2 3)", TOWER)), 5);
    assert_eq!(int_of(&format!("{} (- v 1)", TOWER.replace("(def v (%inst V 1))", "(def v 9)"))), 8);
}

#[test]
fn two_unrelated_types_are_unequal_and_refuse_arithmetic() {
    assert!(!truthy(&format!("{} (= v w)", TOWER)), "unrelated values are not equal");
    assert!(raises(&format!("{} (+ v w)", TOWER)), "and neither may add the other");
    assert_eq!(int_of(&format!("{} (= v u)", TOWER)), 7, "one handler is enough");
    assert_eq!(int_of(&format!("{} (< u v)", TOWER)), 5);
}

#[test]
fn the_tower_routes_by_handler_and_conversion() {
    let h = lib::obj::Obj(8);
    let o = lib::obj::Obj(16);
    assert!(matches!(op_route(None, None, false, false, false, false), OpRoute::Machine));
    assert!(matches!(op_route(Some(h), None, false, false, false, false), OpRoute::Call(x) if x == h));
    assert!(matches!(op_route(None, Some(o), false, false, false, false), OpRoute::Call(x) if x == o));
    assert!(matches!(op_route(Some(h), Some(o), true, false, false, false), OpRoute::Call(x) if x == h));
    assert!(matches!(op_route(Some(h), Some(o), false, false, true, false), OpRoute::Call(x) if x == o));
    assert!(matches!(op_route(Some(h), Some(o), false, false, false, true), OpRoute::Unequal));
    assert!(matches!(op_route(Some(h), Some(o), false, false, false, false), OpRoute::Refuse));
}
