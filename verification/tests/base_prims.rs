use lib::diag::Cond;
use lib::engine::Engine;
use lib::obj::Obj;

const NIL: Obj = Obj(0);

const ROUTES: [&str; 26] = [
    "prims", "type-alist", "error-str", "err-line", "err-file", "file-registry",
    "obj-meta-extra", "env", "heap-mark-hooks", "heap-free-hooks", "heap-mark-roots",
    "alloc-limit", "alloc-count", "line", "files", "profile", "false", "filein", "buffer",
    "save-stack", "tco-expr", "tco-env", "sigint", "error-handler", "true", "env-global-tree",
];

/// The engine's committed route file: one `(name base r ...)` row per route.
fn base_paths() -> String {
    let mut rows = String::new();
    for (i, r) in ROUTES.iter().enumerate() {
        rows.push_str(&format!("({} base{})\n", r, " r".repeat(i)));
    }
    format!("(def %base-paths (lit (\n{})))\n", rows)
}

const CATALOG: &str = r#"
(include "tools/contract/base-paths.x")
(def %assoc (fn (self k l)
  (match ((eq? l ()) ())
         ((eq? (first (first l)) k) (first l))
         (#t (self k (rest l))))))
(def %walk (fn (self steps o)
  (match ((eq? steps ()) o)
         ((eq? (first steps) (lit f)) (self (rest steps) (first o)))
         (#t (self (rest steps) (rest o))))))
(def %cat (first (%walk (rest (rest (%assoc (lit prims) %base-paths))) (%base))))
(def %coord (fn (self ns m) (rest (%assoc m (rest (%assoc ns %cat))))))
"#;

fn fresh() -> Engine {
    let mut e = Engine::new();
    e.add_source("tools/contract/base-paths.x", &base_paths());
    e
}

#[allow(dead_code)]
fn coords(bindings: &[(&str, &str, &str)]) -> String {
    bindings
        .iter()
        .map(|(name, ns, method)| format!("(def {} (%coord (lit {}) (lit {})))\n", name, ns, method))
        .collect()
}

#[allow(dead_code)]
fn with_coords(bindings: &[(&str, &str, &str)], body: &str) -> String {
    format!("{}\n{}", coords(bindings), body)
}

#[allow(dead_code)]
fn eval(src: &str) -> (Engine, Result<Obj, Cond>) {
    let mut e = fresh();
    let full = format!("{}\n{}", CATALOG, src);
    let v = e.eval_str(&full);
    (e, v)
}

#[allow(dead_code)]
fn eval_ok(src: &str) -> (Engine, Obj) {
    let (e, v) = eval(src);
    match v {
        Ok(v) => (e, v),
        Err(cond) => panic!("{}\n  in: {}", cond.diagnostic(&e.objects).to_string(), src),
    }
}

#[allow(dead_code)]
fn raises(src: &str) -> bool {
    eval(src).1.is_err()
}

#[allow(dead_code)]
fn truthy(src: &str) -> bool {
    let (e, v) = eval_ok(src);
    e.objects.truthy(v)
}

#[allow(dead_code)]
fn int_of(src: &str) -> i64 {
    let (e, v) = eval_ok(src);
    assert!(e.objects.is_int(v), "expected an integer from: {}", src);
    e.objects.int_val(v)
}

#[allow(dead_code)]
fn text_of(src: &str) -> String {
    let (e, v) = eval_ok(src);
    lib::diag::value_text(&e.objects, v)
}

const BASES: &[(&str, &str, &str)] = &[
    ("%mkb", "base", "make"),
    ("%beval", "base", "eval"),
    ("%bind", "base", "bind"),
];

fn bases(body: &str) -> String {
    with_coords(BASES, body)
}

#[test]
fn a_fresh_base_can_evaluate() {
    assert_eq!(int_of(&bases("(%beval (%mkb) (lit (+ 2 3)))")), 5);
}

#[test]
fn a_sandbox_does_not_see_the_hosts_bindings() {
    assert!(raises(&bases(
        "(def host-only 99) (%beval (%mkb) (lit host-only))"
    )));
}

#[test]
fn the_host_does_not_see_the_sandboxs_bindings() {
    assert!(raises(&bases(
        "(def b (%mkb)) (%beval b (lit (def inside 1))) inside"
    )));
}

#[test]
fn a_name_bound_into_a_base_stays_there() {
    assert_eq!(
        int_of(&bases(
            "(def b (%mkb)) (%bind b (lit answer) 42) (%beval b (lit answer))"
        )),
        42
    );
}

#[test]
fn a_name_bound_into_one_base_is_unbound_in_another() {
    assert!(raises(&bases(
        "(def b1 (%mkb)) (def b2 (%mkb))
         (%bind b1 (lit answer) 42)
         (%beval b2 (lit answer))"
    )));
}

#[test]
fn a_symbol_interned_in_a_child_is_the_childs_own() {
    assert!(truthy(&bases(
        r#"(def %s2y (%coord (lit str) (lit ->sym)))
           (def b (%mkb))
           (%bind b (lit mk) %s2y)
           (match ((eq? (%s2y "zed") (%beval b (lit (mk "zed")))) ()) (#t 1))"#
    )));
}

#[test]
fn interning_in_the_host_first_does_not_share_it() {
    assert!(truthy(&bases(
        r#"(def %s2y (%coord (lit str) (lit ->sym)))
           (def before (%s2y "beforehand"))
           (def b (%mkb))
           (%bind b (lit mk) %s2y)
           (%bind b (lit same) (%coord (lit obj) (lit eq?)))
           (%bind b (lit host-one) before)
           (match ((%beval b (lit (same (mk "beforehand") host-one))) ()) (#t 1))"#
    )));
}

#[test]
fn instruction_names_are_shared_across_bases() {
    assert!(truthy(&bases(
        r#"(def b (%mkb))
           (%bind b (lit mk) (%coord (lit str) (lit ->sym)))
           (%bind b (lit same) (%coord (lit obj) (lit eq?)))
           (match ((%beval b (lit (same (mk "+") (lit +))))
                   (%beval b (lit (same (mk "first") (lit first)))))
                  (#t ()))"#
    )));
}

#[test]
fn a_form_read_in_the_host_evaluates_in_a_child() {
    assert_eq!(int_of(&bases("(%beval (%mkb) (lit (+ 2 3)))")), 5);
}

#[test]
fn a_name_is_found_by_identity_not_by_spelling() {
    assert!(raises(&bases(
        r#"(def b (%mkb))
           (%bind b (lit answer) 42)
           (%bind b (lit mk) (%coord (lit str) (lit ->sym)))
           (%beval b (lit (eval! (mk "answer"))))"#
    )));
}

#[test]
fn two_children_do_not_share_a_table() {
    assert!(truthy(&bases(
        r#"(def mk (%coord (lit str) (lit ->sym)))
           (def b1 (%mkb)) (def b2 (%mkb))
           (%bind b1 (lit mk) mk)
           (%bind b2 (lit mk) mk)
           (match ((eq? (%beval b1 (lit (mk "shared?")))
                        (%beval b2 (lit (mk "shared?")))) ()) (#t 1))"#
    )));
}

#[test]
fn two_bases_are_distinct_objects() {
    assert!(truthy(&bases("(match ((same? (%mkb) (%mkb)) ()) (#t 1))")));
}

