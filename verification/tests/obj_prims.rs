use lib::diag::Cond;
use lib::engine::Engine;
use lib::obj::Obj;

const NIL: Obj = Obj(0);

const ROUTES: [&str; 26] = [
    "prims", "type-alist", "error-str", "err-line", "err-file", "file-registry",
    "obj-meta-extra", "env", "heap-mark-hooks", "heap-free-hooks", "heap-mark-roots",
    "alloc-limit", "alloc-count", "line", "files", "profile", "false", "filein", "buffer",
    "save-stack", "tco-expr", "tco-env", "sigint", "error-handler", "true", "env-global-tree",
];

/// The engine's committed route file: one `(name base r ...)` row per route.
fn base_paths() -> String {
    let mut rows = String::new();
    for (i, r) in ROUTES.iter().enumerate() {
        rows.push_str(&format!("({} base{})\n", r, " r".repeat(i)));
    }
    format!("(def %base-paths (lit (\n{})))\n", rows)
}

const CATALOG: &str = r#"
(include "tools/contract/base-paths.x")
(def %assoc (fn (self k l)
  (match ((eq? l ()) ())
         ((eq? (first (first l)) k) (first l))
         (#t (self k (rest l))))))
(def %walk (fn (self steps o)
  (match ((eq? steps ()) o)
         ((eq? (first steps) (lit f)) (self (rest steps) (first o)))
         (#t (self (rest steps) (rest o))))))
(def %cat (first (%walk (rest (rest (%assoc (lit prims) %base-paths))) (%base))))
(def %coord (fn (self ns m) (rest (%assoc m (rest (%assoc ns %cat))))))
"#;

fn fresh() -> Engine {
    let mut e = Engine::new();
    e.add_source("tools/contract/base-paths.x", &base_paths());
    e
}

#[allow(dead_code)]
fn coords(bindings: &[(&str, &str, &str)]) -> String {
    bindings
        .iter()
        .map(|(name, ns, method)| format!("(def {} (%coord (lit {}) (lit {})))\n", name, ns, method))
        .collect()
}

#[allow(dead_code)]
fn with_coords(bindings: &[(&str, &str, &str)], body: &str) -> String {
    format!("{}\n{}", coords(bindings), body)
}

#[allow(dead_code)]
fn eval(src: &str) -> (Engine, Result<Obj, Cond>) {
    let mut e = fresh();
    let full = format!("{}\n{}", CATALOG, src);
    let v = e.eval_str(&full);
    (e, v)
}

#[allow(dead_code)]
fn eval_ok(src: &str) -> (Engine, Obj) {
    let (e, v) = eval(src);
    match v {
        Ok(v) => (e, v),
        Err(cond) => panic!("{}\n  in: {}", cond.diagnostic(&e.objects).to_string(), src),
    }
}

#[allow(dead_code)]
fn raises(src: &str) -> bool {
    eval(src).1.is_err()
}

#[allow(dead_code)]
fn truthy(src: &str) -> bool {
    let (e, v) = eval_ok(src);
    e.objects.truthy(v)
}

#[allow(dead_code)]
fn int_of(src: &str) -> i64 {
    let (e, v) = eval_ok(src);
    assert!(e.objects.is_int(v), "expected an integer from: {}", src);
    e.objects.int_val(v)
}

#[allow(dead_code)]
fn text_of(src: &str) -> String {
    let (e, v) = eval_ok(src);
    lib::diag::value_text(&e.objects, v)
}

#[test]
fn eq_crosses_char_and_int() {
    assert!(truthy(r"(eq? #\A 65)"));
    assert!(!truthy(r"(eq? #\A 66)"));
    // same? is identity and must NOT cross.
    assert!(!truthy(r"(same? #\A 65)"));
}

#[test]
fn eq_compares_numbers_by_value_and_strings_by_identity() {
    assert!(truthy("(eq? 1 1)"));
    assert!(!truthy("(eq? 1 2)"));
    assert!(!truthy(r#"(eq? "a" "a")"#));
    assert!(truthy("(eq? () ())"));
    assert!(truthy("(eq? (lit a) (lit a))"), "symbols are interned");
}

#[test]
fn a_predicate_answers_the_very_objects_hash_t_and_hash_f() {
    assert!(truthy("(same? (eq? 1 1) #t)"));
    assert!(truthy("(same? (eq? 1 2) #f)"));
    assert!(
        truthy("(same? (same? 1 1) #f)"),
        "same? answers with them too"
    );
    assert!(truthy("(same? (< 1 2) #t)"));
    assert!(truthy("(same? (< 2 1) #f)"));
}

#[test]
fn a_false_answer_is_not_nil() {
    assert!(!truthy("(eq? (eq? 1 2) ())"));
    assert!(truthy("(same? (eq? 1 2) #f)"));
}

#[test]
fn same_does_not_collapse_equal_numbers() {
    assert!(!truthy("(same? 1 1)"));
    assert!(truthy("(def x 1) (same? x x)"));
}

#[test]
fn first_reads_an_instances_payload_not_only_pairs() {
    let (e, v) = eval_ok(
        r#"
        (def T ((%coord (lit type) (lit make)) "PAYLOAD" ()))
        (def v ((%coord (lit type) (lit make-instance)) T (pair 7 8)))
        (first (first v))
    "#,
    );
    assert!(
        e.objects.is_int(v),
        "an instance's payload must be readable"
    );
    assert_eq!(e.objects.int_val(v), 7);
}

#[test]
fn first_and_rest_of_nil_are_nil() {
    assert!(truthy("(eq? (first ()) ())"));
    assert!(truthy("(eq? (rest ()) ())"));
}

#[test]
fn type_of_is_stable_per_kind_and_distinguishes_kinds() {
    assert!(truthy(
        "(def %tof (%coord (lit type) (lit of))) (same? (%tof 1) (%tof 2))"
    ));
    assert!(!truthy(
        r#"(def %tof (%coord (lit type) (lit of))) (same? (%tof 1) (%tof "s"))"#
    ));
    assert!(!truthy(
        "(def %tof (%coord (lit type) (lit of))) (same? (%tof 1) (%tof (pair 1 2)))"
    ));
}

#[test]
fn type_predicate_agrees_with_type_of() {
    assert!(truthy(
        "(def %tof (%coord (lit type) (lit of)))
         (def %is (%coord (lit type) (lit ?)))
         (%is 1 (%tof 1))"
    ));
    assert!(!truthy(
        r#"(def %tof (%coord (lit type) (lit of)))
           (def %is (%coord (lit type) (lit ?)))
           (%is 1 (%tof "s"))"#
    ));
}

#[test]
fn obj_make_writes_whatever_type_word_it_is_given() {
    assert!(truthy(
        "(def x ((%coord (lit obj) (lit make)) 5 2))
         (match ((eq? x ()) ()) (#t 1))"
    ));
}

#[test]
fn an_instance_reports_the_type_it_was_made_with() {
    assert!(truthy(
        r#"
        (def %tof (%coord (lit type) (lit of)))
        (def T ((%coord (lit type) (lit make)) "CONFORM" ()))
        (same? (%tof ((%coord (lit obj) (lit make)) T 2)) T)
    "#
    ));
}

