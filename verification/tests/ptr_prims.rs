use lib::diag::Cond;
use lib::engine::Engine;
use lib::obj::Obj;

const NIL: Obj = Obj(0);

const ROUTES: [&str; 26] = [
    "prims", "type-alist", "error-str", "err-line", "err-file", "file-registry",
    "obj-meta-extra", "env", "heap-mark-hooks", "heap-free-hooks", "heap-mark-roots",
    "alloc-limit", "alloc-count", "line", "files", "profile", "false", "filein", "buffer",
    "save-stack", "tco-expr", "tco-env", "sigint", "error-handler", "true", "env-global-tree",
];

/// The engine's committed route file: one `(name base r ...)` row per route.
fn base_paths() -> String {
    let mut rows = String::new();
    for (i, r) in ROUTES.iter().enumerate() {
        rows.push_str(&format!("({} base{})\n", r, " r".repeat(i)));
    }
    format!("(def %base-paths (lit (\n{})))\n", rows)
}

const CATALOG: &str = r#"
(include "tools/contract/base-paths.x")
(def %assoc (fn (self k l)
  (match ((eq? l ()) ())
         ((eq? (first (first l)) k) (first l))
         (#t (self k (rest l))))))
(def %walk (fn (self steps o)
  (match ((eq? steps ()) o)
         ((eq? (first steps) (lit f)) (self (rest steps) (first o)))
         (#t (self (rest steps) (rest o))))))
(def %cat (first (%walk (rest (rest (%assoc (lit prims) %base-paths))) (%base))))
(def %coord (fn (self ns m) (rest (%assoc m (rest (%assoc ns %cat))))))
"#;

fn fresh() -> Engine {
    let mut e = Engine::new();
    e.add_source("tools/contract/base-paths.x", &base_paths());
    e
}

#[allow(dead_code)]
fn coords(bindings: &[(&str, &str, &str)]) -> String {
    bindings
        .iter()
        .map(|(name, ns, method)| format!("(def {} (%coord (lit {}) (lit {})))\n", name, ns, method))
        .collect()
}

#[allow(dead_code)]
fn with_coords(bindings: &[(&str, &str, &str)], body: &str) -> String {
    format!("{}\n{}", coords(bindings), body)
}

#[allow(dead_code)]
fn eval(src: &str) -> (Engine, Result<Obj, Cond>) {
    let mut e = fresh();
    let full = format!("{}\n{}", CATALOG, src);
    let v = e.eval_str(&full);
    (e, v)
}

#[allow(dead_code)]
fn eval_ok(src: &str) -> (Engine, Obj) {
    let (e, v) = eval(src);
    match v {
        Ok(v) => (e, v),
        Err(cond) => panic!("{}\n  in: {}", cond.diagnostic(&e.objects).to_string(), src),
    }
}

#[allow(dead_code)]
fn raises(src: &str) -> bool {
    eval(src).1.is_err()
}

#[allow(dead_code)]
fn truthy(src: &str) -> bool {
    let (e, v) = eval_ok(src);
    e.objects.truthy(v)
}

#[allow(dead_code)]
fn int_of(src: &str) -> i64 {
    let (e, v) = eval_ok(src);
    assert!(e.objects.is_int(v), "expected an integer from: {}", src);
    e.objects.int_val(v)
}

#[allow(dead_code)]
fn text_of(src: &str) -> String {
    let (e, v) = eval_ok(src);
    lib::diag::value_text(&e.objects, v)
}

const COORDS: &[(&str, &str, &str)] = &[
    ("%mk", "str", "make"),
    ("%s2p", "str", "->ptr"),
    ("%o2p", "obj", "->ptr"),
    ("%p2o", "ptr", "->obj"),
    ("%p2i", "ptr", "->int"),
    ("%i2p", "int", "->ptr"),
    ("%ref", "ptr", "ref"),
    ("%set", "ptr", "set!"),
    ("%refw", "ptr", "ref-word"),
    ("%setw", "ptr", "set-word!"),
    ("%cmp", "mem", "cmp"),
    ("%copy", "mem", "copy"),
    ("%fill", "mem", "set"),
    ("%alloc", "mem", "alloc"),
];

fn src(body: &str) -> String {
    with_coords(COORDS, body)
}

#[test]
fn an_object_round_trips_through_a_pointer() {
    assert!(truthy(&src("(def p (pair 1 2)) (same? (%p2o (%o2p p)) p)")));
}

#[test]
fn a_pointer_round_trips_through_an_integer() {
    assert!(truthy(&src(
        "(def p (%s2p (%mk 8))) (= (%p2i (%i2p (%p2i p))) (%p2i p))"
    )));
}

#[test]
fn a_word_written_through_a_pointer_reads_back() {
    assert_eq!(
        int_of(&src(
            "(def p (%s2p (%mk 32))) (%setw p 0 12345) (%refw p 0)"
        )),
        12345
    );
}

#[test]
fn a_byte_written_through_a_pointer_reads_back_at_its_own_offset() {
    let s = src("(def p (%s2p (%mk 32))) (%set p 3 200 1) (%set p 4 7 1) (%ref p 3 1)");
    assert_eq!(int_of(&s), 200);
    let s = src("(def p (%s2p (%mk 32))) (%set p 3 200 1) (%set p 4 7 1) (%ref p 4 1)");
    assert_eq!(int_of(&s), 7);
}

#[test]
fn a_widening_read_is_little_endian() {
    let s = src("(def p (%s2p (%mk 32)))
         (%set p 0 1 1) (%set p 1 0 1) (%set p 2 0 1) (%set p 3 0 1)
         (%ref p 0 4)");
    assert_eq!(int_of(&s), 1);
}

#[test]
fn ref_word_accepts_a_negative_byte_offset() {
    let s = src("(def p (%s2p (%mk 64)))
         (%setw p 16 99)
         (def q (%i2p (+ (%p2i p) 24)))
         (%refw q (- 0 8))");
    assert_eq!(int_of(&s), 99);
}

#[test]
fn memory_copies_and_compares() {
    let s = src(r#"(def a (%s2p (%mk 8))) (def b (%s2p (%mk 8)))
           (%fill a 65 8) (%copy b a 8) (%cmp a b 8)"#);
    assert_eq!(int_of(&s), 0, "identical blocks compare equal");
    let s = src(r#"(def a (%s2p (%mk 8))) (def b (%s2p (%mk 8)))
           (%fill a 65 8) (%fill b 66 8) (%cmp a b 8)"#);
    assert_eq!(int_of(&s), -1, "a lower byte sorts first");
}

#[test]
fn malloced_memory_is_writable() {
    let s = src("(def p (%alloc 16)) (%setw p 0 7) (%refw p 0)");
    assert_eq!(int_of(&s), 7);
}

