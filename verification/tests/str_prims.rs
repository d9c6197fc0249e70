use lib::diag::Cond;
use lib::engine::Engine;
use lib::obj::Obj;

const NIL: Obj = Obj(0);

const ROUTES: [&str; 26] = [
    "prims", "type-alist", "error-str", "err-line", "err-file", "file-registry",
    "obj-meta-extra", "env", "heap-mark-hooks", "heap-free-hooks", "heap-mark-roots",
    "alloc-limit", "alloc-count", "line", "files", "profile", "false", "filein", "buffer",
    "save-stack", "tco-expr", "tco-env", "sigint", "error-handler", "true", "env-global-tree",
];

/// The engine's committed route file: one `(name base r ...)` row per route.
fn base_paths() -> String {
    let mut rows = String::new();
    for (i, r) in ROUTES.iter().enumerate() {
        rows.push_str(&format!("({} base{})\n", r, " r".repeat(i)));
    }
    format!("(def %base-paths (lit (\n{})))\n", rows)
}

const CATALOG: &str = r#"
(include "tools/contract/base-paths.x")
(def %assoc (fn (self k l)
  (match ((eq? l ()) ())
         ((eq? (first (first l)) k) (first l))
         (#t (self k (rest l))))))
(def %walk (fn (self steps o)
  (match ((eq? steps ()) o)
         ((eq? (first steps) (lit f)) (self (rest steps) (first o)))
         (#t (self (rest steps) (rest o))))))
(def %cat (first (%walk (rest (rest (%assoc (lit prims) %base-paths))) (%base))))
(def %coord (fn (self ns m) (rest (%assoc m (rest (%assoc ns %cat))))))
"#;

fn fresh() -> Engine {
    let mut e = Engine::new();
    e.add_source("tools/contract/base-paths.x", &base_paths());
    e
}

#[allow(dead_code)]
fn coords(bindings: &[(&str, &str, &str)]) -> String {
    bindings
        .iter()
        .map(|(name, ns, method)| format!("(def {} (%coord (lit {}) (lit {})))\n", name, ns, method))
        .collect()
}

#[allow(dead_code)]
fn with_coords(bindings: &[(&str, &str, &str)], body: &str) -> String {
    format!("{}\n{}", coords(bindings), body)
}

#[allow(dead_code)]
fn eval(src: &str) -> (Engine, Result<Obj, Cond>) {
    let mut e = fresh();
    let full = format!("{}\n{}", CATALOG, src);
    let v = e.eval_str(&full);
    (e, v)
}

#[allow(dead_code)]
fn eval_ok(src: &str) -> (Engine, Obj) {
    let (e, v) = eval(src);
    match v {
        Ok(v) => (e, v),
        Err(cond) => panic!("{}\n  in: {}", cond.diagnostic(&e.objects).to_string(), src),
    }
}

#[allow(dead_code)]
fn raises(src: &str) -> bool {
    eval(src).1.is_err()
}

#[allow(dead_code)]
fn truthy(src: &str) -> bool {
    let (e, v) = eval_ok(src);
    e.objects.truthy(v)
}

#[allow(dead_code)]
fn int_of(src: &str) -> i64 {
    let (e, v) = eval_ok(src);
    assert!(e.objects.is_int(v), "expected an integer from: {}", src);
    e.objects.int_val(v)
}

#[allow(dead_code)]
fn text_of(src: &str) -> String {
    let (e, v) = eval_ok(src);
    lib::diag::value_text(&e.objects, v)
}

const COORDS: &[(&str, &str, &str)] = &[
    ("%mk", "str", "make"),
    ("%len", "str", "byte-len"),
    ("%ref", "str", "byte-ref"),
    ("%sub", "str", "byte-sub"),
    ("%app", "str", "append"),
    ("%s2y", "str", "->sym"),
    ("%y2s", "sym", "->str"),
    ("%b2s", "bytes", "->str"),
    ("%c2i", "char", "->int"),
];

fn src(body: &str) -> String {
    with_coords(COORDS, body)
}

#[test]
fn byte_len_counts_bytes() {
    assert_eq!(int_of(&src(r#"(%len "abc")"#)), 3);
    assert_eq!(int_of(&src(r#"(%len "")"#)), 0);
}

#[test]
fn byte_sub_reads_past_an_embedded_nul() {
    // "A\0B": the NUL is the value's end, the B is still addressable.
    assert_eq!(
        text_of(&src(r#"(%sub (%b2s (pair 65 (pair 0 (pair 66 ())))) 2 1)"#)),
        "B"
    );
    // And the value really is NUL-bounded, so this is not a slice.
    assert_eq!(
        int_of(&src(r#"(%len (%b2s (pair 65 (pair 0 (pair 66 ())))))"#)),
        1
    );
}

#[test]
fn make_gives_a_region_of_the_requested_length() {
    assert_eq!(int_of(&src("(%len (%mk 32))")), 32);
}

#[test]
fn byte_ref_answers_a_char() {
    assert_eq!(int_of(&src(r#"(%c2i (%ref "abc" 0))"#)), 97);
    assert_eq!(int_of(&src(r#"(%c2i (%ref "abc" 2))"#)), 99);
}

#[test]
fn append_concatenates() {
    assert_eq!(int_of(&src(r#"(%len (%app "ab" "cd"))"#)), 4);
    assert_eq!(int_of(&src(r#"(%c2i (%ref (%app "ab" "cd") 2))"#)), 99);
}

#[test]
fn byte_subs_third_argument_is_a_length() {
    assert_eq!(int_of(&src(r#"(%len (%sub "abcd" 1 2))"#)), 2);
    assert_eq!(int_of(&src(r#"(%c2i (%ref (%sub "abcd" 1 2) 0))"#)), 98);
    assert_eq!(int_of(&src(r#"(%c2i (%ref (%sub "abcd" 1 2) 1))"#)), 99);
}

#[test]
fn str_to_sym_interns() {
    assert!(truthy(&src(r#"(eq? (%s2y "alpha") (lit alpha))"#)));
}

#[test]
fn sym_to_str_recovers_the_name() {
    assert_eq!(text_of(&src("(%y2s (lit alpha))")), "alpha");
}

#[test]
fn bytes_to_str_builds_from_a_list() {
    assert_eq!(int_of(&src("(%len (%b2s (pair 97 (pair 98 ()))))")), 2);
    assert_eq!(
        int_of(&src("(%c2i (%ref (%b2s (pair 97 (pair 98 ()))) 1))")),
        98
    );
}

#[test]
fn str_a_non_string_operand_is_read_not_refused() {
    assert!(!raises(&src("(%len 5)")));
    assert!(!raises(&src("(%app 1 2)")));
}

