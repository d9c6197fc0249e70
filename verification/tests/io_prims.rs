use lib::diag::Cond;
use lib::engine::Engine;
use lib::obj::Obj;

const NIL: Obj = Obj(0);

const ROUTES: [&str; 26] = [
    "prims", "type-alist", "error-str", "err-line", "err-file", "file-registry",
    "obj-meta-extra", "env", "heap-mark-hooks", "heap-free-hooks", "heap-mark-roots",
    "alloc-limit", "alloc-count", "line", "files", "profile", "false", "filein", "buffer",
    "save-stack", "tco-expr", "tco-env", "sigint", "error-handler", "true", "env-global-tree",
];

/// The engine's committed route file: one `(name base r ...)` row per route.
fn base_paths() -> String {
    let mut rows = String::new();
    for (i, r) in ROUTES.iter().enumerate() {
        rows.push_str(&format!("({} base{})\n", r, " r".repeat(i)));
    }
    format!("(def %base-paths (lit (\n{})))\n", rows)
}

const CATALOG: &str = r#"
(include "tools/contract/base-paths.x")
(def %assoc (fn (self k l)
  (match ((eq? l ()) ())
         ((eq? (first (first l)) k) (first l))
         (#t (self k (rest l))))))
(def %walk (fn (self steps o)
  (match ((eq? steps ()) o)
         ((eq? (first steps) (lit f)) (self (rest steps) (first o)))
         (#t (self (rest steps) (rest o))))))
(def %cat (first (%walk (rest (rest (%assoc (lit prims) %base-paths))) (%base))))
(def %coord (fn (self ns m) (rest (%assoc m (rest (%assoc ns %cat))))))
"#;

fn fresh() -> Engine {
    let mut e = Engine::new();
    e.add_source("tools/contract/base-paths.x", &base_paths());
    e
}

#[allow(dead_code)]
fn coords(bindings: &[(&str, &str, &str)]) -> String {
    bindings
        .iter()
        .map(|(name, ns, method)| format!("(def {} (%coord (lit {}) (lit {})))\n", name, ns, method))
        .collect()
}

#[allow(dead_code)]
fn with_coords(bindings: &[(&str, &str, &str)], body: &str) -> String {
    format!("{}\n{}", coords(bindings), body)
}

#[allow(dead_code)]
fn eval(src: &str) -> (Engine, Result<Obj, Cond>) {
    let mut e = fresh();
    let full = format!("{}\n{}", CATALOG, src);
    let v = e.eval_str(&full);
    (e, v)
}

#[allow(dead_code)]
fn eval_ok(src: &str) -> (Engine, Obj) {
    let (e, v) = eval(src);
    match v {
        Ok(v) => (e, v),
        Err(cond) => panic!("{}\n  in: {}", cond.diagnostic(&e.objects).to_string(), src),
    }
}

#[allow(dead_code)]
fn raises(src: &str) -> bool {
    eval(src).1.is_err()
}

#[allow(dead_code)]
fn truthy(src: &str) -> bool {
    let (e, v) = eval_ok(src);
    e.objects.truthy(v)
}

#[allow(dead_code)]
fn int_of(src: &str) -> i64 {
    let (e, v) = eval_ok(src);
    assert!(e.objects.is_int(v), "expected an integer from: {}", src);
    e.objects.int_val(v)
}

#[allow(dead_code)]
fn text_of(src: &str) -> String {
    let (e, v) = eval_ok(src);
    lib::diag::value_text(&e.objects, v)
}

#[test]
fn write_str_answers_nil() {
    assert!(truthy(r#"(eq? ((%coord (lit io) (lit write-str)) "") ())"#));
}

#[test]
fn io_a_non_string_operand_is_read_not_refused() {
    assert!(!raises("((%coord (lit io) (lit write-str)) 5)"));
}

#[test]
fn read_char_at_end_of_input_is_nil() {
    assert!(truthy("(eq? ((%coord (lit io) (lit read-char))) ())"));
}

#[test]
fn repl_read_tells_the_value_nil_apart_from_the_end_of_input() {
    let mut e = fresh();
    e.set_input("()");
    let read = e
        .eval_str(&format!("{}\n(%coord (lit io) (lit repl-read))", CATALOG))
        .expect("repl-read");

    // `()` reads as nil and is a VALUE. It must not look like an ending.
    let env = e.root_env();
    let first = e.call_with_values(read, vec![], env, lib::eval::DEPTH).expect("first read");
    assert!(first.is_nil(), "() reads as nil");
    assert!(
        !e.objects.is_token_eof(first),
        "the value nil must not be the sentinel"
    );

    // Now the input really is exhausted.
    let second = e.call_with_values(read, vec![], env, lib::eval::DEPTH).expect("second read");
    assert!(
        e.objects.is_token_eof(second),
        "end of input must answer %token-eof"
    );
}

#[test]
fn read_folds_the_end_of_input_where_repl_read_does_not() {
    let mut e = fresh();
    e.set_input("");
    let read = e
        .eval_str(&format!("{}\n(%coord (lit io) (lit read))", CATALOG))
        .expect("read");
    let env = e.root_env();
    let v = e.call_with_values(read, vec![], env, lib::eval::DEPTH).expect("read at eof");
    assert!(v.is_nil(), "read folds end of input to nil");
    assert!(
        !e.objects.is_token_eof(v),
        "and does NOT answer the sentinel"
    );
}

#[test]
fn the_sentinel_is_not_confusable_with_nil_or_a_number() {
    assert!(truthy("(match ((eq? %token-eof ()) ()) (#t 1))"));
    assert!(truthy("(match ((eq? %token-eof 0) ()) (#t 1))"));
    assert!(truthy("(same? %token-eof %token-eof)"));
}

