use lib::diag::Cond;
use lib::engine::Engine;
use lib::obj::Obj;

const NIL: Obj = Obj(0);

const ROUTES: [&str; 26] = [
    "prims", "type-alist", "error-str", "err-line", "err-file", "file-registry",
    "obj-meta-extra", "env", "heap-mark-hooks", "heap-free-hooks", "heap-mark-roots",
    "alloc-limit", "alloc-count", "line", "files", "profile", "false", "filein", "buffer",
    "save-stack", "tco-expr", "tco-env", "sigint", "error-handler", "true", "env-global-tree",
];

/// The engine's committed route file: one `(name base r ...)` row per route.
fn base_paths() -> String {
    let mut rows = String::new();
    for (i, r) in ROUTES.iter().enumerate() {
        rows.push_str(&format!("({} base{})\n", r, " r".repeat(i)));
    }
    format!("(def %base-paths (lit (\n{})))\n", rows)
}

const CATALOG: &str = r#"
(include "tools/contract/base-paths.x")
(def %assoc (fn (self k l)
  (match ((eq? l ()) ())
         ((eq? (first (first l)) k) (first l))
         (#t (self k (rest l))))))
(def %walk (fn (self steps o)
  (match ((eq? steps ()) o)
         ((eq? (first steps) (lit f)) (self (rest steps) (first o)))
         (#t (self (rest steps) (rest o))))))
(def %cat (first (%walk (rest (rest (%assoc (lit prims) %base-paths))) (%base))))
(def %coord (fn (self ns m) (rest (%assoc m (rest (%assoc ns %cat))))))
"#;

fn fresh() -> Engine {
    let mut e = Engine::new();
    e.add_source("tools/contract/base-paths.x", &base_paths());
    e
}

#[allow(dead_code)]
fn coords(bindings: &[(&str, &str, &str)]) -> String {
    bindings
        .iter()
        .map(|(name, ns, method)| format!("(def {} (%coord (lit {}) (lit {})))\n", name, ns, method))
        .collect()
}

#[allow(dead_code)]
fn with_coords(bindings: &[(&str, &str, &str)], body: &str) -> String {
    format!("{}\n{}", coords(bindings), body)
}

#[allow(dead_code)]
fn eval(src: &str) -> (Engine, Result<Obj, Cond>) {
    let mut e = fresh();
    let full = format!("{}\n{}", CATALOG, src);
    let v = e.eval_str(&full);
    (e, v)
}

#[allow(dead_code)]
fn eval_ok(src: &str) -> (Engine, Obj) {
    let (e, v) = eval(src);
    match v {
        Ok(v) => (e, v),
        Err(cond) => panic!("{}\n  in: {}", cond.diagnostic(&e.objects).to_string(), src),
    }
}

#[allow(dead_code)]
fn raises(src: &str) -> bool {
    eval(src).1.is_err()
}

#[allow(dead_code)]
fn truthy(src: &str) -> bool {
    let (e, v) = eval_ok(src);
    e.objects.truthy(v)
}

#[allow(dead_code)]
fn int_of(src: &str) -> i64 {
    let (e, v) = eval_ok(src);
    assert!(e.objects.is_int(v), "expected an integer from: {}", src);
    e.objects.int_val(v)
}

#[allow(dead_code)]
fn text_of(src: &str) -> String {
    let (e, v) = eval_ok(src);
    lib::diag::value_text(&e.objects, v)
}

#[test]
fn argv_is_bound_as_a_list_of_strings() {
    let mut e = Engine::new();
    e.bind_args(&["--batch", "file.x"]);
    let env = e.root_env();
    let name = e.objects.sym("args");
    let args = e.envs.lookup(&e.objects, env, name).expect("args bound");
    let items: Vec<Obj> = e.objects.list(args); 
    assert_eq!(items.len(), 2);
    assert_eq!(e.objects.str_val(items[0]), "--batch");
    assert_eq!(e.objects.str_val(items[1]), "file.x");
}

#[test]
fn no_arguments_bind_the_empty_list() {
    let mut e = Engine::new();
    let empty: [&str; 0] = [];
    e.bind_args(&empty);
    let env = e.root_env();
    let name = e.objects.sym("args");
    assert!(e
        .envs
        .lookup(&e.objects, env, name)
        .expect("bound")
        .is_nil());
}

#[test]
fn forms_are_read_in_order_and_then_the_stream_ends() {
    let mut e = Engine::new();
    e.set_input("1 2");
    let a = e.next_form().expect("first");
    let b = e.next_form().expect("second");
    assert_eq!(e.objects.as_int(a), 1);
    assert_eq!(e.objects.as_int(b), 2);
    assert!(e.next_form().is_none());
}

#[test]
fn the_input_stream_is_shared_with_the_engine() {
    let mut e = Engine::new();
    e.set_input("1 xyz");
    let _ = e.next_form().expect("the first form");
    assert_eq!(e.read_byte(), Some(b' '), "the rest is still there");
}

#[test]
fn a_streamed_input_refills_per_byte_and_latches_eof() {
    let mut e = Engine::new();
    e.set_input_stream(b"(+ 1 2) 7".to_vec());
    let a = e.next_form().expect("first form");
    let v = e.eval_top(a).expect("evaluates");
    assert_eq!(e.objects.as_int(v), 3);
    e.compact_input();
    let b = e.next_form().expect("second form");
    assert_eq!(e.objects.as_int(b), 7);
    assert!(e.next_form().is_none(), "the stream ends");
    let row = lib::base::get(&e.objects, e.base, lib::base::FILEIN);
    let fd = e.objects.first(row);
    assert!(e.objects.as_int(fd) < 0, "EOF latched the filein head");
    assert_eq!(e.objects.as_int(fd), !0i64, "as the fd's complement");
}

#[test]
fn top_level_forms_evaluate_in_the_engines_own_base() {
    let mut e = Engine::new();
    e.set_input("(def x 41) (+ x 1)");
    let mut last = NIL;
    while let Some(f) = e.next_form() {
        last = e.eval_top(f).expect("evaluates");
    }
    assert_eq!(e.objects.as_int(last), 42);
}

