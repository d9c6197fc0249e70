use lib::diag::Cond;
use lib::engine::Engine;
use lib::obj::Obj;

const NIL: Obj = Obj(0);

const ROUTES: [&str; 26] = [
    "prims", "type-alist", "error-str", "err-line", "err-file", "file-registry",
    "obj-meta-extra", "env", "heap-mark-hooks", "heap-free-hooks", "heap-mark-roots",
    "alloc-limit", "alloc-count", "line", "files", "profile", "false", "filein", "buffer",
    "save-stack", "tco-expr", "tco-env", "sigint", "error-handler", "true", "env-global-tree",
];

/// The engine's committed route file: one `(name base r ...)` row per route.
fn base_paths() -> String {
    let mut rows = String::new();
    for (i, r) in ROUTES.iter().enumerate() {
        rows.push_str(&format!("({} base{})\n", r, " r".repeat(i)));
    }
    format!("(def %base-paths (lit (\n{})))\n", rows)
}

const CATALOG: &str = r#"
(include "tools/contract/base-paths.x")
(def %assoc (fn (self k l)
  (match ((eq? l ()) ())
         ((eq? (first (first l)) k) (first l))
         (#t (self k (rest l))))))
(def %walk (fn (self steps o)
  (match ((eq? steps ()) o)
         ((eq? (first steps) (lit f)) (self (rest steps) (first o)))
         (#t (self (rest steps) (rest o))))))
(def %cat (first (%walk (rest (rest (%assoc (lit prims) %base-paths))) (%base))))
(def %coord (fn (self ns m) (rest (%assoc m (rest (%assoc ns %cat))))))
"#;

fn fresh() -> Engine {
    let mut e = Engine::new();
    e.add_source("tools/contract/base-paths.x", &base_paths());
    e
}

#[allow(dead_code)]
fn coords(bindings: &[(&str, &str, &str)]) -> String {
    bindings
        .iter()
        .map(|(name, ns, method)| format!("(def {} (%coord (lit {}) (lit {})))\n", name, ns, method))
        .collect()
}

#[allow(dead_code)]
fn with_coords(bindings: &[(&str, &str, &str)], body: &str) -> String {
    format!("{}\n{}", coords(bindings), body)
}

#[allow(dead_code)]
fn eval(src: &str) -> (Engine, Result<Obj, Cond>) {
    let mut e = fresh();
    let full = format!("{}\n{}", CATALOG, src);
    let v = e.eval_str(&full);
    (e, v)
}

#[allow(dead_code)]
fn eval_ok(src: &str) -> (Engine, Obj) {
    let (e, v) = eval(src);
    match v {
        Ok(v) => (e, v),
        Err(cond) => panic!("{}\n  in: {}", cond.diagnostic(&e.objects).to_string(), src),
    }
}

#[allow(dead_code)]
fn raises(src: &str) -> bool {
    eval(src).1.is_err()
}

#[allow(dead_code)]
fn truthy(src: &str) -> bool {
    let (e, v) = eval_ok(src);
    e.objects.truthy(v)
}

#[allow(dead_code)]
fn int_of(src: &str) -> i64 {
    let (e, v) = eval_ok(src);
    assert!(e.objects.is_int(v), "expected an integer from: {}", src);
    e.objects.int_val(v)
}

#[allow(dead_code)]
fn text_of(src: &str) -> String {
    let (e, v) = eval_ok(src);
    lib::diag::value_text(&e.objects, v)
}

fn lookup_coord(e: &mut Engine, catalog: Obj, ns: &str, m: &str) -> Option<Obj> {
    let (nsym, msym) = (e.objects.sym(ns), e.objects.sym(m));
    let methods = e
        .objects
        .list(catalog)
        .into_iter()
        .find(|&entry| e.objects.first(entry) == nsym)
        .map(|entry| e.objects.rest(entry))?;
    e.objects
        .list(methods)
        .into_iter()
        .find(|&entry| e.objects.first(entry) == msym)
        .map(|entry| e.objects.rest(entry))
}

#[test]
fn every_registered_row_is_reachable() {
    let mut e = Engine::new();
    let env = e.root_env();
    for def in lib::prims::all() {
        if let Some(name) = def.bare {
            let sym = e.objects.sym_shared(name);
            assert!(
                e.envs.lookup(&e.objects, env, sym).is_some(),
                "`{}` registered but not bound",
                name
            );
        }
    }
}

#[test]
fn a_bare_name_and_its_coordinate_are_the_same_object() {
    let mut e = Engine::new();
    let env = e.root_env();
    let catalog = lib::base::catalog_of(&e.objects, e.base);
    for def in lib::prims::all() {
        let (Some(name), Some((ns, m))) = (def.bare, def.coord) else {
            continue;
        };
        let s = e.objects.sym(name);
        let bare = e.envs.lookup(&e.objects, env, s).expect("bound");
        let filed = lookup_coord(&mut e, catalog, ns, m).expect("filed");
        assert_eq!(bare, filed, "`{}` and ({} {}) differ", name, ns, m);
    }
}

#[test]
fn the_engines_own_base_carries_every_route() {
    let mut e = Engine::new();
    for b in [e.base, e.make_base()] {
        for (n, name) in ROUTES.iter().enumerate() {
            let mut at = b;
            for _ in 0..n {
                at = e.objects.rest(at);
            }
            assert!(!at.is_nil(), "route `{}` missing from a base", name);
        }
    }
}

#[test]
fn a_fresh_base_knows_true_and_false() {
    let mut e = Engine::new();
    let b = e.make_base();
    let env = e.base_env(b);
    for name in ["#t", "#f"] {
        let sym = e.objects.sym(name);
        assert!(e.envs.lookup(&e.objects, env, sym).is_some(), "`{}` unbound", name);
    }
}

