use lib::diag::Cond;
use lib::engine::Engine;
use lib::obj::Obj;

const NIL: Obj = Obj(0);

const ROUTES: [&str; 26] = [
    "prims", "type-alist", "error-str", "err-line", "err-file", "file-registry",
    "obj-meta-extra", "env", "heap-mark-hooks", "heap-free-hooks", "heap-mark-roots",
    "alloc-limit", "alloc-count", "line", "files", "profile", "false", "filein", "buffer",
    "save-stack", "tco-expr", "tco-env", "sigint", "error-handler", "true", "env-global-tree",
];

/// The engine's committed route file: one `(name base r ...)` row per route.
fn base_paths() -> String {
    let mut rows = String::new();
    for (i, r) in ROUTES.iter().enumerate() {
        rows.push_str(&format!("({} base{})\n", r, " r".repeat(i)));
    }
    format!("(def %base-paths (lit (\n{})))\n", rows)
}

const CATALOG: &str = r#"
(include "tools/contract/base-paths.x")
(def %assoc (fn (self k l)
  (match ((eq? l ()) ())
         ((eq? (first (first l)) k) (first l))
         (#t (self k (rest l))))))
(def %walk (fn (self steps o)
  (match ((eq? steps ()) o)
         ((eq? (first steps) (lit f)) (self (rest steps) (first o)))
         (#t (self (rest steps) (rest o))))))
(def %cat (first (%walk (rest (rest (%assoc (lit prims) %base-paths))) (%base))))
(def %coord (fn (self ns m) (rest (%assoc m (rest (%assoc ns %cat))))))
"#;

fn fresh() -> Engine {
    let mut e = Engine::new();
    e.add_source("tools/contract/base-paths.x", &base_paths());
    e
}

#[allow(dead_code)]
fn coords(bindings: &[(&str, &str, &str)]) -> String {
    bindings
        .iter()
        .map(|(name, ns, method)| format!("(def {} (%coord (lit {}) (lit {})))\n", name, ns, method))
        .collect()
}

#[allow(dead_code)]
fn with_coords(bindings: &[(&str, &str, &str)], body: &str) -> String {
    format!("{}\n{}", coords(bindings), body)
}

#[allow(dead_code)]
fn eval(src: &str) -> (Engine, Result<Obj, Cond>) {
    let mut e = fresh();
    let full = format!("{}\n{}", CATALOG, src);
    let v = e.eval_str(&full);
    (e, v)
}

#[allow(dead_code)]
fn eval_ok(src: &str) -> (Engine, Obj) {
    let (e, v) = eval(src);
    match v {
        Ok(v) => (e, v),
        Err(cond) => panic!("{}\n  in: {}", cond.diagnostic(&e.objects).to_string(), src),
    }
}

#[allow(dead_code)]
fn raises(src: &str) -> bool {
    eval(src).1.is_err()
}

#[allow(dead_code)]
fn truthy(src: &str) -> bool {
    let (e, v) = eval_ok(src);
    e.objects.truthy(v)
}

#[allow(dead_code)]
fn int_of(src: &str) -> i64 {
    let (e, v) = eval_ok(src);
    assert!(e.objects.is_int(v), "expected an integer from: {}", src);
    e.objects.int_val(v)
}

#[allow(dead_code)]
fn text_of(src: &str) -> String {
    let (e, v) = eval_ok(src);
    lib::diag::value_text(&e.objects, v)
}

#[test]
fn set_rebinds_and_refuses_an_unbound_name() {
    assert_eq!(int_of("(def x 1) (set! x 2) x"), 2);
    assert!(raises("(set! never-bound 1)"));
}

#[test]
fn set_reaches_the_frame_the_name_lives_in() {
    assert_eq!(
        int_of("(def x 1) (def bump (fn (self) (set! x 2))) (bump) x"),
        2
    );
}

#[test]
fn a_top_level_def_is_global() {
    assert_eq!(int_of("(def x 7) x"), 7);
}

#[test]
fn a_def_reached_through_tail_evals_is_global() {
    let src = "(def myif (op (t th . el) e
                 (match ((eval t e) (tail-eval th e)) (#t (tail-eval (first el) e)))))
               (def outer (op (x) e (myif #f 1 (def zz 7))))
               (outer 0)
               zz";
    assert_eq!(int_of(src), 7);
}

#[test]
fn set_refuses_a_name_that_does_not_exist() {
    assert!(raises("(set! never-defined 1)"));
}


#[test]
fn op_receives_its_arguments_unevaluated() {
    assert!(truthy(
        "(def q (op (x) e x))
         (eq? (q no-such-binding-anywhere) (lit no-such-binding-anywhere))"
    ));
}

#[test]
fn an_operative_can_evaluate_in_the_callers_environment() {
    assert_eq!(
        int_of("(def deref (op (x) e (eval x e))) (def y 9) (deref y)"),
        9
    );
}

#[test]
fn closures_are_lexically_scoped() {
    assert_eq!(int_of("(def mk (fn (self n) (fn (self2) n))) ((mk 7))"), 7);
}

#[test]
fn fn_binds_self_so_it_can_recurse_unnamed() {
    assert_eq!(
        int_of(
            "(def len (fn (self l n)
               (match ((eq? l ()) n) (#t (self (rest l) (+ n 1))))))
             (len (lit (a b c d)) 0)"
        ),
        4
    );
}


#[test]
fn guard_binds_the_raised_value() {
    assert!(truthy("(eq? (guard (e e) (error (lit boom))) (lit boom))"));
}

#[test]
fn guard_lets_a_normal_value_through() {
    assert_eq!(int_of("(guard (e 0) 42)"), 42);
}

#[test]
fn match_uses_x_langs_falsy_set() {
    assert_eq!(int_of("(match (0 1) (#t 2))"), 1, "zero is true");
    assert_eq!(int_of("(match (#f 1) (#t 2))"), 2);
    assert_eq!(int_of("(match (() 1) (#t 2))"), 2);
}

#[test]
fn match_with_no_true_arm_is_nil() {
    assert!(truthy("(eq? (match (#f 1)) ())"));
}


#[test]
fn lit_answers_its_argument_unevaluated() {
    assert!(truthy("(eq? (lit nope) (lit nope))"));
    assert!(truthy("(eq? (first (lit (a b))) (lit a))"));
}

#[test]
fn lit_of_a_list_is_the_list_not_a_call() {
    assert!(truthy(
        "(eq? (first (lit (undefined-fn 1))) (lit undefined-fn))"
    ));
}

