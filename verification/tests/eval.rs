use lib::diag::Cond;
use lib::engine::Engine;
use lib::obj::Obj;

const NIL: Obj = Obj(0);

const ROUTES: [&str; 26] = [
    "prims", "type-alist", "error-str", "err-line", "err-file", "file-registry",
    "obj-meta-extra", "env", "heap-mark-hooks", "heap-free-hooks", "heap-mark-roots",
    "alloc-limit", "alloc-count", "line", "files", "profile", "false", "filein", "buffer",
    "save-stack", "tco-expr", "tco-env", "sigint", "error-handler", "true", "env-global-tree",
];

/// The engine's committed route file: one `(name base r ...)` row per route.
fn base_paths() -> String {
    let mut rows = String::new();
    for (i, r) in ROUTES.iter().enumerate() {
        rows.push_str(&format!("({} base{})\n", r, " r".repeat(i)));
    }
    format!("(def %base-paths (lit (\n{})))\n", rows)
}

const CATALOG: &str = r#"
(include "tools/contract/base-paths.x")
(def %assoc (fn (self k l)
  (match ((eq? l ()) ())
         ((eq? (first (first l)) k) (first l))
         (#t (self k (rest l))))))
(def %walk (fn (self steps o)
  (match ((eq? steps ()) o)
         ((eq? (first steps) (lit f)) (self (rest steps) (first o)))
         (#t (self (rest steps) (rest o))))))
(def %cat (first (%walk (rest (rest (%assoc (lit prims) %base-paths))) (%base))))
(def %coord (fn (self ns m) (rest (%assoc m (rest (%assoc ns %cat))))))
"#;

fn fresh() -> Engine {
    let mut e = Engine::new();
    e.add_source("tools/contract/base-paths.x", &base_paths());
    e
}

#[allow(dead_code)]
fn coords(bindings: &[(&str, &str, &str)]) -> String {
    bindings
        .iter()
        .map(|(name, ns, method)| format!("(def {} (%coord (lit {}) (lit {})))\n", name, ns, method))
        .collect()
}

#[allow(dead_code)]
fn with_coords(bindings: &[(&str, &str, &str)], body: &str) -> String {
    format!("{}\n{}", coords(bindings), body)
}

#[allow(dead_code)]
fn eval(src: &str) -> (Engine, Result<Obj, Cond>) {
    let mut e = fresh();
    let full = format!("{}\n{}", CATALOG, src);
    let v = e.eval_str(&full);
    (e, v)
}

#[allow(dead_code)]
fn eval_ok(src: &str) -> (Engine, Obj) {
    let (e, v) = eval(src);
    match v {
        Ok(v) => (e, v),
        Err(cond) => panic!("{}\n  in: {}", cond.diagnostic(&e.objects).to_string(), src),
    }
}

#[allow(dead_code)]
fn raises(src: &str) -> bool {
    eval(src).1.is_err()
}

#[allow(dead_code)]
fn truthy(src: &str) -> bool {
    let (e, v) = eval_ok(src);
    e.objects.truthy(v)
}

#[allow(dead_code)]
fn int_of(src: &str) -> i64 {
    let (e, v) = eval_ok(src);
    assert!(e.objects.is_int(v), "expected an integer from: {}", src);
    e.objects.int_val(v)
}

#[allow(dead_code)]
fn text_of(src: &str) -> String {
    let (e, v) = eval_ok(src);
    lib::diag::value_text(&e.objects, v)
}

#[test]
fn literals_evaluate_to_themselves() {
    assert_eq!(int_of("7"), 7);
    assert!(truthy(r#"(eq? (lit ()) ())"#));
}

#[test]
fn a_symbol_resolves_and_an_unbound_one_raises() {
    assert_eq!(int_of("(def x 5) x"), 5);
    assert!(raises("no-such-name"));
}

#[test]
fn a_non_callable_head_makes_the_form_data() {
    assert!(!raises("(1 2)"));
    assert!(truthy("(eq? (first (1 2)) 1)"));
}

#[test]
fn arguments_are_evaluated_once_each() {
    assert_eq!(
        int_of("(def n 0) (def bump (fn (self) (set! n (+ n 1)))) (+ (bump) (bump)) n"),
        2
    );
}

#[test]
fn operands_are_padded_and_extras_dropped() {
    assert!(raises("(+ 1)"));
    assert_eq!(int_of("(+ 1 2 99)"), 3);
}

#[test]
fn a_closures_values_line_up_behind_its_names() {
    assert_eq!(int_of("((fn (self a b) (- a b)) 9 4)"), 5);
    assert!(truthy("((fn (self) (same? self self)))"));
}

#[test]
fn a_rest_parameter_collects_what_remains() {
    assert_eq!(int_of("((fn (self a . more) (first more)) 1 2 3)"), 2);
    assert!(truthy("(eq? ((fn (self . more) more) ) ())"));
}

#[test]
fn a_closure_resolves_names_where_it_was_written() {
    assert_eq!(
        int_of("(def m 1) (def get (fn (self) m)) (def call (fn (self) (%seq (def m 5) ()) (get))) (call)"),
        1
    );
}

#[test]
fn a_tail_def_binds_globally() {
    assert_eq!(
        int_of("(def n 1) (def get (fn (self) n)) (def call (fn (self) (%seq (def n 2) (get)))) (call)"),
        2
    );
    assert_eq!(
        int_of("(def n 1) (def call (fn (self) (%seq (def n 2) ()))) (call) n"),
        2
    );
}

#[test]
fn a_library_eval_handler_receives_the_environment() {
    let program = format!(
        "{}{}",
        CATALOG,
        "(def %tmake (%coord (lit type) (lit make)))
         (def %minst (%coord (lit type) (lit make-instance)))
         (def h (%tmake \"ENV-EVAL\" (pair (pair (lit eval)
           (fn (self v env) (eval (lit target) env))) ())))
         (def i (%minst h 7))
         (def target 55)
         (eval i ())"
    );
    assert_eq!(
        int_of(&program),
        55,
        "the hook resolved a name through the environment it was handed"
    );
}

#[test]
fn evaluation_is_replaceable_through_the_type() {
    let mut e = lib::engine::Engine::new();
    let hook = e.eval_str("(fn (_ s) 42)").unwrap();
    let base = e.objects.base;
    let ty = e.objects.builtin_type_in(base, lib::obj::Flags(lib::objects::SYM_BITS));
    let old = e.objects.type_handler(ty, lib::vocabulary::Family::Eval);
    e.objects
        .type_set_handler(ty, lib::vocabulary::Family::Eval, hook);
    let v = e.eval_str("certainly-unbound").unwrap();
    assert_eq!(e.objects.as_int(v), 42, "the replaced meaning governs");
    e.objects
        .type_set_handler(ty, lib::vocabulary::Family::Eval, old);
    assert!(
        e.eval_str("certainly-unbound").is_err(),
        "and the restored one raises unbound again"
    );
}

#[test]
fn application_is_replaceable_through_the_type() {
    let mut e = lib::engine::Engine::new();
    let hook = e.eval_str("(op (f . a) env 99)").unwrap();
    let base = e.objects.base;
    let ty = e.objects.builtin_type_in(base, lib::obj::Flags(lib::objects::FN_BITS));
    let old = e.objects.type_handler(ty, lib::vocabulary::Family::Call);
    e.objects
        .type_set_handler(ty, lib::vocabulary::Family::Call, hook);
    let v = e.eval_str("((fn (self x) x) 7)").unwrap();
    assert_eq!(
        e.objects.as_int(v),
        99,
        "the replaced meaning governs every closure call"
    );
    e.objects
        .type_set_handler(ty, lib::vocabulary::Family::Call, old);
    let v = e.eval_str("((fn (self x) x) 7)").unwrap();
    assert_eq!(e.objects.as_int(v), 7, "and the restored one applies again");
}

#[test]
fn an_operative_receives_forms_not_values() {
    assert!(truthy("(def q (op (x) e x)) (eq? (q nope) (lit nope))"));
}

#[test]
fn a_raise_propagates_through_nested_calls() {
    assert!(raises("((fn (self) ((fn (s2) (error 1)))))"));
    assert_eq!(int_of("(guard (e 9) ((fn (self) (error 1))))"), 9);
}

#[test]
fn a_source_string_answers_its_last_form() {
    let (e, v) = eval_ok("(def a 1) (def b 2) (+ a b)");
    assert_eq!(e.objects.as_int(v), 3);
}


#[test]
fn a_list_called_with_an_index_answers_that_element() {
    assert_eq!(int_of("((lit (10 20 30)) 1)"), 20);
    assert_eq!(int_of("((lit (10 20 30)) -1)"), 30);
    assert_eq!(int_of("((lit (10 20 30)) -3)"), 10);
    assert!(truthy("(eq? ((lit (10 20 30)) 3) ())"));
    assert!(truthy("(eq? ((lit (10 20 30)) -4) ())"));
}

#[test]
fn a_list_called_with_a_start_and_length_answers_a_fresh_slice() {
    assert_eq!(text_of("((lit (10 20 30 40)) 1 2)"), "(20 30)");
    assert_eq!(text_of("((lit (10 20 30 40)) 2 9)"), "(30 40)");
    assert!(truthy("(eq? ((lit (10 20 30)) 3 1) ())"));
    assert!(truthy("(eq? ((lit (10 20 30)) 0 0) ())"));
    assert!(truthy("(eq? ((lit (10 20 30)) -1 2) ())"));
}
