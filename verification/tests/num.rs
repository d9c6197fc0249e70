use lib::diag::Cond;
use lib::engine::Engine;
use lib::obj::Obj;
use lib::prims::num::{shl, shr};

const NIL: Obj = Obj(0);

const ROUTES: [&str; 26] = [
    "prims", "type-alist", "error-str", "err-line", "err-file", "file-registry",
    "obj-meta-extra", "env", "heap-mark-hooks", "heap-free-hooks", "heap-mark-roots",
    "alloc-limit", "alloc-count", "line", "files", "profile", "false", "filein", "buffer",
    "save-stack", "tco-expr", "tco-env", "sigint", "error-handler", "true", "env-global-tree",
];

/// The engine's committed route file: one `(name base r ...)` row per route.
fn base_paths() -> String {
    let mut rows = String::new();
    for (i, r) in ROUTES.iter().enumerate() {
        rows.push_str(&format!("({} base{})\n", r, " r".repeat(i)));
    }
    format!("(def %base-paths (lit (\n{})))\n", rows)
}

const CATALOG: &str = r#"
(include "tools/contract/base-paths.x")
(def %assoc (fn (self k l)
  (match ((eq? l ()) ())
         ((eq? (first (first l)) k) (first l))
         (#t (self k (rest l))))))
(def %walk (fn (self steps o)
  (match ((eq? steps ()) o)
         ((eq? (first steps) (lit f)) (self (rest steps) (first o)))
         (#t (self (rest steps) (rest o))))))
(def %cat (first (%walk (rest (rest (%assoc (lit prims) %base-paths))) (%base))))
(def %coord (fn (self ns m) (rest (%assoc m (rest (%assoc ns %cat))))))
"#;

fn fresh() -> Engine {
    let mut e = Engine::new();
    e.add_source("tools/contract/base-paths.x", &base_paths());
    e
}

#[allow(dead_code)]
fn coords(bindings: &[(&str, &str, &str)]) -> String {
    bindings
        .iter()
        .map(|(name, ns, method)| format!("(def {} (%coord (lit {}) (lit {})))\n", name, ns, method))
        .collect()
}

#[allow(dead_code)]
fn with_coords(bindings: &[(&str, &str, &str)], body: &str) -> String {
    format!("{}\n{}", coords(bindings), body)
}

#[allow(dead_code)]
fn eval(src: &str) -> (Engine, Result<Obj, Cond>) {
    let mut e = fresh();
    let full = format!("{}\n{}", CATALOG, src);
    let v = e.eval_str(&full);
    (e, v)
}

#[allow(dead_code)]
fn eval_ok(src: &str) -> (Engine, Obj) {
    let (e, v) = eval(src);
    match v {
        Ok(v) => (e, v),
        Err(cond) => panic!("{}\n  in: {}", cond.diagnostic(&e.objects).to_string(), src),
    }
}

#[allow(dead_code)]
fn raises(src: &str) -> bool {
    eval(src).1.is_err()
}

#[allow(dead_code)]
fn truthy(src: &str) -> bool {
    let (e, v) = eval_ok(src);
    e.objects.truthy(v)
}

#[allow(dead_code)]
fn int_of(src: &str) -> i64 {
    let (e, v) = eval_ok(src);
    assert!(e.objects.is_int(v), "expected an integer from: {}", src);
    e.objects.int_val(v)
}

#[allow(dead_code)]
fn text_of(src: &str) -> String {
    let (e, v) = eval_ok(src);
    lib::diag::value_text(&e.objects, v)
}

#[test]
    fn shifts_are_on_the_unsigned_word() {
        assert_eq!(shl(1, 4), 16);
        assert_eq!(shr(16, 4), 1);
        assert_eq!(shr(-1, 63), 1, "a logical shift, not an arithmetic one");
    }

#[test]
    fn an_over_wide_shift_count_wraps() {
        assert_eq!(shl(1, 64), 1, "64 masks to 0");
        let _ = shl(1, 200);
        let _ = shr(1, 200);
    }

#[test]
    fn arithmetic_wraps_rather_than_panicking() {
        assert_eq!(i64::MAX.wrapping_add(1), i64::MIN);
        assert_eq!(i64::MIN.wrapping_sub(1), i64::MAX);
    }

#[test]
fn arithmetic() {
    assert_eq!(int_of("(+ 2 3)"), 5);
    assert_eq!(int_of("(- 9 4)"), 5);
    assert_eq!(int_of("(* 6 7)"), 42);
    assert_eq!(int_of("(/ 7 2)"), 3, "integer division truncates");
    assert_eq!(int_of("(% 7 2)"), 1);
}

#[test]
fn bitwise() {
    assert_eq!(int_of("(& 12 10)"), 8);
    assert_eq!(int_of("(| 12 10)"), 14);
    assert_eq!(int_of("(^ 12 10)"), 6);
    assert_eq!(int_of("(~ 0)"), -1);
    assert_eq!(int_of("(<< 1 4)"), 16);
    assert_eq!(int_of("(>> 16 4)"), 1);
}

#[test]
fn division_by_zero_answers_zero() {
    assert_eq!(int_of("(/ 1 0)"), 0);
    assert_eq!(int_of("(% 1 0)"), 0);
}

#[test]
fn division_overflow_wraps_rather_than_panicking() {
    assert!(!raises("(/ (- 0 9223372036854775807) (- 0 1))"));
}

#[test]
fn comparison_answers_truthy_or_nil() {
    assert!(truthy("(< 1 2)"));
    assert!(!truthy("(< 2 1)"));
    assert!(truthy("(= 3 3)"));
    assert!(!truthy("(= 3 4)"));
}

#[test]
fn coordinate_and_bare_binding_are_the_same_object() {
    let (e, v) = eval_ok("(same? + (%coord (lit int) (lit +)))");
    assert!(e.objects.truthy(v), "(int +) and + must be the same object");
}


#[test]
fn extra_operands_are_ignored() {
    assert_eq!(int_of("(+ 1 2 99)"), 3);
}

#[test]
fn a_non_number_operand_is_read_not_refused() {
    assert!(!raises("(+ 1 (lit a))"));
    assert!(!raises(r#"(* 2 "s")"#));
}

