use lib::prims::tok::{better, span_of};
use lib::diag::Cond;
use lib::engine::Engine;
use lib::obj::Obj;

const NIL: Obj = Obj(0);

const ROUTES: [&str; 26] = [
    "prims", "type-alist", "error-str", "err-line", "err-file", "file-registry",
    "obj-meta-extra", "env", "heap-mark-hooks", "heap-free-hooks", "heap-mark-roots",
    "alloc-limit", "alloc-count", "line", "files", "profile", "false", "filein", "buffer",
    "save-stack", "tco-expr", "tco-env", "sigint", "error-handler", "true", "env-global-tree",
];

/// The engine's committed route file: one `(name base r ...)` row per route.
fn base_paths() -> String {
    let mut rows = String::new();
    for (i, r) in ROUTES.iter().enumerate() {
        rows.push_str(&format!("({} base{})\n", r, " r".repeat(i)));
    }
    format!("(def %base-paths (lit (\n{})))\n", rows)
}

const CATALOG: &str = r#"
(include "tools/contract/base-paths.x")
(def %assoc (fn (self k l)
  (match ((eq? l ()) ())
         ((eq? (first (first l)) k) (first l))
         (#t (self k (rest l))))))
(def %walk (fn (self steps o)
  (match ((eq? steps ()) o)
         ((eq? (first steps) (lit f)) (self (rest steps) (first o)))
         (#t (self (rest steps) (rest o))))))
(def %cat (first (%walk (rest (rest (%assoc (lit prims) %base-paths))) (%base))))
(def %coord (fn (self ns m) (rest (%assoc m (rest (%assoc ns %cat))))))
"#;

fn fresh() -> Engine {
    let mut e = Engine::new();
    e.add_source("tools/contract/base-paths.x", &base_paths());
    e
}

#[allow(dead_code)]
fn coords(bindings: &[(&str, &str, &str)]) -> String {
    bindings
        .iter()
        .map(|(name, ns, method)| format!("(def {} (%coord (lit {}) (lit {})))\n", name, ns, method))
        .collect()
}

#[allow(dead_code)]
fn with_coords(bindings: &[(&str, &str, &str)], body: &str) -> String {
    format!("{}\n{}", coords(bindings), body)
}

#[allow(dead_code)]
fn eval(src: &str) -> (Engine, Result<Obj, Cond>) {
    let mut e = fresh();
    let full = format!("{}\n{}", CATALOG, src);
    let v = e.eval_str(&full);
    (e, v)
}

#[allow(dead_code)]
fn eval_ok(src: &str) -> (Engine, Obj) {
    let (e, v) = eval(src);
    match v {
        Ok(v) => (e, v),
        Err(cond) => panic!("{}\n  in: {}", cond.diagnostic(&e.objects).to_string(), src),
    }
}

#[allow(dead_code)]
fn raises(src: &str) -> bool {
    eval(src).1.is_err()
}

#[allow(dead_code)]
fn truthy(src: &str) -> bool {
    let (e, v) = eval_ok(src);
    e.objects.truthy(v)
}

#[allow(dead_code)]
fn int_of(src: &str) -> i64 {
    let (e, v) = eval_ok(src);
    assert!(e.objects.is_int(v), "expected an integer from: {}", src);
    e.objects.int_val(v)
}

#[allow(dead_code)]
fn text_of(src: &str) -> String {
    let (e, v) = eval_ok(src);
    lib::diag::value_text(&e.objects, v)
}

/// The analyser program the delimiter check runs: a digit-run type on a
/// token base, its data offset derived from the object layout.
fn digits_program() -> String {
    let off = lib::objects::META_LEN * 8;
    let p = r#"
        (def %digit? (fn (_ c) (match ((< c 48) ()) ((< 57 c) ()) (#t 1))))
        (def %o2p (%coord (lit obj) (lit ->ptr)))
        (def %refw (%coord (lit ptr) (lit ref-word)))
        (def %setw (%coord (lit ptr) (lit set-word!)))
        (def %cellint (fn (_ x) (%refw (%o2p x) {OFF})))
        (def %setcell (fn (_ p v) (%setw (%o2p p) {OFF} v) p))
        (def %buflen (fn (_ b) (- (%cellint (rest b)) (%cellint b))))
        (def %unread (fn (_ b) (%setcell (rest b) (- (%cellint (rest b)) 1))))
        (def %scoreset (fn (_ s b) (%setcell s (%buflen b))))
        (def %digits ())
        (set! %digits (fn (_ b s c)
          (match ((%digit? c) %digits) (#t (%seq (%unread b) (%scoreset s b))))))
        (def %an (fn (_ b s c) (match ((%digit? c) %digits) (#t ()))))
        (def tb ((%coord (lit base) (lit make-tok))))
        ((%coord (lit base) (lit make-type)) tb "N"
          (pair (pair (lit analyse) %an)
                (pair (pair (lit read) (fn (_ . args) 7)) ())))
        (def %rs (%coord (lit tok) (lit read-str)))
    "#;
    p.replace("{OFF}", &off.to_string())
}

#[test]
fn a_token_must_be_delimited() {
    let p = digits_program();
    assert_eq!(
        int_of(&format!("{} (first (%rs tb \"42 \"))", p)),
        7,
        "a delimited token is read"
    );
    assert!(
        truthy(&format!("{} (eq? (%rs tb \"42\") ())", p)),
        "an undelimited one is not"
    );
}

#[test]
fn each_delimited_token_is_its_own() {
    let p = format!(
        "{}{}",
        digits_program(),
        r#"
        (def %ws-end (fn (_ b s c) (%seq (%unread b) (%scoreset s b))))
        (def %ws (fn (_ b s c) (match ((< c 32) ()) ((< 32 c) ()) (#t %ws-end))))
        ((%coord (lit base) (lit make-type)) tb "W" (pair (pair (lit analyse) %ws) ()))
        "#
    );
    assert_eq!(int_of(&format!("{} (first (rest (%rs tb \"42 43 \")))", p)), 7);
    assert!(truthy(&format!("{} (eq? (rest (rest (%rs tb \"42 43 \"))) ())", p)));
}

#[test]
fn text_no_type_claims_yields_no_tokens_on_a_token_base() {
    let p = digits_program();
    assert!(truthy(&format!("{} (eq? (%rs tb \"ab \") ())", p)));
}

#[test]
fn a_registered_type_reads_inside_the_engines_own_forms() {
    let src = r#"
        (def %bang-end (fn (_ b s c)
          ((%coord (lit ptr) (lit set-word!)) ((%coord (lit obj) (lit ->ptr)) s) {OFF} 1)
          s))
        (def %bang (fn (_ b s c) (match ((< c 33) ()) ((< 33 c) ()) (#t %bang-end))))
        ((%coord (lit base) (lit make-type)) (%base) "BANG"
          (pair (pair (lit analyse) %bang)
                (pair (pair (lit read) (fn (_ . args) 99)) ())))
        (+ 1 ! )
    "#
    .replace("{OFF}", &(lib::objects::META_LEN * 8).to_string());
    assert_eq!(int_of(&src), 100);
}

#[test]
fn the_contest_prefers_the_longer_and_the_later_claim() {
    let o = lib::obj::Obj(8);
    assert!(better(5, None));
    assert!(!better(3, Some((o, 5))));
    assert!(better(5, Some((o, 5))), "a tie goes to the later claim");
    assert!(better(7, Some((o, 5))));
    assert!(better(-2, Some((o, -1))), "below one, any claim replaces the best");
    assert!(better(4, Some((o, -1))));
    assert!(!better(-4, Some((o, 2))), "a negative claim never beats a positive one");
    assert_eq!(span_of(-3), 3);
    assert_eq!(span_of(3), 3);
    assert_eq!(span_of(i64::MIN), 1u64 << 63);
}
