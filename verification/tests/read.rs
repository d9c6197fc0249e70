use lib::diag::Cond;
use lib::engine::Engine;
use lib::obj::Obj;

const NIL: Obj = Obj(0);

const ROUTES: [&str; 26] = [
    "prims", "type-alist", "error-str", "err-line", "err-file", "file-registry",
    "obj-meta-extra", "env", "heap-mark-hooks", "heap-free-hooks", "heap-mark-roots",
    "alloc-limit", "alloc-count", "line", "files", "profile", "false", "filein", "buffer",
    "save-stack", "tco-expr", "tco-env", "sigint", "error-handler", "true", "env-global-tree",
];

/// The engine's committed route file: one `(name base r ...)` row per route.
fn base_paths() -> String {
    let mut rows = String::new();
    for (i, r) in ROUTES.iter().enumerate() {
        rows.push_str(&format!("({} base{})\n", r, " r".repeat(i)));
    }
    format!("(def %base-paths (lit (\n{})))\n", rows)
}

const CATALOG: &str = r#"
(include "tools/contract/base-paths.x")
(def %assoc (fn (self k l)
  (match ((eq? l ()) ())
         ((eq? (first (first l)) k) (first l))
         (#t (self k (rest l))))))
(def %walk (fn (self steps o)
  (match ((eq? steps ()) o)
         ((eq? (first steps) (lit f)) (self (rest steps) (first o)))
         (#t (self (rest steps) (rest o))))))
(def %cat (first (%walk (rest (rest (%assoc (lit prims) %base-paths))) (%base))))
(def %coord (fn (self ns m) (rest (%assoc m (rest (%assoc ns %cat))))))
"#;

fn fresh() -> Engine {
    let mut e = Engine::new();
    e.add_source("tools/contract/base-paths.x", &base_paths());
    e
}

#[allow(dead_code)]
fn coords(bindings: &[(&str, &str, &str)]) -> String {
    bindings
        .iter()
        .map(|(name, ns, method)| format!("(def {} (%coord (lit {}) (lit {})))\n", name, ns, method))
        .collect()
}

#[allow(dead_code)]
fn with_coords(bindings: &[(&str, &str, &str)], body: &str) -> String {
    format!("{}\n{}", coords(bindings), body)
}

#[allow(dead_code)]
fn eval(src: &str) -> (Engine, Result<Obj, Cond>) {
    let mut e = fresh();
    let full = format!("{}\n{}", CATALOG, src);
    let v = e.eval_str(&full);
    (e, v)
}

#[allow(dead_code)]
fn eval_ok(src: &str) -> (Engine, Obj) {
    let (e, v) = eval(src);
    match v {
        Ok(v) => (e, v),
        Err(cond) => panic!("{}\n  in: {}", cond.diagnostic(&e.objects).to_string(), src),
    }
}

#[allow(dead_code)]
fn raises(src: &str) -> bool {
    eval(src).1.is_err()
}

#[allow(dead_code)]
fn truthy(src: &str) -> bool {
    let (e, v) = eval_ok(src);
    e.objects.truthy(v)
}

#[allow(dead_code)]
fn int_of(src: &str) -> i64 {
    let (e, v) = eval_ok(src);
    assert!(e.objects.is_int(v), "expected an integer from: {}", src);
    e.objects.int_val(v)
}

#[allow(dead_code)]
fn text_of(src: &str) -> String {
    let (e, v) = eval_ok(src);
    lib::diag::value_text(&e.objects, v)
}

use lib::objects::Objects;

fn rbuf(o: &mut Objects, src: &str) -> Obj {
    let t = o.str_new(src);
    o.buf(t, 0)
}

fn read_one(src: &str) -> (Objects, Obj) {
    let mut o = Objects::new();
    let b = rbuf(&mut o, src);
    let form = o.buf_read_form(b).expect("a form");
    (o, form)
}

#[test]
fn an_integer_reads_as_an_integer_and_a_name_as_a_symbol() {
    let (o, v) = read_one("42");
    assert_eq!(o.as_int(v), 42);
    let (o, v) = read_one("-7");
    assert_eq!(o.as_int(v), -7);
    let (o, v) = read_one("alpha");
    assert!(o.is_sym(v));
}

#[test]
fn a_lone_minus_is_a_symbol() {
    let (o, v) = read_one("-");
    assert!(o.is_sym(v));
    assert_eq!(o.sym_name(v), "-");
}

#[test]
fn a_list_reads_as_a_spine() {
    let (o, v) = read_one("(1 2 3)");
    let items: Vec<Obj> = o.list(v); 
    assert_eq!(items.len(), 3);
    assert_eq!(o.as_int(items[2]), 3);
}

#[test]
fn the_empty_list_is_nil() {
    let (_, v) = read_one("()");
    assert!(v.is_nil(), "() is nil is NULL -- one value");
}

#[test]
fn a_dotted_tail_is_the_rest_not_an_element() {
    let (o, v) = read_one("(a . b)");
    assert!(o.is_sym(o.first(v)), "the head is a symbol");
    assert!(
        o.is_sym(o.rest(v)),
        "and the TAIL is the symbol, not a pair"
    );
    assert_eq!(o.sym_name(o.rest(v)), "b");
}

#[test]
fn a_dotted_tail_after_several_elements() {
    let (o, v) = read_one("(a b . c)");
    let tail = o.rest(o.rest(v));
    assert!(o.is_sym(tail));
    assert_eq!(o.sym_name(tail), "c");
}

#[test]
fn a_dot_inside_an_atom_is_not_a_separator() {
    let (o, v) = read_one("(a .5 b)");
    let items: Vec<Obj> = o.list(v); 
    assert_eq!(items.len(), 3, ".5 is an atom, not a tail marker");
    let (o, v) = read_one("foo.bar");
    assert_eq!(o.sym_name(v), "foo.bar");
}

#[test]
fn strings_read_with_their_escapes() {
    let (o, v) = read_one(r#""a\nb""#);
    assert_eq!(o.str_val(v), "a\nb");
    let (o, v) = read_one(r#""""#);
    assert_eq!(o.str_val(v), "");
}

#[test]
fn comments_run_to_end_of_line() {
    let (o, v) = read_one("; ignored\n42");
    assert_eq!(o.as_int(v), 42);
    let (o, v) = read_one("(1 ; two\n 3)");
    let items: Vec<Obj> = o.list(v); 
    assert_eq!(items.len(), 2);
}

#[test]
fn nesting_reads_to_the_right_depth() {
    let (o, v) = read_one("(1 (2 (3)))");
    let inner = o.first(o.rest(v));
    let innermost = o.first(o.rest(inner));
    assert_eq!(o.as_int(o.first(innermost)), 3);
}

#[test]
fn unterminated_input_terminates() {
    let mut o = Objects::new();
    let b = rbuf(&mut o, "(1 2");
    assert!(o.buf_read_form(b).is_some());
    assert!(o.buf_read_form(b).is_none(), "and then stops");
    let mut o = Objects::new();
    let b = rbuf(&mut o, r#""unclosed"#);
    let _ = o.buf_read_form(b);
}

#[test]
fn a_stray_close_paren_does_not_spin() {
    let mut o = Objects::new();
    let b = rbuf(&mut o, ")))42");
    for _ in 0..4 {
        let _ = o.buf_read_form(b);
    }
    assert!(o.buf_read_form(b).is_none());
}

#[test]
fn reading_consumes_forms_in_order() {
    let mut o = Objects::new();
    let b = rbuf(&mut o, "1 2 3");
    let mut seen = Vec::new();
    while let Some(f) = o.buf_read_form(b) {
        seen.push(o.as_int(f));
    }
    assert_eq!(seen, vec![1, 2, 3]);
}

#[test]
fn a_character_literal_reads_as_a_character_not_a_symbol() {
    let (o, v) = read_one(r"#\A");
    assert!(o.is_char(v), "#\\A must read as a character");
    assert_eq!(o.as_char(v), 65);
}

#[test]
fn the_named_characters_are_the_references_nine() {
    for (src, want) in [
        (r"#\newline", 10u32),
        (r"#\space", 32),
        (r"#\tab", 9),
        (r"#\return", 13),
        (r"#\null", 0),
        (r"#\alarm", 7),
        (r"#\backspace", 8),
        (r"#\delete", 127),
        (r"#\escape", 27),
    ] {
        let (o, v) = read_one(src);
        assert!(o.is_char(v), "{} must read as a character", src);
        assert_eq!(o.as_char(v), want, "for {}", src);
    }
}

#[test]
fn a_non_letter_scores_immediately() {
    for (src, want) in [(r"#\(", 40u32), (r"#\)", 41), (r"#\;", 59), (r"#\ ", 32)] {
        let (o, v) = read_one(src);
        assert!(o.is_char(v), "{} must read as a character", src);
        assert_eq!(o.as_char(v), want, "for {}", src);
    }
}

#[test]
fn a_lone_letter_is_itself_and_a_name_needs_more_than_one() {
    let (o, v) = read_one(r"#\n");
    assert_eq!(o.as_char(v), b'n' as u32, "#\\n is the letter, not newline");
}

#[test]
fn a_multibyte_character_is_taken_whole() {
    let (o, v) = read_one("#\\\u{e9}");
    assert!(o.is_char(v));
    assert_eq!(o.as_char(v), 0xe9);
}

#[test]
fn a_character_delimits_inside_a_list() {
    let (o, v) = read_one(r"(#\A 1)");
    let items: Vec<_> = o.list(v); 
    assert_eq!(items.len(), 2, "the character must not swallow the list");
    assert_eq!(o.as_char(items[0]), 65);
    assert_eq!(o.int_val(items[1]), 1);
}

#[test]
fn a_multibyte_literal_keeps_its_bytes() {
    let (e, v) = eval("\"¢\"");
    assert_eq!(e.objects.bytes_of(v.unwrap()), vec![0xC2, 0xA2]);
}

#[test]
fn escapes_decode_as_the_reference_decodes_them() {
    let (e, v) = eval(r#""a\x41\r\q""#);
    assert_eq!(e.objects.bytes_of(v.unwrap()), b"aA\r\\q".to_vec());
}


#[test]
fn an_empty_atom_reads_as_nil_and_steps_over_one_byte() {
    let mut o = Objects::new();
    let b = rbuf(&mut o, ")x");
    assert_eq!(o.buf_cursor(b), 0);
    assert_eq!(o.buf_read_atom(b), NIL);
    assert_eq!(o.buf_cursor(b), 1);
}
