use lib::base::{get, ALLOC_LIMIT, ENV, PRIMS, TYPE_ALIST};
use lib::diag::push_decimal;
use lib::engine::Engine;
use lib::obj::Obj;
use lib::prim::PrimId;
use lib::prims::apply::{list_index, slice_of};
use lib::prims::num::{arith, div, rem, shl, shr};
use lib::read::{decode_utf8, named_char, parse_int};
use lib::prims::tok::judge;
use lib::session::include_paths;
use lib::diag::push_utf8;

#[test]
fn a_route_reads_back_what_was_written_and_no_other_moves() {
    let mut e = Engine::new();
    let base = e.base;
    let prims = get(&e.objects, base, PRIMS);
    let env = get(&e.objects, base, ENV);
    let types = get(&e.objects, base, TYPE_ALIST);
    let v = e.objects.int_new(41);
    lib::base::set(&mut e.objects, base, ALLOC_LIMIT, v);
    assert_eq!(get(&e.objects, base, ALLOC_LIMIT), v);
    assert_eq!(get(&e.objects, base, PRIMS), prims);
    assert_eq!(get(&e.objects, base, ENV), env);
    assert_eq!(get(&e.objects, base, TYPE_ALIST), types);
}

#[test]
fn one_symbol_per_spelling() {
    let mut e = Engine::new();
    let a = e.objects.sym("spelling");
    let words = e.objects.heap_words();
    let b = e.objects.sym("spelling");
    assert_eq!(a, b);
    assert_eq!(e.objects.heap_words(), words, "a second interning allocates nothing");
    let c = e.objects.sym("other");
    assert_ne!(a, c);
}

#[test]
fn quotient_and_remainder_rebuild_the_dividend() {
    for (x, y) in [(7i64, 2i64), (-7, 2), (7, -2), (-7, -2), (i64::MIN, 3), (i64::MAX, -5), (0, 9)] {
        let q = div(x, y);
        let r = rem(x, y);
        assert_eq!(q.wrapping_mul(y).wrapping_add(r), x, "{} / {}", x, y);
        assert!(r.unsigned_abs() < y.unsigned_abs());
        assert!(r == 0 || (r < 0) == (x < 0));
    }
    assert_eq!(div(-7, 2), -3);
    assert_eq!(rem(-7, 2), -1);
    assert_eq!(div(i64::MIN, -1), 0);
    assert_eq!(rem(5, 0), 0);
}

#[test]
fn printed_integers_read_back() {
    for v in [0i64, 7, -7, 10, -10, 1234567890, i64::MAX, i64::MIN] {
        let mut out: Vec<u8> = Vec::new();
        push_decimal(&mut out, v);
        assert_eq!(parse_int(&out), Some(v));
    }
    let mut out: Vec<u8> = Vec::new();
    push_decimal(&mut out, -42);
    assert_eq!(out, b"-42".to_vec());
}

#[test]
fn arithmetic_wraps_and_shifts_see_the_unsigned_word() {
    assert_eq!(arith(PrimId::Add, i64::MAX, 1), i64::MIN);
    assert_eq!(arith(PrimId::Sub, i64::MIN, 1), i64::MAX);
    assert_eq!(arith(PrimId::Mul, 1 << 62, 4), 0);
    assert_eq!(arith(PrimId::BitXor, 6, 3), 5);
    assert_eq!(shl(1, 65), 2, "the count is taken modulo 64");
    assert_eq!(shr(-1, 60), 15, "a logical shift brings in zeros");
    assert_eq!(shl(-1, 63), i64::MIN);
}

#[test]
fn a_value_with_no_type_means_itself() {
    let mut e = Engine::new();
    let n = e.objects.int_new(5);
    let env = e.root_env();
    assert_eq!(e.eval(n, env).ok(), Some(n));
    let s = e.objects.str_new("text");
    assert_eq!(e.eval(s, env).ok(), Some(s));
}

#[test]
fn a_root_frame_binds_nothing() {
    let mut e = Engine::new();
    let name = e.objects.sym("anything");
    let frame = e.envs.push_root(&mut e.objects);
    assert!(e.envs.lookup(&e.objects, frame, name).is_none());
    let v = e.objects.int_new(3);
    e.envs.bind(&mut e.objects, frame, name, v);
    assert_eq!(e.envs.lookup(&e.objects, frame, name), Some(v));
}

#[test]
fn utf8_decodes_lead_and_continuation_bits() {
    assert_eq!(decode_utf8(b"A"), 65);
    assert_eq!(decode_utf8("é".as_bytes()), 0xE9);
    assert_eq!(decode_utf8("€".as_bytes()), 0x20AC);
    assert_eq!(decode_utf8("😀".as_bytes()), 0x1F600);
    assert_eq!(decode_utf8(&[0xC3]), 0, "a lead byte without its continuation");
    assert_eq!(decode_utf8(&[]), 0);
}

#[test]
fn the_heap_audit_counts_references_that_cannot_be_objects() {
    let mut e = Engine::new();
    assert_eq!(e.objects.heap_check(), 0, "a fresh engine is well wired");
    let n = e.objects.int_new(1);
    let p = e.objects.pair(n, lib::obj::Obj(0));
    assert_eq!(e.objects.heap_check(), 0);
    e.objects.set_data(p, 1, lib::obj::Word(13));
    assert_eq!(e.objects.heap_check(), 1, "an unaligned rest is flagged");
    e.objects.set_data(p, 0, lib::obj::Word(1 << 40));
    assert_eq!(e.objects.heap_check(), 2, "a first past the heap's end is flagged");
}

#[test]
fn slices_and_indexes_of_a_vector_of_objects() {
    let items = vec![Obj(8), Obj(16), Obj(24)];
    assert_eq!(slice_of(&items, 1, 5), vec![Obj(16), Obj(24)]);
    assert_eq!(slice_of(&items, 0, 1), vec![Obj(8)]);
    assert!(slice_of(&items, 3, 1).is_empty());
    assert!(slice_of(&items, -1, 1).is_empty());
    assert_eq!(list_index(&items, -1), Obj(24));
    assert_eq!(list_index(&items, 0), Obj(8));
    assert_eq!(list_index(&items, 3), Obj(0));
    assert_eq!(list_index(&items, -4), Obj(0));
}

#[test]
fn include_forms_name_their_paths_in_order() {
    let text = b"(include \"a.x\") (x) (include   \"b/c.x\") (include d) (include \"open";
    let paths = include_paths(text);
    assert_eq!(paths, vec![b"a.x".to_vec(), b"b/c.x".to_vec()]);
}

#[test]
fn the_nine_names_read_as_their_characters() {
    assert_eq!(named_char(b"newline"), Some(10));
    assert_eq!(named_char(b"space"), Some(32));
    assert_eq!(named_char(b"tab"), Some(9));
    assert_eq!(named_char(b"Space"), None);
}

#[test]
fn a_stopped_analyser_claims_what_it_consumed_signed_by_its_score() {
    assert_eq!(judge(7, 3, 1), Some(4));
    assert_eq!(judge(7, 3, -2), Some(-4));
    assert_eq!(judge(3, 3, 5), None);
    assert_eq!(judge(9, 3, 0), None);
}

#[test]
fn utf8_encodes_by_width_and_refuses_surrogates() {
    let mut out = Vec::new();
    assert!(push_utf8(&mut out, 0x41));
    assert!(push_utf8(&mut out, 0xE9));
    assert!(push_utf8(&mut out, 0x20AC));
    assert!(push_utf8(&mut out, 0x1F600));
    assert_eq!(out, "A\u{e9}\u{20ac}\u{1f600}".as_bytes().to_vec());
    assert!(!push_utf8(&mut out, 0xD800));
    assert!(!push_utf8(&mut out, 0x110000));
}
