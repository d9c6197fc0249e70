use lib::obj::{EnvId, Obj};
use lib::objects::Objects;

const NIL: Obj = Obj(0);

#[test]
fn a_closure_remembers_its_environment_id() {
    let mut o = Objects::new();
    let c = o.closure(NIL, NIL, EnvId::new(3));
    assert_eq!(o.closure_env(c), EnvId::new(3));
}

#[test]
fn an_operative_carries_params_envname_body_and_env() {
    let mut o = Objects::new();
    let name = o.sym("e");
    let op = o.operative(NIL, name, NIL, EnvId::new(2));
    assert_eq!(o.op_envname(op), name);
    assert_eq!(o.op_env(op), EnvId::new(2));
    assert!(o.is_op(op));
    assert!(!o.is_closure(op), "an operative is not a closure");
}

#[test]
fn a_wrapper_holds_the_very_same_operative() {
    let mut o = Objects::new();
    let inner = o.operative(NIL, NIL, NIL, EnvId::new(0));
    let w = o.wrapper(inner);
    assert_eq!(o.wrapper_inner(w), inner);
}

#[test]
fn a_foreign_callable_is_not_a_primitive() {
    let mut o = Objects::new();
    let f = o.foreign(4096);
    assert!(!o.is_prim(f), "or it would dispatch to instruction 4096");
}

#[test]
fn a_foreign_callable_answers_the_address_it_was_given() {
    let mut o = Objects::new();
    let f = o.foreign(0xdead_beef);
    assert!(o.is_foreign(f));
    assert_eq!(o.foreign_addr(f), 0xdead_beef);
}


#[test]
fn integers_round_trip_including_negatives_and_extremes() {
    let mut o = Objects::new();
    for v in [0i64, 1, -1, i64::MAX, i64::MIN] {
        let n = o.int_new(v);
        assert_eq!(o.int_val(n), v, "{} did not survive", v);
    }
}

#[test]
fn a_char_holds_its_code_point() {
    let mut o = Objects::new();
    let c = o.char_new(b'2' as u32);
    assert_eq!(o.as_char(c), 50);
}

#[test]
fn a_char_read_as_an_integer_is_its_code() {
    let mut o = Objects::new();
    let c = o.char_new(b'a' as u32);
    assert_eq!(o.as_int(c), 97);
}


#[test]
fn a_pair_holds_what_it_was_given() {
    let mut o = Objects::new();
    let (a, b) = (o.int_new(1), o.int_new(2));
    let p = o.pair(a, b);
    assert_eq!(o.first(p), a);
    assert_eq!(o.rest(p), b);
    assert!(o.is_pair(p));
}

#[test]
fn the_walk_stops_at_an_improper_tail() {
    let mut o = Objects::new();
    let (a, b) = (o.int_new(1), o.sym("tail"));
    let p = o.pair(a, b);
    let items: Vec<Obj> = o.list(p); 
    assert_eq!(items.len(), 1);
    assert_eq!(items[0], a);
}

#[test]
fn walking_nil_yields_nothing() {
    let o = Objects::new();
    assert_eq!(o.list(NIL).len(), 0);
}

#[test]
fn a_spine_is_not_a_pair_but_is_still_walkable() {
    let mut o = Objects::new();
    let one = o.int_new(1);
    let two = o.int_new(2);
    let list = o.pair(one, two);
    let spine = o.spair(one, two);

    assert!(o.is_pair(list), "a list pair is a pair");
    assert!(!o.is_pair(spine), "a SPINE is not");

    // Both are walkable: same layout, different tag.
    assert!(o.is_cell(list) && o.is_cell(spine));
    assert_eq!(o.first(spine), one);
    assert_eq!(o.rest(spine), two);
}

#[test]
fn the_two_kinds_are_told_apart() {
    let mut o = Objects::new();
    let list = o.pair(NIL, NIL);
    let spine = o.spair(NIL, NIL);
    assert!(o.is_spair(spine));
    assert!(!o.is_spair(list));
}


#[test]
fn a_pointer_carries_the_address_it_was_given() {
    let mut o = Objects::new();
    let target = o.int_new(7);
    let p = o.ptr(target.addr());
    assert_eq!(o.as_ptr(p), target.addr());
    assert_eq!(o.as_ptr(p).as_obj(), target);
}

#[test]
fn a_non_pointer_operand_reads_its_data_word() {
    let mut o = Objects::new();
    let n = o.int_new(1234);
    assert_eq!(o.as_ptr(n).raw(), 1234);
}


#[test]
fn one_object_per_spelling() {
    let mut o = Objects::new();
    assert_eq!(o.sym("alpha"), o.sym("alpha"));
    assert_ne!(o.sym("alpha"), o.sym("beta"));
}

#[test]
fn strings_are_not_interned() {
    let mut o = Objects::new();
    assert_ne!(o.str_new("a"), o.str_new("a"));
}

#[test]
fn a_string_round_trips_through_storage() {
    let mut o = Objects::new();
    let s = o.str_new("hello");
    assert_eq!(o.str_val(s), "hello");
    assert_eq!(o.byte_len(s), 5);
}

#[test]
fn an_empty_string_is_length_zero_not_nil() {
    let mut o = Objects::new();
    let s = o.str_new("");
    assert!(!s.is_nil());
    assert_eq!(o.byte_len(s), 0);
}


#[test]
fn the_marks_live_where_the_contract_puts_them() {
    let mut o = Objects::new();
    let text = o.str_new("abcd");
    let b = o.buf(text, 1);
    assert_eq!(o.buf_retain(b), 1);
    assert_eq!(o.buf_cursor(b), 1);
    assert_eq!(o.buf_text(b), text);
    // The cursor is reached with `rest`, as the analysers reach it.
    assert!(
        !o.rest(b).is_nil(),
        "the cursor must be an OBJECT, not a word"
    );
}

#[test]
fn the_marks_move_independently() {
    let mut o = Objects::new();
    let text = o.str_new("abcd");
    let b = o.buf(text, 0);
    o.set_buf_cursor(b, 3);
    assert_eq!(o.buf_cursor(b), 3);
    assert_eq!(
        o.buf_retain(b),
        0,
        "advancing the cursor must not drag the mark"
    );
    o.set_buf_retain(b, 3);
    assert_eq!(o.buf_retain(b), 3);
}


#[test]
fn a_foreign_callable_reports_the_type_of_a_primitive() {
    let mut o = Objects::new();
    let f = o.foreign(0x1000);
    let p = o.prim(0);
    assert_eq!(o.type_of(f), o.type_of(p));
}

#[test]
fn but_they_remain_distinguishable_to_the_engine() {
    let mut o = Objects::new();
    let f = o.foreign(0x1000);
    assert!(o.is_foreign(f));
    assert!(!o.is_prim(f));
}

