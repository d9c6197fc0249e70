use lib::obj::{Obj, Word};
use lib::objects::Objects;

const NIL: Obj = Obj(0);

#[test]
fn no_object_lands_on_nil() {
    let mut a = Objects::new();
    assert!(!a.int_new(0).is_nil());
    assert!(!a.pair(NIL, NIL).is_nil());
    assert!(!a.str_new("").is_nil());
}

#[test]
fn reading_a_slot_of_nil_answers_zero() {
    let mut a = Objects::new();
    let _ = a.int_new(7);
    assert_eq!(a.data(NIL, 0), Word(0));
    assert_eq!(a.data(NIL, 1), Word(0));
    assert!(a.first(NIL).is_nil());
    assert!(a.rest(NIL).is_nil());
}

#[test]
fn a_data_slot_is_just_a_word() {
    let mut a = Objects::new();
    let n = a.int_new(-7);
    assert_eq!(a.data(n, 0).as_i64(), -7);
    let _ = a.data(n, 0).as_obj();
}

#[test]
fn interning_makes_one_object_per_spelling() {
    let mut a = Objects::new();
    assert_eq!(a.sym("alpha"), a.sym("alpha"));
    assert_ne!(a.sym("alpha"), a.sym("beta"));
}

#[test]
fn byte_len_stops_at_the_nul() {
    let mut a = Objects::new();
    let s = a.str_new("abc");
    assert_eq!(a.byte_len(s), 3);
    let at = a.str_bytes(s);
    a.heap.set_byte(at.plus(1), 0);
    assert_eq!(a.byte_len(s), 1, "bytes past the NUL are unobservable");
}

#[test]
fn str_make_is_space_filled_and_terminated() {
    let mut a = Objects::new();
    let s = a.str_make(4);
    assert_eq!(a.byte_len(s), 4);
    assert_eq!(a.str_val(s), "    ");
}

#[test]
fn only_nil_and_false_are_falsy() {
    let mut a = Objects::new();
    let f = a.false_obj();
    assert!(!a.truthy(NIL));
    assert!(!a.truthy(f));
    let zero = a.int_new(0);
    assert!(a.truthy(zero), "zero is TRUE in x-lang");
    let empty = a.str_new("");
    assert!(a.truthy(empty), "the empty string is TRUE");
}

