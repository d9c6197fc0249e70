use lib::obj::{Addr, Obj, Word, WORD};

const NIL: Obj = Obj(0);

#[test]
fn a_negative_offset_addresses_backwards() {
    let a = Addr::new(64);
    assert_eq!(a.offset(-8), Addr::new(56));
    assert_eq!(a.offset(8), Addr::new(72));
}

#[test]
fn offsetting_below_zero_wraps_rather_than_panicking() {
    let _ = Addr::new(0).offset(-8);
    let _ = Addr::new(u64::MAX).plus(16);
}

#[test]
fn word_addressing_splits_into_index_and_byte() {
    let a = Addr::new(19);
    assert_eq!(a.word_index(), 2);
    assert_eq!(a.byte_in_word(), 3);
    assert_eq!(a.word_base(), Addr::new(16));
}

#[test]
fn an_object_round_trips_through_its_address() {
    let o = Obj(1234 * WORD as u64);
    assert_eq!(o.addr().as_obj(), o);
}

#[test]
fn nil_is_zero_and_knows_it() {
    assert!(NIL.is_nil());
    assert!(!Obj(8).is_nil());
}

#[test]
fn a_negative_integer_survives_the_word_round_trip() {
    assert_eq!(Word::from_i64(-42).as_i64(), -42);
    assert_eq!(Word::from_i64(i64::MIN).as_i64(), i64::MIN);
}

