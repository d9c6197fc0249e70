use lib::diag::{Cond, PREFIX};
use lib::objects::Objects;

#[test]
fn the_diagnostic_line_carries_the_contract_prefix() {
    let mut a = Objects::new();
    let sym = a.sym("nope");
    let line = Cond::Unbound(sym).diagnostic(&a).to_string();
    assert!(line.starts_with(PREFIX));
    assert_eq!(line, "*** ERROR: Unbound SYMBOL 'nope'");
}

#[test]
fn the_unbound_message_matches_the_reference_engine() {
    let mut a = Objects::new();
    let sym = a.sym("nope");
    assert_eq!(Cond::Unbound(sym).message(&a), "Unbound SYMBOL 'nope'");
}

#[test]
fn a_raised_value_survives_being_caught() {
    let mut a = Objects::new();
    let sym = a.sym("boom");
    assert_eq!(Cond::Raised(sym).value(&mut a), sym);
}

#[test]
fn a_machine_condition_becomes_text_when_caught() {
    let mut a = Objects::new();
    let v = Cond::CannotInclude(b"nope.x".to_vec()).value(&mut a);
    assert!(a.is_str(v));
    assert_eq!(a.str_val(v), "cannot include nope.x");
}


#[test]
fn each_kind_prints_as_the_printer_spells_it() {
    let mut a = Objects::new();
    assert_eq!(lib::diag::value_text(&a, lib::obj::Obj(0)), "()");
    let n = a.int_new(42);
    assert_eq!(lib::diag::value_text(&a, n), "42");
    let s = a.sym("alpha");
    assert_eq!(lib::diag::value_text(&a, s), "alpha");
    let t = a.str_new("hi");
    assert_eq!(lib::diag::value_text(&a, t), "hi");
    let one = a.int_new(1);
    let two = a.int_new(2);
    let dotted = a.pair(one, two);
    assert_eq!(lib::diag::value_text(&a, dotted), "(1 . 2)");
    let sa = a.sym("a");
    let sb = a.sym("b");
    let tail = a.pair(sb, lib::obj::Obj(0));
    let l = a.pair(sa, tail);
    assert_eq!(lib::diag::value_text(&a, l), "(a b)");
    let c = a.char_new(65);
    assert_eq!(lib::diag::value_text(&a, c), "#\\A");
}

#[test]
fn a_long_list_prints_eight_elements_then_what_follows() {
    let mut a = Objects::new();
    let mut l = lib::obj::Obj(0);
    for k in (1..=8).rev() {
        let v = a.int_new(k);
        l = a.pair(v, l);
    }
    assert_eq!(lib::diag::value_text(&a, l), "(1 2 3 4 5 6 7 8 ...)");
    let nine = a.int_new(9);
    let mut m = a.pair(nine, lib::obj::Obj(0));
    for k in (1..=8).rev() {
        let v = a.int_new(k);
        m = a.pair(v, m);
    }
    assert_eq!(lib::diag::value_text(&a, m), "(1 2 3 4 5 6 7 8 . (9))");
}
