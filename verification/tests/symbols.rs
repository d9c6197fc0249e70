use lib::obj::Obj;
use lib::symbols::Symbols;

const NIL: Obj = Obj(0);

#[test]
fn a_name_is_absent_until_it_is_put() {
    let mut s = Symbols::new();
    assert!(s.get("alpha").is_none());
    s.put("alpha", NIL);
    assert_eq!(s.get("alpha"), Some(NIL));
}

#[test]
fn distinct_names_do_not_collide() {
    let mut s = Symbols::new();
    let alpha = lib::obj::Word(8).as_obj();
    s.put("alpha", alpha);
    assert_eq!(s.get("alpha"), Some(alpha));
    assert!(s.get("beta").is_none());
}

