use lib::prim::{PrimDef, PrimId};
use lib::prims::all;
use std::collections::HashSet;

#[test]
fn a_row_is_one_shape() {
    let d = PrimDef::row(Some("thing"), None, 2, PrimId::Def);
    assert_eq!(d.arity, (2, Some(2)));
    assert_eq!(d.bare, Some("thing"));
}


#[test]
fn no_duplicate_registrations() {
    let mut names = HashSet::new();
    let mut coords = HashSet::new();
    for def in all() {
        if let Some(n) = def.bare {
            assert!(names.insert(n), "bare name {} registered twice", n);
        }
        if let Some(c) = def.coord {
            assert!(coords.insert(c), "coordinate {:?} registered twice", c);
        }
    }
}

#[test]
fn every_row_is_reachable() {
    for def in all() {
        assert!(
            def.bare.is_some() || def.coord.is_some(),
            "a row is reachable by neither name nor coordinate"
        );
    }
}

