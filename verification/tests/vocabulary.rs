use lib::vocabulary::{all_families, Family};

#[test]
fn every_family_answers_to_its_own_name() {
    for f in all_families().iter() {
        assert_eq!(Family::from_name(f.name()), Some(*f), "for {:?}", f);
    }
}

#[test]
fn the_family_names_are_distinct() {
    let mut seen: Vec<&str> = all_families().iter().map(|f| f.name()).collect();
    seen.sort_unstable();
    let n = seen.len();
    seen.dedup();
    assert_eq!(seen.len(), n, "two families share a name");
}

#[test]
fn an_unknown_family_name_is_not_a_family() {
    assert_eq!(Family::from_name("analsye"), None);
    assert_eq!(Family::from_name(""), None);
}

