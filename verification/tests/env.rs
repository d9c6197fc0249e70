use lib::env::Envs;
use lib::obj::Obj;
use lib::objects::Objects;

fn setup() -> (Objects, Envs) {
    (Objects::new(), Envs::new())
}

#[test]
fn bind_and_lookup_walk_the_chain() {
    let (mut o, mut envs) = setup();
    let root = envs.push_root(&mut o);
    let child = envs.push(&mut o, root);
    let (a, b) = (o.sym("a"), o.sym("b"));
    let (one, two) = (o.int_new(1), o.int_new(2));
    envs.bind(&mut o, root, a, one);
    envs.bind(&mut o, child, b, two);
    assert_eq!(envs.lookup(&o, child, a), Some(one));
    assert_eq!(envs.lookup(&o, child, b), Some(two));
    assert_eq!(envs.lookup(&o, root, b), None);
}

#[test]
fn a_child_shadows_and_the_parent_keeps_its_value() {
    let (mut o, mut envs) = setup();
    let root = envs.push_root(&mut o);
    let child = envs.push(&mut o, root);
    let a = o.sym("a");
    let (one, two) = (o.int_new(1), o.int_new(2));
    envs.bind(&mut o, root, a, one);
    envs.bind(&mut o, child, a, two);
    assert_eq!(envs.lookup(&o, child, a), Some(two));
    assert_eq!(envs.lookup(&o, root, a), Some(one));
}

#[test]
fn set_existing_reaches_the_outer_frame() {
    let (mut o, mut envs) = setup();
    let root = envs.push_root(&mut o);
    let child = envs.push(&mut o, root);
    let a = o.sym("a");
    let (one, two) = (o.int_new(1), o.int_new(2));
    envs.bind(&mut o, root, a, one);
    assert!(envs.set_existing(&mut o, child, a, two));
    assert_eq!(envs.lookup(&o, root, a), Some(two));
}

#[test]
fn rebinding_updates_in_place() {
    let (mut o, mut envs) = setup();
    let root = envs.push_root(&mut o);
    let a = o.sym("a");
    for i in 0..40 {
        let v = o.int_new(i);
        envs.bind(&mut o, root, a, v);
    }
    let head = o.data(root.obj(), 0).as_obj();
    let mut n = 0;
    let mut at = head;
    while !at.is_nil() {
        n += 1;
        at = o.rest(at);
    }
    assert_eq!(n, 1);
}

#[test]
fn the_index_is_a_cache_not_a_truth() {
    let (mut o, mut envs) = setup();
    let root = envs.push_root(&mut o);
    let names: Vec<Obj> = (0..40).map(|i| o.sym(&format!("n{}", i))).collect();
    for (i, &n) in names.iter().enumerate() {
        let v = o.int_new(i as i64);
        envs.bind(&mut o, root, n, v);
    }
    for (i, &n) in names.iter().enumerate() {
        assert_eq!(
            envs.lookup(&o, root, n).map(|v| o.int_val(v)),
            Some(i as i64)
        );
    }
}

