use lib::base::{build, catalog_of, cell, env_of, route_name, ENV, N_ROUTES};
use lib::engine::Engine;
use lib::obj::{EnvId, Obj, Word};
use lib::objects::Objects;

const NIL: Obj = Obj(0);

#[test]
fn every_declared_route_resolves() {
    let mut o = Objects::new();
    let base = build(&mut o, NIL, EnvId::from_word(lib::obj::Word(0)));
    for n in 0..N_ROUTES {
        let name = route_name(n);
        let c = cell(&o, base, n);
        assert!(
            !c.is_nil(),
            "route `{}` at {} steps walks off the end of the base",
            name,
            n
        );
    }
}

#[test]
fn the_spine_is_exactly_as_long_as_the_route_list() {
    let mut o = Objects::new();
    let base = build(&mut o, NIL, EnvId::from_word(lib::obj::Word(0)));
    let last = cell(&o, base, N_ROUTES - 1);
    assert!(o.rest(last).is_nil(), "the spine has a spare cell");
}

#[test]
fn the_engine_reads_back_what_it_wrote() {
    let mut o = Objects::new();
    let catalog = o.sym("catalog-stand-in");
    let base = build(&mut o, catalog, EnvId::from_word(lib::obj::Word(3)));
    assert_eq!(catalog_of(&o, base), catalog);
    assert_eq!(env_of(&o, base), EnvId::from_word(lib::obj::Word(3)));
}

#[test]
fn bases_do_not_share_cells() {
    let mut o = Objects::new();
    let a = build(&mut o, NIL, EnvId::from_word(lib::obj::Word(1)));
    let b = build(&mut o, NIL, EnvId::from_word(lib::obj::Word(2)));
    assert_eq!(env_of(&o, a), EnvId::from_word(lib::obj::Word(1)));
    assert_eq!(env_of(&o, b), EnvId::from_word(lib::obj::Word(2)));
}

#[test]
fn the_env_alist_route_reaches_the_bindings() {
    let mut e = lib::engine::Engine::new();
    e.eval_str("(def env-alist-probe 77)").unwrap();
    let mut at = e.base;
    for _ in 0..ENV {
        at = e.objects.rest(at);
    }
    let holder = {
        let env_obj = e.objects.first(at);
        e.objects.first(env_obj)
    };
    let mut chain = e.objects.first(holder);
    let name = e.objects.sym("env-alist-probe");
    let mut found = false;
    while !chain.is_nil() {
        let pair = e.objects.first(chain);
        if e.objects.first(pair) == name {
            assert_eq!(e.objects.as_int(e.objects.rest(pair)), 77);
            found = true;
            break;
        }
        chain = e.objects.rest(chain);
    }
    assert!(
        found,
        "the bound name is not on the chain the route reaches"
    );
}


#[test]
fn a_fresh_base_counts_from_line_one() {
    let mut o = Objects::new();
    let base = build(&mut o, NIL, EnvId::from_word(lib::obj::Word(0)));
    assert_eq!(lib::base::cell_int(&o, base, lib::base::LINE), 1);
}
