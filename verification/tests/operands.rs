use lib::diag::Cond;
use lib::engine::Engine;
use lib::obj::Obj;

fn ints(e: &mut Engine, xs: &[i64]) -> Obj {
    let mut out = Obj(0);
    for x in xs.iter().rev() {
        let v = e.objects.int_new(*x);
        out = e.objects.pair(v, out);
    }
    out
}

#[test]
fn plain_operands_evaluate_to_themselves_in_order() {
    let mut e = Engine::new();
    let args = ints(&mut e, &[4, 5, 6]);
    let forms = e.objects.list(args);
    let env = e.root_env();
    let vals = e.eval_args(args, env, 10).unwrap();
    assert_eq!(vals, forms);
    let padded = e.eargs(args, env, 5, 10).unwrap();
    assert_eq!(padded.len(), 5);
    assert_eq!(&padded[..3], &forms[..]);
    assert_eq!(padded[3], Obj(0));
    assert_eq!(padded[4], Obj(0));
}

#[test]
fn an_improper_operand_list_raises() {
    let mut e = Engine::new();
    let one = e.objects.int_new(1);
    let two = e.objects.int_new(2);
    let args = e.objects.pair(one, two);
    let env = e.root_env();
    assert!(matches!(e.eval_args(args, env, 10), Err(Cond::Raised(_))));
}

#[test]
fn a_list_called_with_literal_operands_indexes_and_slices() {
    let mut e = Engine::new();
    let callee = ints(&mut e, &[10, 20, 30]);
    let env = e.root_env();
    let at = ints(&mut e, &[1]);
    let v = e.list_call(callee, at, env, 10).unwrap();
    assert_eq!(e.objects.as_int(v), 20);
    let back = ints(&mut e, &[-1]);
    let v = e.list_call(callee, back, env, 10).unwrap();
    assert_eq!(e.objects.as_int(v), 30);
    let past = ints(&mut e, &[5]);
    assert_eq!(e.list_call(callee, past, env, 10).unwrap(), Obj(0));
    let slice = ints(&mut e, &[1, 5]);
    let l = e.list_call(callee, slice, env, 10).unwrap();
    let items = e.objects.list(l);
    let got: Vec<i64> = items.iter().map(|o| e.objects.as_int(*o)).collect();
    assert_eq!(got, vec![20, 30]);
    assert_eq!(e.list_call(callee, Obj(0), env, 10).unwrap(), Obj(0));
}

#[test]
fn an_escape_to_the_capture_answers_the_delivered_value_once() {
    let mut e = Engine::new();
    let v = e.objects.int_new(42);
    e.escaping = Some((7, v));
    let r = e.catch_escape(7, Err(Cond::Raised(v)));
    assert_eq!(r.unwrap(), v);
    assert!(e.escaping.is_none());
}

#[test]
fn an_escape_to_another_capture_passes_on() {
    let mut e = Engine::new();
    let v = e.objects.int_new(42);
    e.escaping = Some((7, v));
    let r = e.catch_escape(8, Err(Cond::Raised(v)));
    assert!(matches!(r, Err(Cond::Raised(x)) if x == v));
    assert_eq!(e.escaping, Some((7, v)));
    let w = e.objects.int_new(1);
    assert_eq!(e.catch_escape(7, Ok(w)).unwrap(), w);
}

#[test]
fn a_defined_name_reads_back_its_value() {
    let mut e = Engine::new();
    e.eval_str("(def x 5)").unwrap();
    let v = e.eval_str("x").unwrap();
    assert_eq!(e.objects.as_int(v), 5);
    e.eval_str("(set! x 6)").unwrap();
    let v = e.eval_str("x").unwrap();
    assert_eq!(e.objects.as_int(v), 6);
    assert!(matches!(e.eval_str("(set! nowhere-bound 1)"), Err(Cond::Unbound(_))));
}

#[test]
fn including_an_unregistered_path_names_it() {
    let mut e = Engine::new();
    match e.eval_str("(include \"no/such/file.x\")") {
        Err(Cond::CannotInclude(p)) => assert_eq!(p, b"no/such/file.x".to_vec()),
        other => panic!("unexpected: {:?}", other.is_ok()),
    }
}

#[test]
fn a_contest_with_no_analyser_claims_nothing() {
    let mut e = Engine::new();
    let text = e.objects.str_new("42 ");
    let buf = e.objects.buf(text, 0);
    let env = e.root_env();
    let ty = e.objects.int_new(0);
    let before = e.objects.heap_words();
    assert_eq!(e.analyse(&vec![], buf, env, 5).unwrap(), None);
    assert_eq!(e.analyse(&vec![Obj(0), ty], buf, env, 5).unwrap(), None);
    assert_eq!(e.objects.heap_words(), before);
}

#[test]
fn a_body_of_literals_answers_its_last() {
    let mut e = Engine::new();
    let body = ints(&mut e, &[1, 2, 3]);
    let env = e.root_env();
    let v = e.eval_body(body, env, 10).unwrap();
    assert_eq!(e.objects.as_int(v), 3);
    assert_eq!(e.eval_body(Obj(0), env, 10).unwrap(), Obj(0));
}

#[test]
fn bound_names_among_the_operands_evaluate_to_their_values() {
    let mut e = Engine::new();
    e.eval_str("(def %x 41)").unwrap();
    let name = e.objects.sym("%x");
    let seven = e.objects.int_new(7);
    let tail = e.objects.pair(seven, Obj(0));
    let args = e.objects.pair(name, tail);
    let env = e.root_env();
    let vals = e.eval_args(args, env, 10).unwrap();
    assert_eq!(vals.len(), 2);
    assert_eq!(e.objects.as_int(vals[0]), 41);
    assert_eq!(vals[1], seven);
}

#[test]
fn a_list_headed_by_data_evaluates_to_itself() {
    let mut e = Engine::new();
    let form = ints(&mut e, &[1, 2, 3]);
    let v = e.eval_top(form).unwrap();
    assert_eq!(v, form);
}
