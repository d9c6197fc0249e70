use lib::engine::Engine;

#[test]
fn a_returned_call_leaves_no_frame_behind() {
    let mut e = Engine::new();
    e.eval_str("(def f (fn (self n) (+ n 1)))").unwrap();
    e.collect();
    let settled = e.envs.frame_count() - e.envs.free_count();

    e.eval_str("(f 1) (f 2) (f 3)").unwrap();
    e.collect();
    assert_eq!(e.envs.frame_count() - e.envs.free_count(), settled);
}

#[test]
fn a_captured_frame_survives() {
    let mut e = Engine::new();
    e.eval_str("(def g (fn (self n) (fn (self2) n)))").unwrap();
    e.eval_str("(def held (g 42))").unwrap();
    e.collect();
    let v = e.eval_str("(held)").unwrap();
    assert_eq!(e.objects.as_int(v), 42);
}

#[test]
fn the_parent_of_a_captured_frame_survives() {
    let mut e = Engine::new();
    e.eval_str("(def h (fn (self outer) ((fn (self2 inner) (fn (self3) outer)) 0)))")
        .unwrap();
    e.eval_str("(def held (h 7))").unwrap();
    e.collect();
    let v = e.eval_str("(held)").unwrap();
    assert_eq!(e.objects.as_int(v), 7);
}

#[test]
fn reclaimed_slots_are_reused() {
    let mut e = Engine::new();
    e.eval_str("(def f (fn (self n) (+ n 1)))").unwrap();
    e.eval_str("(f 1)").unwrap();
    e.collect();
    let before = e.envs.frame_count();
    for _ in 0..10 {
        e.eval_str("(f 1)").unwrap();
        e.collect();
    }
    assert_eq!(e.envs.frame_count(), before);
}

#[test]
fn a_program_asks_and_the_collection_follows_its_form() {
    let mut e = Engine::new();
    e.eval_str("(def f (fn (self n) (+ n 1)))").unwrap();
    e.eval_str("(def keep (f 2))").unwrap();
    assert_eq!(e.envs.free_count(), 0, "nothing is reclaimed unasked");
    e.eval_str("(f 3) (heap-collect)").unwrap();
    assert!(e.envs.free_count() >= 2, "the frames of finished calls were reclaimed");
    let v = e.eval_str("keep").unwrap();
    assert_eq!(e.objects.as_int(v), 3, "and what is bound survives");
}

#[test]
fn marking_reaches_through_references_and_no_further() {
    let mut e = Engine::new();
    let a = e.objects.int_new(1);
    let b = e.objects.int_new(2);
    let p = e.objects.pair(a, lib::obj::Obj(0));
    let starts = e.objects.object_starts();
    let marked = e.objects.mark(&vec![p], &starts);
    assert!(marked[(p.0 / 8) as usize]);
    assert!(marked[(a.0 / 8) as usize], "what the pair holds is reached");
    assert!(!marked[(b.0 / 8) as usize], "what nothing holds is not");
}

#[test]
fn a_sweep_counts_exactly_the_unmarked_objects_it_takes() {
    let mut e = Engine::new();
    let before = e.objects.heap_words() as u64;
    let a = e.objects.int_new(1);
    let b = e.objects.int_new(2);
    let c = e.objects.int_new(3);
    let starts = e.objects.object_starts();
    let mut marked = vec![false; starts.len()];
    for (i, s) in starts.iter().enumerate() {
        if *s && (i as u64) < before {
            marked[i] = true;
        }
    }
    marked[(b.0 / 8) as usize] = true;
    let keep_from = e.objects.heap_words() as u64;
    let (freed, frames) = e.objects.sweep(&marked, keep_from);
    assert_eq!(freed, 2, "a and c go, b stays");
    assert!(frames.is_empty());
    let _ = (a, c);
}

#[test]
fn each_allocation_counts_once() {
    let mut e = Engine::new();
    let n = e.objects.alloc_count();
    let live = e.objects.live;
    let o = e.objects.int_new(9);
    assert!(o.0 != 0);
    assert_eq!(e.objects.alloc_count(), n + 1);
    assert_eq!(e.objects.live, live + 1);
}

#[test]
fn the_live_count_falls_by_what_a_collection_frees() {
    let mut e = Engine::new();
    e.eval_str("(def f (fn (self n) (+ n 1)))").unwrap();
    e.eval_str("(f 1) (f 2) (f 3)").unwrap();
    let before = e.objects.live as u64;
    let freed = e.collect();
    assert!(freed > 0);
    assert_eq!(e.objects.live as u64, before - freed);
}
