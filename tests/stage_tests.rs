use roda_state::{filter, inspect, OutputCollector, Stage, StageExt};
use std::sync::atomic::{AtomicUsize, Ordering};
use std::sync::Arc;

#[test]
fn test_pipe_closures() {
    let mut p = (|x: &u32| Some(*x as u64)).pipe(|x: &u64| Some(*x as u8));

    let mut out: Vec<u8> = Vec::new();
    p.process(&100u32, &mut out);
    assert_eq!(out, vec![100u8]);
}

struct Duplicate;

impl Stage<u64, u64> for Duplicate {
    fn process<C: OutputCollector<u64>>(&mut self, data: &u64, collector: &mut C) {
        collector.push(data);
        collector.push(data);
    }
}

#[test]
fn test_pipe_one_to_many() {
    let mut p = (|x: &u32| Some(*x as u64)).pipe(Duplicate.pipe(|x: &u64| Some(*x as u8)));

    let mut out: Vec<u8> = Vec::new();
    p.process(&10u32, &mut out);
    assert_eq!(out, vec![10u8, 10u8]);
}

#[test]
fn test_map_logic() {
    let mut pipe = roda_state::pipe::map(|x: &u32| *x as u64 * 2);
    let mut out: Vec<u64> = Vec::new();

    pipe.process(&21u32, &mut out);

    assert_eq!(out, vec![42u64]);
}

#[test]
fn test_filter_logic() {
    let mut pipe = filter(|x: &i32| *x > 0);
    let mut out: Vec<i32> = Vec::new();

    pipe.process(&10, &mut out);
    pipe.process(&-5, &mut out);

    assert_eq!(out, vec![10]);
}

#[test]
fn test_inspect_logic() {
    let count = Arc::new(AtomicUsize::new(0));
    let count_inner = count.clone();
    let mut pipe = inspect(move |_x: &u32| {
        count_inner.fetch_add(1, Ordering::Relaxed);
    });

    let mut out: Vec<u32> = Vec::new();
    pipe.process(&42u32, &mut out);

    assert_eq!(out, vec![42]);
    assert_eq!(count.load(Ordering::Relaxed), 1);
}

#[test]
fn plain_function_stage_returning_a_value() {
    let mut s = |x: &u32| *x + 1;
    let mut out: Vec<u32> = Vec::new();
    s.process(&1, &mut out);
    s.process(&2, &mut out);
    assert_eq!(out, vec![2, 3]);
}

#[test]
fn plain_function_stage_returning_none_emits_nothing() {
    let mut s = |x: &u32| if *x % 2 == 0 { Some(*x) } else { None };
    let mut out: Vec<u32> = Vec::new();
    for v in 1..=6u32 {
        s.process(&v, &mut out);
    }
    assert_eq!(out, vec![2, 4, 6]);
}

#[test]
fn composed_one_to_one_stages_map_in_order() {
    let mut p = roda_state::pipe::map(|x: &u32| *x + 1).pipe(roda_state::pipe::map(|x: &u32| *x * 2));
    let mut out: Vec<u32> = Vec::new();
    for v in [10u32, 20, 30] {
        p.process(&v, &mut out);
    }
    assert_eq!(out, vec![22, 42, 62]);
}

#[test]
fn nested_pipelines_compose() {
    let mut p = (|x: &u32| Some(*x + 1)).pipe((|x: &u32| Some(*x * 2)).pipe(|x: &u32| Some(*x + 1)));
    let mut out: Vec<u32> = Vec::new();
    p.process(&10, &mut out);
    assert_eq!(out, vec![23]);
}

#[test]
fn collector_keeps_earlier_items() {
    let mut s = roda_state::pipe::map(|x: &u8| *x);
    let mut out: Vec<u8> = vec![7, 8];
    s.process(&9, &mut out);
    assert_eq!(out, vec![7, 8, 9]);
}
