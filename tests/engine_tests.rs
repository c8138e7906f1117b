use roda_state::stage_engine::StageEngine;
use roda_state::{OutputCollector, Stage, StageExt};

#[test]
fn stage_engine_test_new_engine_threaded_pipeline() {
    let mut engine = StageEngine::<u32, u32, _>::new()
        .add_stage(|x: &u32| Some(*x as u64))
        .add_stage(|x: &u64| Some(*x as u8));

    engine.send(&100u32);

    let result = engine.receive();
    assert_eq!(result, Some(100u8));
}

struct DuplicateNext;

impl Stage<u32, u32> for DuplicateNext {
    fn process<C: OutputCollector<u32>>(&mut self, data: &u32, collector: &mut C) {
        collector.push(data);
        collector.push(&(data + 1));
    }
}

#[test]
fn stage_engine_test_new_engine_multiple_outputs() {
    let mut engine = StageEngine::<u32, u32, _>::new()
        .add_stage(DuplicateNext)
        .add_stage(|x: &u32| Some(*x as u64));

    engine.send(&10u32);

    assert_eq!(engine.receive(), Some(10u64));
    assert_eq!(engine.receive(), Some(11u64));
}

#[test]
fn test_basic_pipeline() {
    let mut engine = StageEngine::<u32, u32, _>::new()
        .add_stage(|x: &u32| Some(*x + 1))
        .add_stage(|x: &u32| Some(*x * 2));
    engine.send(&10);
    engine.send(&20);
    assert_eq!(engine.receive(), Some(22));
    assert_eq!(engine.receive(), Some(42));
}

#[test]
fn test_none_filtering() {
    let mut engine = StageEngine::<u32, u32, _>::new()
        .add_stage(|x: &u32| if *x % 2 == 0 { Some(*x) } else { None });
    engine.send(&1);
    engine.send(&2);
    engine.send(&3);
    engine.send(&4);
    assert_eq!(engine.receive(), Some(2));
    assert_eq!(engine.receive(), Some(4));
}

struct Duplicate;

impl Stage<u32, u32> for Duplicate {
    fn process<C: OutputCollector<u32>>(&mut self, data: &u32, collector: &mut C) {
        collector.push(data);
        collector.push(data);
    }
}

#[test]
fn test_multiple_outputs() {
    let mut engine = StageEngine::<u32, u32, _>::new().add_stage(Duplicate);
    engine.send(&5);
    assert_eq!(engine.receive(), Some(5));
    assert_eq!(engine.receive(), Some(5));
}

#[test]
fn test_load_moderate() {
    let count = 1000;
    let mut engine =
        StageEngine::<u32, u32, _>::with_capacity(count + 1).add_stage(|x: &u32| Some(*x + 1));
    for i in 0..count {
        engine.send(&(i as u32));
    }
    for i in 0..count {
        assert_eq!(engine.receive(), Some(i as u32 + 1));
    }
}

#[test]
fn test_complex_pipe_macro() {
    let mut engine = StageEngine::<u32, u32, _>::new().add_stage(
        (|x: &u32| Some(*x as u64)).pipe((|x: &u64| Some(*x * 10)).pipe(|x: &u64| Some(*x + 5))),
    );
    engine.send(&1);
    assert_eq!(engine.receive(), Some(15));
}

#[test]
fn test_empty_pipeline() {
    let mut engine = StageEngine::<u32, u32, _>::new();
    engine.send(&42);
    assert_eq!(engine.receive(), Some(42));
}

#[derive(Debug, Clone, Copy, PartialEq)]
struct Large {
    data: [f64; 16],
    id: u64,
}

impl roda_state::Record for Large {}

#[test]
fn test_large_pod_struct() {
    let mut engine = StageEngine::<Large, Large, _>::new().add_stage(|l: &Large| {
        let mut l = *l;
        l.id += 1;
        Some(l)
    });
    let input = Large { data: [1.0; 16], id: 100 };
    engine.send(&input);
    let expected = Large { data: [1.0; 16], id: 101 };
    assert_eq!(engine.receive(), Some(expected));
}

#[test]
fn test_nested_pipes() {
    let mut engine = StageEngine::<u32, u32, _>::new().add_stage(
        (|x: &u32| Some(*x + 1)).pipe((|x: &u32| Some(*x * 2)).pipe(|x: &u32| Some(*x + 1))),
    );
    engine.send(&10);
    assert_eq!(engine.receive(), Some(23));
}

fn inc(x: &u32) -> Option<u32> {
    Some(*x + 1)
}

#[test]
fn test_multi_stage_load() {
    let stages = 5;
    let items = 100;
    let mut engine = StageEngine::<u32, u32, _>::new()
        .add_stage(inc)
        .add_stage(inc)
        .add_stage(inc)
        .add_stage(inc)
        .add_stage(inc);
    for i in 0..items {
        engine.send(&i);
    }
    for i in 0..items {
        assert_eq!(engine.receive(), Some(i + stages as u32));
    }
}

#[test]
fn test_stage_producing_none() {
    let mut engine = StageEngine::<u32, u32, _>::new()
        .add_stage(|x: &u32| if *x > 10 { Some(*x) } else { None })
        .add_stage(|x: &u32| Some(*x * 2));
    engine.send(&5);
    engine.send(&15);
    assert!(engine.step());
    assert_eq!(engine.output_size(), 1);
    assert_eq!(engine.receive(), Some(30));
}

#[test]
fn test_long_pipeline_heavy_load() {
    let stages = 10;
    let items = 5000;
    let mut engine = StageEngine::<u32, u32, _>::with_capacity(items + 1)
        .add_stage(inc)
        .add_stage(inc)
        .add_stage(inc)
        .add_stage(inc)
        .add_stage(inc)
        .add_stage(inc)
        .add_stage(inc)
        .add_stage(inc)
        .add_stage(inc)
        .add_stage(inc);
    for i in 0..items {
        engine.send(&(i as u32));
    }
    for i in 0..items {
        assert_eq!(engine.receive(), Some(i as u32 + stages as u32));
    }
}

#[test]
fn two_stage_engine_scenario() {
    let mut engine = StageEngine::<u32, u32, _>::new()
        .add_stage(|x: &u32| *x + 1)
        .add_stage(|x: &u32| *x * 2);
    engine.send(&10);
    engine.send(&20);
    assert_eq!(engine.receive(), Some(22));
    assert_eq!(engine.receive(), Some(42));
    assert_eq!(engine.try_receive(), None);
}

#[test]
fn fan_out_siblings_stay_together() {
    let mut engine = StageEngine::<u32, u32, _>::new()
        .add_stage(Duplicate)
        .add_stage(|x: &u32| *x);
    engine.send(&5);
    engine.send(&6);
    assert_eq!(engine.receive(), Some(5));
    assert_eq!(engine.receive(), Some(5));
    assert_eq!(engine.receive(), Some(6));
    assert_eq!(engine.receive(), Some(6));
    assert_eq!(engine.receive(), None);
}

#[test]
fn adding_a_stage_runs_unreceived_outputs_through_it() {
    let mut engine = StageEngine::<u32, u32, _>::new();
    engine.send(&1);
    engine.send(&2);
    assert_eq!(engine.receive(), Some(1));
    let mut engine = engine.add_stage(|x: &u32| *x * 100);
    assert_eq!(engine.receive(), Some(200));
    engine.send(&3);
    assert_eq!(engine.receive(), Some(300));
}

#[test]
fn step_reports_whether_there_was_work() {
    let mut engine = StageEngine::<u32, u32, _>::with_capacity(2).add_stage(|x: &u32| *x + 1);
    assert!(!engine.step());
    engine.send(&1);
    assert_eq!(engine.try_receive(), None);
    assert!(engine.step());
    assert!(!engine.step());
    assert_eq!(engine.try_receive(), Some(2));
    engine.send(&2);
    assert!(!engine.input_has_room());
}
