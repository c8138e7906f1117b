use roda_state::keyed::{dedup_by, delta, stateful, track_prev_by_hashmap, Message};
use roda_state::{progress, track_prev, windowed, Record, Stage, WithPrev};

#[test]
fn test_window_alignment() {
    let t1 = 150_200;
    let t2 = 199_999;
    let window = 100_000;

    assert_eq!(windowed(t1, window), 100_000);
    assert_eq!(windowed(t2, window), 100_000);

    assert_eq!(windowed(200_001, window), 200_000);
}

#[test]
fn window_of_zero_keeps_the_timestamp() {
    assert_eq!(windowed(12_345, 0), 12_345);
    assert_eq!(windowed(u64::MAX, 1), u64::MAX);
    assert_eq!(windowed(u64::MAX, 10), u64::MAX - 5);
}

#[test]
fn test_dedup_logic() {
    let mut pipe = dedup_by(|_: &i32| 0);
    let mut out: Vec<i32> = Vec::new();

    pipe.process(&10, &mut out);
    pipe.process(&10, &mut out);
    pipe.process(&20, &mut out);
    pipe.process(&10, &mut out);

    assert_eq!(out, vec![10, 20, 10]);
}

#[test]
fn dedup_second_identical_input_emits_nothing() {
    let mut pipe = dedup_by(|x: &u64| *x % 3);
    let mut out: Vec<u64> = Vec::new();
    pipe.process(&4, &mut out);
    let after_first = out.clone();
    pipe.process(&4, &mut out);
    assert_eq!(out, after_first);
    pipe.process(&7, &mut out);
    assert_eq!(out, vec![4, 7]);
}

#[derive(Clone, Copy, Debug, PartialEq)]
struct Metric {
    pub id: u64,
    pub val: f64,
}

#[test]
fn test_delta_logic() {
    let mut pipe = delta(
        |m: &Metric| m.id,
        |curr: &Metric, prev: Option<Metric>| match prev {
            Some(p) if curr.val >= p.val + 5.0 => Some(1u8),
            _ => Some(0u8),
        },
    );
    let mut out: Vec<u8> = Vec::new();

    let m1 = Metric { id: 1, val: 10.0 };
    let m2 = Metric { id: 1, val: 17.0 };

    pipe.process(&m1, &mut out);
    pipe.process(&m2, &mut out);

    assert_eq!(out, vec![0u8, 1u8]);
}

#[test]
fn delta_keeps_previous_value_per_key() {
    let mut pipe = delta(
        |x: &u32| *x % 2,
        |curr: &u32, prev: Option<u32>| prev.map(|p| *curr - p),
    );
    let mut out: Vec<u32> = Vec::new();
    for v in [2u32, 3, 10, 13] {
        pipe.process(&v, &mut out);
    }
    assert_eq!(out, vec![8, 10]);
}

#[test]
fn test_stateful_logic() {
    let mut pipe = stateful(
        |item: &Message| item.id,
        |item: &Message| item.value,
        |state: &i64, item: &Message| *state + item.value,
    );
    let mut out: Vec<i64> = Vec::new();

    let m1 = Message { id: 1, value: 10 };
    let m2 = Message { id: 2, value: 5 };
    let m3 = Message { id: 1, value: 20 };

    pipe.process(&m1, &mut out);
    pipe.process(&m2, &mut out);
    pipe.process(&m3, &mut out);

    assert_eq!(out, vec![10, 5, 30]);
}

#[test]
fn stateful_folds_within_a_key_in_order() {
    let mut pipe = stateful(
        |_: &i64| 0u8,
        |x: &i64| *x,
        |state: &i64, x: &i64| *state * 10 + *x,
    );
    let mut out: Vec<i64> = Vec::new();
    for v in [1i64, 2, 3] {
        pipe.process(&v, &mut out);
    }
    assert_eq!(out, vec![1, 12, 123]);
}

#[test]
fn test_track_prev_by_hashmap() {
    let mut pipe = track_prev_by_hashmap(|val: &i32| *val % 2);
    let mut out: Vec<WithPrev<i32>> = Vec::new();

    pipe.process(&2, &mut out);
    assert_eq!(out.last().unwrap().prev(), None);
    assert_eq!(out.last().unwrap().curr, 2);

    pipe.process(&3, &mut out);
    assert_eq!(out.last().unwrap().prev(), None);
    assert_eq!(out.last().unwrap().curr, 3);

    pipe.process(&4, &mut out);
    assert_eq!(out.last().unwrap().prev(), Some(2));
    assert_eq!(out.last().unwrap().curr, 4);
}

#[test]
fn test_track_prev() {
    let mut pipe = track_prev::<i32>();
    let mut out: Vec<WithPrev<i32>> = Vec::new();

    pipe.process(&10, &mut out);
    assert_eq!(out.last().unwrap().prev(), None);
    assert_eq!(out.last().unwrap().curr, 10);

    pipe.process(&20, &mut out);
    assert_eq!(out.last().unwrap().prev(), Some(10));
    assert_eq!(out.last().unwrap().curr, 20);
}

#[test]
fn progress_passes_everything_and_reports_each_interval() {
    let mut pipe = progress::<u32>("test".to_string(), 2);
    let mut out: Vec<u32> = Vec::new();
    let mut due = Vec::new();
    for v in 1..=4u32 {
        pipe.process(&v, &mut out);
        due.push(pipe.report_due());
    }
    assert_eq!(out, vec![1, 2, 3, 4]);
    assert_eq!(due, vec![false, true, false, true]);
}

#[derive(Clone, Copy, Debug, PartialEq)]
struct Pair {
    a: u16,
    b: u16,
}

impl Record for Pair {}

#[test]
fn user_records_flow_through_function_stages() {
    let mut s = |p: &Pair| Some(Pair { a: p.b, b: p.a });
    let mut out: Vec<Pair> = Vec::new();
    s.process(&Pair { a: 1, b: 2 }, &mut out);
    assert_eq!(out, vec![Pair { a: 2, b: 1 }]);
}
