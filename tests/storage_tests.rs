use roda_state::aggregator::Aggregator;
use roda_state::op_counter::OpCounter;
use roda_state::runtime::{
    any_worker_panicked, backoff, core_for_worker, idle_check, next_idle_steps, Backoff, IdleCheck,
};
use roda_state::slot_store::{snapshot_consistent, SlotStore, SlotStoreOptions};
use roda_state::window::Window;
use roda_state::{JournalStore, JournalStoreOptions};

#[derive(Copy, Clone, Debug, Default, PartialEq)]
struct TestData {
    a: u64,
    b: u64,
    c: u64,
    d: u64,
}

fn slots(size: usize) -> SlotStore<TestData> {
    SlotStore::new(SlotStoreOptions { name: "slots", size, in_memory: true })
}

#[test]
fn slot_mmap_test_new_anonymous() {
    let mut slot_mmap = slots(10);
    assert_eq!(slot_mmap.size(), 10);

    let data = TestData { a: 1, b: 2, c: 3, d: 4 };
    slot_mmap.update_at(0, data);

    let read_data = slot_mmap.read_snapshot_with_retry(0, 10).unwrap();
    assert_eq!(data, read_data);
}

#[test]
fn test_reader_cloning() {
    let mut slot_mmap = slots(10);
    let data = TestData { a: 1, b: 2, c: 3, d: 4 };
    slot_mmap.update_at(5, data);

    assert_eq!(slot_mmap.read_snapshot_with_retry(5, 10), Some(data));
    assert_eq!(slot_mmap.get_at(5), Some(data));
}

#[test]
fn unwritten_slots_read_as_zero() {
    let store = slots(3);
    assert_eq!(store.get_at(2), Some(TestData::default()));
    assert_eq!(store.read_snapshot_with_retry(1, 0), None);
}

#[test]
fn every_read_is_a_whole_written_value() {
    let mut store = slots(1);
    for i in 0..100u64 {
        store.update_at(0, TestData { a: i, b: i, c: i, d: i });
        let v = store.with_at(0, |t: &TestData| *t).unwrap();
        assert!(v.a == v.b && v.b == v.c && v.c == v.d);
        assert_eq!(v.a, i);
    }
}

#[test]
fn seqlock_accepts_only_equal_even_versions() {
    assert!(snapshot_consistent(4, 4));
    assert!(!snapshot_consistent(3, 3));
    assert!(!snapshot_consistent(4, 6));
    assert!(snapshot_consistent(0, 0));
}

#[derive(Clone, Copy, Debug, Default, PartialEq)]
struct Reading {
    sensor_id: u16,
    value: f64,
}

#[derive(Clone, Copy, Debug, Default, PartialEq)]
struct Stats {
    sensor: u16,
    count: u32,
    sum: f64,
}

fn journal<T: Copy>(name: &'static str, size: usize) -> JournalStore<T> {
    JournalStore::new(JournalStoreOptions { name, size, in_memory: true })
}

fn run_aggregation(inputs: &[Reading]) -> Vec<Stats> {
    let mut source = journal::<Reading>("source", 1024);
    let mut target = journal::<Stats>("target", 1024);
    let mut reader = source.reader();
    let mut aggregator: Aggregator<Reading, Stats, u16> = Aggregator::new();
    for r in inputs {
        source.append(r);
        reader.next(&source);
        aggregator
            .from(&reader, &source)
            .to(&mut target)
            .partition_by(|r: &Reading| r.sensor_id)
            .reduce(|index: u64, r: &Reading, acc: &Stats| {
                (Stats { sensor: r.sensor_id, count: (index + 1) as u32, sum: acc.sum + r.value }, true)
            });
    }
    let mut out = Vec::new();
    let mut tr = target.reader();
    tr.handle_remaining(&target, &mut out);
    out
}

#[test]
fn aggregator_sum_and_count() {
    let out = run_aggregation(&[
        Reading { sensor_id: 1, value: 10.0 },
        Reading { sensor_id: 1, value: 20.0 },
    ]);
    assert_eq!(
        out,
        vec![Stats { sensor: 1, count: 1, sum: 10.0 }, Stats { sensor: 1, count: 2, sum: 30.0 }]
    );
}

#[test]
fn aggregator_partitions_by_key() {
    let out = run_aggregation(&[
        Reading { sensor_id: 1, value: 1.0 },
        Reading { sensor_id: 2, value: 2.0 },
        Reading { sensor_id: 1, value: 3.0 },
    ]);
    let summary: Vec<(u16, u32)> = out.iter().map(|s| (s.sensor, s.count)).collect();
    assert_eq!(summary, vec![(1, 1), (2, 1), (1, 2)]);
}

#[test]
fn aggregator_ignores_calls_without_a_new_record() {
    let mut source = journal::<u32>("source", 16);
    let mut target = journal::<u32>("target", 16);
    let mut reader = source.reader();
    let mut agg: Aggregator<u32, u32, u32> = Aggregator::new();
    source.append(&5);
    reader.next(&source);
    for _ in 0..3 {
        agg.reduce(&reader, &source, &mut target, |_: &u32| 0, |i: u64, x: &u32, acc: &u32| {
            (*acc + *x + i as u32, true)
        });
    }
    assert_eq!(target.size(), 1);
    assert_eq!(target.read(0), Some(5));
}

#[test]
fn aggregator_evicts_when_not_kept() {
    let mut source = journal::<u32>("source", 16);
    let mut target = journal::<u32>("target", 16);
    let mut reader = source.reader();
    let mut agg: Aggregator<u32, u32, u32> = Aggregator::new();
    for v in [1u32, 100, 2] {
        source.append(&v);
        reader.next(&source);
        agg.reduce(&reader, &source, &mut target, |_: &u32| 7, |i: u64, x: &u32, acc: &u32| {
            (*acc + *x, *x < 50 && i < 10)
        });
    }
    assert_eq!(target.size(), 2);
    assert_eq!(target.read(0), Some(1));
    assert_eq!(target.read(1), Some(2));
}

fn run_window(values: &[u32], size: u32) -> Vec<u32> {
    let mut source = journal::<u32>("source", 1024);
    let mut target = journal::<u32>("target", 1024);
    let mut reader = source.reader();
    let mut window: Window<u32, u32> = Window::new();
    for v in values {
        source.append(v);
        reader.next(&source);
        window.from(&reader, &source).to(&mut target).reduce(size, |w: &[u32]| {
            Some(w.iter().sum::<u32>() / w.len() as u32)
        });
    }
    let mut out = Vec::new();
    target.reader().handle_remaining(&target, &mut out);
    out
}

#[test]
fn sliding_window_of_three_means() {
    assert_eq!(run_window(&[1, 2, 3, 4, 5], 3), vec![2, 3, 4]);
}

#[test]
fn window_size_one_reduces_every_record() {
    assert_eq!(run_window(&[10, 20, 30], 1), vec![10, 20, 30]);
}

#[test]
fn window_not_full_reduces_nothing() {
    assert_eq!(run_window(&[1, 2], 3), Vec::<u32>::new());
}

#[test]
fn window_calls_reducer_only_on_full_buffers() {
    let mut source = journal::<u32>("source", 64);
    let mut target = journal::<usize>("target", 64);
    let mut reader = source.reader();
    let mut window: Window<u32, usize> = Window::new();
    for v in 0..10u32 {
        source.append(&v);
        reader.next(&source);
        window.reduce(&reader, &source, &mut target, 4, |w: &[u32]| Some(w.len()));
    }
    assert_eq!(target.size(), 7);
    for i in 0..7 {
        assert_eq!(target.read(i), Some(4));
    }
}

#[test]
fn backoff_ladder() {
    assert_eq!(backoff(0), Backoff::Hot);
    assert_eq!(backoff(10), Backoff::Hot);
    assert_eq!(backoff(11), Backoff::Spin);
    assert_eq!(backoff(1000), Backoff::Spin);
    assert_eq!(backoff(1001), Backoff::Yield);
    assert_eq!(next_idle_steps(5, true), 0);
    assert_eq!(next_idle_steps(5, false), 6);
    assert_eq!(next_idle_steps(u64::MAX, false), u64::MAX);
}

#[test]
fn idle_wait_decisions() {
    assert_eq!(idle_check(7, 7, 0, 100), IdleCheck::Idle);
    assert_eq!(idle_check(7, 7, 500, 100), IdleCheck::Idle);
    assert_eq!(idle_check(7, 9, 101, 100), IdleCheck::TimedOut);
    assert_eq!(idle_check(7, 9, 100, 100), IdleCheck::Wait);
}

#[test]
fn worker_panic_detection() {
    assert!(!any_worker_panicked(&vec![false, false], true));
    assert!(any_worker_panicked(&vec![false, true], true));
    assert!(!any_worker_panicked(&vec![true, true], false));
    assert!(!any_worker_panicked(&vec![], true));
    assert_eq!(core_for_worker(5, 4), 1);
}

#[test]
fn op_counter_totals() {
    let mut counter = OpCounter::new();
    assert_eq!(counter.total_op_count(), 0);
    let a = counter.new_counter();
    let b = counter.new_counter();
    assert_eq!((a, b), (0, 1));
    counter.set_count(a, 3);
    counter.set_count(b, 4);
    assert_eq!(counter.total_op_count(), 7);
    counter.set_count(b, u64::MAX);
    assert_eq!(counter.total_op_count(), u64::MAX);
}
