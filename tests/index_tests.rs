use roda_state::direct_index::KeyBound;
use roda_state::{JournalStore, JournalStoreOptions};

fn store_of<T: Copy>(name: &'static str, size: usize) -> JournalStore<T> {
    JournalStore::new(JournalStoreOptions { name, size, in_memory: true })
}

#[test]
fn test_index_multiple_values() {
    let mut store = store_of::<u32>("test", 1024);
    let mut index = store.direct_index();

    for i in 0..5u32 {
        store.append(&i);
    }
    for _ in 0..5 {
        index.compute(&store, |x: &u32| (*x * 10) as i64);
    }

    for i in 0..5u32 {
        assert_eq!(index.get(&store, &((i * 10) as i64)), Some(i));
    }
}

#[test]
fn test_multiple_indices_on_same_store() {
    let mut store = store_of::<u32>("test", 1024);
    let mut index_double = store.direct_index();
    let mut index_triple = store.direct_index();

    store.append(&10);

    index_double.compute(&store, |x: &u32| (*x * 2) as i64);
    index_triple.compute(&store, |x: &u32| (*x * 3) as i64);

    assert_eq!(index_double.get(&store, &20), Some(10));
    assert_eq!(index_triple.get(&store, &30), Some(10));
}

#[test]
fn test_index_collision_overwrite() {
    let mut store = store_of::<u32>("test", 1024);
    let mut index = store.direct_index();

    store.append(&10);
    store.append(&20);

    index.compute(&store, |_: &u32| 1);
    index.compute(&store, |_: &u32| 1);

    assert_eq!(index.get(&store, &1), Some(20));
}

#[test]
fn test_index_not_found() {
    let mut store = store_of::<u32>("test", 1024);
    let mut index = store.direct_index();

    store.append(&10);
    index.compute(&store, |x: &u32| (*x + 1) as i64);

    assert_eq!(index.get(&store, &11), Some(10));
    assert_eq!(index.get(&store, &999), None);
}

#[test]
fn test_index_load_and_edge_cases() {
    let mut store = store_of::<u64>("index_edge", 1024 * 1024);
    let mut index = store.direct_index();

    index.compute(&store, |v: &u64| *v as i64);
    assert_eq!(index.get(&store, &0), None);

    let num_items = 1000;
    for i in 0..num_items {
        store.append(&(i as u64));
        index.compute(&store, |v: &u64| *v as i64);
    }
    for i in 0..num_items {
        assert_eq!(index.get(&store, &(i as i64)), Some(i as u64));
    }

    store.append(&100);
    index.compute(&store, |v: &u64| *v as i64);

    store.append(&10000);
    index.compute(&store, |_v: &u64| 100);
    assert_eq!(index.get(&store, &100), Some(10000));
}

#[test]
fn test_index_iterator() {
    let mut store = store_of::<u32>("test", 1024);
    let mut index = store.direct_index();

    for i in 0..5u32 {
        store.append(&i);
        index.compute(&store, |x: &u32| (*x * 2) as i64);
    }

    let items = index.iter(&store);
    assert_eq!(items.len(), 5);
    let expected = vec![(0, 0), (2, 1), (4, 2), (6, 3), (8, 4)];
    assert_eq!(items, expected);
    assert_eq!(index.size(), 5);
}

#[derive(Clone, Copy, Default, Debug, PartialEq)]
struct PriceLevel {
    pub price: i64,
    pub volume: u64,
}

fn price_book() -> (JournalStore<PriceLevel>, roda_state::direct_index::DirectIndex) {
    let mut store = store_of::<PriceLevel>("test_nav", 1024);
    let mut index = store.direct_index();
    store.append(&PriceLevel { price: 100, volume: 10 });
    store.append(&PriceLevel { price: 200, volume: 20 });
    store.append(&PriceLevel { price: 300, volume: 30 });
    index.compute(&store, |p: &PriceLevel| p.price);
    index.compute(&store, |p: &PriceLevel| p.price);
    index.compute(&store, |p: &PriceLevel| p.price);
    (store, index)
}

#[test]
fn test_index_navigation() {
    let (store, index) = price_book();

    {
        let key = 150;
        let mut it = index.find_ge(&store, &key).into_iter();
        assert_eq!(it.next().unwrap().0, 200);
        assert_eq!(it.next().unwrap().0, 300);
        assert!(it.next().is_none());
    }
    {
        let key = 250;
        let mut it = index.find_le(&store, &key).into_iter();
        assert_eq!(it.next().unwrap().0, 100);
        assert_eq!(it.next().unwrap().0, 200);
        assert!(it.next().is_none());
    }
    {
        let mut it = index
            .range(&store, KeyBound::Included(150), KeyBound::Excluded(250))
            .into_iter();
        assert_eq!(it.next().unwrap().0, 200);
        assert!(it.next().is_none());
    }
}

#[test]
fn test_index_navigation_rev() {
    let (store, index) = price_book();

    {
        let key = 150;
        let mut it = index.find_ge(&store, &key).into_iter().rev();
        assert_eq!(it.next().unwrap().0, 300);
        assert_eq!(it.next().unwrap().0, 200);
        assert!(it.next().is_none());
    }
    {
        let key = 250;
        let mut it = index.find_le(&store, &key).into_iter().rev();
        assert_eq!(it.next().unwrap().0, 200);
        assert_eq!(it.next().unwrap().0, 100);
        assert!(it.next().is_none());
    }
}

#[test]
fn direct_index_range_scenario() {
    let (store, index) = price_book();
    let r = index.range(&store, KeyBound::Included(150), KeyBound::Excluded(250));
    assert_eq!(r, vec![(200, PriceLevel { price: 200, volume: 20 })]);
    let best: Vec<i64> = index.find_ge(&store, &150).into_iter().rev().take(5).map(|e| e.0).collect();
    assert_eq!(best, vec![300, 200]);
}

#[test]
fn first_after_and_last_before_step_once() {
    let (store, index) = price_book();
    assert_eq!(index.first_after(&store, &150).map(|e| e.0), Some(200));
    assert_eq!(index.first_after(&store, &200).map(|e| e.0), Some(200));
    assert_eq!(index.first_after(&store, &301), None);
    assert_eq!(index.last_before(&store, &250).map(|e| e.0), Some(200));
    assert_eq!(index.last_before(&store, &200).map(|e| e.0), Some(100));
    assert_eq!(index.last_before(&store, &100), None);
}

#[test]
fn delete_removes_only_that_key() {
    let (store, mut index) = price_book();
    index.delete(&200);
    assert_eq!(index.get(&store, &200), None);
    assert_eq!(index.get(&store, &100).map(|p| p.volume), Some(10));
    assert_eq!(index.size(), 2);
}

#[test]
fn index_is_never_ahead_of_its_reader() {
    let mut store = store_of::<u32>("lag", 16);
    let mut index = store.direct_index();
    store.append(&7);
    assert_eq!(index.get(&store, &7), None);
    index.compute(&store, |x: &u32| *x as i64);
    assert_eq!(index.get(&store, &7), Some(7));
    index.compute(&store, |x: &u32| *x as i64);
    assert_eq!(index.size(), 1);
}

#[test]
fn test_index_reader_with_and_get() {
    let mut store = store_of::<u32>("index_with", 1024);
    let mut index = store.direct_index();
    store.append(&123);
    index.compute(&store, |v: &u32| *v as i64);

    assert_eq!(index.get(&store, &123), Some(123));
    assert_eq!(index.with(&store, &123, |v: &u32| *v), Some(123));

    assert_eq!(index.get(&store, &456), None);
    assert_eq!(index.with(&store, &456, |_: &u32| 1), None);
}

#[test]
fn test_store_direct_index_allocations_allowed() {
    let store = store_of::<u32>("direct_index_alloc", 1024);
    let index = store.direct_index();
    assert_eq!(index.size(), 0);
}
