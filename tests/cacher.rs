use inxane_utils::Cacher;
use std::cell::Cell;

#[test]
fn cacher_basic_usage() {
    let mut cache = Cacher::new(|num| num * 2);
    cache.value(2);
    cache.value(2);
    cache.value(3);
    cache.value(3);
    assert!(cache.len() == 2 && *cache.get(&2).unwrap() == 4);
}

#[test]
fn repeated_request_runs_function_once() {
    let runs = Cell::new(0u32);
    let mut cache = Cacher::new(|n: &i32| {
        runs.set(runs.get() + 1);
        n * 2
    });
    assert_eq!(cache.value(15), 30);
    assert_eq!(cache.value(15), 30);
    assert_eq!(runs.get(), 1);
    assert_eq!(cache.len(), 1);
}

#[test]
fn each_distinct_argument_computed_once() {
    let runs = Cell::new(0u32);
    let mut cache = Cacher::new(|n: &u64| {
        runs.set(runs.get() + 1);
        n + 100
    });
    for v in [2u64, 2, 3, 3] {
        cache.value(v);
    }
    assert_eq!(runs.get(), 2);
    assert_eq!(cache.len(), 2);
    assert_eq!(cache.get(&2), Some(&102));
    assert_eq!(cache.get(&3), Some(&103));
}

#[test]
fn interleaved_requests_keep_stored_results() {
    let runs = Cell::new(0u32);
    let mut cache = Cacher::new(|n: &i64| {
        runs.set(runs.get() + 1);
        n * n
    });
    assert_eq!(cache.value(3), 9);
    assert_eq!(cache.value(-4), 16);
    assert_eq!(cache.value(3), 9);
    assert_eq!(cache.value(5), 25);
    assert_eq!(cache.value(-4), 16);
    assert_eq!(runs.get(), 3);
    assert_eq!(cache.len(), 3);
}

#[test]
fn distinct_arguments_are_separate_entries() {
    let mut cache = Cacher::new(|n: &i32| n + 1);
    let mut a = cache.value(1);
    let b = cache.value(2);
    a += 40;
    assert_eq!(a, 42);
    assert_eq!(b, 3);
    assert_eq!(cache.get(&1), Some(&2));
    assert_eq!(cache.get(&2), Some(&3));
    assert_eq!(cache.len(), 2);
}

#[test]
fn fresh_cacher_holds_nothing() {
    let runs = Cell::new(0u32);
    let cache = Cacher::new(|n: &u8| {
        runs.set(runs.get() + 1);
        *n
    });
    assert_eq!(cache.len(), 0);
    assert_eq!(cache.get(&7), None);
    assert_eq!(runs.get(), 0);
}

#[test]
fn unrequested_argument_is_not_stored() {
    let mut cache = Cacher::new(|n: &u32| n * 3);
    assert_eq!(cache.value(4), 12);
    assert_eq!(cache.get(&5), None);
    assert_eq!(cache.get(&4), Some(&12));
}
