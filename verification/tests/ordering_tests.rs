use sonde::ordering::{
    compare_keys, dedup_valid_times, loading_order, opt_valid_time_le, sort_by_valid_and_lead_time,
    sort_by_valid_time, valid_time_lt, Comparison, SoundingKey, ValidTime,
};

fn t(secs: i64) -> ValidTime {
    ValidTime { secs, nanos: 0 }
}

fn key(secs: Option<i64>, lead: Option<i32>) -> SoundingKey {
    SoundingKey { valid_time: secs.map(t), lead_time: lead }
}

#[test]
fn valid_time_order() {
    assert!(valid_time_lt(t(1), t(2)));
    assert!(!valid_time_lt(t(2), t(1)));
    assert!(!valid_time_lt(t(2), t(2)));
    assert!(valid_time_lt(ValidTime { secs: 2, nanos: 1 }, ValidTime { secs: 2, nanos: 5 }));
    assert!(valid_time_lt(ValidTime { secs: -3, nanos: 999 }, ValidTime { secs: 2, nanos: 0 }));
}

#[test]
fn missing_valid_time_comes_first() {
    assert!(opt_valid_time_le(None, None));
    assert!(opt_valid_time_le(None, Some(t(0))));
    assert!(!opt_valid_time_le(Some(t(0)), None));
    assert!(opt_valid_time_le(Some(t(4)), Some(t(4))));
    assert!(opt_valid_time_le(Some(t(3)), Some(t(4))));
    assert!(!opt_valid_time_le(Some(t(5)), Some(t(4))));
}

#[test]
fn sort_by_valid_time_is_stable() {
    let keys = vec![Some(t(30)), None, Some(t(10)), Some(t(30)), Some(t(20)), None];
    assert_eq!(sort_by_valid_time(&keys), vec![1, 5, 2, 4, 0, 3]);
    assert_eq!(sort_by_valid_time(&vec![]), Vec::<usize>::new());
    assert_eq!(sort_by_valid_time(&vec![Some(t(1)), Some(t(1)), Some(t(1))]), vec![0, 1, 2]);
    assert_eq!(sort_by_valid_time(&vec![Some(t(3)), Some(t(2)), Some(t(1))]), vec![2, 1, 0]);
}

#[test]
fn compare_keys_by_valid_then_lead_time() {
    assert_eq!(compare_keys(key(Some(1), Some(9)), key(Some(2), Some(0))), Comparison::Less);
    assert_eq!(compare_keys(key(Some(2), Some(0)), key(Some(1), Some(9))), Comparison::Greater);
    assert_eq!(compare_keys(key(Some(2), Some(3)), key(Some(2), Some(6))), Comparison::Less);
    assert_eq!(compare_keys(key(Some(2), Some(6)), key(Some(2), Some(3))), Comparison::Greater);
    assert_eq!(compare_keys(key(Some(2), Some(6)), key(Some(2), Some(6))), Comparison::Equal);
    assert_eq!(compare_keys(key(Some(2), None), key(Some(2), Some(6))), Comparison::Equal);
    assert_eq!(compare_keys(key(None, Some(1)), key(Some(2), Some(6))), Comparison::Equal);
    assert_eq!(compare_keys(key(Some(2), Some(1)), key(None, None)), Comparison::Equal);
}

#[test]
fn sort_by_valid_and_lead_time_orders_both() {
    let keys = vec![
        key(Some(200), Some(6)),
        key(Some(100), Some(12)),
        key(Some(200), Some(3)),
        key(Some(100), Some(0)),
    ];
    assert_eq!(sort_by_valid_and_lead_time(&keys), vec![3, 1, 2, 0]);
}

#[test]
fn sort_with_missing_times_lists_every_position() {
    let keys = vec![key(Some(5), None), key(None, None), key(Some(1), Some(2)), key(Some(3), None)];
    let mut order = sort_by_valid_and_lead_time(&keys);
    order.sort();
    assert_eq!(order, vec![0, 1, 2, 3]);
}

#[test]
fn dedup_keeps_first_of_each_valid_time() {
    let keys = vec![key(Some(1), Some(0)), key(Some(1), Some(6)), key(Some(2), Some(0)), key(Some(2), Some(1))];
    assert_eq!(dedup_valid_times(&keys, &vec![0, 1, 2, 3]), vec![0, 2]);
    assert_eq!(dedup_valid_times(&keys, &vec![3, 2, 1, 0]), vec![3, 1]);
    assert_eq!(dedup_valid_times(&keys, &vec![]), Vec::<usize>::new());
}

#[test]
fn dedup_keeps_first_sounding_without_valid_time() {
    let keys = vec![key(None, Some(0)), key(Some(1), Some(0)), key(None, None)];
    assert_eq!(dedup_valid_times(&keys, &vec![0, 1]), vec![0, 1]);
    assert_eq!(dedup_valid_times(&keys, &vec![0, 2]), vec![0]);
    assert_eq!(dedup_valid_times(&keys, &vec![1, 0, 2]), vec![1, 0]);
    assert_eq!(dedup_valid_times(&keys, &vec![2]), vec![2]);
}

#[test]
fn loading_order_keeps_one_sounding_when_none_has_a_valid_time() {
    let keys = vec![key(None, Some(0)), key(None, Some(3)), key(None, None)];
    let r = loading_order(&keys);
    assert_eq!(r.sorted, vec![0, 1, 2]);
    assert_eq!(r.kept, vec![0]);
}

#[test]
fn loading_order_prefers_shortest_lead_time() {
    let keys = vec![
        key(Some(200), Some(6)),
        key(Some(100), Some(12)),
        key(Some(200), Some(3)),
        key(Some(100), Some(0)),
        key(Some(300), Some(24)),
    ];
    let r = loading_order(&keys);
    assert_eq!(r.sorted, vec![3, 1, 2, 0, 4]);
    assert_eq!(r.kept, vec![3, 2, 4]);
}

#[test]
fn loading_order_keeps_strictly_increasing_times() {
    let keys = vec![
        key(Some(50), Some(1)),
        key(Some(10), Some(2)),
        key(Some(50), Some(0)),
        key(Some(10), Some(2)),
        key(Some(30), Some(5)),
    ];
    let r = loading_order(&keys);
    let times: Vec<i64> = r.kept.iter().map(|&i| keys[i].valid_time.unwrap().secs).collect();
    assert_eq!(times, vec![10, 30, 50]);
    assert_eq!(r.kept, vec![1, 4, 2]);
}

#[test]
fn loading_order_of_nothing() {
    let r = loading_order(&vec![]);
    assert!(r.sorted.is_empty());
    assert!(r.kept.is_empty());
}
