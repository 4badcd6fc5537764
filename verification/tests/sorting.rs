use validator_store::sorting::{count_in_sorted, lower_bound, sort_keys, stands_before, RankKey};

fn key(epoch: u64, value: u64) -> RankKey {
    RankKey { epoch, value }
}

#[test]
fn keys_are_sorted_by_epoch_then_value() {
    let keys = vec![key(2, 5), key(1, 9), key(2, 1), key(1, 9), key(3, 0), key(1, 2)];
    assert_eq!(
        sort_keys(keys),
        vec![key(1, 2), key(1, 9), key(1, 9), key(2, 1), key(2, 5), key(3, 0)]
    );
    assert_eq!(sort_keys(vec![]), vec![]);
    assert_eq!(sort_keys(vec![key(7, 7)]), vec![key(7, 7)]);
}

#[test]
fn sorting_keeps_every_key() {
    let mut keys = Vec::new();
    for i in 0..1000u64 {
        keys.push(key(i % 7, (i * 7919) % 101));
    }
    let sorted = sort_keys(keys.clone());
    assert_eq!(sorted.len(), keys.len());
    let mut expected = keys;
    expected.sort_by_key(|k| (k.epoch, k.value));
    assert_eq!(sorted, expected);
}

#[test]
fn the_lower_bound_is_the_first_place_not_before_the_key() {
    let keys = vec![key(1, 2), key(1, 9), key(1, 9), key(2, 1), key(2, 5), key(3, 0)];
    assert_eq!(lower_bound(&keys, key(0, 0)), 0);
    assert_eq!(lower_bound(&keys, key(1, 2)), 0);
    assert_eq!(lower_bound(&keys, key(1, 3)), 1);
    assert_eq!(lower_bound(&keys, key(1, 9)), 1);
    assert_eq!(lower_bound(&keys, key(1, 10)), 3);
    assert_eq!(lower_bound(&keys, key(2, 0)), 3);
    assert_eq!(lower_bound(&keys, key(3, 0)), 5);
    assert_eq!(lower_bound(&keys, key(3, 1)), 6);
    assert_eq!(lower_bound(&vec![], key(3, 1)), 0);
}

#[test]
fn keys_of_an_epoch_are_counted_from_a_value_up() {
    let keys = vec![key(1, 2), key(1, 9), key(1, 9), key(2, 1), key(2, 5), key(3, 0)];
    assert_eq!(count_in_sorted(&keys, 1, 0), 3);
    assert_eq!(count_in_sorted(&keys, 1, 2), 3);
    assert_eq!(count_in_sorted(&keys, 1, 3), 2);
    assert_eq!(count_in_sorted(&keys, 1, 9), 2);
    assert_eq!(count_in_sorted(&keys, 1, 10), 0);
    assert_eq!(count_in_sorted(&keys, 2, 5), 1);
    assert_eq!(count_in_sorted(&keys, 3, 0), 1);
    assert_eq!(count_in_sorted(&keys, 4, 0), 0);
    assert_eq!(count_in_sorted(&keys, 0, 0), 0);
    let last = vec![key(u64::MAX, 1), key(u64::MAX, u64::MAX)];
    assert_eq!(count_in_sorted(&last, u64::MAX, 0), 2);
    assert_eq!(count_in_sorted(&last, u64::MAX, 2), 1);
    assert_eq!(count_in_sorted(&last, u64::MAX, u64::MAX), 1);
}

#[test]
fn keys_stand_before_later_epochs_and_larger_values() {
    assert!(stands_before(key(1, 9), key(2, 0)));
    assert!(stands_before(key(1, 8), key(1, 9)));
    assert!(!stands_before(key(1, 9), key(1, 9)));
    assert!(!stands_before(key(2, 0), key(1, 9)));
}
