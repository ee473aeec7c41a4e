use pathtracer::utils::partition;
use pathtracer::utils::vec_swap;

fn is_partitioned<T, P: Fn(&T) -> bool>(data: &[T], start: usize, end: usize, split: usize, p: P) -> bool {
    data[start..split].iter().all(|t| p(t)) && data[split..end].iter().all(|t| !p(t))
}

fn sorted_copy(v: &[u64]) -> Vec<u64> {
    let mut c = v.to_vec();
    c.sort();
    c
}

#[test]
fn partition_mixed_range() {
    let mut v: Vec<u64> = vec![9, 1, 8, 2, 7, 3];
    let before = sorted_copy(&v);
    let split = partition(&mut v, 0, 6, |x: &u64| *x < 5);
    assert_eq!(split, 3);
    assert!(is_partitioned(&v, 0, 6, split, |x: &u64| *x < 5));
    assert_eq!(sorted_copy(&v), before);
}

#[test]
fn partition_all_accepted() {
    let mut v: Vec<u64> = vec![1, 2, 3];
    let split = partition(&mut v, 0, 3, |_x: &u64| true);
    assert_eq!(split, 3);
    assert_eq!(v, vec![1, 2, 3]);
}

#[test]
fn partition_all_rejected() {
    let mut v: Vec<u64> = vec![1, 2, 3];
    let split = partition(&mut v, 0, 3, |_x: &u64| false);
    assert_eq!(split, 0);
    assert_eq!(v, vec![1, 2, 3]);
}

#[test]
fn partition_empty_range() {
    let mut v: Vec<u64> = vec![4, 5];
    let split = partition(&mut v, 1, 1, |x: &u64| *x < 5);
    assert_eq!(split, 1);
    assert_eq!(v, vec![4, 5]);
}

#[test]
fn partition_empty_vector() {
    let mut v: Vec<u64> = Vec::new();
    let split = partition(&mut v, 0, 0, |x: &u64| *x < 5);
    assert_eq!(split, 0);
    assert!(v.is_empty());
}

#[test]
fn partition_leaves_outside_untouched() {
    let mut v: Vec<u64> = vec![100, 9, 1, 8, 2, 200];
    let split = partition(&mut v, 1, 5, |x: &u64| *x < 5);
    assert_eq!(split, 3);
    assert_eq!(v[0], 100);
    assert_eq!(v[5], 200);
    assert!(is_partitioned(&v, 1, 5, split, |x: &u64| *x < 5));
    assert_eq!(sorted_copy(&v[1..5]), vec![1, 2, 8, 9]);
}

#[test]
fn partition_single_element() {
    let mut v: Vec<u64> = vec![7];
    let split = partition(&mut v, 0, 1, |x: &u64| *x < 5);
    assert_eq!(split, 0);
    let split2 = partition(&mut v, 0, 1, |x: &u64| *x > 5);
    assert_eq!(split2, 1);
}

#[test]
fn partition_works_on_unclonable_items() {
    let mut v: Vec<Box<u64>> = vec![Box::new(6), Box::new(2), Box::new(9), Box::new(1)];
    let split = partition(&mut v, 0, 4, |x: &Box<u64>| **x < 5);
    assert_eq!(split, 2);
    assert!(v[..2].iter().all(|b| **b < 5));
    assert!(v[2..].iter().all(|b| **b >= 5));
}

#[test]
fn vec_swap_exchanges_exactly_two() {
    let mut v: Vec<u64> = vec![10, 20, 30, 40];
    vec_swap(&mut v, 0, 3);
    assert_eq!(v, vec![40, 20, 30, 10]);
    vec_swap(&mut v, 1, 1);
    assert_eq!(v, vec![40, 20, 30, 10]);
}
