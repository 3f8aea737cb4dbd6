use clam::iter::Indices;

#[test]
fn slice_enumerates_in_order_then_ends() {
    let source = vec![1usize, 2, 3];
    let mut it = Indices::from_slice(&source);
    assert_eq!(it.next(), Some(1));
    assert_eq!(it.next(), Some(2));
    assert_eq!(it.next(), Some(3));
    assert_eq!(it.next(), None);
}

#[test]
fn chain_concatenates_left_then_right() {
    let a = vec![1usize, 2, 3];
    let b = vec![4usize, 5];
    let mut it = Indices::chain(Indices::from_slice(&a), Indices::from_slice(&b));
    assert_eq!(it.collect_rest(), vec![1, 2, 3, 4, 5]);
    assert_eq!(it.next(), None);
}

#[test]
fn chain_nesting_is_associative() {
    let a = vec![7usize, 1];
    let b = vec![3usize];
    let c = vec![9usize, 0, 4];
    let mut left = Indices::chain(
        Indices::chain(Indices::from_slice(&a), Indices::from_slice(&b)),
        Indices::from_slice(&c),
    );
    let mut right = Indices::chain(
        Indices::from_slice(&a),
        Indices::chain(Indices::from_slice(&b), Indices::from_slice(&c)),
    );
    let l = left.collect_rest();
    assert_eq!(l, right.collect_rest());
    assert_eq!(l, vec![7, 1, 3, 9, 0, 4]);
}

#[test]
fn exhausted_enumerator_stays_exhausted() {
    let a = vec![5usize];
    let empty: Vec<usize> = Vec::new();
    let mut it = Indices::chain(Indices::from_slice(&a), Indices::from_slice(&empty));
    assert_eq!(it.next(), Some(5));
    for _ in 0..5 {
        assert_eq!(it.next(), None);
    }
    assert_eq!(it.collect_rest(), Vec::<usize>::new());
}

#[test]
fn no_deduplication_or_sorting() {
    let a = vec![3usize, 3, 1];
    let b = vec![1usize, 0];
    let mut it = Indices::chain(Indices::from_slice(&b), Indices::from_slice(&a));
    assert_eq!(it.collect_rest(), vec![1, 0, 3, 3, 1]);
}

#[test]
fn empty_slice_yields_nothing() {
    let empty: Vec<usize> = Vec::new();
    let mut it = Indices::from_slice(&empty);
    assert_eq!(it.next(), None);
    assert_eq!(it.next(), None);
}

#[test]
fn collect_rest_continues_after_partial_use() {
    let a = vec![10usize, 20, 30, 40];
    let mut it = Indices::from_slice(&a);
    assert_eq!(it.next(), Some(10));
    assert_eq!(it.collect_rest(), vec![20, 30, 40]);
    assert_eq!(it.next(), None);
}
