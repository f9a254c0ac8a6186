use rpn_calc::fib::{
    fib_const, fib_iterative, fib_memoized, fib_recursive_naive, FibonacciIterator,
};

const FIRST_TEN: [u64; 10] = [0, 1, 1, 2, 3, 5, 8, 13, 21, 34];

#[test]
fn iterative_matches_first_ten() {
    for (n, expected) in FIRST_TEN.iter().enumerate() {
        assert_eq!(fib_iterative(n as u32), *expected);
    }
}

#[test]
fn all_strategies_agree_on_small_inputs() {
    for n in 0..=20u32 {
        let reference = fib_iterative(n);
        assert_eq!(fib_recursive_naive(n), reference);
        assert_eq!(fib_memoized(n), reference);
        assert_eq!(fib_const(n), reference);
    }
}

#[test]
fn const_style_computes_ten() {
    assert_eq!(fib_const(10), 55);
}

#[test]
fn memoized_handles_large_inputs() {
    assert_eq!(fib_memoized(50), 12586269025);
    assert_eq!(fib_memoized(90), 2880067194370816120);
}

#[test]
fn iterative_reaches_the_largest_representable_value() {
    assert_eq!(fib_iterative(93), 12200160415121876738);
}

#[test]
fn iterator_yields_the_sequence_lazily() {
    let mut it = FibonacciIterator::new();
    let mut produced = Vec::new();
    for _ in 0..10 {
        produced.push(it.next().unwrap());
    }
    assert_eq!(produced, FIRST_TEN);
}

#[test]
fn iterator_sums_the_first_ten() {
    let mut it = FibonacciIterator::new();
    let mut sum: u64 = 0;
    for _ in 0..10 {
        sum += it.next().unwrap();
    }
    assert_eq!(sum, 88);
}

#[test]
fn iterator_stops_before_overflowing() {
    let mut it = FibonacciIterator::new();
    let mut count = 0u32;
    let mut last = 0u64;
    while let Some(value) = it.next() {
        last = value;
        count += 1;
    }
    // The iterator yields values while it can precompute the next pair.
    assert_eq!(count, 92);
    assert_eq!(last, fib_iterative(91));
    // Once exhausted it stays exhausted.
    assert_eq!(it.next(), None);
}
