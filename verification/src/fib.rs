//! Fibonacci numbers computed by several strategies, all proved against
//! one mathematical definition.

use std::collections::HashMap;
use vstd::prelude::*;

verus! {

/// The mathematical Fibonacci sequence: 0, 1, 1, 2, 3, 5, ...
pub open spec fn fib(n: nat) -> nat
    decreases n,
{
    if n == 0 {
        0
    } else if n == 1 {
        1
    } else {
        fib((n - 2) as nat) + fib((n - 1) as nat)
    }
}

/// Whether the `n`-th Fibonacci number is representable as a `u64`.
pub open spec fn fib_fits_u64(n: nat) -> bool {
    fib(n) <= u64::MAX
}

/// The Fibonacci sequence never decreases, so once a value fits in a
/// `u64`, every earlier value does too.
pub proof fn lemma_fib_is_monotonic(i: nat, j: nat)
    requires
        i <= j,
    ensures
        fib(i) <= fib(j),
    decreases j - i,
{
    if i < 2 && j < 2 {
    } else if i == j {
    } else if i == j - 1 {
        reveal_with_fuel(fib, 2);
        lemma_fib_is_monotonic(i, (j - 1) as nat);
    } else {
        lemma_fib_is_monotonic(i, (j - 1) as nat);
        lemma_fib_is_monotonic(i, (j - 2) as nat);
    }
}

/// Computes `fib(n)` by direct recursion on the definition, in
/// exponential time.
pub fn fib_recursive_naive(n: u32) -> (r: u64)
    requires
        fib_fits_u64(n as nat),
    ensures
        r == fib(n as nat),
    decreases n,
{
    if n <= 1 {
        n as u64
    } else {
        proof {
            lemma_fib_is_monotonic((n - 1) as nat, n as nat);
            lemma_fib_is_monotonic((n - 2) as nat, n as nat);
        }
        fib_recursive_naive(n - 1) + fib_recursive_naive(n - 2)
    }
}

/// Computes `fib(n)` with a loop, in linear time and constant space.
pub fn fib_iterative(n: u32) -> (r: u64)
    requires
        fib_fits_u64(n as nat),
    ensures
        r == fib(n as nat),
{
    if n <= 1 {
        return n as u64;
    }
    let mut prev2: u64 = 0;
    let mut prev1: u64 = 1;
    let mut i: u64 = 2;
    while i <= n as u64
        invariant
            2 <= i <= n + 1,
            fib_fits_u64(n as nat),
            prev2 == fib((i - 2) as nat),
            prev1 == fib((i - 1) as nat),
        decreases n + 1 - i,
    {
        proof {
            lemma_fib_is_monotonic(i as nat, n as nat);
        }
        let current: u64 = prev1 + prev2;
        prev2 = prev1;
        prev1 = current;
        i = i + 1;
    }
    prev1
}

/// Computes `fib(n)` with a branch for the base cases and a loop for the
/// rest, using no early return.
pub fn fib_const(n: u32) -> (r: u64)
    requires
        fib_fits_u64(n as nat),
    ensures
        r == fib(n as nat),
{
    if n <= 1 {
        n as u64
    } else {
        let mut prev2: u64 = 0;
        let mut prev1: u64 = 1;
        let mut i: u64 = 2;
        while i <= n as u64
            invariant
                2 <= i <= n + 1,
                fib_fits_u64(n as nat),
                prev2 == fib((i - 2) as nat),
                prev1 == fib((i - 1) as nat),
            decreases n + 1 - i,
        {
            proof {
                lemma_fib_is_monotonic(i as nat, n as nat);
            }
            let current: u64 = prev1 + prev2;
            prev2 = prev1;
            prev1 = current;
            i = i + 1;
        }
        prev1
    }
}

/// Every value stored in the memo table is the Fibonacci number of its key.
pub open spec fn memo_valid(m: Map<u32, u64>) -> bool {
    forall|k: u32| m.contains_key(k) ==> m[k] == fib(k as nat)
}

/// Computes `fib(n)`, consulting and filling the memo table so that each
/// Fibonacci number is computed at most once.
fn fib_memoized_helper(n: u32, memo: &mut HashMap<u32, u64>) -> (r: u64)
    requires
        fib_fits_u64(n as nat),
        memo_valid(old(memo)@),
    ensures
        r == fib(n as nat),
        memo_valid(final(memo)@),
    decreases n,
{
    broadcast use vstd::std_specs::hash::group_hash_axioms;

    if let Some(result) = memo.get(&n) {
        return *result;
    }
    if n <= 1 {
        let _ = memo.insert(n, n as u64);
        return n as u64;
    }
    proof {
        lemma_fib_is_monotonic((n - 1) as nat, n as nat);
        lemma_fib_is_monotonic((n - 2) as nat, n as nat);
    }
    let a = fib_memoized_helper(n - 1, memo);
    let b = fib_memoized_helper(n - 2, memo);
    let result = a + b;
    let _ = memo.insert(n, result);
    result
}

/// Computes `fib(n)` by memoized recursion over a hash table that lives
/// only for the duration of the call.
pub fn fib_memoized(n: u32) -> (r: u64)
    requires
        fib_fits_u64(n as nat),
    ensures
        r == fib(n as nat),
{
    let mut memo: HashMap<u32, u64> = HashMap::new();
    fib_memoized_helper(n, &mut memo)
}

/// A lazily evaluated source of Fibonacci numbers: each call to
/// [`FibonacciIterator::next`] yields the next element of the sequence.
pub struct FibonacciIterator {
    prev: u64,
    curr: u64,
    position: Ghost<nat>,
}

impl FibonacciIterator {
    /// How many values the iterator has yielded so far.
    pub closed spec fn spec_position(&self) -> nat {
        self.position@
    }

    /// The iterator holds the Fibonacci numbers at its current position
    /// and the one after it.
    pub closed spec fn well_formed(&self) -> bool {
        self.prev == fib(self.spec_position()) && self.curr == fib(self.spec_position() + 1)
    }

    /// Creates an iterator positioned at the start of the sequence.
    pub fn new() -> (it: FibonacciIterator)
        ensures
            it.well_formed(),
            it.spec_position() == 0,
    {
        FibonacciIterator { prev: 0, curr: 1, position: Ghost(0) }
    }

    /// Yields the Fibonacci number at the current position and advances,
    /// or returns `None`, leaving the iterator unchanged, once advancing
    /// would overflow a `u64`.
    pub fn next(&mut self) -> (r: Option<u64>)
        requires
            old(self).well_formed(),
        ensures
            final(self).well_formed(),
            match r {
                Some(value) => value == fib(old(self).spec_position())
                    && final(self).spec_position() == old(self).spec_position() + 1,
                None => fib(old(self).spec_position() + 2) > u64::MAX
                    && *final(self) == *old(self),
            },
    {
        match self.prev.checked_add(self.curr) {
            Some(upcoming) => {
                let result = self.prev;
                self.prev = self.curr;
                self.curr = upcoming;
                proof {
                    self.position@ = self.position@ + 1;
                }
                Some(result)
            },
            None => None,
        }
    }
}

} // verus!
