//! Checked-by-proof integer helpers.

use vstd::prelude::*;

verus! {

/// Returns `x + 1`.
///
/// The caller must rule out `i32::MAX`, for which the sum does not fit.
pub fn add_one(x: i32) -> (r: i32)
    requires
        x < i32::MAX,
    ensures
        r == x + 1,
{
    x + 1
}

/// Returns `x + 2`, as two successive increments.
pub fn add_two(x: i32) -> (r: i32)
    requires
        x < i32::MAX - 1,
    ensures
        r == x + 2,
{
    add_one(add_one(x))
}

/// The Fibonacci numbers: 0, 1, 1, 2, 3, 5, ...
pub open spec fn fib(n: nat) -> nat
    decreases n,
{
    if n == 0 {
        0
    } else if n <= 2 {
        1
    } else {
        fib((n - 1) as nat) + fib((n - 2) as nat)
    }
}

/// The Fibonacci numbers never decrease.
pub proof fn lemma_fib_monotonic(i: nat, j: nat)
    requires
        i <= j,
    ensures
        fib(i) <= fib(j),
    decreases j,
{
    if i < j {
        lemma_fib_monotonic(i, (j - 1) as nat);
        if j > 2 {
            assert(fib(j) == fib((j - 1) as nat) + fib((j - 2) as nat));
        }
    }
}

/// Returns the `n`-th Fibonacci number, or `None` if it does not fit in 32
/// bits.
pub fn nth_term(n: u32) -> (term: Option<u32>)
    ensures
        fib(n as nat) <= u32::MAX ==> term == Some(fib(n as nat) as u32),
        fib(n as nat) > u32::MAX ==> term is None,
{
    if n == 0 {
        return Some(0);
    }
    if n == 1 || n == 2 {
        return Some(1);
    }
    let mut a: u32 = 1;
    let mut b: u32 = 1;
    let mut i: u32 = 2;
    while i < n
        invariant
            2 <= i <= n,
            a == fib((i - 1) as nat),
            b == fib(i as nat),
        decreases n - i,
    {
        let c = match a.checked_add(b) {
            Some(sum) => sum,
            None => {
                proof {
                    lemma_fib_monotonic((i + 1) as nat, n as nat);
                }
                return None;
            },
        };
        a = b;
        b = c;
        i += 1;
    }
    Some(b)
}

} // verus!
