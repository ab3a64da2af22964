use vstd::prelude::*;

verus! {

/// `10` raised to the power `k`.
pub open spec fn pow10(k: nat) -> nat
    decreases k,
{
    if k == 0 {
        1
    } else {
        10 * pow10((k - 1) as nat)
    }
}

/// Number of digits in the decimal representation of `n` (at least one).
pub open spec fn spec_digits(n: nat) -> nat
    decreases n,
{
    if n < 10 {
        1
    } else {
        1 + spec_digits(n / 10)
    }
}

/// A number below `10^k` has at most `k` digits.
pub proof fn lemma_digits_bound(n: nat, k: nat)
    requires
        k >= 1,
        n < pow10(k),
    ensures
        spec_digits(n) <= k,
    decreases k,
{
    if n >= 10 {
        assert(k >= 2) by {
            if k == 1 {
                reveal_with_fuel(pow10, 2);
            }
        }
        lemma_digits_bound(n / 10, (k - 1) as nat);
    }
}

/// Every `u64` has at most 20 decimal digits.
pub proof fn lemma_u64_digits_bound(n: u64)
    ensures
        1 <= spec_digits(n as nat) <= 20,
{
    reveal_with_fuel(pow10, 21);
    assert(pow10(20) == 100000000000000000000nat);
    lemma_digits_bound(n as nat, 20);
}

/// Returns the number of digits in the decimal representation of `n`.
pub fn u64_digits(n: u64) -> (d: usize)
    ensures
        d == spec_digits(n as nat),
        1 <= d <= 20,
{
    proof {
        lemma_u64_digits_bound(n);
    }
    let mut m = n;
    let mut d: usize = 1;
    while m >= 10
        invariant
            1 <= d,
            spec_digits(n as nat) == d - 1 + spec_digits(m as nat),
            spec_digits(n as nat) <= 20,
        decreases m,
    {
        m = m / 10;
        d = d + 1;
    }
    d
}

} // verus!

verus! {

/// The `Duration` of `ms` milliseconds, as `Duration::from_millis` builds it.
pub uninterp spec fn duration_of_millis(ms: u64) -> core::time::Duration;

/// Calls `core::time::Duration::from_millis`; its result is the duration of `ms`
/// milliseconds, a function of `ms` alone.
#[verifier::external_body]
pub(crate) fn duration_from_millis(ms: u64) -> (d: core::time::Duration)
    ensures
        d == duration_of_millis(ms),
{
    core::time::Duration::from_millis(ms)
}

} // verus!
