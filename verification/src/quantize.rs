//! Exact integer roots: the largest sample whose weighted power stays within
//! a budget. Both the brightness solver and the gamma correction quantize a
//! real number of the form `limit * (p / q)^(1/n)` by truncation, and that
//! truncated value is the largest integer `v` with `q * v^n <= p * limit^n`.

use vstd::prelude::*;

verus! {

/// `base` raised to `exponent`.
pub open spec fn power(base: nat, exponent: nat) -> nat
    decreases exponent,
{
    if exponent == 0 {
        1
    } else {
        base * power(base, (exponent - 1) as nat)
    }
}

/// Whether `weight * sample^exponent` does not exceed `budget`.
pub open spec fn within_budget(weight: nat, exponent: nat, budget: nat, sample: nat) -> bool {
    weight * power(sample, exponent) <= budget
}

/// The largest sample in `1..=limit` that is within the budget, and zero
/// where there is none.
pub open spec fn largest_within(weight: nat, exponent: nat, budget: nat, limit: nat) -> nat
    decreases limit,
{
    if limit == 0 {
        0
    } else if within_budget(weight, exponent, budget, limit) {
        limit
    } else {
        largest_within(weight, exponent, budget, (limit - 1) as nat)
    }
}

/// A power grows with its base.
pub proof fn lemma_power_monotonic(small: nat, large: nat, exponent: nat)
    requires
        small <= large,
    ensures
        power(small, exponent) <= power(large, exponent),
    decreases exponent,
{
    if exponent > 0 {
        let e = (exponent - 1) as nat;
        lemma_power_monotonic(small, large, e);
        assert(small * power(small, e) <= large * power(large, e)) by (nonlinear_arith)
            requires
                small <= large,
                power(small, e) <= power(large, e),
        ;
    }
}

/// A power with an exponent of one or more grows strictly with its base.
pub proof fn lemma_power_strictly_monotonic(small: nat, large: nat, exponent: nat)
    requires
        small < large,
        exponent >= 1,
    ensures
        power(small, exponent) < power(large, exponent),
    decreases exponent,
{
    let e = (exponent - 1) as nat;
    if e > 0 {
        lemma_power_strictly_monotonic(small, large, e);
    }
    assert(small * power(small, e) < large * power(large, e)) by (nonlinear_arith)
        requires
            small < large,
            power(small, e) <= power(large, e),
            power(large, e) >= 1,
    ;
}

/// A sample that is within the budget stays within it when it shrinks.
pub proof fn lemma_within_budget_downward(
    weight: nat,
    exponent: nat,
    budget: nat,
    small: nat,
    large: nat,
)
    requires
        small <= large,
        within_budget(weight, exponent, budget, large),
    ensures
        within_budget(weight, exponent, budget, small),
{
    lemma_power_monotonic(small, large, exponent);
    assert(weight * power(small, exponent) <= weight * power(large, exponent))
        by (nonlinear_arith)
        requires
            power(small, exponent) <= power(large, exponent),
    ;
}

/// What `largest_within` returns is at most `limit`, is within the budget
/// unless it is zero, and no larger sample up to `limit` is within it.
pub proof fn lemma_largest_within_is_largest(
    weight: nat,
    exponent: nat,
    budget: nat,
    limit: nat,
)
    ensures
        largest_within(weight, exponent, budget, limit) <= limit,
        largest_within(weight, exponent, budget, limit) > 0 ==> within_budget(
            weight,
            exponent,
            budget,
            largest_within(weight, exponent, budget, limit),
        ),
        forall|sample: nat|
            largest_within(weight, exponent, budget, limit) < sample <= limit ==> !within_budget(
                weight,
                exponent,
                budget,
                sample,
            ),
    decreases limit,
{
    if limit > 0 && !within_budget(weight, exponent, budget, limit) {
        lemma_largest_within_is_largest(weight, exponent, budget, (limit - 1) as nat);
    }
}

/// A sample that is within the budget, while its successor is not or would
/// pass `limit`, is the one that `largest_within` returns.
pub proof fn lemma_largest_within_found(
    weight: nat,
    exponent: nat,
    budget: nat,
    limit: nat,
    sample: nat,
)
    requires
        sample <= limit,
        sample == 0 || within_budget(weight, exponent, budget, sample),
        sample == limit || !within_budget(weight, exponent, budget, sample + 1),
    ensures
        largest_within(weight, exponent, budget, limit) == sample,
    decreases limit - sample,
{
    if sample < limit {
        if within_budget(weight, exponent, budget, limit) {
            lemma_within_budget_downward(weight, exponent, budget, sample + 1, limit);
        }
        lemma_largest_within_found(weight, exponent, budget, (limit - 1) as nat, sample);
    }
}

/// Computes `base^exponent`.
pub fn raise(base: u8, exponent: u32) -> (result: u128)
    requires
        power(base as nat, exponent as nat) <= u128::MAX,
    ensures
        result == power(base as nat, exponent as nat),
{
    let mut result: u128 = 1;
    let mut done: u32 = 0;
    while done < exponent
        invariant
            done <= exponent,
            result == power(base as nat, done as nat),
            power(base as nat, exponent as nat) <= u128::MAX,
        decreases exponent - done,
    {
        proof {
            lemma_power_grows_with_exponent(base as nat, (done + 1) as nat, exponent as nat);
            assert(result * base == base * result) by (nonlinear_arith);
        }
        result = result * (base as u128);
        done = done + 1;
    }
    result
}

/// Powers of one base grow with the exponent, but for the step from
/// `0^0 = 1` down to `0^n = 0`.
pub proof fn lemma_power_grows_with_exponent(base: nat, small: nat, large: nat)
    requires
        small <= large,
        base >= 1 || small >= 1,
    ensures
        power(base, small) <= power(base, large),
    decreases large,
{
    if small < large {
        let e = (large - 1) as nat;
        lemma_power_grows_with_exponent(base, small, e);
        if base >= 1 {
            assert(power(base, e) <= base * power(base, e)) by (nonlinear_arith)
                requires
                    base >= 1,
            ;
        }
    }
}

/// Finds the largest sample up to `limit` whose weighted power is within the
/// budget.
pub fn largest_sample(weight: u128, exponent: u32, budget: u128, limit: u8) -> (sample: u8)
    requires
        power(limit as nat, exponent as nat) <= u128::MAX,
        weight * power(limit as nat, exponent as nat) <= u128::MAX,
    ensures
        sample == largest_within(weight as nat, exponent as nat, budget as nat, limit as nat),
{
    let mut sample: u8 = 0;
    while sample < limit
        invariant
            sample <= limit,
            sample == 0 || within_budget(
                weight as nat,
                exponent as nat,
                budget as nat,
                sample as nat,
            ),
            power(limit as nat, exponent as nat) <= u128::MAX,
            weight * power(limit as nat, exponent as nat) <= u128::MAX,
        decreases limit - sample,
    {
        let next: u8 = sample + 1;
        proof {
            lemma_power_monotonic(next as nat, limit as nat, exponent as nat);
            assert(weight * power(next as nat, exponent as nat) <= weight * power(
                limit as nat,
                exponent as nat,
            )) by (nonlinear_arith)
                requires
                    power(next as nat, exponent as nat) <= power(limit as nat, exponent as nat),
            ;
        }
        let raised: u128 = raise(next, exponent);
        if weight * raised > budget {
            proof {
                lemma_largest_within_found(
                    weight as nat,
                    exponent as nat,
                    budget as nat,
                    limit as nat,
                    sample as nat,
                );
            }
            return sample;
        }
        sample = next;
    }
    proof {
        lemma_largest_within_found(
            weight as nat,
            exponent as nat,
            budget as nat,
            limit as nat,
            sample as nat,
        );
    }
    sample
}

} // verus!
