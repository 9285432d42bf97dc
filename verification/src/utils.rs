//! Scalar and vector modular-reduction and range-check utilities.
//!
//! Scalar routines operate on one arbitrary-precision integer; vector
//! routines apply the corresponding scalar routine element-wise, preserving
//! order and length.  Reduction uses floor/Euclidean semantics: the standard
//! representative of `x` modulo `m > 0` is the unique `r` with `0 <= r < m`
//! congruent to `x`.

use vstd::prelude::*;
use num_bigint::BigInt;
use crate::bigint::big_value;
use crate::bigint::big_add;
use crate::bigint::big_sub;
use crate::bigint::big_div;
use crate::bigint::big_rem;
use crate::bigint::big_lt;
use crate::bigint::big_from_u64;
use crate::bigint::tmod;
use crate::bigint::lemma_tdiv_nonneg;
use crate::bigint::lemma_tmod_props;

verus! {

/// The centered representative of `x` modulo `m`, given a precomputed
/// half-modulus `h`: the standard representative, shifted down by `m` when
/// it exceeds `h`.
pub open spec fn centered_with(x: int, m: int, h: int) -> int {
    if x % m > h {
        x % m - m
    } else {
        x % m
    }
}

/// The centered representative of `x` modulo `m`: the standard
/// representative, shifted down by `m` when it exceeds `floor(m / 2)`.
pub open spec fn centered(x: int, m: int) -> int {
    centered_with(x, m, m / 2)
}

/// Returns the standard non-negative representative of `x` modulo
/// `modulus`: the unique `r` with `0 <= r < modulus` congruent to `x`,
/// under floor/Euclidean semantics rather than truncating division.
pub fn reduce_scalar(x: &BigInt, modulus: &BigInt) -> (r: BigInt)
    requires
        big_value(*modulus) > 0,
    ensures
        big_value(r) == big_value(*x) % big_value(*modulus),
{
    let t1 = big_rem(x, modulus);
    let t2 = big_add(&t1, modulus);
    let r = big_rem(&t2, modulus);
    proof {
        let xv = big_value(*x);
        let m = big_value(*modulus);
        lemma_tmod_props(xv, m);
        lemma_tdiv_nonneg(tmod(xv, m) + m, m);
        assert((m * 1 + tmod(xv, m)) % m == tmod(xv, m) % m) by {
            vstd::arithmetic::div_mod::lemma_mod_multiples_vanish(1, tmod(xv, m), m);
        }
    }
    r
}

/// Returns the centered representative of `x` modulo `modulus`, reusing the
/// precomputed half-modulus: the standard representative `r`, or `r -
/// modulus` when `r` exceeds `half_modulus`.
pub fn reduce_and_center(x: &BigInt, modulus: &BigInt, half_modulus: &BigInt) -> (r: BigInt)
    requires
        big_value(*modulus) > 0,
    ensures
        big_value(r) == centered_with(
            big_value(*x),
            big_value(*modulus),
            big_value(*half_modulus),
        ),
{
    let reduced = reduce_scalar(x, modulus);
    if big_lt(half_modulus, &reduced) {
        big_sub(&reduced, modulus)
    } else {
        reduced
    }
}

/// Returns the centered representative of `x` modulo `modulus`: the
/// smallest-magnitude value congruent to `x`, using `floor(modulus / 2)` as
/// the half-modulus.
pub fn reduce_and_center_scalar(x: &BigInt, modulus: &BigInt) -> (r: BigInt)
    requires
        big_value(*modulus) > 0,
    ensures
        big_value(r) == centered(big_value(*x), big_value(*modulus)),
{
    let two = big_from_u64(2);
    let half_modulus = big_div(modulus, &two);
    proof {
        lemma_tdiv_nonneg(big_value(*modulus), 2);
    }
    reduce_and_center(x, modulus, &half_modulus)
}

/// Applies `reduce_scalar` to every element, preserving order and length.
pub fn reduce_coefficients(coefficients: &[BigInt], modulus: &BigInt) -> (r: Vec<BigInt>)
    requires
        big_value(*modulus) > 0,
    ensures
        r@.len() == coefficients@.len(),
        forall|i: int|
            0 <= i < coefficients@.len() ==> big_value(#[trigger] r@[i]) == big_value(
                coefficients@[i],
            ) % big_value(*modulus),
{
    let n = coefficients.len();
    let mut r: Vec<BigInt> = Vec::new();
    let mut i: usize = 0;
    while i < n
        invariant
            i <= n,
            n == coefficients@.len(),
            big_value(*modulus) > 0,
            r@.len() == i,
            forall|j: int|
                0 <= j < i ==> big_value(#[trigger] r@[j]) == big_value(coefficients@[j])
                    % big_value(*modulus),
        decreases n - i,
    {
        r.push(reduce_scalar(&coefficients[i], modulus));
        i = i + 1;
    }
    r
}

/// Applies `reduce_and_center_scalar` to every element, preserving order
/// and length.
pub fn reduce_and_center_coefficients(coefficients: &[BigInt], modulus: &BigInt) -> (r: Vec<
    BigInt,
>)
    requires
        big_value(*modulus) > 0,
    ensures
        r@.len() == coefficients@.len(),
        forall|i: int|
            0 <= i < coefficients@.len() ==> big_value(#[trigger] r@[i]) == centered(
                big_value(coefficients@[i]),
                big_value(*modulus),
            ),
{
    let n = coefficients.len();
    let mut r: Vec<BigInt> = Vec::new();
    let mut i: usize = 0;
    while i < n
        invariant
            i <= n,
            n == coefficients@.len(),
            big_value(*modulus) > 0,
            r@.len() == i,
            forall|j: int|
                0 <= j < i ==> big_value(#[trigger] r@[j]) == centered(
                    big_value(coefficients@[j]),
                    big_value(*modulus),
                ),
        decreases n - i,
    {
        r.push(reduce_and_center_scalar(&coefficients[i], modulus));
        i = i + 1;
    }
    r
}

/// True iff every element lies in the closed interval `[lower, upper]`.
pub fn range_check_centered(vec: &[BigInt], lower: &BigInt, upper: &BigInt) -> (r: bool)
    ensures
        r <==> forall|i: int|
            0 <= i < vec@.len() ==> big_value(*lower) <= big_value(#[trigger] vec@[i])
                <= big_value(*upper),
{
    let n = vec.len();
    let mut i: usize = 0;
    while i < n
        invariant
            i <= n,
            n == vec@.len(),
            forall|j: int|
                0 <= j < i ==> big_value(*lower) <= big_value(#[trigger] vec@[j]) <= big_value(
                    *upper,
                ),
        decreases n - i,
    {
        if big_lt(&vec[i], lower) || big_lt(upper, &vec[i]) {
            return false;
        }
        i = i + 1;
    }
    true
}

/// True iff every element, taken as a standard non-negative representative,
/// is bounded in magnitude by `bound` either directly (`v <= bound`) or via
/// its negative-modular counterpart (`v >= modulus - bound`).
pub fn range_check_standard(vec: &[BigInt], bound: &BigInt, modulus: &BigInt) -> (r: bool)
    ensures
        r <==> forall|i: int|
            0 <= i < vec@.len() ==> (big_value(#[trigger] vec@[i]) <= big_value(*bound)
                || big_value(vec@[i]) >= big_value(*modulus) - big_value(*bound)),
{
    let upper_complement = big_sub(modulus, bound);
    let n = vec.len();
    let mut i: usize = 0;
    while i < n
        invariant
            i <= n,
            n == vec@.len(),
            big_value(upper_complement) == big_value(*modulus) - big_value(*bound),
            forall|j: int|
                0 <= j < i ==> (big_value(#[trigger] vec@[j]) <= big_value(*bound) || big_value(
                    vec@[j],
                ) >= big_value(*modulus) - big_value(*bound)),
        decreases n - i,
    {
        if big_lt(bound, &vec[i]) && big_lt(&vec[i], &upper_complement) {
            return false;
        }
        i = i + 1;
    }
    true
}

} // verus!
