//! Trusted interface to arbitrary-precision signed integers.
//!
//! Every coefficient of a polynomial is a `num_bigint::BigInt`.  The type is
//! opaque to the verifier; `big_value` names the mathematical integer a
//! `BigInt` holds, and each arithmetic operation the library uses is wrapped
//! in a function whose contract states the operation's documented behaviour
//! over `big_value`.  All polynomial logic is verified against these
//! contracts.

use vstd::prelude::*;
use num_bigint::BigInt;

verus! {

/// Declares `num_bigint::BigInt` to the verifier as an opaque type, so that
/// it can stand in signatures and fields.
#[verifier::external_type_specification]
#[verifier::external_body]
pub struct ExBigInt(BigInt);

/// The mathematical integer held by a `BigInt`.
pub uninterp spec fn big_value(b: BigInt) -> int;

/// The absolute value of a mathematical integer.
pub open spec fn abs_int(a: int) -> int {
    if a < 0 {
        -a
    } else {
        a
    }
}

/// Quotient of `a` by `b` rounded toward zero, as primitive integer
/// division rounds; meaningful for `b != 0`.
pub open spec fn tdiv(a: int, b: int) -> int {
    if (a < 0) == (b < 0) {
        abs_int(a) / abs_int(b)
    } else {
        -(abs_int(a) / abs_int(b))
    }
}

/// Remainder of `a` by `b` under truncating division: it carries the sign of
/// `a`; meaningful for `b != 0`.
pub open spec fn tmod(a: int, b: int) -> int {
    a - b * tdiv(a, b)
}

/// For a non-negative dividend and positive divisor, truncating division
/// agrees with Euclidean division.
pub proof fn lemma_tdiv_nonneg(a: int, b: int)
    requires
        a >= 0,
        b > 0,
    ensures
        tdiv(a, b) == a / b,
        tmod(a, b) == a % b,
{
    vstd::arithmetic::div_mod::lemma_fundamental_div_mod(a, b);
}

/// The truncating remainder by a positive divisor lies strictly between
/// `-b` and `b` and is congruent to the dividend.
pub proof fn lemma_tmod_props(a: int, b: int)
    requires
        b > 0,
    ensures
        -b < tmod(a, b) < b,
        tmod(a, b) % b == a % b,
{
    if a >= 0 {
        lemma_tdiv_nonneg(a, b);
        vstd::arithmetic::div_mod::lemma_mod_bound(a, b);
        vstd::arithmetic::div_mod::lemma_fundamental_div_mod(a, b);
        vstd::arithmetic::div_mod::lemma_mod_multiples_vanish(a / b, a % b, b);
        assert((b * (a / b) + a % b) % b == (a % b) % b);
        assert(tmod(a, b) % b == a % b);
    } else {
        let q = (-a) / b;
        let r = (-a) % b;
        vstd::arithmetic::div_mod::lemma_fundamental_div_mod(-a, b);
        vstd::arithmetic::div_mod::lemma_mod_bound(-a, b);
        assert(tdiv(a, b) == -q);
        assert(b * (-q) == -(b * q)) by (nonlinear_arith);
        assert(tmod(a, b) == a + b * q);
        assert(tmod(a, b) == -r);
        vstd::arithmetic::div_mod::lemma_mod_multiples_vanish(-q, -r, b);
        assert((b * (-q) + -r) % b == (-r) % b);
        assert(a == b * (-q) + -r);
    }
}

/// Relies on `num_traits::Zero::zero` for `BigInt`: the additive identity.
#[verifier::external_body]
pub(crate) fn big_zero() -> (r: BigInt)
    ensures
        big_value(r) == 0,
{
    <BigInt as num_traits::Zero>::zero()
}

/// Relies on `From<u64>` for `BigInt`: exact conversion.
#[verifier::external_body]
pub(crate) fn big_from_u64(v: u64) -> (r: BigInt)
    ensures
        big_value(r) == v,
{
    BigInt::from(v)
}

/// Relies on `Clone` for `BigInt`: the copy holds the same integer.
#[verifier::external_body]
pub(crate) fn big_clone(a: &BigInt) -> (r: BigInt)
    ensures
        big_value(r) == big_value(*a),
{
    a.clone()
}

/// Relies on `Add` for `&BigInt`: exact arbitrary-precision addition.
#[verifier::external_body]
pub(crate) fn big_add(a: &BigInt, b: &BigInt) -> (r: BigInt)
    ensures
        big_value(r) == big_value(*a) + big_value(*b),
{
    a + b
}

/// Relies on `Sub` for `&BigInt`: exact arbitrary-precision subtraction.
#[verifier::external_body]
pub(crate) fn big_sub(a: &BigInt, b: &BigInt) -> (r: BigInt)
    ensures
        big_value(r) == big_value(*a) - big_value(*b),
{
    a - b
}

/// Relies on `Neg` for `&BigInt`: exact negation.
#[verifier::external_body]
pub(crate) fn big_neg(a: &BigInt) -> (r: BigInt)
    ensures
        big_value(r) == -big_value(*a),
{
    -a
}

/// Relies on `Mul` for `&BigInt`: exact arbitrary-precision multiplication.
#[verifier::external_body]
pub(crate) fn big_mul(a: &BigInt, b: &BigInt) -> (r: BigInt)
    ensures
        big_value(r) == big_value(*a) * big_value(*b),
{
    a * b
}

/// Relies on `Div` for `&BigInt`: quotient rounded toward zero, as for
/// primitive integers.  Panics on a zero divisor, so that input is excluded.
#[verifier::external_body]
pub(crate) fn big_div(a: &BigInt, b: &BigInt) -> (r: BigInt)
    requires
        big_value(*b) != 0,
    ensures
        big_value(r) == tdiv(big_value(*a), big_value(*b)),
{
    a / b
}

/// Relies on `Rem` for `&BigInt`: remainder with the sign of the dividend,
/// as for primitive integers.  Panics on a zero divisor, so that input is
/// excluded.
#[verifier::external_body]
pub(crate) fn big_rem(a: &BigInt, b: &BigInt) -> (r: BigInt)
    requires
        big_value(*b) != 0,
    ensures
        big_value(r) == tmod(big_value(*a), big_value(*b)),
{
    a % b
}

/// Relies on `num_traits::Zero::is_zero` for `BigInt`.
#[verifier::external_body]
pub(crate) fn big_is_zero(a: &BigInt) -> (r: bool)
    ensures
        r <==> big_value(*a) == 0,
{
    <BigInt as num_traits::Zero>::is_zero(a)
}

/// Relies on `num_traits::One::is_one` for `BigInt`.
#[verifier::external_body]
pub(crate) fn big_is_one(a: &BigInt) -> (r: bool)
    ensures
        r <==> big_value(*a) == 1,
{
    <BigInt as num_traits::One>::is_one(a)
}

/// The decimal rendering of an integer, as `BigInt`'s display writes it: a
/// function of the value alone.
pub uninterp spec fn dec_str_of(v: int) -> Seq<char>;

/// Relies on `Display` for `BigInt`: the decimal digits of the integer
/// held, determined by the value alone.
#[verifier::external_body]
pub(crate) fn big_to_decimal(a: &BigInt) -> (r: String)
    ensures
        r@ == dec_str_of(big_value(*a)),
{
    format!("{}", a)
}

/// Relies on `Ord::lt` for `BigInt`: the order of the integers held.
#[verifier::external_body]
pub(crate) fn big_lt(a: &BigInt, b: &BigInt) -> (r: bool)
    ensures
        r <==> big_value(*a) < big_value(*b),
{
    a < b
}

} // verus!
