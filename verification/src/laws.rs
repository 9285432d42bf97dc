//! Algebraic laws of the polynomial operations, proved over the stored
//! sequence models that the operations' contracts use.

use vstd::prelude::*;
use vstd::arithmetic::power::pow;
use crate::polynomial::all_zero;
use crate::polynomial::coeff_at;
use crate::polynomial::poly_eq;
use crate::polynomial::add_spec;
use crate::polynomial::neg_spec;
use crate::polynomial::eval_spec;
use crate::polynomial::mul_spec;
use crate::polynomial::conv_prefix;
use crate::polynomial::conv_at;
use crate::polynomial::trim_spec;
use crate::polynomial::strip_leading_zeros;
use crate::polynomial::div_step;
use crate::polynomial::div_rem_steps;
use crate::polynomial::div_q_at;
use crate::polynomial::div_quotient_spec;
use crate::polynomial::div_remainder_spec;
use crate::polynomial::seq_degree;
use crate::bigint::tdiv;
use crate::utils::centered;

verus! {

/// The coefficient of `x^k` in a sum is the sum of the operands'
/// coefficients of `x^k`, for every power.
pub proof fn lemma_add_spec_coeff(a: Seq<int>, b: Seq<int>, k: int)
    ensures
        coeff_at(add_spec(a, b), k) == coeff_at(a, k) + coeff_at(b, k),
{
    let n: int = if a.len() >= b.len() {
        a.len() as int
    } else {
        b.len() as int
    };
    if 0 <= k < n {
        assert(add_spec(a, b)[n - 1 - k] == coeff_at(a, k) + coeff_at(b, k));
    } else {
        assert(coeff_at(a, k) == 0);
        assert(coeff_at(b, k) == 0);
    }
}

/// The coefficient of `x^k` in a negation is the negation of the
/// coefficient of `x^k`, for every power.
pub proof fn lemma_neg_spec_coeff(s: Seq<int>, k: int)
    ensures
        coeff_at(neg_spec(s), k) == -coeff_at(s, k),
{
}

/// Round-trip law: reversing a coefficient order twice restores any stored
/// sequence, including the empty and singleton ones — so converting a
/// polynomial to ascending coefficient order and constructing a polynomial
/// from the result restores the original, and the other way round.
pub proof fn lemma_ascending_round_trip(s: Seq<int>)
    ensures
        s.reverse().reverse() == s,
{
    assert(s.reverse().reverse() =~= s);
}

/// Additive identity law: adding a structurally zero polynomial of any
/// length leaves every coefficient unchanged.
pub proof fn lemma_add_zero_identity(s: Seq<int>, z: Seq<int>)
    requires
        all_zero(z),
    ensures
        poly_eq(add_spec(s, z), s),
{
    assert forall|k: int| coeff_at(add_spec(s, z), k) == coeff_at(s, k) by {
        lemma_add_spec_coeff(s, z, k);
        assert(coeff_at(z, k) == 0);
    }
}

/// Additive inverse law: the sum of a polynomial and its negation is
/// structurally zero.
pub proof fn lemma_add_neg_is_zero(s: Seq<int>)
    ensures
        all_zero(add_spec(s, neg_spec(s))),
{
    let r = add_spec(s, neg_spec(s));
    assert forall|i: int| 0 <= i < r.len() implies r[i] == 0 by {
        let n: int = r.len() as int;
        lemma_add_spec_coeff(s, neg_spec(s), n - 1 - i);
        lemma_neg_spec_coeff(s, n - 1 - i);
        assert(r[i] == coeff_at(s, n - 1 - i) + coeff_at(neg_spec(s), n - 1 - i));
    }
}

/// A partial convolution with a structurally zero first operand is zero.
proof fn lemma_conv_prefix_zero_left(a: Seq<int>, b: Seq<int>, k: int, i: int)
    requires
        all_zero(a),
    ensures
        conv_prefix(a, b, k, i) == 0,
    decreases i,
{
    if i > 0 {
        lemma_conv_prefix_zero_left(a, b, k, i - 1);
        assert(coeff_at(a, i - 1) == 0);
    }
}

/// A partial convolution with a structurally zero second operand is zero.
proof fn lemma_conv_prefix_zero_right(a: Seq<int>, b: Seq<int>, k: int, i: int)
    requires
        all_zero(b),
    ensures
        conv_prefix(a, b, k, i) == 0,
    decreases i,
{
    if i > 0 {
        lemma_conv_prefix_zero_right(a, b, k, i - 1);
        assert(coeff_at(b, k - (i - 1)) == 0);
    }
}

/// A partial convolution at a power no product term can reach is zero.
proof fn lemma_conv_prefix_out_of_range(a: Seq<int>, b: Seq<int>, k: int, i: int)
    requires
        k < 0 || k > a.len() + b.len() - 2,
    ensures
        conv_prefix(a, b, k, i) == 0,
    decreases i,
{
    if i > 0 {
        lemma_conv_prefix_out_of_range(a, b, k, i - 1);
        if 0 <= i - 1 < a.len() {
            assert(coeff_at(b, k - (i - 1)) == 0);
        } else {
            assert(coeff_at(a, i - 1) == 0);
        }
    }
}

/// The coefficient of `x^k` in a stored product is the convolution of the
/// operands at `k`, for every power — also through the structural-zero
/// special case of `mul_spec`.
pub proof fn lemma_mul_spec_coeff(a: Seq<int>, b: Seq<int>, k: int)
    ensures
        coeff_at(mul_spec(a, b), k) == conv_at(a, b, k),
{
    if all_zero(a) {
        lemma_conv_prefix_zero_left(a, b, k, a.len() as int);
    } else if all_zero(b) {
        lemma_conv_prefix_zero_right(a, b, k, a.len() as int);
    } else {
        let la = a.len() as int;
        let lb = b.len() as int;
        let n = la + lb - 1;
        if 0 <= k < n {
            assert(mul_spec(a, b)[n - 1 - k] == conv_at(a, b, k));
        } else {
            lemma_conv_prefix_out_of_range(a, b, k, la);
        }
    }
}

/// Convolution is linear in its second operand: when `bc` is the
/// coefficient-wise sum of `b` and `c`, convolving `a` with `bc` gives the
/// sum of the separate convolutions.
proof fn lemma_conv_prefix_linear(a: Seq<int>, b: Seq<int>, c: Seq<int>, bc: Seq<int>, k: int, i: int)
    requires
        forall|j: int| #![trigger coeff_at(bc, j)] coeff_at(bc, j) == coeff_at(b, j) + coeff_at(c, j),
    ensures
        conv_prefix(a, bc, k, i) == conv_prefix(a, b, k, i) + conv_prefix(a, c, k, i),
    decreases i,
{
    if i > 0 {
        lemma_conv_prefix_linear(a, b, c, bc, k, i - 1);
        let ad = coeff_at(a, i - 1);
        let t = k - (i - 1);
        assert(coeff_at(bc, t) == coeff_at(b, t) + coeff_at(c, t));
        assert(ad * (coeff_at(b, t) + coeff_at(c, t)) == ad * coeff_at(b, t) + ad * coeff_at(
            c,
            t,
        )) by (nonlinear_arith);
    }
}

/// Two nonempty sequences that represent the same polynomial trim to the
/// same stored sequence.
pub proof fn lemma_poly_eq_trim(a: Seq<int>, b: Seq<int>)
    requires
        poly_eq(a, b),
        a.len() > 0,
        b.len() > 0,
    ensures
        trim_spec(a) == trim_spec(b),
    decreases a.len() + b.len(),
{
    if a.len() > 1 && a[0] == 0 {
        let a2 = a.subrange(1, a.len() as int);
        assert forall|k: int| coeff_at(a2, k) == coeff_at(b, k) by {
            if 0 <= k < a2.len() {
                assert(coeff_at(a2, k) == a[a.len() - 1 - k]);
            } else if k == a.len() - 1 {
                assert(coeff_at(a, k) == a[0]);
            }
        }
        lemma_poly_eq_trim(a2, b);
    } else if b.len() > 1 && b[0] == 0 {
        let b2 = b.subrange(1, b.len() as int);
        assert forall|k: int| coeff_at(a, k) == coeff_at(b2, k) by {
            if 0 <= k < b2.len() {
                assert(coeff_at(b2, k) == b[b.len() - 1 - k]);
            } else if k == b.len() - 1 {
                assert(coeff_at(b, k) == b[0]);
            }
        }
        lemma_poly_eq_trim(a, b2);
    } else {
        if a.len() > b.len() {
            assert(coeff_at(a, a.len() - 1) == a[0]);
            assert(coeff_at(b, a.len() - 1) == 0);
            assert(a.len() == 1);
            assert(false);
        }
        if b.len() > a.len() {
            assert(coeff_at(b, b.len() - 1) == b[0]);
            assert(coeff_at(a, b.len() - 1) == 0);
            assert(b.len() == 1);
            assert(false);
        }
        assert forall|i: int| 0 <= i < a.len() implies a[i] == b[i] by {
            assert(coeff_at(a, a.len() - 1 - i) == a[i]);
            assert(coeff_at(b, b.len() - 1 - i) == b[i]);
        }
        assert(a =~= b);
    }
}

/// Distributivity law: multiplying `a` by the sum of `b` and `c` gives, up
/// to trimming both sides to minimal length, the sum of the separate
/// products.
pub proof fn lemma_mul_distributes(a: Seq<int>, b: Seq<int>, c: Seq<int>)
    ensures
        trim_spec(mul_spec(a, add_spec(b, c))) == trim_spec(
            add_spec(mul_spec(a, b), mul_spec(a, c)),
        ),
{
    let bc = add_spec(b, c);
    let lhs = mul_spec(a, bc);
    let rhs = add_spec(mul_spec(a, b), mul_spec(a, c));
    assert forall|j: int| #![trigger coeff_at(bc, j)] coeff_at(bc, j) == coeff_at(b, j) + coeff_at(
        c,
        j,
    ) by {
        lemma_add_spec_coeff(b, c, j);
    }
    assert forall|k: int| #![trigger coeff_at(lhs, k)] #![trigger coeff_at(rhs, k)] coeff_at(
        lhs,
        k,
    ) == coeff_at(rhs, k) by {
        lemma_mul_spec_coeff(a, bc, k);
        lemma_conv_prefix_linear(a, b, c, bc, k, a.len() as int);
        lemma_mul_spec_coeff(a, b, k);
        lemma_mul_spec_coeff(a, c, k);
        lemma_add_spec_coeff(mul_spec(a, b), mul_spec(a, c), k);
    }
    lemma_poly_eq_trim(lhs, rhs);
}

/// Stripping leading zeros changes no coefficient of any power.
proof fn lemma_strip_coeff(s: Seq<int>, k: int)
    ensures
        coeff_at(strip_leading_zeros(s), k) == coeff_at(s, k),
    decreases s.len(),
{
    if s.len() > 0 && s[0] == 0 {
        let s2 = s.subrange(1, s.len() as int);
        lemma_strip_coeff(s2, k);
        if 0 <= k < s2.len() {
            assert(coeff_at(s2, k) == s[s.len() - 1 - k]);
        } else if k == s.len() - 1 {
            assert(coeff_at(s, k) == s[0]);
        }
    }
}

/// An elimination step keeps every stored length.
proof fn lemma_div_rem_steps_len(p: Seq<int>, d: Seq<int>, k: int)
    ensures
        div_rem_steps(p, d, k).len() == p.len(),
    decreases k,
{
    if k > 0 {
        lemma_div_rem_steps_len(p, d, k - 1);
    }
}

/// One elimination step subtracts, from the coefficient of each power `t`,
/// the step's quotient coefficient times the divisor's coefficient of
/// `x^(t - shift)`, where `shift` is the degree the step eliminates at.
proof fn lemma_div_step_coeff(rem: Seq<int>, d: Seq<int>, k: int, t: int)
    requires
        d.len() >= 1,
        d.len() <= rem.len(),
        0 <= k <= rem.len() - d.len(),
    ensures
        coeff_at(div_step(rem, d, k), t) == coeff_at(rem, t) - tdiv(rem[k], d[0]) * coeff_at(
            d,
            t - (rem.len() - d.len() - k),
        ),
{
    let ls = rem.len() as int;
    let ld = d.len() as int;
    let shift = ls - ld - k;
    let c = tdiv(rem[k], d[0]);
    if 0 <= t < ls {
        let pp = ls - 1 - t;
        if k <= pp < k + ld {
            assert(div_step(rem, d, k)[pp] == rem[pp] - d[pp - k] * c);
            assert(coeff_at(d, t - shift) == d[pp - k]);
            assert(d[pp - k] * c == c * d[pp - k]) by (nonlinear_arith);
        } else {
            assert(div_step(rem, d, k)[pp] == rem[pp]);
            assert(coeff_at(d, t - shift) == 0);
        }
    } else {
        assert(coeff_at(d, t - shift) == 0);
    }
}

/// The quotient coefficients produced by the first `k` elimination steps,
/// stored at full quotient length with zeros beyond.
spec fn div_q_prefix(p: Seq<int>, d: Seq<int>, k: int) -> Seq<int> {
    Seq::new(
        (p.len() - d.len() + 1) as nat,
        |i: int|
            if i < k {
                div_q_at(p, d, i)
            } else {
                0
            },
    )
}

/// Raising one coefficient of the second operand by `c` raises the
/// convolution at `t` by `c` times the first operand's coefficient of the
/// complementary power.
proof fn lemma_conv_prefix_single_update(
    d: Seq<int>,
    q1: Seq<int>,
    q2: Seq<int>,
    s0: int,
    c: int,
    t: int,
    i: int,
)
    requires
        forall|j: int| #![trigger coeff_at(q2, j)]
            coeff_at(q2, j) == coeff_at(q1, j) + (
            if j == s0 {
                c
            } else {
                0
            }),
    ensures
        conv_prefix(d, q2, t, i) == conv_prefix(d, q1, t, i) + (
        if 0 <= t - s0 <= i - 1 {
            coeff_at(d, t - s0) * c
        } else {
            0
        }),
    decreases i,
{
    if i > 0 {
        lemma_conv_prefix_single_update(d, q1, q2, s0, c, t, i - 1);
        let dd = i - 1;
        assert(coeff_at(q2, t - dd) == coeff_at(q1, t - dd) + (
        if t - dd == s0 {
            c
        } else {
            0
        }));
        assert(coeff_at(d, dd) * (coeff_at(q1, t - dd) + c) == coeff_at(d, dd) * coeff_at(
            q1,
            t - dd,
        ) + coeff_at(d, dd) * c) by (nonlinear_arith);
    }
}

/// As `lemma_conv_prefix_single_update`, for the full convolution.
proof fn lemma_conv_single_update(d: Seq<int>, q1: Seq<int>, q2: Seq<int>, s0: int, c: int, t: int)
    requires
        forall|j: int| #![trigger coeff_at(q2, j)]
            coeff_at(q2, j) == coeff_at(q1, j) + (
            if j == s0 {
                c
            } else {
                0
            }),
    ensures
        conv_at(d, q2, t) == conv_at(d, q1, t) + coeff_at(d, t - s0) * c,
{
    lemma_conv_prefix_single_update(d, q1, q2, s0, c, t, d.len() as int);
    if !(0 <= t - s0 <= d.len() - 1) {
        assert(coeff_at(d, t - s0) == 0);
        assert(coeff_at(d, t - s0) * c == 0) by (nonlinear_arith)
            requires
                coeff_at(d, t - s0) == 0,
        ;
    }
}

/// After `k` elimination steps, the dividend's coefficient of every power
/// equals the convolution of the divisor with the quotient coefficients
/// produced so far, plus the working remainder's coefficient.
proof fn lemma_div_steps_identity(p: Seq<int>, d: Seq<int>, k: int, t: int)
    requires
        d.len() >= 1,
        d[0] != 0,
        d.len() <= p.len(),
        0 <= k <= p.len() - d.len() + 1,
    ensures
        coeff_at(p, t) == conv_at(d, div_q_prefix(p, d, k), t) + coeff_at(
            div_rem_steps(p, d, k),
            t,
        ),
    decreases k,
{
    let ls = p.len() as int;
    let ld = d.len() as int;
    let qlen = ls - ld + 1;
    if k == 0 {
        assert(all_zero(div_q_prefix(p, d, 0)));
        lemma_conv_prefix_zero_right(d, div_q_prefix(p, d, 0), t, ld);
    } else {
        lemma_div_steps_identity(p, d, k - 1, t);
        let rem_prev = div_rem_steps(p, d, k - 1);
        lemma_div_rem_steps_len(p, d, k - 1);
        assert(div_rem_steps(p, d, k) == div_step(rem_prev, d, k - 1));
        let c = tdiv(rem_prev[k - 1], d[0]);
        assert(c == div_q_at(p, d, k - 1));
        let j0 = qlen - 1 - (k - 1);
        let q_prev = div_q_prefix(p, d, k - 1);
        let q_cur = div_q_prefix(p, d, k);
        assert forall|j: int| #![trigger coeff_at(q_cur, j)]
            coeff_at(q_cur, j) == coeff_at(q_prev, j) + (
            if j == j0 {
                c
            } else {
                0
            }) by {
            if 0 <= j < qlen {
                assert(coeff_at(q_cur, j) == q_cur[qlen - 1 - j]);
                assert(coeff_at(q_prev, j) == q_prev[qlen - 1 - j]);
            }
        }
        lemma_conv_single_update(d, q_prev, q_cur, j0, c, t);
        lemma_div_step_coeff(rem_prev, d, k - 1, t);
        assert(ls - ld - (k - 1) == j0);
        assert(c * coeff_at(d, t - j0) == coeff_at(d, t - j0) * c) by (nonlinear_arith);
    }
}

/// Division-remainder identity law: for a divisor that is nonempty with a
/// nonzero leading coefficient, the divisor times the quotient, plus the
/// remainder, represents the same polynomial as the dividend.
pub proof fn lemma_division_identity(p: Seq<int>, d: Seq<int>)
    requires
        d.len() > 0,
        d[0] != 0,
    ensures
        poly_eq(add_spec(mul_spec(d, div_quotient_spec(p, d)), div_remainder_spec(p, d)), p),
{
    let q = div_quotient_spec(p, d);
    let rem = div_remainder_spec(p, d);
    let lhs = add_spec(mul_spec(d, q), rem);
    if seq_degree(p) < seq_degree(d) {
        assert(all_zero(q));
        assert forall|k: int| #![trigger coeff_at(lhs, k)] #![trigger coeff_at(p, k)] coeff_at(
            lhs,
            k,
        ) == coeff_at(p, k) by {
            lemma_add_spec_coeff(mul_spec(d, q), rem, k);
            lemma_mul_spec_coeff(d, q, k);
            lemma_conv_prefix_zero_right(d, q, k, d.len() as int);
        }
    } else if p.len() == 0 {
        assert(d.len() == 1);
        assert(all_zero(q));
        assert(div_rem_steps(p, d, 0) == p);
        assert forall|k: int| #![trigger coeff_at(lhs, k)] #![trigger coeff_at(p, k)] coeff_at(
            lhs,
            k,
        ) == coeff_at(p, k) by {
            lemma_add_spec_coeff(mul_spec(d, q), rem, k);
            lemma_mul_spec_coeff(d, q, k);
            lemma_conv_prefix_zero_right(d, q, k, d.len() as int);
            lemma_strip_coeff(p, k);
        }
    } else {
        let qlen = p.len() - d.len() + 1;
        let q_full = div_q_prefix(p, d, qlen);
        assert(q =~= q_full);
        let rem_full = div_rem_steps(p, d, qlen);
        assert forall|k: int| #![trigger coeff_at(lhs, k)] #![trigger coeff_at(p, k)] coeff_at(
            lhs,
            k,
        ) == coeff_at(p, k) by {
            lemma_div_steps_identity(p, d, qlen, k);
            lemma_add_spec_coeff(mul_spec(d, q), rem, k);
            lemma_mul_spec_coeff(d, q, k);
            lemma_strip_coeff(rem_full, k);
        }
    }
}

/// The direct power-sum value of the lowest `k` coefficients:
/// `sum coeff_at(s, j) * x^j` for `j < k`.
pub open spec fn power_sum(s: Seq<int>, x: int, k: int) -> int
    decreases k,
{
    if k <= 0 {
        0
    } else {
        power_sum(s, x, k - 1) + coeff_at(s, k - 1) * pow(x, (k - 1) as nat)
    }
}

/// Multiplying a partial power sum of the shifted-down sequence by `x`
/// shifts every term up one power.
proof fn lemma_power_sum_shift(s: Seq<int>, sp: Seq<int>, x: int, k: int)
    requires
        forall|j: int| 0 <= j ==> coeff_at(sp, j) == coeff_at(s, j + 1),
        k >= 0,
    ensures
        power_sum(s, x, k + 1) == coeff_at(s, 0) + x * power_sum(sp, x, k),
    decreases k,
{
    reveal(pow);
    if k == 0 {
        assert(pow(x, 0) == 1);
        assert(power_sum(s, x, 1) == power_sum(s, x, 0) + coeff_at(s, 0) * pow(x, 0));
    } else {
        lemma_power_sum_shift(s, sp, x, k - 1);
        assert(coeff_at(sp, k - 1) == coeff_at(s, k));
        assert(pow(x, k as nat) == x * pow(x, (k - 1) as nat));
        assert(x * (power_sum(sp, x, k - 1) + coeff_at(sp, k - 1) * pow(x, (k - 1) as nat)) == x
            * power_sum(sp, x, k - 1) + coeff_at(s, k) * (x * pow(x, (k - 1) as nat)))
            by (nonlinear_arith)
            requires
                coeff_at(sp, k - 1) == coeff_at(s, k),
        ;
    }
}

/// Evaluation consistency law: Horner evaluation of a stored sequence
/// equals the direct power-sum computation from its coefficients.
pub proof fn lemma_evaluate_power_sum(s: Seq<int>, x: int)
    ensures
        eval_spec(s, x) == power_sum(s, x, s.len() as int),
    decreases s.len(),
{
    if s.len() == 0 {
    } else {
        let n = s.len() as int;
        let sp = s.drop_last();
        lemma_evaluate_power_sum(sp, x);
        assert forall|j: int| 0 <= j implies coeff_at(sp, j) == coeff_at(s, j + 1) by {
            if j < n - 1 {
                assert(sp[n - 2 - j] == s[n - 2 - j]);
            }
        }
        lemma_power_sum_shift(s, sp, x, n - 1);
        assert(coeff_at(s, 0) == s[n - 1]);
        assert(eval_spec(s, x) == eval_spec(sp, x) * x + s[n - 1]);
        assert(eval_spec(sp, x) * x == x * eval_spec(sp, x)) by (nonlinear_arith);
    }
}

/// Centering law: for modulus `m > 1` the centered representative of `x`
/// lies in the interval `(-floor(m/2), m - floor(m/2)]` and is congruent to
/// `x` modulo `m`.  For odd `m` the standard representative `floor(m/2)+1`
/// is carried to the interval's open lower bound and is excluded.
pub proof fn lemma_centering_bound(x: int, m: int)
    requires
        m > 1,
        !(m % 2 == 1 && x % m == m / 2 + 1),
    ensures
        -(m / 2) < centered(x, m) <= m - m / 2,
        centered(x, m) % m == x % m,
{
    let r0 = x % m;
    let h = m / 2;
    vstd::arithmetic::div_mod::lemma_mod_bound(x, m);
    vstd::arithmetic::div_mod::lemma_fundamental_div_mod(m, 2);
    vstd::arithmetic::div_mod::lemma_mod_bound(m, 2);
    if r0 > h {
        vstd::arithmetic::div_mod::lemma_fundamental_div_mod_converse_mod(r0 - m, m, -1, r0);
    } else {
        vstd::arithmetic::div_mod::lemma_fundamental_div_mod_converse_mod(r0, m, 0, r0);
    }
}

} // verus!
