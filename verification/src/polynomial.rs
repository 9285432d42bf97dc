//! Polynomial arithmetic over arbitrary-precision integer coefficients.
//!
//! A polynomial is a vector of `BigInt` coefficients in descending order of
//! degree.  Its mathematical model is the sequence of the integers held, and
//! every operation's contract is stated over that model.

use vstd::prelude::*;
use num_bigint::BigInt;
use crate::bigint::big_value;
use crate::bigint::big_zero;
use crate::bigint::big_clone;
use crate::bigint::big_is_zero;
use crate::bigint::big_neg;
use crate::bigint::big_add;
use crate::bigint::big_sub;
use crate::bigint::big_mul;
use crate::bigint::big_div;
use crate::bigint::big_from_u64;
use crate::bigint::big_is_one;
use crate::bigint::big_lt;
use crate::bigint::big_to_decimal;
use crate::bigint::dec_str_of;
use crate::bigint::abs_int;
use crate::bigint::tdiv;
use crate::bigint::lemma_tdiv_nonneg;
use crate::errors::PolynomialError;
use crate::utils::centered;

verus! {

/// The integers held by a sequence of `BigInt` coefficients.
pub open spec fn int_values(s: Seq<BigInt>) -> Seq<int> {
    s.map_values(|c: BigInt| big_value(c))
}

/// True iff every stored coefficient is zero (structural zero, at any length).
pub open spec fn all_zero(s: Seq<int>) -> bool {
    forall|i: int| 0 <= i < s.len() ==> s[i] == 0
}

/// The degree a stored sequence reports: 0 when empty, else length - 1.
pub open spec fn seq_degree(s: Seq<int>) -> int {
    if s.len() == 0 {
        0
    } else {
        s.len() - 1
    }
}

/// The coefficient of `x^k` in a descending-order sequence; zero for any
/// power not stored.  Storage is low-degree aligned: the last element is the
/// constant term.
pub open spec fn coeff_at(s: Seq<int>, k: int) -> int {
    if 0 <= k < s.len() {
        s[s.len() - 1 - k]
    } else {
        0
    }
}

/// Two stored sequences represent the same mathematical polynomial: they
/// agree on the coefficient of every power.
pub open spec fn poly_eq(a: Seq<int>, b: Seq<int>) -> bool {
    forall|k: int| #![trigger coeff_at(a, k)] #![trigger coeff_at(b, k)] coeff_at(a, k)
        == coeff_at(b, k)
}

/// The result of trimming: leading (highest-degree) zero coefficients are
/// removed, but the length never drops below 1.
pub open spec fn trim_spec(s: Seq<int>) -> Seq<int>
    decreases s.len(),
{
    if s.len() > 1 && s[0] == 0 {
        trim_spec(s.subrange(1, s.len() as int))
    } else {
        s
    }
}

/// Element-wise negation of a stored sequence.
pub open spec fn neg_spec(s: Seq<int>) -> Seq<int> {
    s.map_values(|v: int| -v)
}

/// Element-wise multiplication of a stored sequence by a scalar.
pub open spec fn scalar_mul_spec(s: Seq<int>, k: int) -> Seq<int> {
    s.map_values(|v: int| v * k)
}

/// The sum of two stored sequences: the shorter operand is implicitly padded
/// with leading (high-degree) zeros, and coefficients of equal degree are
/// added.  The result has the length of the longer operand.
pub open spec fn add_spec(a: Seq<int>, b: Seq<int>) -> Seq<int> {
    let n = if a.len() >= b.len() {
        a.len()
    } else {
        b.len()
    };
    Seq::new(n, |i: int| coeff_at(a, n - 1 - i) + coeff_at(b, n - 1 - i))
}

/// Partial convolution in degree space: the sum, over the lowest `i` powers
/// of `a`, of `coeff_at(a, d) * coeff_at(b, k - d)`.
pub open spec fn conv_prefix(a: Seq<int>, b: Seq<int>, k: int, i: int) -> int
    decreases i,
{
    if i <= 0 {
        0
    } else {
        conv_prefix(a, b, k, i - 1) + coeff_at(a, i - 1) * coeff_at(b, k - (i - 1))
    }
}

/// The coefficient of `x^k` in the product of the polynomials `a` and `b`
/// represent: the full convolution sum.
pub open spec fn conv_at(a: Seq<int>, b: Seq<int>, k: int) -> int {
    conv_prefix(a, b, k, a.len() as int)
}

/// The stored product of two sequences.  When either operand is structurally
/// zero the result is the single-coefficient zero polynomial; otherwise the
/// result has length `a.len() + b.len() - 1` and holds the convolution.
pub open spec fn mul_spec(a: Seq<int>, b: Seq<int>) -> Seq<int> {
    if all_zero(a) || all_zero(b) {
        seq![0int]
    } else {
        Seq::new(
            (a.len() + b.len() - 1) as nat,
            |i: int| conv_at(a, b, a.len() + b.len() - 2 - i),
        )
    }
}

/// Partial convolution in storage-index space: the sum over the first `i`
/// stored positions of `a` of `a[ii] * b[p - ii]`, for the positions of `b`
/// that exist.
pub open spec fn prod_prefix(a: Seq<int>, b: Seq<int>, p: int, i: int) -> int
    decreases i,
{
    if i <= 0 {
        0
    } else {
        prod_prefix(a, b, p, i - 1) + (
        if 0 <= p - (i - 1) < b.len() {
            a[i - 1] * b[p - (i - 1)]
        } else {
            0
        })
    }
}

/// The index-space sum over positions `i..a.len()` equals the degree-space
/// convolution over the matching low powers: position `ii` of `a` holds the
/// coefficient of `x^(a.len() - 1 - ii)`.
proof fn lemma_prod_conv_split(a: Seq<int>, b: Seq<int>, p: int, i: int)
    requires
        0 <= i <= a.len(),
    ensures
        prod_prefix(a, b, p, a.len() as int) == prod_prefix(a, b, p, i) + conv_prefix(
            a,
            b,
            a.len() + b.len() - 2 - p,
            a.len() - i,
        ),
    decreases a.len() - i,
{
    let la = a.len() as int;
    let lb = b.len() as int;
    let k = la + lb - 2 - p;
    if i == la {
        assert(conv_prefix(a, b, k, 0) == 0);
    } else {
        lemma_prod_conv_split(a, b, p, i + 1);
        let d = la - 1 - i;
        assert(coeff_at(a, d) == a[i]);
        assert(conv_prefix(a, b, k, la - i) == conv_prefix(a, b, k, la - i - 1) + coeff_at(a, d)
            * coeff_at(b, k - d));
        if 0 <= p - i < lb {
            assert(coeff_at(b, k - d) == b[p - i]);
        } else {
            assert(coeff_at(b, k - d) == 0);
        }
    }
}

/// One elimination step of schoolbook long division at position `i`: the
/// quotient coefficient `tdiv(rem[i], d[0])` times `d`, shifted to start at
/// position `i`, is subtracted from the working remainder.  Positions beyond
/// the stored length do not exist and are untouched.
pub open spec fn div_step(rem: Seq<int>, d: Seq<int>, i: int) -> Seq<int> {
    Seq::new(
        rem.len(),
        |p: int|
            if i <= p < i + d.len() {
                rem[p] - d[p - i] * tdiv(rem[i], d[0])
            } else {
                rem[p]
            },
    )
}

/// The working remainder after the first `k` elimination steps of dividing
/// `p` by `d`.
pub open spec fn div_rem_steps(p: Seq<int>, d: Seq<int>, k: int) -> Seq<int>
    decreases k,
{
    if k <= 0 {
        p
    } else {
        div_step(div_rem_steps(p, d, k - 1), d, k - 1)
    }
}

/// The quotient coefficient produced at step `i`: the truncating integer
/// quotient of the working remainder's entry at `i` by the divisor's leading
/// coefficient.
pub open spec fn div_q_at(p: Seq<int>, d: Seq<int>, i: int) -> int {
    tdiv(div_rem_steps(p, d, i)[i], d[0])
}

/// Leading zero entries stripped, possibly down to the empty sequence.
pub open spec fn strip_leading_zeros(s: Seq<int>) -> Seq<int>
    decreases s.len(),
{
    if s.len() > 0 && s[0] == 0 {
        strip_leading_zeros(s.subrange(1, s.len() as int))
    } else {
        s
    }
}

/// The quotient of dividing `p` by `d` (valid divisor: nonempty, nonzero
/// leading coefficient).  When `p` reports a smaller degree than `d` the
/// quotient is the single-coefficient zero; otherwise it has length
/// `p.len() - d.len() + 1` and holds the step-wise truncating quotients.
pub open spec fn div_quotient_spec(p: Seq<int>, d: Seq<int>) -> Seq<int> {
    if seq_degree(p) < seq_degree(d) {
        seq![0int]
    } else {
        Seq::new((p.len() - d.len() + 1) as nat, |i: int| div_q_at(p, d, i))
    }
}

/// The remainder of dividing `p` by `d` (valid divisor).  When `p` reports a
/// smaller degree than `d` it is `p` unchanged; otherwise it is the working
/// remainder after all steps, with leading zeros stripped (possibly down to
/// empty).
pub open spec fn div_remainder_spec(p: Seq<int>, d: Seq<int>) -> Seq<int> {
    if seq_degree(p) < seq_degree(d) {
        p
    } else {
        strip_leading_zeros(div_rem_steps(p, d, p.len() - d.len() + 1))
    }
}

/// Horner evaluation of a descending-order sequence at `x`: zero for the
/// empty sequence, else the value of all but the constant term, times `x`,
/// plus the constant term.
pub open spec fn eval_spec(s: Seq<int>, x: int) -> int
    decreases s.len(),
{
    if s.len() == 0 {
        0
    } else {
        eval_spec(s.drop_last(), x) * x + s[s.len() - 1]
    }
}

/// The fixed-width ring element obtained from a division remainder: exactly
/// `n` entries, with the remainder right-aligned at the low-degree end and
/// zero-padded at the high-degree end.  A remainder longer than `n` keeps
/// only its first `n` entries.
pub open spec fn cyclo_pad(rem: Seq<int>, n: int) -> Seq<int> {
    Seq::new(
        n as nat,
        |p: int|
            if rem.len() <= n {
                if p >= n - rem.len() {
                    rem[p - (n - rem.len())]
                } else {
                    0
                }
            } else {
                rem[p]
            },
    )
}

/// Relies on `String::push_str` from std: it appends the given characters.
pub assume_specification[ String::push_str ](s: &mut String, string: &str)
    ensures
        final(s)@ == old(s)@ + string@,
;

/// The rendered characters of the term at position `i` of a descending
/// sequence, without its sign: the magnitude in decimal (omitted for a
/// magnitude of 1 above degree 0), then the indeterminate symbol (`x` at
/// degree 1, `x^k` above), nothing more at degree 0.
pub open spec fn term_chars(s: Seq<int>, i: int) -> Seq<char> {
    let deg = s.len() - 1 - i;
    let a = abs_int(s[i]);
    (if deg == 0 || a != 1 {
        dec_str_of(a)
    } else {
        Seq::<char>::empty()
    }) + (if deg > 0 {
        ("x")@ + (if deg > 1 {
            ("^")@ + dec_str_of(deg)
        } else {
            Seq::<char>::empty()
        })
    } else {
        Seq::<char>::empty()
    })
}

/// The rendering of the terms from position `i` on; `first` records whether
/// no term has been written yet.  Zero coefficients are skipped; later
/// terms are joined with a sign separator; when nothing at all is written
/// the rendering is `"0"`.
pub open spec fn render_from(s: Seq<int>, i: int, first: bool) -> Seq<char>
    decreases s.len() - i,
{
    if i >= s.len() {
        if first {
            ("0")@
        } else {
            Seq::<char>::empty()
        }
    } else if s[i] == 0 {
        render_from(s, i + 1, first)
    } else {
        (if first {
            Seq::<char>::empty()
        } else if s[i] > 0 {
            (" + ")@
        } else {
            (" - ")@
        }) + term_chars(s, i) + render_from(s, i + 1, false)
    }
}

/// The sign-aware algebraic rendering of a descending sequence.
pub open spec fn render_spec(s: Seq<int>) -> Seq<char> {
    render_from(s, 0, true)
}

/// A polynomial represented by its coefficients in descending order of
/// degree: `a_n * x^n + a_{n-1} * x^{n-1} + ... + a_1 * x + a_0`.
///
/// Coefficients are stored as `BigInt` to support the arbitrary precision
/// required for cryptographic operations.
#[derive(Clone, Debug, PartialEq)]
pub struct Polynomial {
    pub(crate) coefficients: Vec<BigInt>,
}

impl View for Polynomial {
    type V = Seq<int>;

    closed spec fn view(&self) -> Seq<int> {
        int_values(self.coefficients@)
    }
}

/// A vector of `n` zero coefficients.
pub(crate) fn zero_coefficients(n: usize) -> (r: Vec<BigInt>)
    ensures
        r@.len() == n,
        forall|i: int| 0 <= i < n ==> big_value(#[trigger] r@[i]) == 0,
{
    let mut r: Vec<BigInt> = Vec::new();
    let mut i: usize = 0;
    while i < n
        invariant
            i <= n,
            r@.len() == i,
            forall|j: int| 0 <= j < i ==> big_value(#[trigger] r@[j]) == 0,
        decreases n - i,
    {
        r.push(big_zero());
        i = i + 1;
    }
    r
}

/// An element-by-element copy of a coefficient sequence.
pub(crate) fn clone_coefficients(v: &[BigInt]) -> (r: Vec<BigInt>)
    ensures
        int_values(r@) =~= int_values(v@),
{
    let mut r: Vec<BigInt> = Vec::new();
    let mut i: usize = 0;
    while i < v.len()
        invariant
            i <= v@.len(),
            r@.len() == i,
            forall|j: int| 0 <= j < i ==> big_value(#[trigger] r@[j]) == big_value(v@[j]),
        decreases v@.len() - i,
    {
        r.push(big_clone(&v[i]));
        i = i + 1;
    }
    assert(int_values(r@) =~= int_values(v@));
    r
}

impl Polynomial {
    /// Creates a new polynomial from a vector of coefficients given in
    /// descending order of degree.  The coefficients are stored as given:
    /// empty and non-canonical lengths are permitted.
    pub fn new(coefficients: Vec<BigInt>) -> (r: Self)
        ensures
            r@ == int_values(coefficients@),
    {
        Self { coefficients }
    }

    /// Creates a polynomial from coefficients in ascending order (lowest
    /// degree first), the exact inverse of `to_ascending_coefficients`.
    pub fn from_ascending_coefficients(ascending_coefficients: Vec<BigInt>) -> (r: Self)
        ensures
            r@ == int_values(ascending_coefficients@).reverse(),
    {
        let n = ascending_coefficients.len();
        let mut coefficients: Vec<BigInt> = Vec::new();
        let mut i: usize = 0;
        while i < n
            invariant
                i <= n,
                n == ascending_coefficients@.len(),
                coefficients@.len() == i,
                forall|j: int|
                    0 <= j < i ==> big_value(#[trigger] coefficients@[j]) == big_value(
                        ascending_coefficients@[n - 1 - j],
                    ),
            decreases n - i,
        {
            coefficients.push(big_clone(&ascending_coefficients[n - 1 - i]));
            i = i + 1;
        }
        assert(int_values(coefficients@) =~= int_values(ascending_coefficients@).reverse());
        Self { coefficients }
    }

    /// Converts the polynomial to ascending order coefficients (lowest
    /// degree first), the exact inverse of `from_ascending_coefficients`.
    pub fn to_ascending_coefficients(&self) -> (r: Vec<BigInt>)
        ensures
            int_values(r@) == self@.reverse(),
    {
        let n = self.coefficients.len();
        let mut r: Vec<BigInt> = Vec::new();
        let mut i: usize = 0;
        while i < n
            invariant
                i <= n,
                n == self.coefficients@.len(),
                r@.len() == i,
                forall|j: int|
                    0 <= j < i ==> big_value(#[trigger] r@[j]) == big_value(
                        self.coefficients@[n - 1 - j],
                    ),
            decreases n - i,
        {
            r.push(big_clone(&self.coefficients[n - 1 - i]));
            i = i + 1;
        }
        assert(int_values(r@) =~= self@.reverse());
        r
    }

    /// Creates a zero polynomial of the given degree: `degree + 1` zero
    /// coefficients.
    pub fn zero(degree: usize) -> (r: Self)
        requires
            degree < usize::MAX,
        ensures
            r@.len() == degree + 1,
            all_zero(r@),
    {
        Self { coefficients: zero_coefficients(degree + 1) }
    }

    /// Creates a constant polynomial holding the single given coefficient.
    pub fn constant(constant: BigInt) -> (r: Self)
        ensures
            r@ =~= seq![big_value(constant)],
    {
        let mut coefficients: Vec<BigInt> = Vec::new();
        coefficients.push(constant);
        Self { coefficients }
    }

    /// Returns the stored coefficients, in descending order of degree.
    pub fn coefficients(&self) -> (r: &[BigInt])
        ensures
            int_values(r@) == self@,
    {
        self.coefficients.as_slice()
    }

    /// Returns the degree of the polynomial: 0 when no coefficient is
    /// stored, else the number of coefficients minus one.
    pub fn degree(&self) -> (r: usize)
        ensures
            r == seq_degree(self@),
    {
        if self.coefficients.len() == 0 {
            0
        } else {
            self.coefficients.len() - 1
        }
    }

    /// Checks whether every stored coefficient is zero.  The check is
    /// structural and length-independent: a zero polynomial may be
    /// represented at any length.
    pub fn is_zero(&self) -> (r: bool)
        ensures
            r == all_zero(self@),
    {
        let mut i: usize = 0;
        let n = self.coefficients.len();
        while i < n
            invariant
                i <= n,
                n == self.coefficients@.len(),
                forall|j: int| 0 <= j < i ==> self@[j] == 0,
            decreases n - i,
        {
            if !big_is_zero(&self.coefficients[i]) {
                assert(self@[i as int] != 0);
                return false;
            }
            i = i + 1;
        }
        true
    }

    /// Removes leading (highest-degree) zero coefficients, never reducing
    /// the length below 1.
    pub fn trim_leading_zeros(self) -> (r: Self)
        ensures
            r@ == trim_spec(self@),
    {
        let ghost orig: Seq<int> = self@;
        let mut s = self;
        while s.coefficients.len() > 1 && big_is_zero(&s.coefficients[0])
            invariant
                trim_spec(int_values(s.coefficients@)) == trim_spec(orig),
            decreases s.coefficients@.len(),
        {
            proof {
                let cur = int_values(s.coefficients@);
                assert(cur.len() > 1 && cur[0] == 0);
                assert(trim_spec(cur) == trim_spec(cur.subrange(1, cur.len() as int)));
            }
            let ghost before = s.coefficients@;
            s.coefficients.remove(0);
            proof {
                assert(int_values(s.coefficients@) =~= int_values(before).subrange(
                    1,
                    before.len() as int,
                ));
            }
        }
        proof {
            let cur = int_values(s.coefficients@);
            assert(trim_spec(cur) == cur);
        }
        s
    }

    /// Negates every coefficient, returning a new polynomial of the same
    /// length.
    pub fn neg(&self) -> (r: Self)
        ensures
            r@ == neg_spec(self@),
    {
        let n = self.coefficients.len();
        let mut coefficients: Vec<BigInt> = Vec::new();
        let mut i: usize = 0;
        while i < n
            invariant
                i <= n,
                n == self.coefficients@.len(),
                coefficients@.len() == i,
                forall|j: int|
                    0 <= j < i ==> big_value(#[trigger] coefficients@[j]) == -big_value(
                        self.coefficients@[j],
                    ),
            decreases n - i,
        {
            coefficients.push(big_neg(&self.coefficients[i]));
            i = i + 1;
        }
        assert(int_values(coefficients@) =~= neg_spec(self@));
        Self { coefficients }
    }

    /// Multiplies every coefficient by the given scalar, returning a new
    /// polynomial of the same length.
    pub fn scalar_mul(&self, scalar: &BigInt) -> (r: Self)
        ensures
            r@ == scalar_mul_spec(self@, big_value(*scalar)),
    {
        let n = self.coefficients.len();
        let mut coefficients: Vec<BigInt> = Vec::new();
        let mut i: usize = 0;
        while i < n
            invariant
                i <= n,
                n == self.coefficients@.len(),
                coefficients@.len() == i,
                forall|j: int|
                    0 <= j < i ==> big_value(#[trigger] coefficients@[j]) == big_value(
                        self.coefficients@[j],
                    ) * big_value(*scalar),
            decreases n - i,
        {
            coefficients.push(big_mul(&self.coefficients[i], scalar));
            i = i + 1;
        }
        assert(int_values(coefficients@) =~= scalar_mul_spec(self@, big_value(*scalar)));
        Self { coefficients }
    }

    /// Adds two polynomials.  The shorter operand is padded with leading
    /// (high-degree) zero coefficients; the result has the length of the
    /// longer operand and is not trimmed.
    pub fn add(&self, other: &Self) -> (r: Self)
        ensures
            r@ == add_spec(self@, other@),
    {
        let la = self.coefficients.len();
        let lb = other.coefficients.len();
        let max_length = if la >= lb {
            la
        } else {
            lb
        };
        let mut result = zero_coefficients(max_length);
        let mut i: usize = 0;
        while i < la
            invariant
                i <= la,
                la <= max_length,
                lb <= max_length,
                la == self.coefficients@.len(),
                result@.len() == max_length,
                forall|p: int|
                    0 <= p < max_length ==> big_value(#[trigger] result@[p]) == (
                    if max_length - la <= p < max_length - la + i {
                        self@[p - (max_length - la)]
                    } else {
                        0
                    }),
            decreases la - i,
        {
            let c = big_clone(&self.coefficients[i]);
            result[max_length - la + i] = c;
            i = i + 1;
        }
        let mut i: usize = 0;
        while i < lb
            invariant
                i <= lb,
                la <= max_length,
                lb <= max_length,
                la == self.coefficients@.len(),
                lb == other.coefficients@.len(),
                result@.len() == max_length,
                forall|p: int|
                    0 <= p < max_length ==> big_value(#[trigger] result@[p]) == coeff_at(
                        self@,
                        max_length - 1 - p,
                    ) + (
                    if max_length - lb <= p < max_length - lb + i {
                        other@[p - (max_length - lb)]
                    } else {
                        0
                    }),
            decreases lb - i,
        {
            let idx = max_length - lb + i;
            let t = big_add(&result[idx], &other.coefficients[i]);
            result[idx] = t;
            i = i + 1;
        }
        assert(int_values(result@) =~= add_spec(self@, other@));
        Self { coefficients: result }
    }

    /// Multiplies two polynomials by schoolbook convolution.  When either
    /// operand is structurally zero the result is the single-coefficient
    /// zero polynomial; otherwise the result has length
    /// `self.len() + other.len() - 1` and is not trimmed.
    pub fn mul(&self, other: &Self) -> (r: Self)
        requires
            self@.len() + other@.len() - 1 <= usize::MAX,
        ensures
            r@ == mul_spec(self@, other@),
    {
        if self.is_zero() || other.is_zero() {
            return Polynomial::zero(0);
        }
        let la = self.coefficients.len();
        let lb = other.coefficients.len();
        let product_len = la - 1 + lb;
        let mut product = zero_coefficients(product_len);
        let mut i: usize = 0;
        while i < la
            invariant
                i <= la,
                1 <= la,
                1 <= lb,
                la == self.coefficients@.len(),
                lb == other.coefficients@.len(),
                product_len == la + lb - 1,
                product@.len() == product_len,
                forall|p: int|
                    0 <= p < product_len ==> big_value(#[trigger] product@[p]) == prod_prefix(
                        self@,
                        other@,
                        p,
                        i as int,
                    ),
            decreases la - i,
        {
            let mut j: usize = 0;
            while j < lb
                invariant
                    i < la,
                    j <= lb,
                    la == self.coefficients@.len(),
                    lb == other.coefficients@.len(),
                    product_len == la + lb - 1,
                    product@.len() == product_len,
                    forall|p: int|
                        0 <= p < product_len ==> big_value(#[trigger] product@[p]) == prod_prefix(
                            self@,
                            other@,
                            p,
                            i as int,
                        ) + (
                        if i <= p < i + j {
                            self@[i as int] * other@[p - i]
                        } else {
                            0
                        }),
                decreases lb - j,
            {
                let t = big_mul(&self.coefficients[i], &other.coefficients[j]);
                let idx = i + j;
                let t2 = big_add(&product[idx], &t);
                product[idx] = t2;
                j = j + 1;
            }
            i = i + 1;
            assert forall|p: int| 0 <= p < product_len implies big_value(
                #[trigger] product@[p],
            ) == prod_prefix(self@, other@, p, i as int) by {
                assert(prod_prefix(self@, other@, p, i as int) == prod_prefix(
                    self@,
                    other@,
                    p,
                    i as int - 1,
                ) + (
                if 0 <= p - (i - 1) < lb {
                    self@[i - 1] * other@[p - (i - 1)]
                } else {
                    0
                }));
            };
        }
        proof {
            assert forall|p: int| 0 <= p < product_len implies big_value(
                #[trigger] product@[p],
            ) == conv_at(self@, other@, la + lb - 2 - p) by {
                lemma_prod_conv_split(self@, other@, p, 0);
            };
            assert(int_values(product@) =~= mul_spec(self@, other@));
        }
        Self { coefficients: product }
    }

    /// Divides `self` by `divisor` by schoolbook long division, returning
    /// `(quotient, remainder)`.
    ///
    /// Fails with `DivisionByZero` when the divisor is structurally zero,
    /// and with `InvalidPolynomial` when it is nonzero but its leading
    /// (highest-degree) coefficient is zero.  When `self` reports a smaller
    /// degree than the divisor the quotient is zero and the remainder is
    /// `self` unchanged.  Otherwise each quotient coefficient is the
    /// truncating integer quotient of the working remainder's leading term
    /// by the divisor's leading coefficient — exact when the divisor's
    /// leading coefficient is a unit, the intended use case — and the final
    /// remainder has its leading zeros stripped, possibly becoming empty.
    pub fn div(&self, divisor: &Self) -> (r: Result<(Self, Self), PolynomialError>)
        ensures
            all_zero(divisor@) ==> (r matches Err(e) && e == PolynomialError::DivisionByZero),
            !all_zero(divisor@) && divisor@[0] == 0 ==> (r matches Err(e) && e matches
                PolynomialError::InvalidPolynomial(_)),
            !all_zero(divisor@) && divisor@[0] != 0 ==> (r matches Ok(qr) && qr.0@
                == div_quotient_spec(self@, divisor@) && qr.1@ == div_remainder_spec(
                self@,
                divisor@,
            )),
    {
        if divisor.is_zero() {
            return Err(PolynomialError::DivisionByZero);
        }
        if divisor.coefficients.len() == 0 || big_is_zero(&divisor.coefficients[0]) {
            return Err(
                PolynomialError::InvalidPolynomial(
                    "Leading coefficient of divisor cannot be zero".to_owned(),
                ),
            );
        }
        if self.degree() < divisor.degree() {
            let q = Polynomial::zero(0);
            assert(q@ =~= seq![0int]);
            return Ok((q, Self { coefficients: clone_coefficients(self.coefficients.as_slice()) }));
        }
        let ls = self.coefficients.len();
        let ld = divisor.coefficients.len();
        let lq = if ls == 0 {
            0
        } else {
            ls - ld + 1
        };
        let mut quotient = zero_coefficients(lq);
        let mut remainder = clone_coefficients(self.coefficients.as_slice());
        assert(int_values(remainder@) == div_rem_steps(self@, divisor@, 0));
        let mut i: usize = 0;
        while i < lq
            invariant
                i <= lq,
                1 <= ld,
                ls == self.coefficients@.len(),
                ld == divisor.coefficients@.len(),
                lq <= ls,
                ls > 0 ==> lq + ld == ls + 1,
                big_value(divisor.coefficients@[0]) != 0,
                quotient@.len() == lq,
                remainder@.len() == ls,
                int_values(remainder@) == div_rem_steps(self@, divisor@, i as int),
                forall|j: int|
                    0 <= j < i ==> big_value(#[trigger] quotient@[j]) == div_q_at(
                        self@,
                        divisor@,
                        j,
                    ),
            decreases lq - i,
        {
            let ghost remk = int_values(remainder@);
            let c = big_div(&remainder[i], &divisor.coefficients[0]);
            let ghost cv = big_value(c);
            proof {
                assert(remk[i as int] == big_value(remainder@[i as int]));
                assert(cv == div_q_at(self@, divisor@, i as int));
            }
            quotient[i] = big_clone(&c);
            let mut j: usize = 0;
            while j < ld
                invariant
                    i < lq,
                    j <= ld,
                    1 <= ld,
                    ls == self.coefficients@.len(),
                    ld == divisor.coefficients@.len(),
                    lq <= ls,
                    lq + ld == ls + 1,
                    remainder@.len() == ls,
                    cv == tdiv(remk[i as int], int_values(divisor.coefficients@)[0]),
                    big_value(c) == cv,
                    remk.len() == ls,
                    forall|p: int|
                        0 <= p < ls ==> big_value(#[trigger] remainder@[p]) == (
                        if i <= p < i + j {
                            remk[p] - int_values(divisor.coefficients@)[p - i] * cv
                        } else {
                            remk[p]
                        }),
                decreases ld - j,
            {
                if i + j < remainder.len() {
                    let ghost entry_rem = remainder@;
                    let t = big_mul(&divisor.coefficients[j], &c);
                    let t2 = big_sub(&remainder[i + j], &t);
                    remainder[i + j] = t2;
                    proof {
                        let dv = int_values(divisor.coefficients@);
                        assert(dv[j as int] == big_value(divisor.coefficients@[j as int]));
                        assert(big_value(t) == dv[j as int] * cv);
                        assert(big_value(entry_rem[i + j]) == remk[i + j]);
                        assert(big_value(t2) == remk[i + j] - dv[j as int] * cv);
                        assert(remainder@ == entry_rem.update(i + j, t2));
                        assert(big_value(remainder@[i + j]) == remk[i + j] - dv[j as int] * cv);
                    }
                }
                j = j + 1;
            }
            proof {
                assert(int_values(remainder@) =~= div_step(remk, divisor@, i as int));
                assert(int_values(remainder@) == div_rem_steps(self@, divisor@, i as int + 1));
            }
            i = i + 1;
        }
        let ghost full_rem = div_rem_steps(self@, divisor@, lq as int);
        while remainder.len() > 0 && big_is_zero(&remainder[0])
            invariant
                strip_leading_zeros(int_values(remainder@)) == strip_leading_zeros(full_rem),
            decreases remainder@.len(),
        {
            proof {
                let cur = int_values(remainder@);
                assert(cur.len() > 0 && cur[0] == 0);
                assert(strip_leading_zeros(cur) == strip_leading_zeros(
                    cur.subrange(1, cur.len() as int),
                ));
            }
            let ghost before = remainder@;
            remainder.remove(0);
            proof {
                assert(int_values(remainder@) =~= int_values(before).subrange(
                    1,
                    before.len() as int,
                ));
            }
        }
        proof {
            let cur = int_values(remainder@);
            assert(strip_leading_zeros(cur) == cur);
            assert(int_values(quotient@) =~= div_quotient_spec(self@, divisor@));
        }
        Ok((Self { coefficients: quotient }, Self { coefficients: remainder }))
    }

    /// Subtracts `other` from `self`: the sum of `self` and the negation of
    /// `other`.
    pub fn sub(&self, other: &Self) -> (r: Self)
        ensures
            r@ == add_spec(self@, neg_spec(other@)),
    {
        self.add(&other.neg())
    }

    /// Evaluates the polynomial at `x` by Horner's method, accumulating
    /// from the highest-degree coefficient.  Returns zero for an empty
    /// coefficient sequence.
    pub fn evaluate(&self, x: &BigInt) -> (r: BigInt)
        ensures
            big_value(r) == eval_spec(self@, big_value(*x)),
    {
        let n = self.coefficients.len();
        if n == 0 {
            return big_zero();
        }
        let mut result = big_clone(&self.coefficients[0]);
        proof {
            let xv = big_value(*x);
            let first = self@.subrange(0, 1);
            assert(eval_spec(self@.subrange(0, 0), xv) == 0);
            assert(first.drop_last() =~= self@.subrange(0, 0));
            assert(first[0] == self@[0]);
            assert(eval_spec(first, xv) == eval_spec(first.drop_last(), xv) * xv + first[0]);
            assert(big_value(result) == eval_spec(self@.subrange(0, 1), xv));
        }
        let mut i: usize = 1;
        while i < n
            invariant
                1 <= i <= n,
                n == self.coefficients@.len(),
                big_value(result) == eval_spec(self@.subrange(0, i as int), big_value(*x)),
            decreases n - i,
        {
            let t = big_mul(&result, x);
            result = big_add(&t, &self.coefficients[i]);
            proof {
                let pre = self@.subrange(0, i as int + 1);
                assert(pre.drop_last() =~= self@.subrange(0, i as int));
                assert(pre[pre.len() - 1] == self@[i as int]);
            }
            i = i + 1;
        }
        assert(self@.subrange(0, n as int) =~= self@);
        result
    }

    /// Reduces the polynomial modulo a cyclotomic polynomial given by its
    /// coefficients: divides by it (propagating division errors) and maps
    /// the remainder into a fixed-length result of exactly
    /// `cyclo.len() - 1` coefficients, right-aligned at the low-degree end
    /// and zero-padded at the high-degree end.
    pub fn reduce_by_cyclotomic(&self, cyclo: &[BigInt]) -> (r: Result<Self, PolynomialError>)
        ensures
            all_zero(int_values(cyclo@)) ==> (r matches Err(e) && e
                == PolynomialError::DivisionByZero),
            !all_zero(int_values(cyclo@)) && int_values(cyclo@)[0] == 0 ==> (r matches Err(e)
                && e matches PolynomialError::InvalidPolynomial(_)),
            !all_zero(int_values(cyclo@)) && int_values(cyclo@)[0] != 0 ==> (r matches Ok(out)
                && out@ == cyclo_pad(
                div_remainder_spec(self@, int_values(cyclo@)),
                cyclo@.len() - 1,
            )),
    {
        let cyclo_poly = Polynomial::new(clone_coefficients(cyclo));
        let divided = self.div(&cyclo_poly);
        let remainder = match divided {
            Ok(qr) => qr.1,
            Err(e) => {
                return Err(e);
            },
        };
        let n = cyclo.len() - 1;
        let mut out = zero_coefficients(n);
        let rl = remainder.coefficients.len();
        if rl != 0 {
            let start_idx = if n >= rl {
                n - rl
            } else {
                0
            };
            let end_idx = if start_idx + rl < n {
                start_idx + rl
            } else {
                n
            };
            let count = end_idx - start_idx;
            let mut k: usize = 0;
            while k < count
                invariant
                    k <= count,
                    out@.len() == n,
                    rl == remainder.coefficients@.len(),
                    start_idx + count <= n,
                    count <= rl,
                    forall|p: int|
                        0 <= p < n ==> big_value(#[trigger] out@[p]) == (
                        if start_idx <= p < start_idx + k {
                            big_value(remainder.coefficients@[p - start_idx])
                        } else {
                            0
                        }),
                decreases count - k,
            {
                let c = big_clone(&remainder.coefficients[k]);
                out[start_idx + k] = c;
                k = k + 1;
            }
        }
        assert(int_values(out@) =~= cyclo_pad(int_values(remainder.coefficients@), n as int));
        Ok(Self { coefficients: out })
    }

    /// Reduces every coefficient modulo `modulus` and centers it: each
    /// coefficient of the result is the smallest-magnitude representative
    /// congruent to the original, computed with `floor(modulus / 2)` as the
    /// half-modulus.  The result has the same length as `self`.
    pub fn reduce_and_center(&self, modulus: &BigInt) -> (r: Self)
        requires
            big_value(*modulus) > 0,
        ensures
            r@.len() == self@.len(),
            forall|i: int|
                0 <= i < self@.len() ==> r@[i] == centered(self@[i], big_value(*modulus)),
    {
        let two = big_from_u64(2);
        let half_modulus = big_div(modulus, &two);
        proof {
            lemma_tdiv_nonneg(big_value(*modulus), 2);
        }
        let n = self.coefficients.len();
        let mut coefficients: Vec<BigInt> = Vec::new();
        let mut i: usize = 0;
        while i < n
            invariant
                i <= n,
                n == self.coefficients@.len(),
                big_value(*modulus) > 0,
                big_value(half_modulus) == big_value(*modulus) / 2,
                coefficients@.len() == i,
                forall|j: int|
                    0 <= j < i ==> big_value(#[trigger] coefficients@[j]) == centered(
                        big_value(self.coefficients@[j]),
                        big_value(*modulus),
                    ),
            decreases n - i,
        {
            coefficients.push(
                crate::utils::reduce_and_center(&self.coefficients[i], modulus, &half_modulus),
            );
            i = i + 1;
        }
        let r = Self { coefficients };
        assert forall|i: int| 0 <= i < self@.len() implies r@[i] == centered(
            self@[i],
            big_value(*modulus),
        ) by {}
        r
    }

    /// Renders the polynomial as a sign-aware algebraic string: zero
    /// coefficients are skipped, nonzero terms are joined with `" + "` or
    /// `" - "`, a coefficient magnitude of 1 is omitted except at degree 0,
    /// the indeterminate is written `x` at degree 1 and `x^k` above, and an
    /// all-zero polynomial renders as `"0"`.
    #[verifier::rlimit(100)]
    pub fn to_string(&self) -> (r: String)
        ensures
            r@ == render_spec(self@),
    {
        let n = self.coefficients.len();
        let zero = big_zero();
        let mut out = String::new();
        let mut first: bool = true;
        let mut i: usize = 0;
        while i < n
            invariant
                i <= n,
                n == self.coefficients@.len(),
                big_value(zero) == 0,
                render_spec(self@) == out@ + render_from(self@, i as int, first),
            decreases n - i,
        {
            let ghost first0 = first;
            let ghost out0 = out@;
            let coeff = &self.coefficients[i];
            if !big_is_zero(coeff) {
                let degree = n - 1 - i;
                if !first {
                    if big_lt(&zero, coeff) {
                        out.push_str(" + ");
                    } else {
                        out.push_str(" - ");
                    }
                }
                first = false;
                let abs_coeff = if big_lt(coeff, &zero) {
                    big_neg(coeff)
                } else {
                    big_clone(coeff)
                };
                assert(big_value(abs_coeff) == abs_int(self@[i as int]));
                if degree == 0 || !big_is_one(&abs_coeff) {
                    let digits = big_to_decimal(&abs_coeff);
                    out.push_str(digits.as_str());
                }
                if degree > 0 {
                    out.push_str("x");
                    if degree > 1 {
                        let degree_digits = big_to_decimal(&big_from_u64(degree as u64));
                        out.push_str("^");
                        out.push_str(degree_digits.as_str());
                    }
                }
                proof {
                    let s = self@;
                    let ii = i as int;
                    let sep: Seq<char> = if first0 {
                        Seq::<char>::empty()
                    } else if s[ii] > 0 {
                        (" + ")@
                    } else {
                        (" - ")@
                    };
                    assert(out@ =~= out0 + sep + term_chars(s, ii));
                    assert(render_from(s, ii, first0) == sep + term_chars(s, ii) + render_from(
                        s,
                        ii + 1,
                        false,
                    ));
                    assert(out0 + (sep + term_chars(s, ii) + render_from(s, ii + 1, false)) =~= (
                    out0 + sep + term_chars(s, ii)) + render_from(s, ii + 1, false));
                }
            } else {
                assert(render_from(self@, i as int, first) == render_from(
                    self@,
                    i as int + 1,
                    first,
                ));
            }
            i = i + 1;
        }
        if first {
            out.push_str("0");
            assert(render_from(self@, n as int, true) == ("0")@);
        } else {
            assert(out@ + render_from(self@, n as int, false) =~= out@);
        }
        out
    }

    /// Returns the leading (highest-degree) coefficient, or `None` when no
    /// coefficient is stored.
    pub fn leading_coefficient(&self) -> (r: Option<&BigInt>)
        ensures
            self@.len() == 0 ==> r is None,
            self@.len() > 0 ==> (r matches Some(c) && big_value(*c) == self@[0]),
    {
        if self.coefficients.len() == 0 {
            None
        } else {
            Some(&self.coefficients[0])
        }
    }
}

} // verus!
