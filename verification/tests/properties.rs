use bigint_poly::Polynomial;
use bigint_poly::PolynomialError;
use bigint_poly::utils::range_check_standard;
use bigint_poly::utils::reduce_and_center_scalar;
use num_bigint::BigInt;

fn poly(coeffs: &[i64]) -> Polynomial {
    Polynomial::new(coeffs.iter().map(|&c| BigInt::from(c)).collect())
}

#[test]
fn test_round_trip_ascending_both_ways() {
    for coeffs in [
        Vec::<i64>::new(),
        vec![7],
        vec![0],
        vec![1, 0, -2, 5],
        vec![0, 0, 3],
    ] {
        let p = poly(&coeffs);
        let round = Polynomial::from_ascending_coefficients(p.to_ascending_coefficients());
        assert_eq!(p.coefficients(), round.coefficients());

        let ascending: Vec<BigInt> = coeffs.iter().map(|&c| BigInt::from(c)).collect();
        let q = Polynomial::from_ascending_coefficients(ascending.clone());
        assert_eq!(q.to_ascending_coefficients(), ascending);
    }
}

#[test]
fn test_add_zero_identity_law() {
    let p = poly(&[4, -1, 9]);
    let sum = p.add(&Polynomial::zero(p.degree()));
    assert_eq!(sum.coefficients(), p.coefficients());
}

#[test]
fn test_add_negation_is_structurally_zero() {
    let p = poly(&[3, 0, -7, 11]);
    assert!(p.add(&p.neg()).is_zero());
    let empty = poly(&[]);
    assert!(empty.add(&empty.neg()).is_zero());
}

#[test]
fn test_distributivity_after_trimming() {
    let p = poly(&[2, -1]);
    let q = poly(&[1, 0, 4]);
    let r = poly(&[-1, 0, -4, 5]);
    let lhs = p.mul(&q.add(&r)).trim_leading_zeros();
    let rhs = p.mul(&q).add(&p.mul(&r)).trim_leading_zeros();
    assert_eq!(lhs.coefficients(), rhs.coefficients());

    // A sum that cancels to the structural zero polynomial
    let lhs2 = p.mul(&q.add(&q.neg())).trim_leading_zeros();
    let rhs2 = p.mul(&q).add(&p.mul(&q.neg())).trim_leading_zeros();
    assert_eq!(lhs2.coefficients(), rhs2.coefficients());
    assert!(lhs2.is_zero());
}

#[test]
fn test_division_remainder_identity() {
    // Non-exact division still satisfies dividend = divisor * quotient + remainder
    let cases: [(&[i64], &[i64]); 4] = [
        (&[1, 2, 3, 4], &[1, 1]),
        (&[1, 0, 0, 0, 1], &[1, 0, 1]),
        (&[5, 0, -2], &[-1, 3]),
        (&[1, 1], &[1, 0, 0]),
    ];
    for (pc, dc) in cases {
        let p = poly(pc);
        let d = poly(dc);
        let (q, r) = p.div(&d).unwrap();
        let rebuilt = d.mul(&q).add(&r).trim_leading_zeros();
        let trimmed = p.trim_leading_zeros();
        assert_eq!(rebuilt.coefficients(), trimmed.coefficients());
    }
}

#[test]
fn test_division_invalid_leading_zero() {
    let p = poly(&[1, 2, 3]);
    let d = poly(&[0, 1]);
    assert!(matches!(
        p.div(&d),
        Err(PolynomialError::InvalidPolynomial(_))
    ));
}

#[test]
fn test_division_smaller_degree_returns_dividend() {
    let p = poly(&[4, 5]);
    let d = poly(&[1, 0, 0]);
    let (q, r) = p.div(&d).unwrap();
    assert!(q.is_zero());
    assert_eq!(q.degree(), 0);
    assert_eq!(r.coefficients(), p.coefficients());
}

#[test]
fn test_evaluation_matches_power_sum() {
    let p = poly(&[2, -3, 0, 5]); // 2x^3 - 3x^2 + 5
    for x in [-3i64, -1, 0, 1, 2, 10] {
        let expected = 2 * x * x * x - 3 * x * x + 5;
        assert_eq!(p.evaluate(&BigInt::from(x)), BigInt::from(expected));
    }
    let empty = poly(&[]);
    assert_eq!(empty.evaluate(&BigInt::from(9)), BigInt::from(0));
}

#[test]
fn test_centering_bound_and_congruence() {
    for m in [2i64, 3, 7, 8, 12] {
        let modulus = BigInt::from(m);
        let h = m / 2;
        for x in -30i64..30 {
            let c = reduce_and_center_scalar(&BigInt::from(x), &modulus);
            let cv: BigInt = c.clone();
            // congruent to x modulo m
            let diff = BigInt::from(x) - &cv;
            assert_eq!(&diff % &modulus, BigInt::from(0));
            // smallest-magnitude interval, closed on both ends
            assert!(cv >= BigInt::from(-h));
            assert!(cv <= BigInt::from(m - h));
        }
    }
}

#[test]
fn test_reduce_by_cyclotomic_fixed_width() {
    // (x^3 + 2x^2 + 3x + 4) mod (x^2 + 1) = 2x + 2
    let p = poly(&[1, 2, 3, 4]);
    let cyclo: Vec<BigInt> = vec![BigInt::from(1), BigInt::from(0), BigInt::from(1)];
    let reduced = p.reduce_by_cyclotomic(&cyclo).unwrap();
    assert_eq!(reduced.coefficients(), &[BigInt::from(2), BigInt::from(2)]);

    // A remainder shorter than the ring dimension is right-aligned
    let small = poly(&[5]);
    let reduced_small = small.reduce_by_cyclotomic(&cyclo).unwrap();
    assert_eq!(
        reduced_small.coefficients(),
        &[BigInt::from(0), BigInt::from(5)]
    );
}

#[test]
fn test_reduce_by_cyclotomic_errors() {
    let p = poly(&[1, 2]);
    let zero_cyclo: Vec<BigInt> = vec![BigInt::from(0), BigInt::from(0)];
    assert!(matches!(
        p.reduce_by_cyclotomic(&zero_cyclo),
        Err(PolynomialError::DivisionByZero)
    ));
    let bad_cyclo: Vec<BigInt> = vec![BigInt::from(0), BigInt::from(1)];
    assert!(matches!(
        p.reduce_by_cyclotomic(&bad_cyclo),
        Err(PolynomialError::InvalidPolynomial(_))
    ));
}

#[test]
fn test_polynomial_reduce_and_center() {
    let p = poly(&[10, 15, 20]);
    let reduced = p.reduce_and_center(&BigInt::from(7));
    assert_eq!(
        reduced.coefficients(),
        &[BigInt::from(3), BigInt::from(1), BigInt::from(-1)]
    );
}

#[test]
fn test_leading_coefficient() {
    let p = poly(&[3, 2]);
    assert_eq!(p.leading_coefficient(), Some(&BigInt::from(3)));
    let empty = poly(&[]);
    assert_eq!(empty.leading_coefficient(), None);
}

#[test]
fn test_degree_of_empty_is_zero() {
    let empty = poly(&[]);
    assert_eq!(empty.degree(), 0);
    assert!(empty.is_zero());
}

#[test]
fn test_display_edge_cases() {
    assert_eq!(poly(&[]).to_string(), "0");
    assert_eq!(poly(&[0, 0, 0]).to_string(), "0");
    assert_eq!(poly(&[1, 0]).to_string(), "x");
    assert_eq!(poly(&[-1, 0, 0]).to_string(), "x^2");
    assert_eq!(poly(&[1]).to_string(), "1");
    assert_eq!(poly(&[-1]).to_string(), "1");
    assert_eq!(poly(&[12, 0, -7]).to_string(), "12x^2 - 7");
}

#[test]
fn test_multiplication_by_structural_zero_normalizes() {
    let p = poly(&[1, 2, 3]);
    let z = Polynomial::zero(5);
    let product = p.mul(&z);
    assert_eq!(product.coefficients(), &[BigInt::from(0)]);
    assert_eq!(product.degree(), 0);
}

#[test]
fn test_trim_keeps_single_zero() {
    let p = poly(&[0, 0, 0]);
    let trimmed = p.trim_leading_zeros();
    assert_eq!(trimmed.coefficients(), &[BigInt::from(0)]);
}

#[test]
fn test_range_check_standard_boundaries() {
    let bound = BigInt::from(1);
    let modulus = BigInt::from(7);
    // 6 passes via the negative-modular side: 6 >= 7 - 1
    assert!(range_check_standard(&[BigInt::from(6)], &bound, &modulus));
    // 1 passes directly
    assert!(range_check_standard(&[BigInt::from(1)], &bound, &modulus));
    // 5 fails both sides: 5 > 1 and 5 < 6
    assert!(!range_check_standard(&[BigInt::from(5)], &bound, &modulus));
}

#[test]
fn test_error_messages() {
    assert_eq!(
        PolynomialError::DivisionByZero.message(),
        "Division by zero polynomial"
    );
    assert_eq!(
        PolynomialError::ModulusError("bad".to_string()).message(),
        "Modulus error: bad"
    );
    let p = poly(&[1, 2, 3]);
    let d = poly(&[0, 1]);
    match p.div(&d) {
        Err(e) => assert_eq!(
            e.message(),
            "Invalid polynomial: Leading coefficient of divisor cannot be zero"
        ),
        Ok(_) => panic!("division accepted an invalid divisor"),
    }
}

#[test]
fn test_scalar_multiplication_negative_and_large() {
    let p = poly(&[1, -2, 3]);
    let result = p.scalar_mul(&BigInt::from(-1000000000000i64));
    assert_eq!(
        result.coefficients(),
        &[
            BigInt::from(-1000000000000i64),
            BigInt::from(2000000000000i64),
            BigInt::from(-3000000000000i64)
        ]
    );
}
