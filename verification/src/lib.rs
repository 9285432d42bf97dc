//! Arbitrary-precision polynomial arithmetic for lattice-based cryptography.
//!
//! Polynomials are stored as coefficient vectors in descending order of
//! degree, with `num_bigint::BigInt` coefficients.  The library provides the
//! ring operations (addition, multiplication, long division, reduction modulo
//! cyclotomic polynomials) together with scalar and vector modular-reduction
//! and range-check utilities.

pub mod bigint;
pub mod errors;
pub mod laws;
pub mod polynomial;
pub mod utils;

pub use errors::PolynomialError;
pub use polynomial::Polynomial;
pub use utils::range_check_centered;
pub use utils::range_check_standard;
pub use utils::reduce_and_center;
pub use utils::reduce_and_center_coefficients;
pub use utils::reduce_and_center_scalar;
pub use utils::reduce_coefficients;
pub use utils::reduce_scalar;
