//! Error types for polynomial operations.

use vstd::prelude::*;

verus! {

/// Errors that can occur during polynomial operations.
#[derive(Debug, Clone, PartialEq)]
pub enum PolynomialError {
    /// Division by a structurally zero polynomial.
    DivisionByZero,
    /// Invalid polynomial (e.g., a zero leading coefficient in a divisor).
    InvalidPolynomial(String),
    /// Modulus operation error.
    ModulusError(String),
    /// Cyclotomic polynomial error.
    CyclotomicError(String),
    /// Range check failure.
    RangeCheckError(String),
    /// Arithmetic overflow or underflow.
    ArithmeticError(String),
}

/// The diagnostic message of an error: a fixed phrase for its kind,
/// followed by the detail it carries.
pub open spec fn message_spec(e: PolynomialError) -> Seq<char> {
    match e {
        PolynomialError::DivisionByZero => ("Division by zero polynomial")@,
        PolynomialError::InvalidPolynomial(m) => ("Invalid polynomial: ")@ + m@,
        PolynomialError::ModulusError(m) => ("Modulus error: ")@ + m@,
        PolynomialError::CyclotomicError(m) => ("Cyclotomic polynomial error: ")@ + m@,
        PolynomialError::RangeCheckError(m) => ("Range check error: ")@ + m@,
        PolynomialError::ArithmeticError(m) => ("Arithmetic error: ")@ + m@,
    }
}

impl PolynomialError {
    /// Renders the diagnostic message for the error.
    pub fn message(&self) -> (r: String)
        ensures
            r@ == message_spec(*self),
    {
        match self {
            PolynomialError::DivisionByZero => "Division by zero polynomial".to_owned(),
            PolynomialError::InvalidPolynomial(m) => {
                let mut s = "Invalid polynomial: ".to_owned();
                s.push_str(m.as_str());
                s
            },
            PolynomialError::ModulusError(m) => {
                let mut s = "Modulus error: ".to_owned();
                s.push_str(m.as_str());
                s
            },
            PolynomialError::CyclotomicError(m) => {
                let mut s = "Cyclotomic polynomial error: ".to_owned();
                s.push_str(m.as_str());
                s
            },
            PolynomialError::RangeCheckError(m) => {
                let mut s = "Range check error: ".to_owned();
                s.push_str(m.as_str());
                s
            },
            PolynomialError::ArithmeticError(m) => {
                let mut s = "Arithmetic error: ".to_owned();
                s.push_str(m.as_str());
                s
            },
        }
    }
}

} // verus!
