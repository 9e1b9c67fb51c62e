//! The error taxonomy shared by every fallible operation of the crate.
//!
//! Every call site receives its own structured outcome: the variant names the
//! condition, and [`HeError::message`] renders a human-readable description.
//! The "transparent ciphertext" condition has a variant of its own because it
//! signals a security-relevant usage error, never to be folded into a generic
//! operation failure.

use vstd::prelude::*;

verus! {

/// Why a set of encryption parameters was rejected at context creation.
#[derive(Clone, Copy, Debug, PartialEq, Eq, Structural)]
pub enum ParameterIssue {
    /// The scheme tag is neither the integer nor the fractional scheme.
    UnsupportedScheme,
    /// The polynomial modulus degree is not a supported power of two.
    InvalidDegree,
    /// The coefficient modulus chain is empty or a modulus value is invalid.
    InvalidCoeffModulus,
    /// The total coefficient modulus bit length exceeds the bound that the
    /// requested security level allows for the chosen degree.
    InsecureParameters,
    /// The plaintext modulus is missing, or set where the scheme forbids it.
    InvalidPlainModulus,
    /// The requested security level has no parameter table here.
    UnsupportedSecurityLevel,
}

/// Why an operation over ciphertexts or plaintexts was refused.
#[derive(Clone, Copy, Debug, PartialEq, Eq, Structural)]
pub enum OperationIssue {
    /// The operands carry different parameter-identity fingerprints.
    ParmsMismatch,
    /// The operands carry different scales (fractional scheme).
    ScaleMismatch,
    /// The ciphertext size does not fit the operation.
    SizeMismatch,
    /// A slot value lies outside the range the scheme admits.
    ValueOutOfRange,
    /// A fixed-point mantissa or scale would exceed the working range.
    RangeOverflow,
    /// The operation is only defined for the integer scheme.
    SchemeMismatch,
    /// Key material does not belong to the operand's parameter chain.
    KeyMismatch,
    /// The object has not been initialized with usable data.
    EmptyOperand,
}

/// The error taxonomy of the crate.
#[derive(Clone, Copy, Debug, PartialEq, Eq, Structural)]
pub enum HeError {
    /// Invalid or insecure parameter combination, detected at context
    /// creation; fatal to that construction attempt only.
    Parameter(ParameterIssue),
    /// Mismatched operands or out-of-range data; the caller must correct the
    /// inputs before retrying.
    Operation(OperationIssue),
    /// `multiply_plain` with an identically zero plaintext operand: the result
    /// would decrypt without the secret key.
    TransparentCiphertext,
    /// A modulus switch or rescale was requested below the lowest chain level.
    ChainExhausted,
    /// A corrupt or mismatched byte stream was handed to `load`.
    Serialization,
    /// An allocation or pool failure.
    Resource,
}

impl HeError {
    /// A short, stable name for the error condition.
    pub fn name(&self) -> (r: &'static str)
        ensures
            self is Parameter ==> r@ == "parameter error"@,
            self is Operation ==> r@ == "operation error"@,
            self is TransparentCiphertext ==> r@ == "transparent ciphertext"@,
            self is ChainExhausted ==> r@ == "chain exhausted"@,
            self is Serialization ==> r@ == "serialization error"@,
            self is Resource ==> r@ == "resource error"@,
    {
        match self {
            HeError::Parameter(_) => "parameter error",
            HeError::Operation(_) => "operation error",
            HeError::TransparentCiphertext => "transparent ciphertext",
            HeError::ChainExhausted => "chain exhausted",
            HeError::Serialization => "serialization error",
            HeError::Resource => "resource error",
        }
    }

    /// A human-readable description of the error condition.
    pub fn message(&self) -> (r: String)
        ensures
            *self == HeError::TransparentCiphertext ==> r@
                == "Transparent output: plaintext must be non zero"@,
            *self == HeError::ChainExhausted ==> r@
                == "Modulus switching past the lowest chain level"@,
    {
        match self {
            HeError::Parameter(issue) => match issue {
                ParameterIssue::UnsupportedScheme => String::from_str("Unsupported scheme"),
                ParameterIssue::InvalidDegree => String::from_str(
                    "Invalid polynomial modulus degree",
                ),
                ParameterIssue::InvalidCoeffModulus => String::from_str(
                    "Invalid coefficient modulus chain",
                ),
                ParameterIssue::InsecureParameters => String::from_str(
                    "Coefficient modulus exceeds the security bound",
                ),
                ParameterIssue::InvalidPlainModulus => String::from_str(
                    "Invalid plaintext modulus",
                ),
                ParameterIssue::UnsupportedSecurityLevel => String::from_str(
                    "Unsupported security level",
                ),
            },
            HeError::Operation(issue) => match issue {
                OperationIssue::ParmsMismatch => String::from_str(
                    "Operands carry different parameter identities",
                ),
                OperationIssue::ScaleMismatch => String::from_str(
                    "Operands carry different scales",
                ),
                OperationIssue::SizeMismatch => String::from_str(
                    "Ciphertext size does not fit the operation",
                ),
                OperationIssue::ValueOutOfRange => String::from_str(
                    "Slot value out of range for the scheme",
                ),
                OperationIssue::RangeOverflow => String::from_str(
                    "Fixed-point working range exceeded",
                ),
                OperationIssue::SchemeMismatch => String::from_str(
                    "Operation is only defined for the integer scheme",
                ),
                OperationIssue::KeyMismatch => String::from_str(
                    "Key material does not match the parameter chain",
                ),
                OperationIssue::EmptyOperand => String::from_str(
                    "Operand holds no usable data",
                ),
            },
            HeError::TransparentCiphertext => String::from_str(
                "Transparent output: plaintext must be non zero",
            ),
            HeError::ChainExhausted => String::from_str(
                "Modulus switching past the lowest chain level",
            ),
            HeError::Serialization => String::from_str("Corrupt or mismatched byte stream"),
            HeError::Resource => String::from_str("Allocation failure"),
        }
    }
}

} // verus!
