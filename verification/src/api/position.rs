//! Validation of position requests, and the funding figures reported.
use crate::decimal::{dec_mul, dec_of, lemma_dec_of, value_le, value_lt, Dec};
use crate::engine::engine::{error_text, EngineError};
use vstd::prelude::*;
use vstd::string::StringExecFns;

verus! {

broadcast use lemma_dec_of;

/// The body of an error reply: a code and a message.
#[derive(Debug)]
pub struct ErrorResponse {
    pub code: String,
    pub message: String,
}

/// The body of a health reply.
#[derive(Debug)]
pub struct HealthResponse {
    pub status: String,
    pub version: String,
}

impl ErrorResponse {
    /// The reply to a request that carries no user id.
    pub fn no_user_id() -> (r: ErrorResponse)
        ensures
            r.code@ == "NO_USER_ID"@,
            r.message@ == "User ID not found in request"@,
    {
        ErrorResponse {
            code: String::from_str("NO_USER_ID"),
            message: String::from_str("User ID not found in request"),
        }
    }

    /// The reply to a request whose fields failed validation; `detail`
    /// says which.
    pub fn validation_failed(detail: &str) -> (r: ErrorResponse)
        ensures
            r.code@ == "VALIDATION_ERROR"@,
            r.message@ == "Validation failed: "@ + detail@,
    {
        let mut message = String::from_str("Validation failed: ");
        message.append(detail);
        ErrorResponse { code: String::from_str("VALIDATION_ERROR"), message }
    }

    /// The reply to a position the engine refused to open.
    pub fn position_open_failed(err: &EngineError) -> (r: ErrorResponse)
        ensures
            r.code@ == "POSITION_OPEN_FAILED"@,
            r.message@ == error_text(*err),
    {
        ErrorResponse { code: String::from_str("POSITION_OPEN_FAILED"), message: err.message() }
    }

    /// The reply to a position opened but not found afterwards.
    pub fn internal_error() -> (r: ErrorResponse)
        ensures
            r.code@ == "INTERNAL_ERROR"@,
            r.message@ == "Position created but not found"@,
    {
        ErrorResponse {
            code: String::from_str("INTERNAL_ERROR"),
            message: String::from_str("Position created but not found"),
        }
    }

    /// The reply to a close of a position the user does not hold.
    pub fn position_not_found(err: &EngineError) -> (r: ErrorResponse)
        ensures
            r.code@ == "POSITION_NOT_FOUND"@,
            r.message@ == error_text(*err),
    {
        ErrorResponse { code: String::from_str("POSITION_NOT_FOUND"), message: err.message() }
    }

    /// The reply to a request of a user with no account.
    pub fn user_not_found() -> (r: ErrorResponse)
        ensures
            r.code@ == "USER_NOT_FOUND"@,
            r.message@ == "User account not found"@,
    {
        ErrorResponse {
            code: String::from_str("USER_NOT_FOUND"),
            message: String::from_str("User account not found"),
        }
    }
}

impl HealthResponse {
    /// A healthy service of the given version.
    pub fn healthy(version: &str) -> (r: HealthResponse)
        ensures
            r.status@ == "healthy"@,
            r.version@ == version@,
    {
        HealthResponse { status: String::from_str("healthy"), version: String::from_str(version) }
    }
}

/// Why a request field was refused; `code` gives the validation code.
#[derive(Clone, Copy, Debug, PartialEq, Eq, Structural)]
pub enum FieldError {
    MustBePositive,
    LeverageOutOfRange,
}

impl FieldError {
    /// The validation code reported for the field.
    pub fn code(&self) -> (r: &'static str)
        ensures
            r@ == field_error_code(*self),
    {
        match self {
            FieldError::MustBePositive => "must_be_positive",
            FieldError::LeverageOutOfRange => "leverage_out_of_range",
        }
    }
}

pub open spec fn field_error_code(e: FieldError) -> Seq<char> {
    match e {
        FieldError::MustBePositive => "must_be_positive"@,
        FieldError::LeverageOutOfRange => "leverage_out_of_range"@,
    }
}

/// A margin must be above zero.
pub fn validate_positive(value: &Dec) -> (r: Result<(), FieldError>)
    ensures
        r is Err <==> value_le(*value, dec_of(0, 0)),
        r is Err ==> r == Err::<(), FieldError>(FieldError::MustBePositive),
{
    if value.is_le(&Dec::zero()) {
        return Err(FieldError::MustBePositive);
    }
    Ok(())
}

/// A leverage must lie between 1 and 100, both included.
pub fn validate_leverage(value: &Dec) -> (r: Result<(), FieldError>)
    ensures
        r is Err <==> (value_lt(*value, dec_of(1, 0)) || value_lt(dec_of(100, 0), *value)),
        r is Err ==> r == Err::<(), FieldError>(FieldError::LeverageOutOfRange),
{
    if value.is_lt(&Dec::new(1, 0)) || Dec::new(100, 0).is_lt(value) {
        return Err(FieldError::LeverageOutOfRange);
    }
    Ok(())
}

/// The yearly rate of an hourly funding rate: `rate * 365 * 24`; `None`
/// where a step overflows.
pub fn yearly_apr(rate: Dec) -> (r: Option<Dec>)
    ensures
        r == (match dec_mul(rate, dec_of(365, 0)) {
            Some(daily) => dec_mul(daily, dec_of(24, 0)),
            None => None,
        }),
{
    match rate.checked_mul(&Dec::new(365, 0)) {
        Some(d) => d.checked_mul(&Dec::new(24, 0)),
        None => None,
    }
}

} // verus!
