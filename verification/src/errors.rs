use vstd::prelude::*;

verus! {

/// Why an operation of the engine was refused.
#[derive(Debug, Clone, Copy, PartialEq, Eq, Structural)]
pub enum ApiError {
    /// The acting user lacks the capability that the target year asks for.
    Forbidden,
    /// The target year exists but is closed to writes.
    Locked,
    /// The entity that the operation names does not exist.
    NotFound,
    /// The write would break a uniqueness or foreign-key rule.
    ConstraintViolation,
    /// The store could not carry the operation out for another reason.
    Other,
}

pub type ApiResult<T> = Result<T, ApiError>;

impl ApiError {
    /// The HTTP status code under which the error is reported.
    pub open spec fn spec_status(self) -> u16 {
        match self {
            ApiError::Forbidden => 403,
            ApiError::Locked => 423,
            ApiError::NotFound => 404,
            ApiError::ConstraintViolation => 422,
            ApiError::Other => 500,
        }
    }

    #[verifier::when_used_as_spec(spec_status)]
    pub fn status(self) -> (code: u16)
        ensures
            code == self.spec_status(),
    {
        match self {
            ApiError::Forbidden => 403,
            ApiError::Locked => 423,
            ApiError::NotFound => 404,
            ApiError::ConstraintViolation => 422,
            ApiError::Other => 500,
        }
    }
}

} // verus!
