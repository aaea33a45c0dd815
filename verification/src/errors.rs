//! The closed error taxonomy of the service, with the HTTP status code each
//! variant maps to at the response boundary.
use vstd::prelude::*;

verus! {

/// Why a request, or one item of a batch, failed.
#[derive(Debug)]
pub enum AppError {
    /// The target does not exist.
    NotFound(String),
    /// The target exists but is the wrong kind of node for the operation.
    InvalidPath(String),
    /// The path-safety check rejected the request.
    PermissionDenied(String),
    /// An underlying filesystem failure not otherwise classified.
    IoError(String),
    /// Malformed client input.
    InvalidRequest(String),
}

impl AppError {
    /// The HTTP status code this error maps to.
    pub open spec fn spec_status_code(&self) -> u16 {
        match self {
            AppError::NotFound(_) => 404,
            AppError::InvalidPath(_) => 400,
            AppError::PermissionDenied(_) => 403,
            AppError::IoError(_) => 500,
            AppError::InvalidRequest(_) => 400,
        }
    }

    pub fn status_code(&self) -> (r: u16)
        ensures
            r == self.spec_status_code(),
    {
        match self {
            AppError::NotFound(_) => 404,
            AppError::InvalidPath(_) => 400,
            AppError::PermissionDenied(_) => 403,
            AppError::IoError(_) => 500,
            AppError::InvalidRequest(_) => 400,
        }
    }

    /// The human-readable message carried by the error.
    pub open spec fn spec_message(&self) -> Seq<char> {
        match self {
            AppError::NotFound(m) => m@,
            AppError::InvalidPath(m) => m@,
            AppError::PermissionDenied(m) => m@,
            AppError::IoError(m) => m@,
            AppError::InvalidRequest(m) => m@,
        }
    }

    pub fn message(&self) -> (r: &String)
        ensures
            r@ == self.spec_message(),
    {
        match self {
            AppError::NotFound(m) => m,
            AppError::InvalidPath(m) => m,
            AppError::PermissionDenied(m) => m,
            AppError::IoError(m) => m,
            AppError::InvalidRequest(m) => m,
        }
    }
}

} // verus!
