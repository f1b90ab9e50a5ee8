use vstd::prelude::*;

use crate::status::Status;

verus! {

/// The client-facing error taxonomy: validation failures surface as
/// `BadRequest`, failed authentication as `Unauthorized`, and storage-layer
/// faults as an opaque `InternalServerError`.
#[derive(Debug)]
pub enum HttpError {
    BadRequest(Status),
    Unauthorized(Status),
    InternalServerError(Status),
}

impl HttpError {
    /// The HTTP status code that this error is rendered with.
    pub fn status_code(&self) -> (c: u16)
        ensures
            c == self.spec_status_code(),
    {
        match self {
            HttpError::BadRequest(_) => 400,
            HttpError::Unauthorized(_) => 401,
            HttpError::InternalServerError(_) => 500,
        }
    }

    pub open spec fn spec_status_code(&self) -> u16 {
        match self {
            HttpError::BadRequest(_) => 400,
            HttpError::Unauthorized(_) => 401,
            HttpError::InternalServerError(_) => 500,
        }
    }

    /// The message carried by the error, whichever variant it is.
    pub fn message(&self) -> (m: &String)
        ensures
            m@ == self.spec_message(),
    {
        match self {
            HttpError::BadRequest(status) => &status.message,
            HttpError::Unauthorized(status) => &status.message,
            HttpError::InternalServerError(status) => &status.message,
        }
    }

    pub open spec fn spec_message(&self) -> Seq<char> {
        match self {
            HttpError::BadRequest(status) => status.message@,
            HttpError::Unauthorized(status) => status.message@,
            HttpError::InternalServerError(status) => status.message@,
        }
    }
}

} // verus!
