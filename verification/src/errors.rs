//! Errors that request handlers surface to clients.
//!
//! No content-loading failure ever reaches a client: a missing page simply
//! yields the not-found error at the serving layer, and anything else is an
//! internal error.

use vstd::prelude::*;

verus! {

/// Errors that can be returned by request handlers.
#[derive(Clone, Copy, PartialEq, Eq, Structural, Debug)]
pub enum HandlerError {
    /// The requested page was not found.
    NotFound,
    /// An internal server error occurred while trying to handle the request.
    InternalError,
}

impl HandlerError {
    /// The HTTP status code the error is served with.
    pub fn status_code(&self) -> (r: u16)
        ensures
            r == match self {
                HandlerError::NotFound => 404u16,
                HandlerError::InternalError => 500u16,
            },
    {
        match self {
            HandlerError::NotFound => 404,
            HandlerError::InternalError => 500,
        }
    }

    /// The message the error is described with.
    pub fn message(&self) -> (r: String)
        ensures
            r@ == match self {
                HandlerError::NotFound => "page not found"@,
                HandlerError::InternalError => "internal server error"@,
            },
    {
        match self {
            HandlerError::NotFound => String::from_str("page not found"),
            HandlerError::InternalError => String::from_str("internal server error"),
        }
    }
}

} // verus!
