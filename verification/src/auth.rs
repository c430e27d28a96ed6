//! Authentication outcomes: the errors a request can be rejected with,
//! and the reading of a bearer token out of an authorization header.
//! Verifying the token itself is the caller's concern.

use vstd::prelude::*;
use vstd::string::StringExecFns;

use crate::util::strip_prefix_text;

verus! {

/// Why a request carries no usable identity.
#[derive(Clone, Copy, Debug, PartialEq, Eq)]
pub enum AuthError {
    MissingToken,
    InvalidToken,
}

impl AuthError {
    /// The HTTP status this error is answered with.
    pub fn status(&self) -> (r: u16)
        ensures
            r == 401,
    {
        401
    }

    /// The message this error is answered with.
    pub fn message(&self) -> (r: String)
        ensures
            *self is MissingToken ==> r@ == "Missing authorization token"@,
            *self is InvalidToken ==> r@ == "Invalid token"@,
    {
        match self {
            AuthError::MissingToken => "Missing authorization token".to_owned(),
            AuthError::InvalidToken => "Invalid token".to_owned(),
        }
    }
}

/// The token of an authorization header: the text after the `Bearer `
/// prefix, or the error for a header without it.
pub fn bearer_token(auth_header: &str) -> (r: Result<String, AuthError>)
    ensures
        match r {
            Result::Ok(t) => auth_header@ == "Bearer "@ + t@,
            Result::Err(e) => e is InvalidToken && !(auth_header@.len() >= "Bearer "@.len()
                && auth_header@.subrange(0, "Bearer "@.len() as int) == "Bearer "@),
        },
{
    match strip_prefix_text(auth_header, "Bearer ") {
        Option::Some(t) => Result::Ok(t),
        Option::None => Result::Err(AuthError::InvalidToken),
    }
}

} // verus!
