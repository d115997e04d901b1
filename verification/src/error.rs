//! The errors that end a request.

use vstd::prelude::*;

verus! {

/// Why a request is answered with an error.
#[derive(Debug, Clone, Copy, PartialEq, Eq, Structural)]
pub enum FilterError {
    /// The request carries no session cookie.
    AuthenticationMissing,
    /// The request could not be forwarded to the origin.
    OriginUnreachable,
}

impl FilterError {
    /// What the error says of itself.
    pub open spec fn text(self) -> Seq<char> {
        match self {
            FilterError::AuthenticationMissing => "CF_Authorization not found in cookies"@,
            FilterError::OriginUnreachable => "origin unreachable"@,
        }
    }

    /// The message of the error.
    pub fn message(&self) -> (m: String)
        ensures
            m@ == self.text(),
    {
        match self {
            FilterError::AuthenticationMissing => "CF_Authorization not found in cookies".to_owned(),
            FilterError::OriginUnreachable => "origin unreachable".to_owned(),
        }
    }
}

} // verus!
