//! The error type of the library.

use vstd::prelude::*;
use vstd::string::StringExecFns;

verus! {

/// What can go wrong while connecting, dispatching or parsing arguments.
///
/// Failures of the messaging client are carried as their messages.
#[derive(Debug, PartialEq, Eq)]
pub enum GrammersthonError {
    IO(String),
    AuthorizationError(String),
    /// A parameter that nothing could supply, named.
    MissingParameters(String),
    SignInError(String),
    InvocationError(String),
    /// An event kind that nothing routes.
    Unimplemented,
    Error(String),
    /// Text that could not be parsed, with the cause when one is known.
    Parse(String, Option<String>),
}

/// The message that describes `e`.
pub open spec fn message_of(e: GrammersthonError) -> Seq<char> {
    match e {
        GrammersthonError::IO(m) => "IO error: "@ + m@,
        GrammersthonError::AuthorizationError(m) => "Authorization error: "@ + m@,
        GrammersthonError::MissingParameters(m) => "Missing parameters: "@ + m@,
        GrammersthonError::SignInError(m) => "Sign in error: "@ + m@,
        GrammersthonError::InvocationError(m) => "Other error: "@ + m@,
        GrammersthonError::Unimplemented => "Unimplemented"@,
        GrammersthonError::Error(m) => m@,
        GrammersthonError::Parse(v, None) => "Error parsing "@ + v@,
        GrammersthonError::Parse(v, Some(c)) => "Error parsing "@ + v@ + ": "@ + c@,
    }
}

impl GrammersthonError {
    /// A message for people that says what went wrong.
    pub fn describe(&self) -> (r: String)
        ensures
            r@ == message_of(*self),
    {
        match self {
            GrammersthonError::IO(m) => "IO error: ".to_owned().concat(m.as_str()),
            GrammersthonError::AuthorizationError(m) => "Authorization error: ".to_owned().concat(
                m.as_str(),
            ),
            GrammersthonError::MissingParameters(m) => "Missing parameters: ".to_owned().concat(
                m.as_str(),
            ),
            GrammersthonError::SignInError(m) => "Sign in error: ".to_owned().concat(m.as_str()),
            GrammersthonError::InvocationError(m) => "Other error: ".to_owned().concat(m.as_str()),
            GrammersthonError::Unimplemented => "Unimplemented".to_owned(),
            GrammersthonError::Error(m) => m.clone(),
            GrammersthonError::Parse(v, None) => "Error parsing ".to_owned().concat(v.as_str()),
            GrammersthonError::Parse(v, Some(c)) => "Error parsing ".to_owned().concat(
                v.as_str(),
            ).concat(": ").concat(c.as_str()),
        }
    }
}

/// Whether `e` reports that `input` could not be parsed, with no further
/// cause.
pub open spec fn is_parse_error(e: GrammersthonError, input: Seq<char>) -> bool {
    e is Parse && e->Parse_0@ == input && e->Parse_1 is None
}

} // verus!
