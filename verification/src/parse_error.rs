//! The syntax layer's error type, and the helpers that build its common
//! shapes.

use vstd::prelude::*;
use vstd::string::*;

use crate::span::Span;

verus! {

#[derive(Debug)]
pub enum ParseError {
    /// A grammar element that should be present is missing.
    MissingItem { slug: String },
    /// A failure of the shared parse context itself.
    ContextError { message: String, origin: String },
    /// A type name defined a second time.
    DuplicateType { ident: String },
    /// A conversion from a string that names no known value.
    FromStrError { reason: String, origin: String },
    /// An identifier where a type name was expected.
    ExpectedType { ident: String, span: Span },
}

/// A missing-item error for the given slug.
pub fn missing(slug: &str) -> (r: ParseError)
    ensures
        r matches ParseError::MissingItem { slug: s } && s@ == slug@,
{
    ParseError::MissingItem { slug: slug.to_owned() }
}

/// The error for a query against a context that was never initialised.
pub fn context_uninitialized(origin: &str) -> (r: ParseError)
    ensures
        r matches ParseError::ContextError { message, origin: o } && message@
            == "Context uninitialized"@ && o@ == origin@,
{
    ParseError::ContextError { message: "Context uninitialized".to_owned(), origin: origin.to_owned() }
}

/// The error for a context that is unexpectedly locked by another user.
pub fn unexpected_lock(origin: &str) -> (r: ParseError)
    ensures
        r matches ParseError::ContextError { message, origin: o } && message@
            == "Context locked - this shouldn't be possible."@ && o@ == origin@,
{
    ParseError::ContextError {
        message: "Context locked - this shouldn't be possible.".to_owned(),
        origin: origin.to_owned(),
    }
}

/// A conversion-from-string error with its reason and origin.
pub fn bad_fromstr(reason: String, origin: &str) -> (r: ParseError)
    ensures
        r matches ParseError::FromStrError { reason: rs, origin: o } && rs@ == reason@ && o@
            == origin@,
{
    ParseError::FromStrError { reason, origin: origin.to_owned() }
}

} // verus!
