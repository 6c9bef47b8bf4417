//! The closed taxonomy of lexical errors, one kind per scanner that can fail
//! to recognise its input. Every error carries the start location of the
//! failing token. An unterminated multi-line comment is a hard error; an
//! unterminated single-line comment at end of input is benign and simply
//! ends the token stream.

use vstd::prelude::*;

use crate::pos::Location;

verus! {

#[derive(Clone, Copy, PartialEq, Eq, Structural, Debug)]
pub enum LexicalError {
    /// The maximal run of operator characters is not a valid spelling.
    ExpectedOperator(Location, char),
    /// A malformed or out-of-range numeric literal.
    InvalidDigit(Location),
    /// An identifier reference whose macro expansion is empty.
    ExpectedIdentOrKw(Location),
    /// A character dispatched as punctuation that is none. The driver's
    /// classification makes this unreachable; the kind completes the
    /// taxonomy.
    ExpectedPunctuation(Location),
    /// An unterminated or malformed quoted literal.
    InvalidString(Location),
    /// A malformed `#`-directive. The directive scanner accepts every
    /// line, so nothing produces this kind; it completes the taxonomy.
    InvalidDirective(Location),
    /// A multi-line comment left open at end of input.
    UnterminatedComment(Location),
}

} // verus!
