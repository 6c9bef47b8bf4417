//! Source locations and spans. A location counts Unicode scalar values, not
//! bytes: advancing past a line feed increments the line and resets the
//! column, advancing past any other character increments the column, and the
//! absolute offset always counts the characters consumed so far.

use vstd::prelude::*;

use crate::tok::{Token, TokenV};

verus! {

#[derive(Clone, Copy, PartialEq, Eq, Structural, Debug)]
pub struct Location {
    pub line: usize,
    pub column: usize,
    pub absolute: usize,
}

/// The location of the first character of an input.
pub open spec fn start_location() -> Location {
    Location { line: 0, column: 0, absolute: 0 }
}

/// The location after one more character has been consumed.
pub open spec fn shift_spec(l: Location, c: char) -> Location {
    if c == '\n' {
        Location { line: (l.line + 1) as usize, column: 0, absolute: (l.absolute + 1) as usize }
    } else {
        Location {
            line: l.line,
            column: (l.column + 1) as usize,
            absolute: (l.absolute + 1) as usize,
        }
    }
}

/// The location reached after consuming the first `n` characters of `s`.
pub open spec fn locate(s: Seq<char>, n: int) -> Location
    decreases n
        when 0 <= n <= s.len()
{
    if n <= 0 {
        start_location()
    } else {
        shift_spec(locate(s, n - 1), s[n - 1])
    }
}

pub proof fn lemma_locate(s: Seq<char>, n: int)
    requires
        0 <= n <= s.len(),
        s.len() <= usize::MAX,
    ensures
        locate(s, n).absolute == n,
        locate(s, n).line <= n,
        locate(s, n).column <= n,
    decreases n,
{
    if n > 0 {
        lemma_locate(s, n - 1);
    }
}

impl Location {
    /// The location one character further on.
    pub fn shift(self, ch: char) -> (r: Location)
        requires
            self.absolute < usize::MAX,
            self.line <= self.absolute,
            self.column <= self.absolute,
        ensures
            r == shift_spec(self, ch),
    {
        if ch == '\n' {
            Location { line: self.line + 1, column: 0, absolute: self.absolute + 1 }
        } else {
            Location { line: self.line, column: self.column + 1, absolute: self.absolute + 1 }
        }
    }
}

/// A classified token together with the locations delimiting its extent:
/// `start` is the location of its first character and `end` the location
/// immediately after its last consumed character.
#[derive(Debug, PartialEq)]
pub struct Spanned {
    pub start: Location,
    pub tok: Token,
    pub end: Location,
}

/// The mathematical value of a `Spanned`.
pub struct SpannedV {
    pub start: Location,
    pub tok: TokenV,
    pub end: Location,
}

impl View for Spanned {
    type V = SpannedV;

    open spec fn view(&self) -> SpannedV {
        SpannedV { start: self.start, tok: self.tok@, end: self.end }
    }
}

impl Spanned {
    /// A no-op marker covering the given extent.
    pub fn nop(start: Location, end: Location) -> (r: Spanned)
        ensures
            r@ == (SpannedV { start, tok: TokenV::NOP, end }),
    {
        Spanned { start, tok: Token::NOP, end }
    }
}

impl Clone for Spanned {
    fn clone(&self) -> (r: Spanned)
        ensures
            r == *self,
    {
        Spanned { start: self.start, tok: self.tok.clone(), end: self.end }
    }
}

/// The sequence of values of a vector of spanned tokens.
pub open spec fn spanned_seq(v: Seq<Spanned>) -> Seq<SpannedV> {
    v.map_values(|sp: Spanned| sp@)
}

} // verus!
