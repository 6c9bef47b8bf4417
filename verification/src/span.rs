//! The source span the syntax layer records: the covered text and its
//! start and end offsets.

use vstd::prelude::*;

verus! {

#[derive(Debug, PartialEq, Eq, Hash)]
pub struct Span {
    pub content: String,
    pub start: usize,
    pub end: usize,
}

/// The mathematical value of a `Span`.
pub struct SpanV {
    pub content: Seq<char>,
    pub start: int,
    pub end: int,
}

impl View for Span {
    type V = SpanV;

    open spec fn view(&self) -> SpanV {
        SpanV { content: self.content@, start: self.start as int, end: self.end as int }
    }
}

impl Clone for Span {
    fn clone(&self) -> (r: Span)
        ensures
            r == *self,
    {
        Span { content: self.content.clone(), start: self.start, end: self.end }
    }
}

impl Default for Span {
    /// The empty span: no text, both offsets zero.
    fn default() -> (r: Span)
        ensures
            r.content@ == Seq::<char>::empty(),
            r.start == 0,
            r.end == 0,
    {
        Span { content: String::new(), start: 0, end: 0 }
    }
}

} // verus!
