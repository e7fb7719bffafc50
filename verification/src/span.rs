use vstd::prelude::*;

verus! {

/// A region of source text, given by its start and end offsets.
#[derive(Clone, Copy, Debug, PartialEq, Eq, Structural)]
pub struct Span {
    pub start: usize,
    pub end: usize,
}

impl Span {
    pub fn new(start: usize, end: usize) -> (s: Span)
        ensures
            s.start == start,
            s.end == end,
    {
        Span { start, end }
    }

    /// The empty span at offset zero.
    pub fn default_span() -> (s: Span)
        ensures
            s.start == 0,
            s.end == 0,
    {
        Span { start: 0, end: 0 }
    }

    pub fn start(&self) -> (r: usize)
        ensures
            r == self.start,
    {
        self.start
    }

    pub fn end(&self) -> (r: usize)
        ensures
            r == self.end,
    {
        self.end
    }
}

} // verus!
