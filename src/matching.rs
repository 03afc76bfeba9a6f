use vstd::prelude::*;

verus! {

/// A match of an automaton over part of an input: the symbols from `start`
/// up to, not including, `end`, and those symbols themselves.
#[derive(Debug, Clone)]
pub struct Match<T> {
    /// Position of the first symbol of the match.
    pub start: usize,
    /// Position of the last symbol of the match, plus one.
    pub end: usize,
    /// The symbols matched.
    pub span: Vec<T>,
}

impl<T> Match<T> {
    /// The bounds agree with the span: `start <= end` and the span holds
    /// `end - start` symbols.
    pub open spec fn wf(&self) -> bool {
        self.start <= self.end && self.end - self.start == self.span@.len()
    }

    pub fn new(start: usize, end: usize, span: Vec<T>) -> (m: Match<T>)
        ensures
            m.start == start,
            m.end == end,
            m.span@ == span@,
    {
        Match { start, end, span }
    }

    /// The positions covered, `start..end`.
    pub fn range(&self) -> (r: std::ops::Range<usize>)
        ensures
            r.start == self.start,
            r.end == self.end,
    {
        self.start..self.end
    }

    pub fn start(&self) -> (r: usize)
        ensures
            r == self.start,
    {
        self.start
    }

    pub fn end(&self) -> (r: usize)
        ensures
            r == self.end,
    {
        self.end
    }
}

} // verus!
