use vstd::prelude::*;
use crate::class::CharClass;

verus! {

/// What an edge of an automaton is labelled with: something that lets some
/// input symbols through, and that can be compared with another label for
/// edge identity.
pub trait Label: Sized {
    /// The label lets the symbol `c` through.
    spec fn accepts(&self, c: char) -> bool;

    /// The two labels name the same edge.
    spec fn same(&self, other: &Self) -> bool;

    fn matches(&self, c: char) -> (r: bool)
        ensures
            r == self.accepts(c),
    ;

    fn same_label(&self, other: &Self) -> (r: bool)
        ensures
            r == self.same(other),
    ;
}

/// A single character: it lets that character through and nothing else.
impl Label for char {
    open spec fn accepts(&self, c: char) -> bool {
        *self == c
    }

    open spec fn same(&self, other: &Self) -> bool {
        *self == *other
    }

    fn matches(&self, c: char) -> (r: bool) {
        *self == c
    }

    fn same_label(&self, other: &Self) -> (r: bool) {
        *self == *other
    }
}

/// A character class lets through the characters it holds; two classes name
/// the same edge when their ranges are the same.
impl Label for CharClass {
    open spec fn accepts(&self, c: char) -> bool {
        self.holds(c as u32)
    }

    open spec fn same(&self, other: &Self) -> bool {
        self.ranges@ == other.ranges@
    }

    fn matches(&self, c: char) -> (r: bool) {
        self.contains_char(c)
    }

    fn same_label(&self, other: &Self) -> (r: bool) {
        if self.ranges.len() != other.ranges.len() {
            return false;
        }
        let mut i: usize = 0;
        while i < self.ranges.len()
            invariant
                i <= self.ranges@.len(),
                self.ranges@.len() == other.ranges@.len(),
                self.ranges@.take(i as int) == other.ranges@.take(i as int),
            decreases self.ranges@.len() - i,
        {
            if self.ranges[i] != other.ranges[i] {
                return false;
            }
            assert(self.ranges@.take(i + 1) == self.ranges@.take(i as int).push(self.ranges@[i as int]));
            assert(other.ranges@.take(i + 1) == other.ranges@.take(i as int).push(other.ranges@[i as int]));
            i = i + 1;
        }
        assert(self.ranges@.take(i as int) == self.ranges@);
        assert(other.ranges@.take(i as int) == other.ranges@);
        true
    }
}

/// The label of an edge of a DFA.
#[derive(Clone, Debug)]
pub struct Transition<T>(pub T);

} // verus!
