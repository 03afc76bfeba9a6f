use vstd::prelude::*;

verus! {

broadcast use vstd::utf8::char_is_scalar;

/// The largest Unicode scalar value.
pub const MAX_SCALAR: u32 = 0x10FFFF;

/// An inclusive range `[start, end]` of code points.
#[derive(Clone, Copy, Debug, PartialEq, Eq, Structural)]
pub struct ClassRange {
    pub start: u32,
    pub end: u32,
}

impl ClassRange {
    pub open spec fn covers(self, c: u32) -> bool {
        self.start <= c <= self.end
    }

    pub open spec fn wf(self) -> bool {
        self.start <= self.end <= MAX_SCALAR
    }

    /// The range from `start` to `end`, both included.
    pub fn new(start: char, end: char) -> (r: ClassRange)
        ensures
            r.start == start as u32,
            r.end == end as u32,
            r.end <= MAX_SCALAR,
    {
        ClassRange { start: start as u32, end: end as u32 }
    }
}

/// Whether some range of `s` holds `c`.
pub open spec fn seq_has(s: Seq<ClassRange>, c: u32) -> bool {
    exists|i: int| 0 <= i < s.len() && (#[trigger] s[i]).covers(c)
}

pub open spec fn seq_wf(s: Seq<ClassRange>) -> bool {
    forall|i: int| 0 <= i < s.len() ==> (#[trigger] s[i]).wf()
}

pub proof fn lemma_seq_has_push(s: Seq<ClassRange>, r: ClassRange, c: u32)
    ensures
        seq_has(s.push(r), c) == (seq_has(s, c) || r.covers(c)),
{
    if seq_has(s, c) {
        let i = choose|i: int| 0 <= i < s.len() && (#[trigger] s[i]).covers(c);
        assert(s.push(r)[i] == s[i]);
    }
    if r.covers(c) {
        assert(s.push(r)[s.len() as int] == r);
    }
    if seq_has(s.push(r), c) {
        let i = choose|i: int| 0 <= i < s.len() + 1 && (#[trigger] s.push(r)[i]).covers(c);
        if i < s.len() {
            assert(s[i] == s.push(r)[i]);
        }
    }
}

/// A class of one range of one character holds that character alone.
pub proof fn lemma_single_holds(c: &CharClass)
    requires
        c.spec_is_single(),
    ensures
        forall|x: u32| #[trigger] c.holds(x) <==> x == c.ranges@[0].start,
{
    assert forall|x: u32| #[trigger] c.holds(x) <==> x == c.ranges@[0].start by {
        if x == c.ranges@[0].start {
            assert(c.ranges@[0].covers(x));
        }
    }
}

/// A set of Unicode scalar values, held as a union of inclusive ranges.
#[derive(Debug)]
pub struct CharClass {
    pub ranges: Vec<ClassRange>,
}

impl CharClass {
    /// Every range is non-empty and within the scalar values.
    pub open spec fn wf(&self) -> bool {
        seq_wf(self.ranges@)
    }

    /// Whether the class holds the code point `c`.
    pub open spec fn holds(&self, c: u32) -> bool {
        seq_has(self.ranges@, c)
    }

    /// The class is exactly one range of one character.
    pub open spec fn spec_is_single(&self) -> bool {
        self.ranges@.len() == 1 && self.ranges@[0].start == self.ranges@[0].end
    }

    /// The empty class.
    pub fn new() -> (r: CharClass)
        ensures
            r.wf(),
            r.ranges@.len() == 0,
            forall|c: u32| !r.holds(c),
    {
        CharClass { ranges: Vec::new() }
    }

    /// The class holding `c` alone.
    pub fn from_char(c: char) -> (r: CharClass)
        ensures
            r.wf(),
            r.spec_is_single(),
            r.ranges@[0].start == c as u32,
            forall|x: u32| #[trigger] r.holds(x) == (x == c as u32),
    {
        let mut ranges = Vec::new();
        ranges.push(ClassRange::new(c, c));
        let r = CharClass { ranges };
        proof {
            assert forall|x: u32| #[trigger] r.holds(x) == (x == c as u32) by {
                if x == c as u32 {
                    assert(r.ranges@[0].covers(x));
                }
            }
        }
        r
    }

    /// The class of the characters from `start` to `end`, both included;
    /// empty where `start` comes after `end`.
    pub fn from_range(start: char, end: char) -> (r: CharClass)
        ensures
            r.wf(),
            forall|x: u32| #[trigger] r.holds(x) == (start as u32 <= x <= end as u32),
    {
        let mut r = CharClass::new();
        r.add_range(ClassRange::new(start, end));
        r
    }

    /// Adds the range `r`; an empty range adds nothing.
    pub fn add_range(&mut self, r: ClassRange)
        requires
            old(self).wf(),
            r.end <= MAX_SCALAR,
        ensures
            final(self).wf(),
            forall|x: u32| #[trigger] final(self).holds(x) == (old(self).holds(x) || r.covers(x)),
    {
        if r.start <= r.end {
            let ghost prev = self.ranges@;
            self.ranges.push(r);
            proof {
                assert forall|x: u32| #[trigger] self.holds(x) == (old(self).holds(x) || r.covers(x)) by {
                    lemma_seq_has_push(prev, r, x);
                }
            }
        }
    }

    /// Adds every character of `other`.
    pub fn add_other(&mut self, other: CharClass)
        requires
            old(self).wf(),
            other.wf(),
        ensures
            final(self).wf(),
            forall|x: u32| #[trigger] final(self).holds(x) == (old(self).holds(x) || other.holds(x)),
    {
        let mut i: usize = 0;
        while i < other.ranges.len()
            invariant
                i <= other.ranges@.len(),
                other.wf(),
                self.wf(),
                forall|x: u32|
                    #[trigger] self.holds(x) == (old(self).holds(x) || seq_has(
                        other.ranges@.take(i as int),
                        x,
                    )),
            decreases other.ranges@.len() - i,
        {
            let g = other.ranges[i];
            assert(g.wf());
            self.add_range(g);
            proof {
                assert(other.ranges@.take(i + 1) == other.ranges@.take(i as int).push(g));
                assert forall|x: u32|
                    #[trigger] self.holds(x) == (old(self).holds(x) || seq_has(
                        other.ranges@.take(i + 1),
                        x,
                    )) by {
                    lemma_seq_has_push(other.ranges@.take(i as int), g, x);
                }
            }
            i = i + 1;
        }
        assert(other.ranges@.take(i as int) == other.ranges@);
    }

    /// Whether the class holds no character.
    pub fn is_empty(&self) -> (r: bool)
        requires
            self.wf(),
        ensures
            r == (self.ranges@.len() == 0),
            r == (forall|x: u32| !#[trigger] self.holds(x)),
    {
        if self.ranges.len() == 0 {
            true
        } else {
            assert(self.ranges@[0].covers(self.ranges@[0].start));
            assert(self.holds(self.ranges@[0].start));
            false
        }
    }

    /// Whether the class is one range of one character.
    pub fn is_single(&self) -> (r: bool)
        ensures
            r == self.spec_is_single(),
    {
        self.ranges.len() == 1 && self.ranges[0].start == self.ranges[0].end
    }

    /// Whether the class holds `c`.
    pub fn contains_char(&self, c: char) -> (r: bool)
        ensures
            r == self.holds(c as u32),
    {
        let x = c as u32;
        let mut i: usize = 0;
        while i < self.ranges.len()
            invariant
                i <= self.ranges@.len(),
                x == c as u32,
                !seq_has(self.ranges@.take(i as int), x),
            decreases self.ranges@.len() - i,
        {
            let g = self.ranges[i];
            if g.start <= x && x <= g.end {
                assert(self.ranges@[i as int].covers(x));
                return true;
            }
            proof {
                assert(self.ranges@.take(i + 1) == self.ranges@.take(i as int).push(g));
                lemma_seq_has_push(self.ranges@.take(i as int), g, x);
            }
            i = i + 1;
        }
        assert(self.ranges@.take(i as int) == self.ranges@);
        false
    }

    /// The scalar values that the class does not hold.
    pub fn complement(&self) -> (r: CharClass)
        requires
            self.wf(),
        ensures
            r.wf(),
            forall|x: u32| x <= MAX_SCALAR ==> #[trigger] r.holds(x) == !self.holds(x),
            forall|x: u32| #[trigger] r.holds(x) ==> x <= MAX_SCALAR,
    {
        let mut gaps: Vec<ClassRange> = Vec::new();
        let whole = ClassRange { start: 0, end: MAX_SCALAR };
        gaps.push(whole);
        proof {
            assert forall|x: u32| x <= MAX_SCALAR implies #[trigger] seq_has(gaps@, x) by {
                assert(gaps@[0].covers(x));
            }
        }
        let mut i: usize = 0;
        while i < self.ranges.len()
            invariant
                i <= self.ranges@.len(),
                self.wf(),
                seq_wf(gaps@),
                forall|x: u32|
                    #[trigger] seq_has(gaps@, x) == (x <= MAX_SCALAR && !seq_has(
                        self.ranges@.take(i as int),
                        x,
                    )),
            decreases self.ranges@.len() - i,
        {
            let g = self.ranges[i];
            gaps = subtract(&gaps, g);
            proof {
                assert(self.ranges@.take(i + 1) == self.ranges@.take(i as int).push(g));
                assert forall|x: u32|
                    #[trigger] seq_has(gaps@, x) == (x <= MAX_SCALAR && !seq_has(
                        self.ranges@.take(i + 1),
                        x,
                    )) by {
                    lemma_seq_has_push(self.ranges@.take(i as int), g, x);
                }
            }
            i = i + 1;
        }
        assert(self.ranges@.take(i as int) == self.ranges@);
        CharClass { ranges: gaps }
    }

    /// A copy of the class, range for range.
    pub fn copy(&self) -> (r: CharClass)
        ensures
            r.ranges@ == self.ranges@,
    {
        let mut ranges: Vec<ClassRange> = Vec::new();
        let mut i: usize = 0;
        while i < self.ranges.len()
            invariant
                i <= self.ranges@.len(),
                ranges@ == self.ranges@.take(i as int),
            decreases self.ranges@.len() - i,
        {
            ranges.push(self.ranges[i]);
            assert(self.ranges@.take(i + 1) == self.ranges@.take(i as int).push(self.ranges@[i as int]));
            i = i + 1;
        }
        assert(self.ranges@.take(i as int) == self.ranges@);
        CharClass { ranges }
    }

    /// The decimal digits `0` to `9`.
    pub fn decimal_number() -> (r: CharClass)
        ensures
            r.wf(),
            forall|x: u32| #[trigger] r.holds(x) == is_digit_code(x),
    {
        CharClass::from_range('0', '9')
    }

    /// Space, tab, line feed, vertical tab, form feed and carriage return.
    pub fn whitespace() -> (r: CharClass)
        ensures
            r.wf(),
            forall|x: u32| #[trigger] r.holds(x) == is_space_code(x),
    {
        let mut r = CharClass::from_range('\t', '\r');
        r.add_range(ClassRange::new(' ', ' '));
        r
    }

    /// Letters, digits and the underscore.
    pub fn word() -> (r: CharClass)
        ensures
            r.wf(),
            forall|x: u32| #[trigger] r.holds(x) == is_word_code(x),
    {
        let mut r = CharClass::from_range('0', '9');
        r.add_range(ClassRange::new('A', 'Z'));
        r.add_range(ClassRange::new('_', '_'));
        r.add_range(ClassRange::new('a', 'z'));
        r
    }

    /// The line feed alone.
    pub fn newline() -> (r: CharClass)
        ensures
            r.wf(),
            r.spec_is_single(),
            r.ranges@[0].start == 10,
            forall|x: u32| #[trigger] r.holds(x) == (x == 10),
    {
        CharClass::from_char('\n')
    }

    /// Every scalar value but the line feed.
    pub fn all_but_newline() -> (r: CharClass)
        ensures
            r.wf(),
            forall|x: u32| x <= MAX_SCALAR ==> #[trigger] r.holds(x) == (x != 10),
            forall|x: u32| #[trigger] r.holds(x) ==> x <= MAX_SCALAR,
    {
        CharClass::newline().complement()
    }
}

/// The parts of the ranges of `gaps` that `r` does not cover.
fn subtract(gaps: &Vec<ClassRange>, r: ClassRange) -> (out: Vec<ClassRange>)
    requires
        seq_wf(gaps@),
        r.wf(),
    ensures
        seq_wf(out@),
        forall|x: u32| #[trigger] seq_has(out@, x) == (seq_has(gaps@, x) && !r.covers(x)),
{
    let mut out: Vec<ClassRange> = Vec::new();
    let mut k: usize = 0;
    while k < gaps.len()
        invariant
            k <= gaps@.len(),
            seq_wf(gaps@),
            seq_wf(out@),
            forall|x: u32| #[trigger] seq_has(out@, x) == (seq_has(gaps@.take(k as int), x) && !r.covers(x)),
        decreases gaps@.len() - k,
    {
        let g = gaps[k];
        assert(g.wf());
        let ghost o0 = out@;
        if g.start < r.start {
            let e = if g.end < r.start { g.end } else { r.start - 1 };
            out.push(ClassRange { start: g.start, end: e });
        }
        let ghost o1 = out@;
        if g.end > r.end {
            let b = if g.start > r.end { g.start } else { r.end + 1 };
            out.push(ClassRange { start: b, end: g.end });
        }
        proof {
            assert(gaps@.take(k + 1) == gaps@.take(k as int).push(g));
            assert forall|x: u32|
                #[trigger] seq_has(out@, x) == (seq_has(gaps@.take(k + 1), x) && !r.covers(x)) by {
                lemma_seq_has_push(gaps@.take(k as int), g, x);
                if g.start < r.start {
                    let e = if g.end < r.start { g.end } else { (r.start - 1) as u32 };
                    lemma_seq_has_push(o0, ClassRange { start: g.start, end: e }, x);
                } else {
                    assert(o1 == o0);
                }
                if g.end > r.end {
                    let b = if g.start > r.end { g.start } else { (r.end + 1) as u32 };
                    lemma_seq_has_push(o1, ClassRange { start: b, end: g.end }, x);
                } else {
                    assert(out@ == o1);
                }
            }
        }
        k = k + 1;
    }
    assert(gaps@.take(k as int) == gaps@);
    out
}

pub open spec fn is_digit_code(x: u32) -> bool {
    48 <= x <= 57
}

pub open spec fn is_space_code(x: u32) -> bool {
    (9 <= x <= 13) || x == 32
}

pub open spec fn is_word_code(x: u32) -> bool {
    is_digit_code(x) || (65 <= x <= 90) || x == 95 || (97 <= x <= 122)
}

} // verus!
