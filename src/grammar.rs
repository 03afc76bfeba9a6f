//! The grammar of regular expressions, as spec functions: what the parser
//! reads at each position, and the term that it stands for.

use vstd::prelude::*;
use crate::class::{
    ClassRange, CharClass, MAX_SCALAR, is_digit_code, is_space_code, is_word_code, seq_has,
};
use crate::input::ParseInput;

verus! {

/// The characters that can not start an expression: a postfix operator or
/// a bar.
pub open spec fn is_misplaced_operator(c: char) -> bool {
    c == '*' || c == '+' || c == '?' || c == '|'
}

/// The input starts with a character that no expression can start with.
pub open spec fn starts_badly(input: ParseInput, parenthesized: bool) -> bool {
    input.peek_spec() matches Some(c) && (is_misplaced_operator(c) || (c == ')' && !parenthesized))
}

/// The input holds one more character, and it opens a group, a class or an
/// escape that it can not close.
pub open spec fn starts_unclosed(input: ParseInput) -> bool {
    &&& input.next_pos + 1 == input.expr@.len()
    &&& (input.peek_spec() == Some('(') || input.peek_spec() == Some('[') || input.peek_spec() == Some(
        '\\',
    ))
}

/// From `p` to its end the input holds nothing but empty groups `()` and
/// classes that hold no character.
pub open spec fn only_empty_parts(s: Seq<char>, p: int) -> bool
    decreases s.len() - p,
{
    if !(0 <= p <= s.len()) {
        false
    } else if p == s.len() {
        true
    } else if s[p] == '(' && p + 1 < s.len() && s[p + 1] == ')' {
        only_empty_parts(s, p + 2)
    } else if s[p] == '[' {
        match bracket_class(s, p) {
            Some((c, e)) => if e <= p || e > s.len() {
                false
            } else if exists|x: u32| #[trigger] c(x) {
                false
            } else {
                only_empty_parts(s, e)
            },
            None => false,
        }
    } else {
        false
    }
}

/// The code points of the class that the escape `\e` stands for.
pub open spec fn escape_holds(e: char, x: u32) -> bool {
    if e == 'd' {
        is_digit_code(x)
    } else if e == 'D' {
        x <= MAX_SCALAR && !is_digit_code(x)
    } else if e == 's' {
        is_space_code(x)
    } else if e == 'S' {
        x <= MAX_SCALAR && !is_space_code(x)
    } else if e == 'w' {
        is_word_code(x)
    } else if e == 'W' {
        x <= MAX_SCALAR && !is_word_code(x)
    } else if e == 'n' {
        x == 10
    } else {
        x == e as u32
    }
}

/// The escapes that stand for a class of many characters.
pub open spec fn is_class_escape(e: char) -> bool {
    e == 'd' || e == 'D' || e == 's' || e == 'S' || e == 'w' || e == 'W'
}

/// The code point that the escape `\e` of one character stands for.
pub open spec fn escape_char_code(e: char) -> u32 {
    if e == 'n' {
        10
    } else {
        e as u32
    }
}

/// The item of a bracketed class at `p` of `s`: the code points it stands
/// for, its code point where it is one character, and where it ends.
pub open spec fn class_item(s: Seq<char>, p: int) -> Option<(spec_fn(u32) -> bool, Option<u32>, int)> {
    if !(0 <= p < s.len()) {
        None
    } else if s[p] == '\\' {
        if p + 1 < s.len() {
            let e = s[p + 1];
            Some(
                (
                    |x: u32| escape_holds(e, x),
                    if is_class_escape(e) {
                        None
                    } else {
                        Some(escape_char_code(e))
                    },
                    p + 2,
                ),
            )
        } else {
            None
        }
    } else {
        let c = s[p];
        Some((|x: u32| x == c as u32, Some(c as u32), p + 1))
    }
}

/// The class `a`, joined to what the rest of the class holds.
pub open spec fn class_union(a: spec_fn(u32) -> bool, rest: Option<(spec_fn(u32) -> bool, int)>) -> Option<
    (spec_fn(u32) -> bool, int),
> {
    match rest {
        Some((r, e)) => Some((|x: u32| a(x) || r(x), e)),
        None => None,
    }
}

/// The items of a bracketed class from `p` up to its closing `]`: what
/// they hold, and the position after the `]`. A one-character item
/// followed by `-` and another one-character item is the range between
/// them; `-` next to a class escape stands for itself. `None` where the
/// input ends first.
pub open spec fn class_body(s: Seq<char>, p: int) -> Option<(spec_fn(u32) -> bool, int)>
    decreases s.len() - p,
{
    if !(0 <= p < s.len()) {
        None
    } else if s[p] == ']' {
        Some((|x: u32| false, p + 1))
    } else {
        match class_item(s, p) {
            None => None,
            Some((a, sa, q)) => {
                if q <= p {
                    None
                } else if sa is None {
                    class_union(a, class_body(s, q))
                } else if q >= s.len() {
                    None
                } else if s[q] == '-' {
                    match class_item(s, q + 1) {
                        None => None,
                        Some((b, sb, q2)) => {
                            if q2 <= q {
                                None
                            } else if sb is None {
                                class_union(|x: u32| a(x) || x == 45 || b(x), class_body(s, q2))
                            } else {
                                let lo = sa->0;
                                let hi = sb->0;
                                class_union(|x: u32| lo <= x <= hi, class_body(s, q2))
                            }
                        }
                    }
                } else {
                    let v = sa->0;
                    class_union(|x: u32| x == v, class_body(s, q))
                }
            }
        }
    }
}

/// What a parsed part of a class holds (nothing where there is no part).
pub open spec fn part_pred(o: Option<(spec_fn(u32) -> bool, int)>) -> spec_fn(u32) -> bool {
    match o {
        Some((f, _)) => f,
        None => |x: u32| false,
    }
}

/// Where a parsed part of a class ends (-1 where there is no part).
pub open spec fn part_end(o: Option<(spec_fn(u32) -> bool, int)>) -> int {
    match o {
        Some((_, e)) => e,
        None => -1,
    }
}

/// The term of a parsed part of an expression.
pub open spec fn term_of(o: Option<(Term, int)>) -> Term {
    match o {
        Some((t, _)) => t,
        None => Term::Class(Set::empty()),
    }
}

/// The bracketed class that opens at `p` of `s`, with `^` for its
/// complement: what it holds and the position after it.
pub open spec fn bracket_class(s: Seq<char>, p: int) -> Option<(spec_fn(u32) -> bool, int)> {
    if p + 1 >= s.len() {
        None
    } else if s[p + 1] == '^' {
        match class_body(s, p + 2) {
            Some((c, e)) => Some((|x: u32| x <= MAX_SCALAR && !c(x), e)),
            None => None,
        }
    } else {
        class_body(s, p + 1)
    }
}

/// What a regular expression means, as the parser reads it: each atom as
/// the set of code points it matches.
pub enum Term {
    Class(Set<u32>),
    Star(Box<Term>),
    Plus(Box<Term>),
    Optional(Box<Term>),
    Concat(Box<Term>, Box<Term>),
    Alternate(Box<Term>, Box<Term>),
}

/// The code points that some range of `rs` holds.
pub open spec fn ranges_set(rs: Seq<ClassRange>) -> Set<u32> {
    Set::new(|x: u32| seq_has(rs, x))
}

/// The code points of a class.
pub open spec fn class_set(c: CharClass) -> Set<u32> {
    ranges_set(c.ranges@)
}

/// The code points of the escape `\e`.
pub open spec fn escape_set(e: char) -> Set<u32> {
    Set::new(|x: u32| escape_holds(e, x))
}

/// The code point of `c` alone.
pub open spec fn char_set(c: char) -> Set<u32> {
    Set::new(|x: u32| x == c as u32)
}

/// Every scalar value but the line feed: what `.` matches.
pub open spec fn wildcard_set() -> Set<u32> {
    Set::new(|x: u32| x <= MAX_SCALAR && x != 10)
}

/// The code points that a predicate holds of.
pub open spec fn pred_set(f: spec_fn(u32) -> bool) -> Set<u32> {
    Set::new(f)
}

/// The operand at `p` of an expression, and where it ends: an escape, a
/// group, a bracketed class, `.`, or a character. Empty groups and empty
/// classes stand for nothing and are passed over.
pub open spec fn lhs_spec(s: Seq<char>, p: int, parenthesized: bool) -> Option<(Term, int)>
    decreases s.len() - p, 0int,
{
    if !(0 <= p < s.len()) {
        None
    } else {
        let c = s[p];
        if c == '\\' {
            if p + 1 < s.len() {
                Some((Term::Class(escape_set(s[p + 1])), p + 2))
            } else {
                None
            }
        } else if c == '(' {
            if p + 1 >= s.len() {
                None
            } else if s[p + 1] == ')' {
                lhs_spec(s, p + 2, parenthesized)
            } else {
                match expr_spec(s, p + 1, 0, true) {
                    Some((t, q)) => if p + 1 < q < s.len() && s[q] == ')' {
                        Some((t, q + 1))
                    } else {
                        None
                    },
                    None => None,
                }
            }
        } else if c == ')' && !parenthesized {
            None
        } else if c == '[' {
            match bracket_class(s, p) {
                Some((cp, e)) => if e <= p || e > s.len() {
                    None
                } else if exists|x: u32| #[trigger] cp(x) {
                    Some((Term::Class(pred_set(cp)), e))
                } else {
                    lhs_spec(s, e, parenthesized)
                },
                None => None,
            }
        } else if c == '.' {
            Some((Term::Class(wildcard_set()), p + 1))
        } else if is_misplaced_operator(c) {
            None
        } else {
            Some((Term::Class(char_set(c)), p + 1))
        }
    }
}

/// The expression at `p` whose operators bind at least as tightly as
/// `min_bp`, and where it ends.
pub open spec fn expr_spec(s: Seq<char>, p: int, min_bp: int, parenthesized: bool) -> Option<(Term, int)>
    decreases s.len() - p, 1int,
{
    match lhs_spec(s, p, parenthesized) {
        Some((t, q)) => if q <= p || q > s.len() {
            None
        } else {
            rhs_spec(s, q, t, min_bp, parenthesized)
        },
        None => None,
    }
}

/// The operators at `q` that apply to `lhs`: postfix operators bind with
/// power 9, concatenation with 7 (its right side at 8), `|` with 5 (its
/// right side at 6).
pub open spec fn rhs_spec(s: Seq<char>, q: int, lhs: Term, min_bp: int, parenthesized: bool) -> Option<
    (Term, int),
>
    decreases s.len() - q, 2int,
{
    if !(0 <= q < s.len()) {
        Some((lhs, q))
    } else {
        let c = s[q];
        if c == ')' && parenthesized {
            Some((lhs, q))
        } else if c == '*' || c == '+' || c == '?' {
            if 9 < min_bp {
                Some((lhs, q))
            } else {
                let t = if c == '*' {
                    Term::Star(Box::new(lhs))
                } else if c == '+' {
                    Term::Plus(Box::new(lhs))
                } else {
                    Term::Optional(Box::new(lhs))
                };
                rhs_spec(s, q + 1, t, min_bp, parenthesized)
            }
        } else if c == '|' {
            if 5 < min_bp {
                Some((lhs, q))
            } else {
                match expr_spec(s, q + 1, 6, parenthesized) {
                    Some((r, q2)) => if q2 <= q || q2 > s.len() {
                        None
                    } else {
                        rhs_spec(
                            s,
                            q2,
                            Term::Alternate(Box::new(lhs), Box::new(r)),
                            min_bp,
                            parenthesized,
                        )
                    },
                    None => None,
                }
            }
        } else {
            if 7 < min_bp {
                Some((lhs, q))
            } else {
                match expr_spec(s, q, 8, parenthesized) {
                    Some((r, q2)) => if q2 <= q || q2 > s.len() {
                        None
                    } else {
                        rhs_spec(s, q2, Term::Concat(Box::new(lhs), Box::new(r)), min_bp, parenthesized)
                    },
                    None => None,
                }
            }
        }
    }
}

/// What the whole of `s` means as a regular expression; `None` where it is
/// refused.
pub open spec fn parse_spec(s: Seq<char>) -> Option<Term> {
    match expr_spec(s, 0, 0, false) {
        Some((t, _)) => Some(t),
        None => None,
    }
}

/// A character that stands for itself outside a class.
pub open spec fn is_plain(c: char) -> bool {
    !(c == '\\' || c == '(' || c == ')' || c == '[' || c == '.' || is_misplaced_operator(c))
}

/// A range whose end comes before its start holds no character: `[b-a]`
/// is an empty class.
pub proof fn lemma_reversed_range_is_empty(a: char, b: char)
    requires
        b as u32 > a as u32,
        b != '\\' && b != '^' && b != ']',
        a != '\\',
    ensures
        bracket_class(seq!['[', b, '-', a, ']'], 0) matches Some((c, e)) && e == 5 && forall|x: u32|
            !#[trigger] c(x),
{
    let s = seq!['[', b, '-', a, ']'];
    assert(s[1] == b && s[2] == '-' && s[3] == a && s[4] == ']');
    assert(class_body(s, 5) is None);
    assert(class_body(s, 4) == Some((|x: u32| false, 5int)));
    let lo = b as u32;
    let hi = a as u32;
    assert(class_item(s, 1) == Some(((|x: u32| x == b as u32), Some(lo), 2int)));
    assert(class_item(s, 3) == Some(((|x: u32| x == a as u32), Some(hi), 4int)));
    assert(class_body(s, 1) == class_union(|x: u32| lo <= x <= hi, class_body(s, 4)));
}

/// A group around one plain character stands for that character:
/// `(c)` reads as `c`.
pub proof fn lemma_group_of_char(c: char)
    requires
        is_plain(c),
    ensures
        parse_spec(seq!['(', c, ')']) == parse_spec(seq![c]),
        parse_spec(seq![c]) == Some(Term::Class(char_set(c))),
{
    let g = seq!['(', c, ')'];
    let one = seq![c];
    let t = Term::Class(char_set(c));
    assert(g[1] == c && g[2] == ')');
    assert(lhs_spec(g, 1, true) == Some((t, 2int)));
    assert(rhs_spec(g, 2, t, 0, true) == Some((t, 2int)));
    assert(expr_spec(g, 1, 0, true) == Some((t, 2int)));
    assert(lhs_spec(g, 0, false) == Some((t, 3int)));
    assert(rhs_spec(g, 3, t, 0, false) == Some((t, 3int)));
    assert(lhs_spec(one, 0, false) == Some((t, 1int)));
    assert(rhs_spec(one, 1, t, 0, false) == Some((t, 1int)));
}

} // verus!
