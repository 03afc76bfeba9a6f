use vstd::prelude::*;
use crate::ast::{BinaryOp, Expr, Shape, UnaryOp};
use crate::class::CharClass;
use crate::nfa::{kept_finals, NFA};
use crate::grammar::{class_set, ranges_set, wildcard_set, Term};
use crate::parser::{Parser, ParserEngine};

verus! {

/// A parser that builds an NFA of the same language as the expression.
pub type NFAParser = Parser<NFAParserEngine>;

/// A parser that builds the syntax tree of the expression.
pub type ASTParser = Parser<ASTParserEngine>;

/// The tree of shape `sh` stands for the term `t`: `x+` is built as `x*x`.
pub open spec fn shape_models(sh: Shape, t: Term) -> bool
    decreases t,
{
    match t {
        Term::Class(set) => match sh {
            Shape::Atom(rs) => ranges_set(rs) == set,
            _ => false,
        },
        Term::Star(a) => match sh {
            Shape::Unary(UnaryOp::Star, e) => shape_models(*e, *a),
            _ => false,
        },
        Term::Optional(a) => match sh {
            Shape::Unary(UnaryOp::Optional, e) => shape_models(*e, *a),
            _ => false,
        },
        Term::Plus(a) => match sh {
            Shape::Binary(BinaryOp::Concat, l, r) => match *l {
                Shape::Unary(UnaryOp::Star, e) => shape_models(*e, *a) && shape_models(*r, *a),
                _ => false,
            },
            _ => false,
        },
        Term::Concat(a, b) => match sh {
            Shape::Binary(BinaryOp::Concat, l, r) => shape_models(*l, *a) && shape_models(*r, *b),
            _ => false,
        },
        Term::Alternate(a, b) => match sh {
            Shape::Binary(BinaryOp::Alternate, l, r) => shape_models(*l, *a) && shape_models(*r, *b),
            _ => false,
        },
    }
}

/// The number of states of the NFA built for `t`.
pub open spec fn nfa_states(t: Term) -> int
    decreases t,
{
    match t {
        Term::Class(_) => 2,
        Term::Star(a) => nfa_states(*a) + 1,
        Term::Plus(a) => 2 * nfa_states(*a) + 2,
        Term::Optional(a) => nfa_states(*a) + 2,
        Term::Concat(a, b) => nfa_states(*a) + nfa_states(*b) + 1,
        Term::Alternate(a, b) => nfa_states(*a) + nfa_states(*b) + 1,
    }
}

/// Which states of the NFA built for `t` accept: each construct adds a
/// fresh start state 0 before the states of its parts.
pub open spec fn nfa_finals(t: Term) -> Seq<bool>
    decreases t,
{
    match t {
        Term::Class(_) => seq![false, true],
        Term::Star(a) => seq![true] + kept_finals(nfa_finals(*a), false),
        Term::Plus(a) => seq![false] + kept_finals(
            seq![true] + kept_finals(nfa_finals(*a), false),
            false,
        ) + kept_finals(nfa_finals(*a), true),
        Term::Optional(a) => seq![false] + kept_finals(seq![true], true) + kept_finals(
            nfa_finals(*a),
            true,
        ),
        Term::Concat(a, b) => seq![false] + kept_finals(nfa_finals(*a), false) + kept_finals(
            nfa_finals(*b),
            true,
        ),
        Term::Alternate(a, b) => seq![false] + kept_finals(nfa_finals(*a), true) + kept_finals(
            nfa_finals(*b),
            true,
        ),
    }
}

/// The NFA `n` has the shape built for `t`: start state 0, its number of
/// states and accepting states, and for an atom the one edge `0 -> 1`
/// labelled with the atom's class.
pub open spec fn nfa_shape(n: NFA, t: Term) -> bool {
    &&& n.wf()
    &&& n.start_state == 0
    &&& n.total_states == nfa_states(t)
    &&& n.final_states@ == nfa_finals(t)
    &&& match t {
        Term::Class(set) => n.edges@.len() == 1 && n.edges@[0].from == 0 && n.edges@[0].to == 1
            && (n.edges@[0].label matches Some(l) && ranges_set(l.ranges@) == set),
        _ => true,
    }
}

/// Builds an NFA for each construct. The output is `None` where the NFA
/// would have more states than `usize` can count.
pub struct NFAParserEngine {}

impl NFAParserEngine {
    pub fn new() -> (e: NFAParserEngine) {
        NFAParserEngine {}
    }
}

impl ParserEngine for NFAParserEngine {
    type Output = Option<NFA>;

    open spec fn output_wf(o: &Self::Output) -> bool {
        o matches Some(n) ==> n.wf()
    }

    /// The output is the NFA of the shape built for `t`, or `None` exactly
    /// where that NFA would have more states than `usize` can count.
    open spec fn models(o: &Self::Output, t: Term) -> bool {
        if nfa_states(t) <= usize::MAX {
            o matches Some(n) && nfa_shape(*n, t)
        } else {
            o is None
        }
    }

    fn new() -> Self {
        NFAParserEngine {}
    }

    /// Two states and one edge labelled `c`.
    fn handle_char(&mut self, c: CharClass) -> Self::Output {
        let ghost cs = class_set(c);
        let mut n = NFA::new();
        let f = n.add_state(true);
        let _ = n.add_transition(0, f, Some(c));
        assert(n.final_states@ =~= seq![false, true]);
        assert(nfa_shape(n, Term::Class(cs)));
        Some(n)
    }

    fn handle_wildcard(&mut self) -> Self::Output {
        let c = CharClass::all_but_newline();
        assert(class_set(c) =~= wildcard_set()) by {
            assert forall|x: u32| class_set(c).contains(x) == wildcard_set().contains(x) by {
                assert(class_set(c).contains(x) == c.holds(x));
            }
        }
        self.handle_char(c)
    }

    fn handle_star(&mut self, lhs: Self::Output) -> Self::Output {
        let r = match &lhs {
            Some(a) => NFA::kleene_star(a),
            None => None,
        };
        proof {
            assert forall|t: Term| #[trigger] Self::models(&lhs, t) implies Self::models(
                &r,
                Term::Star(Box::new(t)),
            ) by {
                if let Some(n) = r {
                    assert(n.final_states@ == nfa_finals(Term::Star(Box::new(t))));
                }
            }
        }
        r
    }

    /// `x+` is `x*x`.
    fn handle_plus(&mut self, lhs: Self::Output) -> Self::Output {
        let r = match &lhs {
            Some(a) => match NFA::kleene_star(a) {
                Some(s) => NFA::concatenation(&s, a),
                None => None,
            },
            None => None,
        };
        proof {
            assert forall|t: Term| #[trigger] Self::models(&lhs, t) implies Self::models(
                &r,
                Term::Plus(Box::new(t)),
            ) by {
                if let Some(n) = r {
                    assert(n.final_states@ == nfa_finals(Term::Plus(Box::new(t))));
                }
            }
        }
        r
    }

    /// `x?` is the union of the empty word and `x`.
    fn handle_optional(&mut self, lhs: Self::Output) -> Self::Output {
        let r = match &lhs {
            Some(a) => NFA::union(&NFA::new_epsilon(), a),
            None => None,
        };
        proof {
            assert forall|t: Term| #[trigger] Self::models(&lhs, t) implies Self::models(
                &r,
                Term::Optional(Box::new(t)),
            ) by {
                if let Some(n) = r {
                    assert(n.final_states@ == nfa_finals(Term::Optional(Box::new(t))));
                }
            }
        }
        r
    }

    fn handle_concat(&mut self, lhs: Self::Output, rhs: Self::Output) -> Self::Output {
        let r = match (&lhs, &rhs) {
            (Some(a), Some(b)) => NFA::concatenation(a, b),
            _ => None,
        };
        proof {
            assert forall|a: Term, b: Term|
                #![trigger Self::models(&lhs, a), Self::models(&rhs, b)]
                Self::models(&lhs, a) && Self::models(&rhs, b) implies Self::models(
                    &r,
                    Term::Concat(Box::new(a), Box::new(b)),
                ) by {
                if let Some(n) = r {
                    assert(n.final_states@ == nfa_finals(Term::Concat(Box::new(a), Box::new(b))));
                }
            }
        }
        r
    }

    fn handle_alternate(&mut self, lhs: Self::Output, rhs: Self::Output) -> Self::Output {
        let r = match (&lhs, &rhs) {
            (Some(a), Some(b)) => NFA::union(a, b),
            _ => None,
        };
        proof {
            assert forall|a: Term, b: Term|
                #![trigger Self::models(&lhs, a), Self::models(&rhs, b)]
                Self::models(&lhs, a) && Self::models(&rhs, b) implies Self::models(
                    &r,
                    Term::Alternate(Box::new(a), Box::new(b)),
                ) by {
                if let Some(n) = r {
                    assert(n.final_states@ == nfa_finals(Term::Alternate(Box::new(a), Box::new(b))));
                }
            }
        }
        r
    }
}

/// Builds the syntax tree node for each construct.
pub struct ASTParserEngine {}

impl ASTParserEngine {
    pub fn new() -> (e: ASTParserEngine) {
        ASTParserEngine {}
    }
}

impl ParserEngine for ASTParserEngine {
    type Output = Expr;

    open spec fn output_wf(o: &Self::Output) -> bool {
        true
    }

    open spec fn models(o: &Self::Output, t: Term) -> bool {
        shape_models(o.shape(), t)
    }

    fn new() -> Self {
        ASTParserEngine {}
    }

    fn handle_char(&mut self, c: CharClass) -> Self::Output {
        Expr::Atom(c)
    }

    fn handle_wildcard(&mut self) -> Self::Output {
        let c = CharClass::all_but_newline();
        assert(class_set(c) =~= wildcard_set()) by {
            assert forall|x: u32| class_set(c).contains(x) == wildcard_set().contains(x) by {
                assert(class_set(c).contains(x) == c.holds(x));
            }
        }
        self.handle_char(c)
    }

    fn handle_star(&mut self, lhs: Self::Output) -> Self::Output {
        Expr::Unary(UnaryOp::Star, Box::new(lhs))
    }

    /// `x+` is `x*x`.
    fn handle_plus(&mut self, rhs: Self::Output) -> Self::Output {
        let c = rhs.copy();
        let ghost cs = c.shape();
        let lhs = Expr::Unary(UnaryOp::Star, Box::new(c));
        let ghost ls = lhs.shape();
        let ghost rs = rhs.shape();
        let r = Expr::Binary(BinaryOp::Concat, Box::new(lhs), Box::new(rhs));
        proof {
            assert forall|t: Term| #[trigger] shape_models(rs, t) implies Self::models(
                &r,
                Term::Plus(Box::new(t)),
            ) by {
                assert(ls == Shape::Unary(UnaryOp::Star, Box::new(cs)));
                assert(r.shape() == Shape::Binary(BinaryOp::Concat, Box::new(ls), Box::new(rs)));
            }
        }
        r
    }

    fn handle_optional(&mut self, lhs: Self::Output) -> Self::Output {
        Expr::Unary(UnaryOp::Optional, Box::new(lhs))
    }

    fn handle_concat(&mut self, lhs: Self::Output, rhs: Self::Output) -> Self::Output {
        Expr::Binary(BinaryOp::Concat, Box::new(lhs), Box::new(rhs))
    }

    fn handle_alternate(&mut self, lhs: Self::Output, rhs: Self::Output) -> Self::Output {
        Expr::Binary(BinaryOp::Alternate, Box::new(lhs), Box::new(rhs))
    }
}

} // verus!
