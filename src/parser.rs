use vstd::prelude::*;
use std::marker::PhantomData;
use crate::class::{ClassRange, CharClass, MAX_SCALAR, lemma_single_holds};
use crate::grammar::{
    bracket_class, char_set, class_body, class_item, class_set, escape_char_code, escape_holds,
    escape_set, expr_spec, is_class_escape, is_misplaced_operator, lhs_spec, parse_spec, part_end,
    part_pred, pred_set, rhs_spec, starts_badly, starts_unclosed, term_of, only_empty_parts, wildcard_set, Term,
};
use crate::input::{ParseError, ParseInput};

verus! {

/// What the parser emits to: each callback builds the output for one
/// construct of the regular expression.
pub trait ParserEngine: Sized {
    type Output;

    /// What the engine builds is well formed.
    spec fn output_wf(o: &Self::Output) -> bool;

    /// The output stands for the term `t`.
    spec fn models(o: &Self::Output, t: Term) -> bool;

    fn new() -> Self;

    /// A character class.
    fn handle_char(&mut self, c: CharClass) -> (r: Self::Output)
        requires
            c.wf(),
        ensures
            Self::output_wf(&r),
            Self::models(&r, Term::Class(class_set(c))),
    ;

    /// `.`: any character but a line feed.
    fn handle_wildcard(&mut self) -> (r: Self::Output)
        ensures
            Self::output_wf(&r),
            Self::models(&r, Term::Class(wildcard_set())),
    ;

    /// `x*`
    fn handle_star(&mut self, lhs: Self::Output) -> (r: Self::Output)
        requires
            Self::output_wf(&lhs),
        ensures
            Self::output_wf(&r),
            forall|t: Term| #[trigger] Self::models(&lhs, t) ==> Self::models(&r, Term::Star(Box::new(t))),
    ;

    /// `x+`
    fn handle_plus(&mut self, lhs: Self::Output) -> (r: Self::Output)
        requires
            Self::output_wf(&lhs),
        ensures
            Self::output_wf(&r),
            forall|t: Term| #[trigger] Self::models(&lhs, t) ==> Self::models(&r, Term::Plus(Box::new(t))),
    ;

    /// `x?`
    fn handle_optional(&mut self, lhs: Self::Output) -> (r: Self::Output)
        requires
            Self::output_wf(&lhs),
        ensures
            Self::output_wf(&r),
            forall|t: Term|
                #[trigger] Self::models(&lhs, t) ==> Self::models(&r, Term::Optional(Box::new(t))),
    ;

    /// `xy`
    fn handle_concat(&mut self, lhs: Self::Output, rhs: Self::Output) -> (r: Self::Output)
        requires
            Self::output_wf(&lhs),
            Self::output_wf(&rhs),
        ensures
            Self::output_wf(&r),
            forall|a: Term, b: Term|
                #![trigger Self::models(&lhs, a), Self::models(&rhs, b)]
                Self::models(&lhs, a) && Self::models(&rhs, b) ==> Self::models(
                    &r,
                    Term::Concat(Box::new(a), Box::new(b)),
                ),
    ;

    /// `x|y`
    fn handle_alternate(&mut self, lhs: Self::Output, rhs: Self::Output) -> (r: Self::Output)
        requires
            Self::output_wf(&lhs),
            Self::output_wf(&rhs),
        ensures
            Self::output_wf(&r),
            forall|a: Term, b: Term|
                #![trigger Self::models(&lhs, a), Self::models(&rhs, b)]
                Self::models(&lhs, a) && Self::models(&rhs, b) ==> Self::models(
                    &r,
                    Term::Alternate(Box::new(a), Box::new(b)),
                ),
    ;
}

pub enum PostfixOp {
    Star,
    Plus,
    Optional,
}

pub enum InfixOp {
    Alternate,
    Concat,
}

/// A parser of regular expressions that builds its output with `E`.
pub struct Parser<E> {
    _phantom: PhantomData<E>,
}

impl<E: ParserEngine> Parser<E> {
    pub fn new() -> (p: Parser<E>) {
        Parser { _phantom: PhantomData }
    }

    /// Parses a regular expression. An empty one, or one of empty groups
    /// and empty classes alone, is refused with `EmptyExpression`; one that starts with `*`, `+`, `?`, `|` or `)`
    /// with `UnexpectedToken` on that character.
    pub fn parse(&self, expr: &str) -> (r: Result<E::Output, ParseError>)
        ensures
            r matches Ok(o) ==> E::output_wf(&o),
            r is Ok <==> parse_spec(expr@) is Some,
            r matches Ok(o) ==> E::models(&o, parse_spec(expr@)->0),
            expr@.len() == 1 && (expr@[0] == '(' || expr@[0] == '[' || expr@[0] == '\\') ==> r matches Err(
                ParseError::UnexpectedEof { .. },
            ),
            expr@.len() == 0 ==> (r matches Err(ParseError::EmptyExpression { span }) && span.start
                == 0 && span.end == 0),
            only_empty_parts(expr@, 0) ==> r matches Err(ParseError::EmptyExpression { .. }),
            expr@.len() > 0 && (is_misplaced_operator(expr@[0]) || expr@[0] == ')') ==> (r matches Err(
                ParseError::UnexpectedToken { token, span, .. },
            ) && token == expr@[0] && span.start == 0 && span.end == 0 && span.text@ == seq![
                expr@[0],
            ]),
    {
        let mut state: ParserState<E> = ParserState::new();
        state.parse(expr)
    }
}

/// The state of one parse: the engine that builds the output.
pub struct ParserState<E> {
    pub engine: E,
}

impl<E: ParserEngine> ParserState<E> {
    pub fn new() -> (s: ParserState<E>) {
        ParserState { engine: E::new() }
    }

    /// Parses a whole regular expression, as `Parser::parse` does.
    pub fn parse(&mut self, expr: &str) -> (r: Result<E::Output, ParseError>)
        ensures
            r matches Ok(o) ==> E::output_wf(&o),
            r is Ok <==> parse_spec(expr@) is Some,
            r matches Ok(o) ==> E::models(&o, parse_spec(expr@)->0),
            expr@.len() == 1 && (expr@[0] == '(' || expr@[0] == '[' || expr@[0] == '\\') ==> r matches Err(
                ParseError::UnexpectedEof { .. },
            ),
            expr@.len() == 0 ==> (r matches Err(ParseError::EmptyExpression { span }) && span.start
                == 0 && span.end == 0),
            only_empty_parts(expr@, 0) ==> r matches Err(ParseError::EmptyExpression { .. }),
            expr@.len() > 0 && (is_misplaced_operator(expr@[0]) || expr@[0] == ')') ==> (r matches Err(
                ParseError::UnexpectedToken { token, span, .. },
            ) && token == expr@[0] && span.start == 0 && span.end == 0 && span.text@ == seq![
                expr@[0],
            ]),
    {
        let mut input = ParseInput::new(expr);
        let r = self.parse_expr(&mut input, 0, false);
        r
    }

    /// Parses an expression whose operators bind at least as tightly as
    /// `min_bp`, stopping before a `)` when `parenthesized`. At `min_bp` 0
    /// a success reads everything, or up to that `)`. Postfix operators
    /// bind tightest, then concatenation, then `|`; both infix operators
    /// associate to the left (`a|b|c` is `(a|b)|c`).
    fn parse_expr(&mut self, input: &mut ParseInput, min_bp: u8, parenthesized: bool) -> (r: Result<
        E::Output,
        ParseError,
    >)
        requires
            old(input).wf(),
        ensures
            r matches Ok(o) ==> E::output_wf(&o),
            final(input).advanced_from(&*old(input)),
            r is Ok ==> final(input).next_pos > old(input).next_pos,
            r is Ok && min_bp == 0 ==> (final(input).peek_spec() is None || (parenthesized
                && final(input).peek_spec() == Some(')'))),
            r is Ok <==> expr_spec(
                old(input).expr@,
                old(input).next_pos as int,
                min_bp as int,
                parenthesized,
            ) is Some,
            r matches Ok(o) ==> (expr_spec(
                old(input).expr@,
                old(input).next_pos as int,
                min_bp as int,
                parenthesized,
            ) matches Some((t, e)) && e == final(input).next_pos && E::models(&o, t)),
            old(input).peek_spec() is None ==> (r matches Err(ParseError::EmptyExpression { span })
                && span.start == span.end && span.start == (if old(input).next_pos == 0 {
                0
            } else {
                old(input).next_pos - 1
            })),
            only_empty_parts(old(input).expr@, old(input).next_pos as int) ==> r matches Err(
                ParseError::EmptyExpression { .. },
            ),
            starts_unclosed(*old(input)) ==> r matches Err(ParseError::UnexpectedEof { .. }),
            starts_badly(*old(input), parenthesized) ==> (r matches Err(
                ParseError::UnexpectedToken { token, span, .. },
            ) && Some(token) == old(input).peek_spec() && span.start == old(input).next_pos
                && span.end == old(input).next_pos && span.text@ == seq![token]),
        decreases old(input).expr@.len() - old(input).next_pos, 1int,
    {
        let ghost start = *input;
        let ghost s = start.expr@;
        let ghost p0 = start.next_pos as int;
        let ghost mut lt: Term = Term::Class(Set::empty());
        let mut lhs: Option<E::Output> = None;
        while lhs.is_none()
            invariant
                input.wf(),
                input.advanced_from(&start),
                start == *old(input),
                lhs is Some ==> input.next_pos > start.next_pos,
                lhs matches Some(o) ==> E::output_wf(&o),
                starts_badly(start, parenthesized) ==> input.next_pos == start.next_pos && lhs is None,
                starts_unclosed(start) ==> input.next_pos == start.next_pos && lhs is None,
                only_empty_parts(s, p0) ==> only_empty_parts(s, input.next_pos as int) && lhs is None,
                input.next_pos == start.next_pos ==> lhs is None,
                input.expr@ == s,
                p0 == start.next_pos,
                lhs is None ==> lhs_spec(s, p0, parenthesized) == lhs_spec(
                    s,
                    input.next_pos as int,
                    parenthesized,
                ),
                lhs matches Some(o) ==> lhs_spec(s, p0, parenthesized) == Some(
                    (lt, input.next_pos as int),
                ) && E::models(&o, lt),
            decreases input.expr@.len() - input.next_pos + (if lhs is None { 1int } else { 0int }),
        {
            let ghost q = input.next_pos as int;
            match input.peek() {
                Some((_, c)) => {
                    if c == '\\' {
                        match self.parse_escaped(input) {
                            Ok(o) => {
                                lhs = Some(o);
                                proof {
                                    lt = Term::Class(escape_set(s[q + 1]));
                                }
                            },
                            Err(e) => {
                                return Err(e);
                            },
                        }
                    } else if c == '(' {
                        match self.parse_group(input) {
                            Ok(o) => {
                                lhs = o;
                                proof {
                                    lt = term_of(expr_spec(s, q + 1, 0, true));
                                }
                            },
                            Err(e) => {
                                return Err(e);
                            },
                        }
                    } else if c == ')' && !parenthesized {
                        let (_, t) = input.next_unchecked();
                        return Err(
                            ParseError::UnexpectedToken {
                                span: input.current_span(),
                                token: t,
                                expected: vec!['(', '['],
                            },
                        );
                    } else if c == '[' {
                        match self.parse_class(input) {
                            Ok(o) => {
                                lhs = o;
                                proof {
                                    lt = Term::Class(pred_set(part_pred(bracket_class(s, q))));
                                }
                            },
                            Err(e) => {
                                return Err(e);
                            },
                        }
                    } else if c == '.' {
                        let o = self.parse_wildcard(input)?;
                        lhs = Some(o);
                        proof {
                            lt = Term::Class(wildcard_set());
                        }
                    } else if c == '?' || c == '*' || c == '+' || c == '|' {
                        let (_, t) = input.next_unchecked();
                        return Err(
                            ParseError::UnexpectedToken {
                                span: input.current_span(),
                                token: t,
                                expected: vec!['(', '['],
                            },
                        );
                    } else {
                        let o = self.parse_single(input)?;
                        lhs = Some(o);
                        proof {
                            lt = Term::Class(char_set(c));
                        }
                    }
                },
                None => {
                    return Err(ParseError::EmptyExpression { span: input.current_span() });
                },
            }
        }
        let mut lhs = match lhs {
            Some(o) => o,
            None => {
                return Err(ParseError::EmptyExpression { span: input.current_span() });
            },
        };
        let mut done = false;
        while !done
            invariant
                input.wf(),
                input.advanced_from(&start),
                start == *old(input),
                input.next_pos > start.next_pos,
                !starts_badly(start, parenthesized),
                !starts_unclosed(start),
                !only_empty_parts(s, p0),
                E::output_wf(&lhs),
                input.expr@ == s,
                p0 == start.next_pos,
                E::models(&lhs, lt),
                !done ==> expr_spec(s, p0, min_bp as int, parenthesized) == rhs_spec(
                    s,
                    input.next_pos as int,
                    lt,
                    min_bp as int,
                    parenthesized,
                ),
                done ==> expr_spec(s, p0, min_bp as int, parenthesized) == Some(
                    (lt, input.next_pos as int),
                ),
                done && min_bp == 0 ==> (input.peek_spec() is None || (parenthesized
                    && input.peek_spec() == Some(')'))),
            decreases input.expr@.len() - input.next_pos + (if done { 0int } else { 1int }),
        {
            let ghost q = input.next_pos as int;
            match input.peek() {
                None => {
                    done = true;
                },
                Some((_, c)) => {
                    if c == ')' && parenthesized {
                        done = true;
                    } else if c == '*' || c == '+' || c == '?' {
                        let op = if c == '*' {
                            PostfixOp::Star
                        } else if c == '+' {
                            PostfixOp::Plus
                        } else {
                            PostfixOp::Optional
                        };
                        let (lbp, _) = self.postfix_bp(&op);
                        if lbp < min_bp {
                            done = true;
                        } else {
                            let _op = input.next_unchecked();
                            let ghost prev = lt;
                            lhs = match op {
                                PostfixOp::Star => self.engine.handle_star(lhs),
                                PostfixOp::Plus => self.engine.handle_plus(lhs),
                                PostfixOp::Optional => self.engine.handle_optional(lhs),
                            };
                            proof {
                                lt = if c == '*' {
                                    Term::Star(Box::new(prev))
                                } else if c == '+' {
                                    Term::Plus(Box::new(prev))
                                } else {
                                    Term::Optional(Box::new(prev))
                                };
                            }
                        }
                    } else if c == '|' {
                        let (lbp, rbp) = self.infix_bp(&InfixOp::Alternate);
                        if lbp < min_bp {
                            done = true;
                        } else {
                            let _bar = input.next_unchecked();
                            let rhs = self.parse_expr(input, rbp, parenthesized)?;
                            let ghost prev = lt;
                            let ghost rt = term_of(expr_spec(s, q + 1, 6, parenthesized));
                            lhs = self.engine.handle_alternate(lhs, rhs);
                            proof {
                                lt = Term::Alternate(Box::new(prev), Box::new(rt));
                            }
                        }
                    } else {
                        let (lbp, rbp) = self.infix_bp(&InfixOp::Concat);
                        if lbp < min_bp {
                            done = true;
                        } else {
                            let rhs = self.parse_expr(input, rbp, parenthesized)?;
                            let ghost prev = lt;
                            let ghost rt = term_of(expr_spec(s, q, 8, parenthesized));
                            lhs = self.engine.handle_concat(lhs, rhs);
                            proof {
                                lt = Term::Concat(Box::new(prev), Box::new(rt));
                            }
                        }
                    }
                },
            }
        }
        Ok(lhs)
    }

    /// The binding power of a postfix operator.
    fn postfix_bp(&self, op: &PostfixOp) -> (r: (u8, ()))
        ensures
            r.0 == 9,
    {
        match op {
            PostfixOp::Star => (9, ()),
            PostfixOp::Plus => (9, ()),
            PostfixOp::Optional => (9, ()),
        }
    }

    /// The left and right binding powers of an infix operator.
    fn infix_bp(&self, op: &InfixOp) -> (r: (u8, u8))
        ensures
            *op is Concat ==> r == (7u8, 8u8),
            *op is Alternate ==> r == (5u8, 6u8),
    {
        match op {
            InfixOp::Concat => (7, 8),
            InfixOp::Alternate => (5, 6),
        }
    }

    /// Reads one character, whatever it is.
    fn parse_single_char(&mut self, input: &mut ParseInput) -> (r: Result<char, ParseError>)
        requires
            old(input).wf(),
        ensures
            final(input).advanced_from(&*old(input)),
            match old(input).peek_spec() {
                Some(c) => r == Ok::<char, ParseError>(c) && final(input).next_pos == old(input).next_pos + 1,
                None => r matches Err(ParseError::UnexpectedEof { .. }),
            },
    {
        let (_, c) = input.next_unwrap(Vec::new())?;
        Ok(c)
    }

    /// A literal character.
    fn parse_single(&mut self, input: &mut ParseInput) -> (r: Result<E::Output, ParseError>)
        requires
            old(input).wf(),
        ensures
            r matches Ok(o) ==> E::output_wf(&o),
            final(input).advanced_from(&*old(input)),
            match old(input).peek_spec() {
                Some(c) => (r matches Ok(o) && final(input).next_pos == old(input).next_pos + 1
                    && E::models(&o, Term::Class(char_set(c)))),
                None => r matches Err(ParseError::UnexpectedEof { .. }),
            },
    {
        let c = self.parse_single_char(input)?;
        let cl = CharClass::from_char(c);
        assert(class_set(cl) =~= char_set(c)) by {
            assert forall|x: u32| class_set(cl).contains(x) == char_set(c).contains(x) by {
                assert(class_set(cl).contains(x) == cl.holds(x));
            }
        }
        Ok(self.engine.handle_char(cl))
    }

    /// Reads a backslash and the character it escapes.
    fn parse_escaped_char(&mut self, input: &mut ParseInput) -> (r: Result<char, ParseError>)
        requires
            old(input).wf(),
            old(input).peek_spec() == Some('\\'),
        ensures
            final(input).advanced_from(&*old(input)),
            old(input).next_pos + 1 < old(input).expr@.len() ==> r == Ok::<char, ParseError>(
                old(input).expr@[old(input).next_pos + 1],
            ) && final(input).next_pos == old(input).next_pos + 2,
            old(input).next_pos + 1 >= old(input).expr@.len() ==> r matches Err(
                ParseError::UnexpectedEof { .. },
            ),
    {
        let _bs = input.next_unchecked();
        let (_, c) = input.next_unwrap(Vec::new())?;
        Ok(c)
    }

    /// An escape `\e` read as the class it stands for: `\d \D \s \S \w \W`
    /// and `\n`; any other character stands for itself.
    fn parse_escaped_class(&mut self, input: &mut ParseInput) -> (r: Result<CharClass, ParseError>)
        requires
            old(input).wf(),
            old(input).peek_spec() == Some('\\'),
        ensures
            final(input).advanced_from(&*old(input)),
            old(input).next_pos + 1 < old(input).expr@.len() ==> r is Ok && final(input).next_pos
                == old(input).next_pos + 2,
            old(input).next_pos + 1 >= old(input).expr@.len() ==> r matches Err(
                ParseError::UnexpectedEof { .. },
            ),
            r matches Ok(cl) ==> cl.wf() && forall|x: u32|
                #[trigger] cl.holds(x) == escape_holds(old(input).expr@[old(input).next_pos + 1], x),
            r matches Ok(cl) ==> (cl.spec_is_single() <==> !is_class_escape(
                old(input).expr@[old(input).next_pos + 1],
            )),
            r matches Ok(cl) ==> (!is_class_escape(old(input).expr@[old(input).next_pos + 1])
                ==> cl.ranges@[0].start == escape_char_code(old(input).expr@[old(input).next_pos + 1])),
    {
        let c = self.parse_escaped_char(input)?;
        let cl = if c == 'd' {
            CharClass::decimal_number()
        } else if c == 'D' {
            CharClass::decimal_number().complement()
        } else if c == 's' {
            CharClass::whitespace()
        } else if c == 'S' {
            CharClass::whitespace().complement()
        } else if c == 'w' {
            CharClass::word()
        } else if c == 'W' {
            CharClass::word().complement()
        } else if c == 'n' {
            CharClass::newline()
        } else {
            CharClass::from_char(c)
        };
        proof {
            if cl.spec_is_single() {
                lemma_single_holds(&cl);
                if c == 'd' || c == 'w' {
                    assert(cl.holds(48) && cl.holds(49));
                } else if c == 's' {
                    assert(cl.holds(9) && cl.holds(10));
                } else if c == 'D' || c == 'S' || c == 'W' {
                    assert(cl.holds(0) && cl.holds(1));
                }
            }
        }
        Ok(cl)
    }

    /// An escape, emitted as a class.
    fn parse_escaped(&mut self, input: &mut ParseInput) -> (r: Result<E::Output, ParseError>)
        requires
            old(input).wf(),
            old(input).peek_spec() == Some('\\'),
        ensures
            r matches Ok(o) ==> E::output_wf(&o),
            final(input).advanced_from(&*old(input)),
            old(input).next_pos + 1 < old(input).expr@.len() ==> r is Ok && final(input).next_pos
                == old(input).next_pos + 2,
            old(input).next_pos + 1 >= old(input).expr@.len() ==> r matches Err(
                ParseError::UnexpectedEof { .. },
            ),
            r matches Ok(o) ==> E::models(
                &o,
                Term::Class(escape_set(old(input).expr@[old(input).next_pos + 1])),
            ),
    {
        let ghost e = old(input).expr@[old(input).next_pos + 1];
        let c = self.parse_escaped_class(input)?;
        assert(class_set(c) =~= escape_set(e)) by {
            assert forall|x: u32| class_set(c).contains(x) == escape_set(e).contains(x) by {
                assert(class_set(c).contains(x) == c.holds(x));
            }
        }
        Ok(self.engine.handle_char(c))
    }

    /// A character, escaped or not, as it stands.
    fn parse_single_or_escaped_char(&mut self, input: &mut ParseInput) -> (r: Result<char, ParseError>)
        requires
            old(input).wf(),
        ensures
            final(input).advanced_from(&*old(input)),
            old(input).peek_spec() is None ==> r matches Err(ParseError::UnexpectedEof { .. }),
            (old(input).peek_spec() matches Some(c) && c != '\\') ==> r == Ok::<char, ParseError>(
                old(input).peek_spec()->0,
            ) && final(input).next_pos == old(input).next_pos + 1,
            old(input).peek_spec() == Some('\\') ==> if old(input).next_pos + 1 < old(
                input,
            ).expr@.len() {
                r == Ok::<char, ParseError>(old(input).expr@[old(input).next_pos + 1])
                    && final(input).next_pos == old(input).next_pos + 2
            } else {
                r matches Err(ParseError::UnexpectedEof { .. })
            },
    {
        match input.peek() {
            Some((_, c)) => {
                if c == '\\' {
                    self.parse_escaped_char(input)
                } else {
                    self.parse_single_char(input)
                }
            },
            None => Err(ParseError::UnexpectedEof { span: input.current_eof_span(), expected: vec!['\\'] }),
        }
    }

    /// A character or an escape, as a class.
    fn parse_single_or_escaped_class(&mut self, input: &mut ParseInput) -> (r: Result<CharClass, ParseError>)
        requires
            old(input).wf(),
        ensures
            final(input).advanced_from(&*old(input)),
            match class_item(old(input).expr@, old(input).next_pos as int) {
                Some((a, sa, q)) => (r matches Ok(cl) && cl.wf() && final(input).next_pos == q
                    && (forall|x: u32| #[trigger] cl.holds(x) == a(x)) && (cl.spec_is_single()
                    <==> sa is Some) && (sa matches Some(v) ==> cl.ranges@[0].start == v)),
                None => r matches Err(ParseError::UnexpectedEof { .. }),
            },
    {
        match input.peek() {
            Some((_, c)) => {
                if c == '\\' {
                    self.parse_escaped_class(input)
                } else {
                    let c = self.parse_single_char(input)?;
                    Ok(CharClass::from_char(c))
                }
            },
            None => Err(ParseError::UnexpectedEof { span: input.current_eof_span(), expected: vec!['\\'] }),
        }
    }

    /// A character or an escape, emitted.
    fn parse_single_or_escaped(&mut self, input: &mut ParseInput) -> (r: Result<E::Output, ParseError>)
        requires
            old(input).wf(),
        ensures
            r matches Ok(o) ==> E::output_wf(&o),
            final(input).advanced_from(&*old(input)),
            old(input).peek_spec() is None ==> r matches Err(ParseError::UnexpectedEof { .. }),
            r is Ok ==> final(input).next_pos > old(input).next_pos,
            match class_item(old(input).expr@, old(input).next_pos as int) {
                Some((_, _, q)) => (r matches Ok(o) && final(input).next_pos == q && E::models(
                    &o,
                    Term::Class(
                        if old(input).peek_spec() == Some('\\') {
                            escape_set(old(input).expr@[old(input).next_pos + 1])
                        } else {
                            char_set(old(input).expr@[old(input).next_pos as int])
                        },
                    ),
                )),
                None => r matches Err(ParseError::UnexpectedEof { .. }),
            },
    {
        match input.peek() {
            Some((_, c)) => {
                if c == '\\' {
                    self.parse_escaped(input)
                } else {
                    self.parse_single(input)
                }
            },
            None => Err(ParseError::UnexpectedEof { span: input.current_eof_span(), expected: vec!['\\'] }),
        }
    }

    /// A group `( expr )`; the empty group `()` yields nothing. An
    /// unclosed group is refused with `UnexpectedEof`.
    fn parse_group(&mut self, input: &mut ParseInput) -> (r: Result<Option<E::Output>, ParseError>)
        requires
            old(input).wf(),
            old(input).peek_spec() == Some('('),
        ensures
            r matches Ok(Some(o)) ==> E::output_wf(&o),
            final(input).advanced_from(&*old(input)),
            r is Ok ==> final(input).next_pos >= old(input).next_pos + 2,
            old(input).next_pos + 1 == old(input).expr@.len() ==> r matches Err(
                ParseError::UnexpectedEof { .. },
            ),
            ({
                let s = old(input).expr@;
                let p = old(input).next_pos as int;
                if p + 1 >= s.len() {
                    r is Err
                } else if s[p + 1] == ')' {
                    r matches Ok(None) && final(input).next_pos == p + 2
                } else {
                    match expr_spec(s, p + 1, 0, true) {
                        Some((t, q)) => if p + 1 < q < s.len() && s[q] == ')' {
                            r matches Ok(Some(o)) && final(input).next_pos == q + 1 && E::models(&o, t)
                        } else {
                            r is Err
                        },
                        None => r is Err,
                    }
                }
            }),
        decreases old(input).expr@.len() - old(input).next_pos, 0int,
    {
        let _lp = input.next_unchecked();
        if input.is_empty() {
            return Err(
                ParseError::UnexpectedEof { span: input.current_eof_span(), expected: vec![')'] },
            );
        }
        let expr = if !input.peek_is(')') {
            match self.parse_expr(input, 0, true) {
                Ok(e) => Some(e),
                Err(e) => {
                    return Err(e);
                },
            }
        } else {
            None
        };
        let _rp = input.next_checked(')', vec![')'])?;
        Ok(expr)
    }

    /// A bracketed class `[...]`, `[^...]` for its complement, emitted where
    /// it holds a character; an empty class yields nothing. See
    /// `class_body` for its items.
    fn parse_class(&mut self, input: &mut ParseInput) -> (r: Result<Option<E::Output>, ParseError>)
        requires
            old(input).wf(),
            old(input).peek_spec() == Some('['),
        ensures
            r matches Ok(Some(o)) ==> E::output_wf(&o),
            final(input).advanced_from(&*old(input)),
            r is Ok ==> final(input).next_pos >= old(input).next_pos + 2,
            match bracket_class(old(input).expr@, old(input).next_pos as int) {
                Some((c, e)) => (r is Ok && final(input).next_pos == e && (r matches Ok(None)
                    <==> forall|x: u32| !#[trigger] c(x)) && (r matches Ok(Some(o)) ==> E::models(
                    &o,
                    Term::Class(pred_set(c)),
                ))),
                None => r matches Err(ParseError::UnexpectedEof { .. }),
            },
    {
        let class = match self.parse_class_set(input) {
            Ok(c) => c,
            Err(e) => {
                return Err(e);
            },
        };
        let ghost c = part_pred(bracket_class(old(input).expr@, old(input).next_pos as int));
        let empty = class.is_empty();
        proof {
            if empty {
                assert forall|x: u32| !#[trigger] c(x) by {
                    assert(!class.holds(x));
                }
            } else {
                let x = choose|x: u32| class.holds(x);
                assert(c(x));
            }
        }
        assert(class_set(class) =~= pred_set(c)) by {
            assert forall|x: u32| class_set(class).contains(x) == pred_set(c).contains(x) by {
                assert(class_set(class).contains(x) == class.holds(x));
            }
        }
        if !empty {
            Ok(Some(self.engine.handle_char(class)))
        } else {
            Ok(None)
        }
    }

    /// What a bracketed class holds.
    fn parse_class_set(&mut self, input: &mut ParseInput) -> (r: Result<CharClass, ParseError>)
        requires
            old(input).wf(),
            old(input).peek_spec() == Some('['),
        ensures
            final(input).advanced_from(&*old(input)),
            r is Ok ==> final(input).next_pos >= old(input).next_pos + 2,
            r matches Ok(cl) ==> cl.wf(),
            match bracket_class(old(input).expr@, old(input).next_pos as int) {
                Some((c, e)) => (r matches Ok(cl) && final(input).next_pos == e && forall|x: u32|
                    #[trigger] cl.holds(x) == c(x)),
                None => r matches Err(ParseError::UnexpectedEof { .. }),
            },
    {
        let ghost start = *input;
        let ghost s = input.expr@;
        let _lb = input.next_unchecked();
        let negate = match input.peek() {
            Some((_, c)) => {
                if c == '^' {
                    let _caret = input.next_unchecked();
                    true
                } else {
                    false
                }
            },
            None => {
                return Err(
                    ParseError::UnexpectedEof {
                        span: input.current_eof_span(),
                        expected: vec![']', '^'],
                    },
                );
            },
        };
        let ghost body = class_body(s, input.next_pos as int);
        let ghost whole = bracket_class(s, start.next_pos as int);
        proof {
            assert(whole is None <==> body is None);
            if let Some((bc, be)) = body {
                assert(part_end(whole) == be);
                assert forall|x: u32|
                    #[trigger] part_pred(whole)(x) == (if negate {
                        x <= MAX_SCALAR && !bc(x)
                    } else {
                        bc(x)
                    }) by {}
            }
        }
        let mut class = CharClass::new();
        let mut done = false;
        while !done
            invariant
                input.wf(),
                input.advanced_from(&start),
                input.expr@ == s,
                input.next_pos > start.next_pos,
                start == *old(input),
                class.wf(),
                done ==> input.next_pos >= start.next_pos + 2 && input.expr@[input.next_pos - 1] == ']',
                !done ==> (class_body(s, input.next_pos as int) is Some <==> body is Some),
                !done ==> (body matches Some((bc, be)) ==> part_end(class_body(s, input.next_pos as int))
                    == be && forall|x: u32|
                    #[trigger] bc(x) == (class.holds(x) || part_pred(class_body(s, input.next_pos as int))(x))),
                done ==> (body matches Some((bc, be)) && input.next_pos == be && forall|x: u32|
                    #[trigger] bc(x) == class.holds(x)),
                whole == bracket_class(s, start.next_pos as int),
                whole is None <==> body is None,
                body matches Some((bc, be)) ==> part_end(whole) == be && forall|x: u32|
                    #[trigger] part_pred(whole)(x) == (if negate {
                        x <= MAX_SCALAR && !bc(x)
                    } else {
                        bc(x)
                    }),
            decreases input.expr@.len() - input.next_pos + (if done { 0int } else { 1int }),
        {
            let ghost p = input.next_pos as int;
            match input.peek() {
                None => {
                    return Err(
                        ParseError::UnexpectedEof {
                            span: input.current_eof_span(),
                            expected: vec![']'],
                        },
                    );
                },
                Some((_, c)) => {
                    if c == ']' {
                        let _rb = input.next_unchecked();
                        done = true;
                    } else {
                        let first = match self.parse_single_or_escaped_class(input) {
                            Ok(f) => f,
                            Err(e) => {
                                return Err(e);
                            },
                        };
                        let ghost q = input.next_pos as int;
                        if !first.is_single() {
                            class.add_other(first);
                        } else {
                            let lo = first.ranges[0].start;
                            assert(first.ranges@[0].wf());
                            match input.peek() {
                                Some((_, d)) => {
                                    if d == '-' {
                                        let _dash = input.next_unchecked();
                                        let last = match self.parse_single_or_escaped_class(input) {
                                            Ok(l) => l,
                                            Err(e) => {
                                                return Err(e);
                                            },
                                        };
                                        if !last.is_single() {
                                            class.add_other(first);
                                            class.add_range(ClassRange::new('-', '-'));
                                            class.add_other(last);
                                        } else {
                                            let hi = last.ranges[0].start;
                                            assert(last.ranges@[0].wf());
                                            class.add_range(ClassRange { start: lo, end: hi });
                                        }
                                    } else {
                                        class.add_range(ClassRange { start: lo, end: lo });
                                    }
                                },
                                None => {
                                    return Err(
                                        ParseError::UnexpectedEof {
                                            span: input.current_eof_span(),
                                            expected: vec![']', '-'],
                                        },
                                    );
                                },
                            }
                        }
                    }
                },
            }
        }
        if negate {
            let r = class.complement();
            proof {
                assert forall|x: u32| #[trigger] r.holds(x) == part_pred(whole)(x) by {
                    if x <= MAX_SCALAR {
                        assert(part_pred(whole)(x) == !class.holds(x));
                    }
                }
            }
            Ok(r)
        } else {
            proof {
                assert forall|x: u32| #[trigger] class.holds(x) == part_pred(whole)(x) by {
                    assert(part_pred(body)(x) == class.holds(x));
                }
            }
            Ok(class)
        }
    }

    /// Reads the `.` of a wildcard.
    fn parse_wildcard_char(&mut self, input: &mut ParseInput) -> (r: Result<char, ParseError>)
        requires
            old(input).wf(),
            old(input).peek_spec() == Some('.'),
        ensures
            final(input).advanced_from(&*old(input)),
            r == Ok::<char, ParseError>('.'),
            final(input).next_pos == old(input).next_pos + 1,
    {
        let (_, c) = input.next_checked('.', vec!['.'])?;
        Ok(c)
    }

    /// A wildcard `.`, emitted.
    fn parse_wildcard(&mut self, input: &mut ParseInput) -> (r: Result<E::Output, ParseError>)
        requires
            old(input).wf(),
            old(input).peek_spec() == Some('.'),
        ensures
            r matches Ok(o) ==> E::output_wf(&o),
            final(input).advanced_from(&*old(input)),
            r matches Ok(o) && E::models(&o, Term::Class(wildcard_set())),
            final(input).next_pos == old(input).next_pos + 1,
    {
        let _ = self.parse_wildcard_char(input)?;
        Ok(self.engine.handle_wildcard())
    }
}

} // verus!
