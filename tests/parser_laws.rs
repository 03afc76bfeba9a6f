use regexp2::ast::{BinaryOp, Expr, UnaryOp};
use regexp2::class::{CharClass, ClassRange};
use regexp2::engines::{ASTParser, NFAParser};
use regexp2::input::{ParseError, ParseInput};
use regexp2::parser::Parser;

fn ast(s: &str) -> Result<Expr, ParseError> {
    let p: ASTParser = Parser::new();
    p.parse(s)
}

fn ranges(e: &Expr) -> Vec<(u32, u32)> {
    match e {
        Expr::Atom(c) => c.ranges.iter().map(|r| (r.start, r.end)).collect(),
        _ => panic!("not an atom: {:?}", e),
    }
}

fn atom_of(c: char) -> Vec<(u32, u32)> {
    vec![(c as u32, c as u32)]
}

fn same_shape(a: &Expr, b: &Expr) -> bool {
    match (a, b) {
        (Expr::Atom(x), Expr::Atom(y)) => x.ranges == y.ranges,
        (Expr::Unary(o, x), Expr::Unary(p, y)) => o == p && same_shape(x, y),
        (Expr::Binary(o, x1, x2), Expr::Binary(p, y1, y2)) => {
            o == p && same_shape(x1, y1) && same_shape(x2, y2)
        }
        _ => false,
    }
}

fn holds(e: &Expr, c: char) -> bool {
    match e {
        Expr::Atom(cl) => cl.contains_char(c),
        _ => panic!("not an atom"),
    }
}

#[test]
fn single_char_is_an_atom() {
    let e = ast("a").unwrap();
    assert_eq!(ranges(&e), atom_of('a'));
}

#[test]
fn two_chars_concat_left_first() {
    match ast("ab").unwrap() {
        Expr::Binary(BinaryOp::Concat, l, r) => {
            assert_eq!(ranges(&l), atom_of('a'));
            assert_eq!(ranges(&r), atom_of('b'));
        }
        other => panic!("{:?}", other),
    }
}

#[test]
fn alternation_associates_to_the_left() {
    match ast("a|b|c").unwrap() {
        Expr::Binary(BinaryOp::Alternate, l, r) => {
            assert_eq!(ranges(&r), atom_of('c'));
            match *l {
                Expr::Binary(BinaryOp::Alternate, a, b) => {
                    assert_eq!(ranges(&a), atom_of('a'));
                    assert_eq!(ranges(&b), atom_of('b'));
                }
                other => panic!("{:?}", other),
            }
        }
        other => panic!("{:?}", other),
    }
}

#[test]
fn group_is_transparent() {
    assert!(same_shape(&ast("(a)").unwrap(), &ast("a").unwrap()));
    assert!(same_shape(&ast("(ab)*").unwrap(), &ast("(ab)*").unwrap()));
}

#[test]
fn star_then_concat() {
    match ast("a*b").unwrap() {
        Expr::Binary(BinaryOp::Concat, l, r) => {
            match *l {
                Expr::Unary(UnaryOp::Star, a) => assert_eq!(ranges(&a), atom_of('a')),
                other => panic!("{:?}", other),
            }
            assert_eq!(ranges(&r), atom_of('b'));
        }
        other => panic!("{:?}", other),
    }
}

#[test]
fn plus_is_star_then_itself() {
    match ast("a+").unwrap() {
        Expr::Binary(BinaryOp::Concat, l, r) => {
            match *l {
                Expr::Unary(UnaryOp::Star, a) => assert_eq!(ranges(&a), atom_of('a')),
                other => panic!("{:?}", other),
            }
            assert_eq!(ranges(&r), atom_of('a'));
        }
        other => panic!("{:?}", other),
    }
}

#[test]
fn optional_and_precedence() {
    // `ab?|c` is `(a(b?))|c`.
    match ast("ab?|c").unwrap() {
        Expr::Binary(BinaryOp::Alternate, l, r) => {
            assert_eq!(ranges(&r), atom_of('c'));
            match *l {
                Expr::Binary(BinaryOp::Concat, a, b) => {
                    assert_eq!(ranges(&a), atom_of('a'));
                    assert!(matches!(*b, Expr::Unary(UnaryOp::Optional, _)));
                }
                other => panic!("{:?}", other),
            }
        }
        other => panic!("{:?}", other),
    }
}

#[test]
fn empty_expression_is_refused() {
    assert!(matches!(ast(""), Err(ParseError::EmptyExpression { .. })));
}

#[test]
fn unclosed_constructs_hit_end_of_input() {
    assert!(matches!(ast("("), Err(ParseError::UnexpectedEof { .. })));
    assert!(matches!(ast("["), Err(ParseError::UnexpectedEof { .. })));
    assert!(matches!(ast("\\"), Err(ParseError::UnexpectedEof { .. })));
    assert!(matches!(ast("(a"), Err(ParseError::UnexpectedEof { .. })));
    assert!(matches!(ast("[a"), Err(ParseError::UnexpectedEof { .. })));
    assert!(matches!(ast("[\\d"), Err(ParseError::UnexpectedEof { .. })));
}

#[test]
fn misplaced_operators_are_unexpected_tokens() {
    for (s, t) in [(")", ')'), ("*", '*'), ("+", '+'), ("?", '?'), ("|", '|')] {
        match ast(s) {
            Err(ParseError::UnexpectedToken { token, span, .. }) => {
                assert_eq!(token, t);
                assert_eq!(span.start(), 0);
                assert_eq!(span.text(), s);
            }
            other => panic!("{}: {:?}", s, other),
        }
    }
    assert!(matches!(ast("a)"), Err(ParseError::UnexpectedToken { token: ')', .. })));
    assert!(matches!(ast("a|*"), Err(ParseError::UnexpectedToken { token: '*', .. })));
}

#[test]
fn empty_group_and_class_yield_nothing() {
    assert!(matches!(ast("()"), Err(ParseError::EmptyExpression { .. })));
    assert!(matches!(ast("[]"), Err(ParseError::EmptyExpression { .. })));
    assert_eq!(ranges(&ast("()a").unwrap()), atom_of('a'));
    assert_eq!(ranges(&ast("[]a").unwrap()), atom_of('a'));
}

#[test]
fn negated_class_complements() {
    let e = ast("[^a]").unwrap();
    assert!(!holds(&e, 'a'));
    assert!(holds(&e, 'b'));
    assert!(holds(&e, '\n'));
    assert!(holds(&e, '\u{10FFFF}'));
}

#[test]
fn class_ranges_and_reversed_ranges() {
    assert_eq!(ranges(&ast("[a-z]").unwrap()), vec![('a' as u32, 'z' as u32)]);
    assert!(matches!(ast("[z-a]"), Err(ParseError::EmptyExpression { .. })));
    assert_eq!(ranges(&ast("[z-ab]").unwrap()), atom_of('b'));
}

#[test]
fn escaped_digit_class_in_brackets() {
    assert_eq!(ranges(&ast("[\\d]").unwrap()), ranges(&Expr::Atom(CharClass::decimal_number())));
    assert_eq!(ranges(&ast("\\d").unwrap()), vec![(48, 57)]);
}

#[test]
fn escapes_outside_classes() {
    let w = ast("\\w").unwrap();
    assert!(holds(&w, '_') && holds(&w, 'Q') && !holds(&w, '-'));
    let s = ast("\\S").unwrap();
    assert!(!holds(&s, ' ') && holds(&s, 'x'));
    assert_eq!(ranges(&ast("\\n").unwrap()), atom_of('\n'));
    assert_eq!(ranges(&ast("\\*").unwrap()), atom_of('*'));
    let d = ast("\\D").unwrap();
    assert!(!holds(&d, '5') && holds(&d, 'x'));
}

#[test]
fn dash_next_to_a_class_is_literal() {
    let e = ast("[a-\\d]").unwrap();
    assert!(holds(&e, 'a') && holds(&e, '-') && holds(&e, '7') && !holds(&e, 'b'));
}

#[test]
fn wildcard_is_all_but_newline() {
    let e = ast(".").unwrap();
    assert!(holds(&e, 'x') && !holds(&e, '\n'));
}

#[test]
fn nfa_parser_builds_automata() {
    let p: NFAParser = Parser::new();
    let n = p.parse("a").unwrap().unwrap();
    assert_eq!(n.total_states, 2);
    assert_eq!(n.final_states, vec![false, true]);
    assert_eq!(n.edges.len(), 1);
    let n = p.parse("ab").unwrap().unwrap();
    assert_eq!(n.total_states, 5);
    let n = p.parse("a*").unwrap().unwrap();
    assert_eq!(n.total_states, 3);
    assert_eq!(n.final_states[n.start_state], true);
    let n = p.parse("a|b").unwrap().unwrap();
    assert_eq!(n.total_states, 5);
    assert_eq!(n.final_states.iter().filter(|f| **f).count(), 2);
    let n = p.parse("a?").unwrap().unwrap();
    assert_eq!(n.total_states, 4);
    assert!(p.parse("(").is_err());
}

#[test]
fn parse_input_cursor() {
    let mut input = ParseInput::new("hé!");
    assert_eq!(input.expr(), &vec!['h', 'é', '!']);
    assert_eq!(input.peek(), Some((0, 'h')));
    assert!(input.peek_is('h'));
    assert_eq!(input.next(), Some((0, 'h')));
    assert_eq!(input.current_span().text(), "h");
    assert_eq!(input.next_unchecked(), (1, 'é'));
    assert_eq!(input.current_span().text(), "é");
    assert!(matches!(
        input.next_checked('?', vec!['?']),
        Err(ParseError::UnexpectedToken { token: '!', .. })
    ));
    assert!(input.is_empty());
    assert!(matches!(input.next_unwrap(vec![]), Err(ParseError::UnexpectedEof { .. })));
    assert!(matches!(input.next_checked('x', vec!['x']), Err(ParseError::UnexpectedEof { .. })));
    assert_eq!(input.current_eof_span().start(), 3);
}

#[test]
fn class_algebra() {
    let mut c = CharClass::from_char('a');
    assert!(c.is_single());
    c.add_range(ClassRange::new('x', 'z'));
    assert!(!c.is_single());
    assert!(c.contains_char('y') && !c.contains_char('b'));
    let n = c.complement();
    assert!(!n.contains_char('y') && n.contains_char('b'));
    assert_eq!(n.complement().ranges.len() >= 1, true);
    assert!(CharClass::new().is_empty());
    assert!(CharClass::from_range('z', 'a').is_empty());
    let mut w = CharClass::whitespace();
    assert!(w.contains_char('\t') && w.contains_char(' ') && !w.contains_char('a'));
    w.add_other(CharClass::newline());
    assert!(w.contains_char('\n'));
    assert_eq!(ParseError::EmptyExpression { span: ParseInput::new("").current_eof_span() }.message(), "empty regular expression");
}

#[test]
fn error_messages() {
    let eof = ParseInput::new("").current_eof_span();
    assert_eq!(ParseError::UnexpectedEof { span: eof, expected: vec![] }.message(), "unexpected end-of-file");
    let eof = ParseInput::new("").current_eof_span();
    assert_eq!(
        ParseError::UnexpectedToken { span: eof, token: 'x', expected: vec![] }.message(),
        "unexpected token"
    );
    let eof = ParseInput::new("").current_eof_span();
    assert_eq!(ParseError::UnbalancedParentheses { span: eof }.message(), "unbalanced parentheses");
}

#[test]
fn nested_groups_and_alternation_inside() {
    match ast("(a|b)c").unwrap() {
        Expr::Binary(BinaryOp::Concat, l, r) => {
            assert!(matches!(*l, Expr::Binary(BinaryOp::Alternate, _, _)));
            assert_eq!(ranges(&r), atom_of('c'));
        }
        other => panic!("{:?}", other),
    }
    assert!(matches!(ast("((a)"), Err(ParseError::UnexpectedEof { .. })));
}

#[test]
fn positions_are_byte_offsets() {
    let mut input = ParseInput::new("éa");
    assert_eq!(input.next(), Some((0, 'é')));
    assert_eq!(input.peek(), Some((2, 'a')));
    assert_eq!(input.next(), Some((2, 'a')));
    assert_eq!(input.char_pos, 2);
    assert_eq!(input.next(), None);
    assert_eq!(input.char_pos, 2);
    match input.next_checked('x', vec!['x', 'y']) {
        Err(ParseError::UnexpectedEof { span, expected }) => {
            assert_eq!(expected, vec!['x', 'y']);
            assert_eq!((span.start(), span.end(), span.text()), (2, 2, ""));
        }
        other => panic!("{:?}", other),
    }
    let mut input = ParseInput::new("€b");
    match input.next_checked('a', vec!['a']) {
        Err(ParseError::UnexpectedToken { span, token, expected }) => {
            assert_eq!(token, '€');
            assert_eq!(expected, vec!['a']);
            assert_eq!((span.start(), span.end(), span.text()), (0, 0, "€"));
        }
        other => panic!("{:?}", other),
    }
    assert_eq!(input.char_pos, 0);
    assert_eq!(input.next_unwrap(vec![]).unwrap(), (3, 'b'));
}
