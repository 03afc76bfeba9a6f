use vstd::prelude::*;
use vstd::std_specs::iter::IteratorSpec;
use vstd::utf8::{encode_scalar, encode_utf8};

verus! {

broadcast use vstd::string::group_string_axioms, vstd::utf8::char_is_scalar;

/// The byte offset of character `i` of `s` in its UTF-8 encoding.
pub open spec fn byte_offset_of(s: Seq<char>, i: int) -> int {
    encode_utf8(s.take(i)).len() as int
}

/// The encoding of two sequences one after the other is the two encodings
/// one after the other.
pub proof fn lemma_encode_concat(a: Seq<char>, b: Seq<char>)
    ensures
        encode_utf8(a + b) == encode_utf8(a) + encode_utf8(b),
    decreases a.len(),
{
    if a.len() == 0 {
        assert(a + b == b);
        assert(encode_utf8(a) + encode_utf8(b) == encode_utf8(b));
    } else {
        lemma_encode_concat(a.drop_first(), b);
        assert((a + b).drop_first() == a.drop_first() + b);
        assert((a + b)[0] == a[0]);
    }
}

/// The offset of the next character is that of this one plus its width,
/// and no offset passes the length of the whole encoding.
proof fn lemma_offset_step(s: Seq<char>, i: int)
    requires
        0 <= i < s.len(),
    ensures
        byte_offset_of(s, i + 1) == byte_offset_of(s, i) + encode_scalar(s[i] as u32).len(),
        byte_offset_of(s, i + 1) <= encode_utf8(s).len(),
{
    lemma_encode_concat(s.take(i), seq![s[i]]);
    assert(s.take(i + 1) == s.take(i) + seq![s[i]]);
    assert(seq![s[i]].drop_first() == Seq::<char>::empty());
    assert(encode_utf8(seq![s[i]]) == encode_scalar(s[i] as u32) + encode_utf8(Seq::<char>::empty()));
    assert(encode_scalar(s[i] as u32) + encode_utf8(Seq::<char>::empty()) == encode_scalar(s[i] as u32));
    lemma_encode_concat(s.take(i + 1), s.skip(i + 1));
    assert(s.take(i + 1) + s.skip(i + 1) == s);
}

/// The number of bytes of the UTF-8 encoding of `c`.
fn utf8_width(c: char) -> (r: usize)
    ensures
        r == encode_scalar(c as u32).len(),
{
    let v = c as u32;
    if v <= 0x7F {
        1
    } else if v <= 0x7FF {
        2
    } else if v <= 0xFFFF {
        3
    } else {
        4
    }
}

/// The byte offset of each character of `chars`, the characters of `s`.
fn offsets_of(s: &str, chars: &Vec<char>) -> (v: Vec<usize>)
    requires
        chars@ == s@,
    ensures
        v@.len() == chars@.len(),
        forall|k: int| 0 <= k < v@.len() ==> v@[k] == byte_offset_of(chars@, k),
{
    let total = s.as_bytes().len();
    let mut v: Vec<usize> = Vec::new();
    let mut pos: usize = 0;
    let mut i: usize = 0;
    assert(chars@.take(0) == Seq::<char>::empty());
    while i < chars.len()
        invariant
            i <= chars@.len(),
            chars@ == s@,
            total == encode_utf8(chars@).len(),
            v@.len() == i,
            forall|k: int| 0 <= k < i ==> v@[k] == byte_offset_of(chars@, k),
            pos == byte_offset_of(chars@, i as int),
        decreases chars@.len() - i,
    {
        v.push(pos);
        proof {
            lemma_offset_step(chars@, i as int);
        }
        pos = pos + utf8_width(chars[i]);
        i = i + 1;
    }
    v
}

/// The characters of the string, in order.
fn chars_of(s: &str) -> (v: Vec<char>)
    ensures
        v@ == s@,
{
    let mut v: Vec<char> = Vec::new();
    let mut it = s.chars();
    loop
        invariant
            v@ + it.remaining() == s@,
            it.decrease() is Some,
        ensures
            v@ == s@,
        decreases it.decrease()->0,
    {
        match it.next() {
            Some(c) => {
                v.push(c);
            },
            None => {
                assert(v@ + it.remaining() =~= v@);
                break;
            },
        }
    }
    v
}

/// Relies on `char::to_string`: the string of that one character.
#[verifier::external_body]
fn string_of_char(c: char) -> (s: String)
    ensures
        s@ == seq![c],
{
    c.to_string()
}

/// A piece of the source, for diagnostics: character positions and text.
#[derive(Debug)]
pub struct Span {
    pub start: usize,
    pub end: usize,
    pub text: String,
}

impl Span {
    pub fn new(start: usize, end: usize, text: String) -> (s: Span)
        ensures
            s.start == start,
            s.end == end,
            s.text@ == text@,
    {
        Span { start, end, text }
    }

    pub fn start(&self) -> (r: usize)
        ensures
            r == self.start,
    {
        self.start
    }

    pub fn end(&self) -> (r: usize)
        ensures
            r == self.end,
    {
        self.end
    }

    pub fn text(&self) -> (r: &str)
        ensures
            r@ == self.text@,
    {
        self.text.as_str()
    }
}

/// Why a regular expression was refused.
#[derive(Debug)]
pub enum ParseError {
    /// An expression or subexpression starts at the end of the input.
    EmptyExpression { span: Span },
    /// A character stands where it may not.
    UnexpectedToken { span: Span, token: char, expected: Vec<char> },
    /// The input ended where more was required.
    UnexpectedEof { span: Span, expected: Vec<char> },
    /// Operators without operands; reserved for stricter validation.
    UnbalancedOperators { span: Span },
    /// Unclosed parentheses; reserved for stricter validation.
    UnbalancedParentheses { span: Span },
    /// An empty bracketed class; reserved for stricter validation.
    EmptyCharacterClass { span: Span },
}

impl ParseError {
    /// A short description of the error.
    pub fn message(&self) -> (r: &'static str)
        ensures
            self is EmptyExpression ==> r@ == "empty regular expression"@,
            self is UnexpectedToken ==> r@ == "unexpected token"@,
            self is UnexpectedEof ==> r@ == "unexpected end-of-file"@,
            self is UnbalancedOperators ==> r@ == "unbalanced operators"@,
            self is UnbalancedParentheses ==> r@ == "unbalanced parentheses"@,
            self is EmptyCharacterClass ==> r@ == "empty character class"@,
    {
        match self {
            ParseError::EmptyExpression { .. } => "empty regular expression",
            ParseError::UnexpectedToken { .. } => "unexpected token",
            ParseError::UnexpectedEof { .. } => "unexpected end-of-file",
            ParseError::UnbalancedOperators { .. } => "unbalanced operators",
            ParseError::UnbalancedParentheses { .. } => "unbalanced parentheses",
            ParseError::EmptyCharacterClass { .. } => "empty character class",
        }
    }
}

/// A cursor over the characters of a regular expression.
#[derive(Debug)]
pub struct ParseInput {
    /// The characters of the source.
    pub expr: Vec<char>,
    /// The byte offset of each character in the source.
    pub offsets: Vec<usize>,
    /// How many characters have been read.
    pub next_pos: usize,
    /// Byte offset of the character read last.
    pub char_pos: usize,
}

impl ParseInput {
    pub open spec fn wf(&self) -> bool {
        &&& self.next_pos <= self.expr@.len()
        &&& self.offsets@.len() == self.expr@.len()
        &&& forall|k: int|
            0 <= k < self.offsets@.len() ==> #[trigger] self.offsets@[k] == byte_offset_of(self.expr@, k)
    }

    /// The byte offset of character `i` of the source.
    pub open spec fn offset_at(&self, i: int) -> usize {
        byte_offset_of(self.expr@, i) as usize
    }

    /// The character at the cursor with its byte offset, if any.
    pub open spec fn peek_item(&self) -> Option<(usize, char)> {
        if self.next_pos < self.expr@.len() {
            Some((self.offset_at(self.next_pos as int), self.expr@[self.next_pos as int]))
        } else {
            None
        }
    }

    /// The character at the cursor, if any.
    pub open spec fn peek_spec(&self) -> Option<char> {
        if self.next_pos < self.expr@.len() {
            Some(self.expr@[self.next_pos as int])
        } else {
            None
        }
    }

    /// The same source, the cursor no further back.
    pub open spec fn advanced_from(&self, old: &ParseInput) -> bool {
        &&& self.wf()
        &&& self.expr@ == old.expr@
        &&& self.offsets@ == old.offsets@
        &&& old.next_pos <= self.next_pos <= self.expr@.len()
    }

    pub fn new(expr: &str) -> (p: ParseInput)
        ensures
            p.wf(),
            p.expr@ == expr@,
            p.next_pos == 0,
            p.char_pos == 0,
    {
        let chars = chars_of(expr);
        let offsets = offsets_of(expr, &chars);
        ParseInput { expr: chars, offsets, next_pos: 0, char_pos: 0 }
    }

    /// Reads the next character with its position.
    pub fn next(&mut self) -> (r: Option<(usize, char)>)
        requires
            old(self).wf(),
        ensures
            final(self).advanced_from(&*old(self)),
            r == old(self).peek_item(),
            r matches Some((b, _)) ==> final(self).next_pos == old(self).next_pos + 1
                && final(self).char_pos == b,
            r is None ==> *final(self) == *old(self),
    {
        if self.next_pos < self.expr.len() {
            let c = self.expr[self.next_pos];
            let p = self.next_pos;
            let b = self.offsets[p];
            self.char_pos = b;
            self.next_pos = p + 1;
            Some((b, c))
        } else {
            None
        }
    }

    /// Reads the next character, or fails with `UnexpectedEof`.
    pub fn next_unwrap(&mut self, expected: Vec<char>) -> (r: Result<(usize, char), ParseError>)
        requires
            old(self).wf(),
        ensures
            final(self).advanced_from(&*old(self)),
            match old(self).peek_item() {
                Some((b, c)) => r == Ok::<(usize, char), ParseError>((b, c))
                    && final(self).next_pos == old(self).next_pos + 1 && final(self).char_pos == b,
                None => (r matches Err(ParseError::UnexpectedEof { span, expected: e }) && e@
                    == expected@ && span.start == old(self).next_pos && span.end
                    == old(self).next_pos && span.text@.len() == 0) && *final(self) == *old(self),
            },
    {
        match self.next() {
            Some(c) => Ok(c),
            None => Err(ParseError::UnexpectedEof { span: self.current_eof_span(), expected }),
        }
    }

    /// Reads the next character, which must be there.
    pub fn next_unchecked(&mut self) -> (r: (usize, char))
        requires
            old(self).wf(),
            old(self).next_pos < old(self).expr@.len(),
        ensures
            final(self).advanced_from(&*old(self)),
            Some(r) == old(self).peek_item(),
            final(self).next_pos == old(self).next_pos + 1,
            final(self).char_pos == r.0,
    {
        match self.next() {
            Some(c) => c,
            None => (0, '\0'),
        }
    }

    /// Reads the next character, which must be `check`: otherwise
    /// `UnexpectedToken`, or `UnexpectedEof` at the end.
    pub fn next_checked(&mut self, check: char, expected: Vec<char>) -> (r: Result<
        (usize, char),
        ParseError,
    >)
        requires
            old(self).wf(),
        ensures
            final(self).advanced_from(&*old(self)),
            match old(self).peek_item() {
                Some((b, c)) => final(self).next_pos == old(self).next_pos + 1 && final(self).char_pos
                    == b && if c == check {
                    r == Ok::<(usize, char), ParseError>((b, c))
                } else {
                    r matches Err(ParseError::UnexpectedToken { span, token, expected: e }) && token
                        == c && e@ == expected@ && span.start == old(self).next_pos && span.end
                        == old(self).next_pos && span.text@ == seq![c]
                },
                None => (r matches Err(ParseError::UnexpectedEof { span, expected: e }) && e@
                    == expected@ && span.start == old(self).next_pos && span.end
                    == old(self).next_pos && span.text@.len() == 0) && *final(self) == *old(self),
            },
    {
        match self.next() {
            Some(next) => {
                if next.1 == check {
                    Ok(next)
                } else {
                    Err(
                        ParseError::UnexpectedToken {
                            span: self.current_span(),
                            token: next.1,
                            expected,
                        },
                    )
                }
            },
            None => Err(ParseError::UnexpectedEof { span: self.current_eof_span(), expected }),
        }
    }

    /// The next character with its position, without reading it.
    pub fn peek(&self) -> (r: Option<(usize, char)>)
        requires
            self.wf(),
        ensures
            r == self.peek_item(),
    {
        if self.next_pos < self.expr.len() {
            Some((self.offsets[self.next_pos], self.expr[self.next_pos]))
        } else {
            None
        }
    }

    /// Whether the next character is `expected`.
    pub fn peek_is(&self, expected: char) -> (r: bool)
        requires
            self.wf(),
        ensures
            r == (self.peek_spec() == Some(expected)),
    {
        match self.peek() {
            Some(p) => p.1 == expected,
            None => false,
        }
    }

    /// Whether every character has been read.
    pub fn is_empty(&self) -> (r: bool)
        ensures
            r == (self.peek_spec() is None),
    {
        self.next_pos >= self.expr.len()
    }

    /// The characters of the source.
    pub fn expr(&self) -> (r: &Vec<char>)
        ensures
            r@ == self.expr@,
    {
        &self.expr
    }

    /// The span of the character read last (empty before any).
    pub fn current_span(&self) -> (s: Span)
        requires
            self.wf(),
        ensures
            s.start == s.end,
            s.start == (if self.next_pos == 0 { 0 } else { self.next_pos - 1 }),
            s.text@ == (if self.next_pos == 0 {
                Seq::<char>::empty()
            } else {
                seq![self.expr@[self.next_pos - 1]]
            }),
    {
        let pos = if self.next_pos == 0 {
            0
        } else {
            self.next_pos - 1
        };
        let text = if self.next_pos == 0 {
            String::new()
        } else {
            string_of_char(self.expr[pos])
        };
        Span::new(pos, pos, text)
    }

    /// The empty span at the cursor.
    pub fn current_eof_span(&self) -> (s: Span)
        ensures
            s.start == self.next_pos,
            s.end == self.next_pos,
            s.text@.len() == 0,
    {
        let pos = self.next_pos;
        Span::new(pos, pos, String::new())
    }
}

} // verus!
