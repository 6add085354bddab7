//! The lexical scanner: one forward pass over the source, one-character
//! lookahead, no backtracking. Every method is proved against the model in
//! `crate::model`.

use vstd::prelude::*;

use crate::errors::ErrorModel;
use crate::errors::LoxError;
use crate::model::count_nl;
use crate::model::digit_end;
use crate::model::eof_token;
use crate::model::ident_end;
use crate::model::ident_kind;
use crate::model::is_alpha_char;
use crate::model::is_alpha_numeric_char;
use crate::model::is_digit_char;
use crate::model::next_of;
use crate::model::scan_from;
use crate::model::spec_scan;
use crate::model::step;
use crate::model::lemma_step_in_bounds;
use crate::object::literal_model;
use crate::object::Object;
use crate::token::Token;
use crate::token::TokenModel;
use crate::token_type::TokenType;

verus! {

/// The views of a token list, in order.
pub open spec fn tokens_model(ts: Seq<Token>) -> Seq<TokenModel> {
    ts.map_values(|t: Token| t@)
}

/// The views of a diagnostic list, in order.
pub open spec fn errors_model(es: Seq<LoxError>) -> Seq<ErrorModel> {
    es.map_values(|e: LoxError| e@)
}

proof fn lemma_tokens_model_push(ts: Seq<Token>, t: Token)
    ensures
        tokens_model(ts.push(t)) == tokens_model(ts).push(t@),
{
    assert(tokens_model(ts.push(t)) =~= tokens_model(ts).push(t@));
}

proof fn lemma_errors_model_push(es: Seq<LoxError>, e: LoxError)
    ensures
        errors_model(es.push(e)) == errors_model(es).push(e@),
{
    assert(errors_model(es.push(e)) =~= errors_model(es).push(e@));
}

/// Relies on String::push: appends the one character to the end of the string.
#[verifier::external_body]
fn push_char(s: &mut String, c: char)
    ensures
        final(s)@ == old(s)@.push(c),
{
    s.push(c);
}

/// A decimal digit.
pub fn is_digit(c: char) -> (b: bool)
    ensures
        b == is_digit_char(c),
{
    c >= '0' && c <= '9'
}

/// An ASCII letter or underscore.
pub fn is_alpha(c: char) -> (b: bool)
    ensures
        b == is_alpha_char(c),
{
    (c >= 'a' && c <= 'z') || (c >= 'A' && c <= 'Z') || c == '_'
}

/// A character that may extend an identifier.
pub fn is_alpha_numeric(c: char) -> (b: bool)
    ensures
        b == is_alpha_numeric_char(c),
{
    is_alpha(c) || is_digit(c)
}

/// Whether the source range `[from, to)` is exactly the text of `pat`.
fn range_matches(src: &Vec<char>, from: usize, to: usize, pat: &str) -> (b: bool)
    requires
        from <= to <= src@.len(),
    ensures
        b == (src@.subrange(from as int, to as int) == pat@),
{
    let n = pat.unicode_len();
    if to - from != n {
        proof {
            assert(src@.subrange(from as int, to as int).len() == to - from);
        }
        return false;
    }
    let mut i: usize = 0;
    while i < n
        invariant
            0 <= i <= n,
            n == pat@.len(),
            to - from == n,
            from <= to <= src@.len(),
            forall|j: int| 0 <= j < i ==> src@[from + j] == pat@[j],
        decreases n - i,
    {
        if src[from + i] != pat.get_char(i) {
            proof {
                assert(src@.subrange(from as int, to as int)[i as int] == src@[from + i]);
            }
            return false;
        }
        i += 1;
    }
    proof {
        assert(src@.subrange(from as int, to as int) =~= pat@);
    }
    true
}

/// The kind of the identifier lexeme held in the source range `[from, to)`:
/// a reserved-word kind on an exact match against the keyword table, the
/// generic identifier kind otherwise.
fn keyword_or_identifier(src: &Vec<char>, from: usize, to: usize) -> (t: TokenType)
    requires
        from <= to <= src@.len(),
    ensures
        t == ident_kind(src@.subrange(from as int, to as int)),
{
    if range_matches(src, from, to, "and") {
        TokenType::And
    } else if range_matches(src, from, to, "class") {
        TokenType::Class
    } else if range_matches(src, from, to, "else") {
        TokenType::Else
    } else if range_matches(src, from, to, "false") {
        TokenType::False
    } else if range_matches(src, from, to, "for") {
        TokenType::For
    } else if range_matches(src, from, to, "fun") {
        TokenType::Fun
    } else if range_matches(src, from, to, "if") {
        TokenType::If
    } else if range_matches(src, from, to, "nil") {
        TokenType::Nil
    } else if range_matches(src, from, to, "or") {
        TokenType::Or
    } else if range_matches(src, from, to, "print") {
        TokenType::Print
    } else if range_matches(src, from, to, "return") {
        TokenType::Return
    } else if range_matches(src, from, to, "super") {
        TokenType::Super
    } else if range_matches(src, from, to, "this") {
        TokenType::This
    } else if range_matches(src, from, to, "true") {
        TokenType::True
    } else if range_matches(src, from, to, "var") {
        TokenType::Var
    } else if range_matches(src, from, to, "while") {
        TokenType::While
    } else {
        TokenType::Identifier
    }
}

/// The scanner: the source indexed by character, the tokens and diagnostics
/// collected so far, and the cursor — the start of the current lexeme, the
/// next unread position, and the current 1-based line.
pub struct Scanner {
    pub source: Vec<char>,
    pub tokens: Vec<Token>,
    pub errors: Vec<LoxError>,
    pub start: usize,
    pub current: usize,
    pub line: usize,
}

impl Scanner {
    /// The cursor invariant: the lexeme start never passes the cursor, the
    /// cursor never passes the end, and the line counter stays within what
    /// the consumed input can have held, so it never overflows.
    pub open spec fn wf(self) -> bool {
        self.start <= self.current <= self.source@.len() && self.source@.len() < usize::MAX
            && 1 <= self.line && self.line <= 1 + self.current
    }

    /// A scanner that has not consumed anything yet.
    pub open spec fn is_fresh(self) -> bool {
        self.start == 0 && self.current == 0 && self.line == 1 && self.tokens@.len() == 0
            && self.errors@.len() == 0
    }

    /// Builds a fresh scanner over the characters of `source`. The length
    /// bound keeps the line counter within `usize` on any input.
    pub fn from_source(source: String) -> (s: Scanner)
        requires
            source@.len() < usize::MAX,
        ensures
            s.wf(),
            s.is_fresh(),
            s.source@ == source@,
    {
        let n = source.as_str().unicode_len();
        let mut chars: Vec<char> = Vec::new();
        let mut i: usize = 0;
        while i < n
            invariant
                0 <= i <= n,
                n == source@.len(),
                chars@ == source@.subrange(0, i as int),
        decreases n - i,
        {
            let c = source.as_str().get_char(i);
            chars.push(c);
            i += 1;
            proof {
                assert(chars@ =~= source@.subrange(0, i as int));
            }
        }
        proof {
            assert(chars@ =~= source@);
        }
        Scanner { source: chars, tokens: Vec::new(), errors: Vec::new(), start: 0, current: 0, line: 1 }
    }

    /// Whether the cursor has reached the end of the input.
    fn is_at_end(&self) -> (b: bool)
        ensures
            b == (self.current >= self.source@.len()),
    {
        self.current >= self.source.len()
    }

    /// The next unread character, or the null character at the end of the
    /// input; the cursor does not move.
    fn peek(&self) -> (c: char)
        requires
            self.current <= self.source@.len(),
        ensures
            c == (if self.current < self.source@.len() {
                self.source@[self.current as int]
            } else {
                '\0'
            }),
    {
        if self.is_at_end() {
            '\0'
        } else {
            self.source[self.current]
        }
    }

    /// The character after the next unread one, or the null character where
    /// the input is too short; the cursor does not move.
    fn peek_next(&self) -> (c: char)
        requires
            self.current < self.source@.len(),
            self.source@.len() < usize::MAX,
        ensures
            c == (if self.current + 1 < self.source@.len() {
                self.source@[self.current + 1]
            } else {
                '\0'
            }),
    {
        if self.current + 1 >= self.source.len() {
            '\0'
        } else {
            self.source[self.current + 1]
        }
    }

    /// Consumes and returns the next character.
    fn advance(&mut self) -> (c: char)
        requires
            old(self).wf(),
            old(self).current < old(self).source@.len(),
        ensures
            final(self).wf(),
            c == old(self).source@[old(self).current as int],
            final(self).current == old(self).current + 1,
            final(self).source@ == old(self).source@,
            final(self).tokens@ == old(self).tokens@,
            final(self).errors@ == old(self).errors@,
            final(self).start == old(self).start,
            final(self).line == old(self).line,
    {
        let c = self.source[self.current];
        self.current = self.current + 1;
        c
    }

    /// Consumes the next character exactly when it is `expected`.
    fn matches(&mut self, expected: char) -> (b: bool)
        requires
            old(self).wf(),
        ensures
            final(self).wf(),
            b == (old(self).current < old(self).source@.len() && old(self).source@[old(
                self,
            ).current as int] == expected),
            final(self).current == old(self).current + (if b {
                1int
            } else {
                0int
            }),
            final(self).source@ == old(self).source@,
            final(self).tokens@ == old(self).tokens@,
            final(self).errors@ == old(self).errors@,
            final(self).start == old(self).start,
            final(self).line == old(self).line,
    {
        if self.is_at_end() {
            return false;
        }
        let c = self.source[self.current];
        if c != expected {
            return false;
        }
        self.current = self.current + 1;
        true
    }

    /// An owned copy of the source range `[from, to)`.
    fn substring(&self, from: usize, to: usize) -> (s: String)
        requires
            from <= to <= self.source@.len(),
        ensures
            s@ == self.source@.subrange(from as int, to as int),
    {
        let mut s = String::new();
        let mut i: usize = from;
        while i < to
            invariant
                from <= i <= to <= self.source@.len(),
                s@ == self.source@.subrange(from as int, i as int),
            decreases to - i,
        {
            push_char(&mut s, self.source[i]);
            i += 1;
            proof {
                assert(s@ =~= self.source@.subrange(from as int, i as int));
            }
        }
        s
    }

    /// Appends a token whose lexeme is the current one, `[start, current)`.
    fn add_token_literal(&mut self, typ: TokenType, literal: Option<Object>)
        requires
            old(self).wf(),
        ensures
            final(self).wf(),
            tokens_model(final(self).tokens@) == tokens_model(old(self).tokens@).push(
                (TokenModel {
                    kind: typ,
                    lexeme: old(self).source@.subrange(
                        old(self).start as int,
                        old(self).current as int,
                    ),
                    literal: literal_model(literal),
                    line: old(self).line as int,
                }),
            ),
            final(self).errors@ == old(self).errors@,
            final(self).source@ == old(self).source@,
            final(self).start == old(self).start,
            final(self).current == old(self).current,
            final(self).line == old(self).line,
    {
        let text = self.substring(self.start, self.current);
        let t = Token::new(typ, text, literal, self.line);
        proof {
            lemma_tokens_model_push(self.tokens@, t);
        }
        self.tokens.push(t);
    }

    /// Appends a token with no literal value.
    fn add_token(&mut self, typ: TokenType)
        requires
            old(self).wf(),
        ensures
            final(self).wf(),
            tokens_model(final(self).tokens@) == tokens_model(old(self).tokens@).push(
                (TokenModel {
                    kind: typ,
                    lexeme: old(self).source@.subrange(
                        old(self).start as int,
                        old(self).current as int,
                    ),
                    literal: Option::None,
                    line: old(self).line as int,
                }),
            ),
            final(self).errors@ == old(self).errors@,
            final(self).source@ == old(self).source@,
            final(self).start == old(self).start,
            final(self).current == old(self).current,
            final(self).line == old(self).line,
    {
        self.add_token_literal(typ, Option::None)
    }

    /// Appends a diagnostic at line `line` with message `message`.
    fn add_error(&mut self, line: usize, message: String)
        requires
            old(self).wf(),
        ensures
            final(self).wf(),
            errors_model(final(self).errors@) == errors_model(old(self).errors@).push(
                (ErrorModel { line: line as int, message: message@ }),
            ),
            final(self).tokens@ == old(self).tokens@,
            final(self).source@ == old(self).source@,
            final(self).start == old(self).start,
            final(self).current == old(self).current,
            final(self).line == old(self).line,
    {
        let e = LoxError::error(line, message);
        proof {
            lemma_errors_model_push(self.errors@, e);
        }
        self.errors.push(e);
    }

    /// Scans a string literal. The opening quote sits at `start` and has
    /// been consumed. Newlines inside the string advance the line counter;
    /// a string that never closes yields the "unterminated string"
    /// diagnostic at its opening line and no token.
    fn string(&mut self)
        requires
            old(self).wf(),
            old(self).start < old(self).source@.len(),
            old(self).current == old(self).start + 1,
            old(self).source@[old(self).start as int] == '"',
        ensures
            final(self).wf(),
            final(self).source@ == old(self).source@,
            final(self).start == old(self).start,
            ({
                let s = step(old(self).source@, old(self).start as int, old(self).line as int);
                final(self).current == s.pos && final(self).line == s.line && tokens_model(
                    final(self).tokens@,
                ) == tokens_model(old(self).tokens@) + s.tokens && errors_model(
                    final(self).errors@,
                ) == errors_model(old(self).errors@) + s.errors
            }),
    {
        let ghost src = self.source@;
        let ghost p = self.start as int;
        let start_line = self.line;
        loop
            invariant
                self.wf(),
                self.source@ == src,
                self.start as int == p,
                0 <= p < src.len(),
                src[p] == '"',
                p + 1 <= self.current <= src.len(),
                self.tokens@ == old(self).tokens@,
                self.errors@ == old(self).errors@,
                next_of(src, p + 1, '"') == next_of(src, self.current as int, '"'),
                self.line as int == start_line + count_nl(src, p + 1, self.current as int),
                start_line == old(self).line,
            ensures
                self.current as int >= src.len() || src[self.current as int] == '"',
            decreases src.len() - self.current,
        {
            if self.is_at_end() {
                break;
            }
            let c = self.peek();
            if c == '"' {
                break;
            }
            self.advance();
            if c == '\n' {
                self.line = self.line + 1;
            }
        }
        let ghost close = next_of(src, p + 1, '"');
        if self.is_at_end() {
            proof {
                assert(close == src.len());
            }
            let message = "Unterminated string.".to_owned();
            self.add_error(start_line, message);
            proof {
                let s = step(src, p, start_line as int);
                assert(tokens_model(self.tokens@) =~= tokens_model(old(self).tokens@) + s.tokens);
                assert(errors_model(self.errors@) =~= errors_model(old(self).errors@) + s.errors);
            }
            return;
        }
        proof {
            assert(close == self.current as int);
        }
        // The closing quote.
        self.advance();
        // The literal is the content strictly between the quotes.
        let value = self.substring(self.start + 1, self.current - 1);
        self.add_token_literal(TokenType::String, Option::Some(Object::Str(value)));
        proof {
            let s = step(src, p, start_line as int);
            assert(tokens_model(self.tokens@) =~= tokens_model(old(self).tokens@) + s.tokens);
            assert(errors_model(self.errors@) =~= errors_model(old(self).errors@) + s.errors);
        }
    }

    /// Scans a number literal. The opening digit sits at `start` and has
    /// been consumed. A dot joins the number only when a digit follows it;
    /// the literal keeps the exact lexeme.
    fn number(&mut self)
        requires
            old(self).wf(),
            old(self).start < old(self).source@.len(),
            old(self).current == old(self).start + 1,
            is_digit_char(old(self).source@[old(self).start as int]),
        ensures
            final(self).wf(),
            final(self).source@ == old(self).source@,
            final(self).start == old(self).start,
            ({
                let s = step(old(self).source@, old(self).start as int, old(self).line as int);
                final(self).current == s.pos && final(self).line == s.line && tokens_model(
                    final(self).tokens@,
                ) == tokens_model(old(self).tokens@) + s.tokens && errors_model(
                    final(self).errors@,
                ) == errors_model(old(self).errors@) + s.errors
            }),
    {
        let ghost src = self.source@;
        let ghost p = self.start as int;
        loop
            invariant
                self.wf(),
                self.source@ == src,
                self.start as int == p,
                0 <= p < src.len(),
                is_digit_char(src[p]),
                p + 1 <= self.current <= src.len(),
                self.tokens@ == old(self).tokens@,
                self.errors@ == old(self).errors@,
                self.line == old(self).line,
                digit_end(src, p) == digit_end(src, self.current as int),
            ensures
                !(self.current < src.len() && is_digit_char(src[self.current as int])),
            decreases src.len() - self.current,
        {
            if !is_digit(self.peek()) {
                break;
            }
            self.advance();
        }
        let ghost whole = digit_end(src, p);
        proof {
            assert(whole == self.current as int);
        }
        // The fractional part: only when the dot is followed by a digit.
        if self.peek() == '.' && is_digit(self.peek_next()) {
            // Consume the dot.
            self.advance();
            loop
                invariant
                    self.wf(),
                    self.source@ == src,
                    self.start as int == p,
                    0 <= p <= whole < src.len(),
                    whole + 1 <= self.current <= src.len(),
                    self.tokens@ == old(self).tokens@,
                    self.errors@ == old(self).errors@,
                    self.line == old(self).line,
                    digit_end(src, whole + 1) == digit_end(src, self.current as int),
                ensures
                    !(self.current < src.len() && is_digit_char(src[self.current as int])),
                decreases src.len() - self.current,
            {
                if !is_digit(self.peek()) {
                    break;
                }
                self.advance();
            }
        }
        let value = self.substring(self.start, self.current);
        self.add_token_literal(TokenType::Number, Option::Some(Object::Num(value)));
        proof {
            let s = step(src, p, old(self).line as int);
            assert(tokens_model(self.tokens@) =~= tokens_model(old(self).tokens@) + s.tokens);
            assert(errors_model(self.errors@) =~= errors_model(old(self).errors@) + s.errors);
        }
    }

    /// Scans an identifier or reserved word. The opening character sits at
    /// `start` and has been consumed.
    fn identifier(&mut self)
        requires
            old(self).wf(),
            old(self).start < old(self).source@.len(),
            old(self).current == old(self).start + 1,
            is_alpha_char(old(self).source@[old(self).start as int]),
        ensures
            final(self).wf(),
            final(self).source@ == old(self).source@,
            final(self).start == old(self).start,
            ({
                let s = step(old(self).source@, old(self).start as int, old(self).line as int);
                final(self).current == s.pos && final(self).line == s.line && tokens_model(
                    final(self).tokens@,
                ) == tokens_model(old(self).tokens@) + s.tokens && errors_model(
                    final(self).errors@,
                ) == errors_model(old(self).errors@) + s.errors
            }),
    {
        let ghost src = self.source@;
        let ghost p = self.start as int;
        loop
            invariant
                self.wf(),
                self.source@ == src,
                self.start as int == p,
                0 <= p < src.len(),
                is_alpha_char(src[p]),
                p + 1 <= self.current <= src.len(),
                self.tokens@ == old(self).tokens@,
                self.errors@ == old(self).errors@,
                self.line == old(self).line,
                ident_end(src, p) == ident_end(src, self.current as int),
            ensures
                !(self.current < src.len() && is_alpha_numeric_char(src[self.current as int])),
            decreases src.len() - self.current,
        {
            if !is_alpha_numeric(self.peek()) {
                break;
            }
            self.advance();
        }
        proof {
            assert(ident_end(src, p) == self.current as int);
        }
        let typ = keyword_or_identifier(&self.source, self.start, self.current);
        self.add_token(typ);
        proof {
            let s = step(src, p, old(self).line as int);
            assert(tokens_model(self.tokens@) =~= tokens_model(old(self).tokens@) + s.tokens);
            assert(errors_model(self.errors@) =~= errors_model(old(self).errors@) + s.errors);
        }
    }

    /// Scans one lexeme: dispatches on the next character and performs
    /// exactly what one `step` of the model says.
    fn scan_token(&mut self)
        requires
            old(self).wf(),
            old(self).start == old(self).current,
            old(self).current < old(self).source@.len(),
        ensures
            final(self).wf(),
            final(self).source@ == old(self).source@,
            old(self).current < final(self).current,
            ({
                let s = step(old(self).source@, old(self).current as int, old(self).line as int);
                final(self).current == s.pos && final(self).line == s.line && tokens_model(
                    final(self).tokens@,
                ) == tokens_model(old(self).tokens@) + s.tokens && errors_model(
                    final(self).errors@,
                ) == errors_model(old(self).errors@) + s.errors
            }),
    {
        let ghost src = self.source@;
        let ghost p = self.current as int;
        let ghost line0 = self.line as int;
        proof {
            lemma_step_in_bounds(src, p, line0);
        }
        let c = self.advance();
        match c {
            '(' => self.add_token(TokenType::LeftParen),
            ')' => self.add_token(TokenType::RightParen),
            '{' => self.add_token(TokenType::LeftBrace),
            '}' => self.add_token(TokenType::RightBrace),
            ',' => self.add_token(TokenType::Comma),
            '.' => self.add_token(TokenType::Dot),
            '-' => self.add_token(TokenType::Minus),
            '+' => self.add_token(TokenType::Plus),
            ';' => self.add_token(TokenType::Semicolon),
            '*' => self.add_token(TokenType::Star),
            '!' => {
                if self.matches('=') {
                    self.add_token(TokenType::BangEqual)
                } else {
                    self.add_token(TokenType::Bang)
                }
            },
            '=' => {
                if self.matches('=') {
                    self.add_token(TokenType::EqualEqual)
                } else {
                    self.add_token(TokenType::Equal)
                }
            },
            '<' => {
                if self.matches('=') {
                    self.add_token(TokenType::LessEqual)
                } else {
                    self.add_token(TokenType::Less)
                }
            },
            '>' => {
                if self.matches('=') {
                    self.add_token(TokenType::GreaterEqual)
                } else {
                    self.add_token(TokenType::Greater)
                }
            },
            '/' => {
                if self.matches('/') {
                    // A comment runs to the end of the line and emits nothing.
                    loop
                        invariant
                            self.wf(),
                            self.source@ == src,
                            self.start as int == p,
                            0 <= p,
                            p + 2 <= self.current <= src.len(),
                            self.tokens@ == old(self).tokens@,
                            self.errors@ == old(self).errors@,
                            self.line as int == line0,
                            next_of(src, p + 2, '\n') == next_of(src, self.current as int, '\n'),
                        ensures
                            self.current as int >= src.len() || src[self.current as int] == '\n',
                        decreases src.len() - self.current,
                    {
                        if self.is_at_end() {
                            break;
                        }
                        if self.peek() == '\n' {
                            break;
                        }
                        self.advance();
                    }
                } else {
                    self.add_token(TokenType::Slash)
                }
            },
            ' ' | '\r' | '\t' => {
                // Whitespace is discarded.
            },
            '\n' => {
                self.line = self.line + 1;
            },
            '"' => self.string(),
            _ => {
                if is_digit(c) {
                    self.number();
                } else if is_alpha(c) {
                    self.identifier();
                } else {
                    let message = "Unexpected character.".to_owned();
                    self.add_error(self.line, message);
                }
            },
        }
        proof {
            let s = step(src, p, line0);
            assert(tokens_model(self.tokens@) =~= tokens_model(old(self).tokens@) + s.tokens);
            assert(errors_model(self.errors@) =~= errors_model(old(self).errors@) + s.errors);
        }
    }

    /// Scans the whole source in one pass: afterwards the collected tokens
    /// and diagnostics are exactly those of the model, the token list
    /// closing with the single end-of-input token.
    pub fn scan_tokens(&mut self)
        requires
            old(self).wf(),
            old(self).is_fresh(),
        ensures
            final(self).wf(),
            final(self).source@ == old(self).source@,
            tokens_model(final(self).tokens@) == spec_scan(old(self).source@).tokens,
            errors_model(final(self).errors@) == spec_scan(old(self).source@).errors,
    {
        let ghost src = self.source@;
        proof {
            assert(tokens_model(self.tokens@) =~= Seq::<TokenModel>::empty());
            assert(errors_model(self.errors@) =~= Seq::<ErrorModel>::empty());
            assert(spec_scan(src).tokens =~= tokens_model(self.tokens@) + scan_from(
                src,
                self.current as int,
                self.line as int,
            ).tokens);
            assert(spec_scan(src).errors =~= errors_model(self.errors@) + scan_from(
                src,
                self.current as int,
                self.line as int,
            ).errors);
        }
        while !self.is_at_end()
            invariant
                self.wf(),
                self.source@ == src,
                spec_scan(src).tokens == tokens_model(self.tokens@) + scan_from(
                    src,
                    self.current as int,
                    self.line as int,
                ).tokens,
                spec_scan(src).errors == errors_model(self.errors@) + scan_from(
                    src,
                    self.current as int,
                    self.line as int,
                ).errors,
            decreases src.len() - self.current,
        {
            // The beginning of the next lexeme.
            self.start = self.current;
            let ghost pos0 = self.current as int;
            let ghost line_before = self.line as int;
            let ghost tokens_before = self.tokens@;
            let ghost errors_before = self.errors@;
            self.scan_token();
            proof {
                let s = step(src, pos0, line_before);
                let rest = scan_from(src, s.pos, s.line);
                assert(scan_from(src, pos0, line_before).tokens =~= s.tokens + rest.tokens);
                assert(scan_from(src, pos0, line_before).errors =~= s.errors + rest.errors);
                assert(tokens_model(tokens_before) + (s.tokens + rest.tokens) =~= (tokens_model(
                    tokens_before,
                ) + s.tokens) + rest.tokens);
                assert(errors_model(errors_before) + (s.errors + rest.errors) =~= (errors_model(
                    errors_before,
                ) + s.errors) + rest.errors);
            }
        }
        // The cursor reached the end: append the end-of-input token.
        let ghost end_line = self.line as int;
        let ghost tokens_before = self.tokens@;
        let t = Token::new(TokenType::EOF, String::new(), Option::None, self.line);
        proof {
            lemma_tokens_model_push(self.tokens@, t);
        }
        self.tokens.push(t);
        proof {
            assert(t@ =~= eof_token(end_line));
            assert(scan_from(src, src.len() as int, end_line).tokens =~= seq![eof_token(end_line)]);
            assert(scan_from(src, src.len() as int, end_line).errors =~= Seq::<ErrorModel>::empty());
            assert(tokens_model(self.tokens@) =~= tokens_model(tokens_before) + seq![
                eof_token(end_line),
            ]);
            assert(errors_model(self.errors@) + Seq::<ErrorModel>::empty() =~= errors_model(
                self.errors@,
            ));
        }
    }
}

} // verus!
