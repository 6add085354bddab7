//! The mathematical model of the scan.
//!
//! `spec_scan` folds a one-lexeme `step` function over the source until the
//! cursor reaches the end of the input, then appends the end-of-input token.
//! The executable `Scanner` is proved to produce exactly the tokens and
//! diagnostics of this model.

use vstd::prelude::*;

use crate::errors::ErrorModel;
use crate::object::ObjectModel;
use crate::token::TokenModel;
use crate::token_type::TokenType;

verus! {

/// A decimal digit.
pub open spec fn is_digit_char(c: char) -> bool {
    '0' <= c && c <= '9'
}

/// An ASCII letter or underscore: the characters that may open an identifier.
pub open spec fn is_alpha_char(c: char) -> bool {
    ('a' <= c && c <= 'z') || ('A' <= c && c <= 'Z') || c == '_'
}

/// A character that may extend an identifier.
pub open spec fn is_alpha_numeric_char(c: char) -> bool {
    is_alpha_char(c) || is_digit_char(c)
}

/// A punctuation character that always forms a one-character token on its
/// own. The slash is not among them: it may open a line comment.
pub open spec fn is_simple_punct(c: char) -> bool {
    c == '(' || c == ')' || c == '{' || c == '}' || c == ',' || c == '.' || c == '-' || c == '+'
        || c == ';' || c == '*'
}

/// The kind of a one-character punctuation token.
pub open spec fn simple_punct_kind(c: char) -> TokenType
    recommends
        is_simple_punct(c),
{
    if c == '(' {
        TokenType::LeftParen
    } else if c == ')' {
        TokenType::RightParen
    } else if c == '{' {
        TokenType::LeftBrace
    } else if c == '}' {
        TokenType::RightBrace
    } else if c == ',' {
        TokenType::Comma
    } else if c == '.' {
        TokenType::Dot
    } else if c == '-' {
        TokenType::Minus
    } else if c == '+' {
        TokenType::Plus
    } else if c == ';' {
        TokenType::Semicolon
    } else {
        TokenType::Star
    }
}

/// A character that asks for one-character lookahead: followed by `=` it
/// forms the two-character operator, else the one-character one.
pub open spec fn is_munch_char(c: char) -> bool {
    c == '!' || c == '=' || c == '<' || c == '>'
}

/// The one-character operator kind of a lookahead character.
pub open spec fn munch_single_kind(c: char) -> TokenType
    recommends
        is_munch_char(c),
{
    if c == '!' {
        TokenType::Bang
    } else if c == '=' {
        TokenType::Equal
    } else if c == '<' {
        TokenType::Less
    } else {
        TokenType::Greater
    }
}

/// The two-character operator kind of a lookahead character.
pub open spec fn munch_double_kind(c: char) -> TokenType
    recommends
        is_munch_char(c),
{
    if c == '!' {
        TokenType::BangEqual
    } else if c == '=' {
        TokenType::EqualEqual
    } else if c == '<' {
        TokenType::LessEqual
    } else {
        TokenType::GreaterEqual
    }
}

/// A character recognized by no rule of the scanner: it yields the
/// "unexpected character" diagnostic and no token.
pub open spec fn is_unrecognized(c: char) -> bool {
    !is_simple_punct(c) && !is_munch_char(c) && c != '/' && c != ' ' && c != '\r' && c != '\t'
        && c != '\n' && c != '"' && !is_digit_char(c) && !is_alpha_char(c)
}

/// The first position at or after `i` holding a character that is not a
/// digit, or the end of the source.
pub open spec fn digit_end(src: Seq<char>, i: int) -> int
    decreases src.len() - i,
{
    if i < src.len() && is_digit_char(src[i]) {
        digit_end(src, i + 1)
    } else {
        i
    }
}

/// The first position at or after `i` holding a character that cannot
/// extend an identifier, or the end of the source.
pub open spec fn ident_end(src: Seq<char>, i: int) -> int
    decreases src.len() - i,
{
    if i < src.len() && is_alpha_numeric_char(src[i]) {
        ident_end(src, i + 1)
    } else {
        i
    }
}

/// The first position at or after `i` holding the character `c`, or the end
/// of the source if `c` does not occur there.
pub open spec fn next_of(src: Seq<char>, i: int, c: char) -> int
    decreases src.len() - i,
{
    if i < src.len() {
        if src[i] == c {
            i
        } else {
            next_of(src, i + 1, c)
        }
    } else {
        i
    }
}

/// How many newline characters `src` holds in the half-open range `[i, j)`.
pub open spec fn count_nl(src: Seq<char>, i: int, j: int) -> int
    decreases j - i,
{
    if j <= i {
        0
    } else {
        count_nl(src, i, j - 1) + if src[j - 1] == '\n' {
            1int
        } else {
            0int
        }
    }
}

/// The kind of an identifier lexeme: the dedicated kind where the lexeme is
/// exactly one of the sixteen reserved words, the generic identifier kind
/// otherwise.
pub open spec fn ident_kind(s: Seq<char>) -> TokenType {
    if s == "and"@ {
        TokenType::And
    } else if s == "class"@ {
        TokenType::Class
    } else if s == "else"@ {
        TokenType::Else
    } else if s == "false"@ {
        TokenType::False
    } else if s == "for"@ {
        TokenType::For
    } else if s == "fun"@ {
        TokenType::Fun
    } else if s == "if"@ {
        TokenType::If
    } else if s == "nil"@ {
        TokenType::Nil
    } else if s == "or"@ {
        TokenType::Or
    } else if s == "print"@ {
        TokenType::Print
    } else if s == "return"@ {
        TokenType::Return
    } else if s == "super"@ {
        TokenType::Super
    } else if s == "this"@ {
        TokenType::This
    } else if s == "true"@ {
        TokenType::True
    } else if s == "var"@ {
        TokenType::Var
    } else if s == "while"@ {
        TokenType::While
    } else {
        TokenType::Identifier
    }
}

/// The end-of-input token: empty lexeme, no literal, the line reached when
/// scanning stopped.
pub open spec fn eof_token(line: int) -> TokenModel {
    TokenModel { kind: TokenType::EOF, lexeme: Seq::empty(), literal: Option::None, line }
}

/// What one dispatch of the scanner does at position `pos` on line `line`:
/// the tokens and diagnostics it emits (each at most one), and the cursor
/// and line it leaves behind.
#[verifier::ext_equal]
pub struct Step {
    pub tokens: Seq<TokenModel>,
    pub errors: Seq<ErrorModel>,
    pub pos: int,
    pub line: int,
}

/// A token whose lexeme is the source range `[from, to)`.
pub open spec fn range_token(
    kind: TokenType,
    src: Seq<char>,
    from: int,
    to: int,
    literal: Option<ObjectModel>,
    line: int,
) -> TokenModel {
    TokenModel { kind, lexeme: src.subrange(from, to), literal, line }
}

/// One dispatch of the scanner, at position `pos` (which must hold a
/// character) on line `line`.
pub open spec fn step(src: Seq<char>, pos: int, line: int) -> Step
    recommends
        0 <= pos < src.len(),
{
    let c = src[pos];
    if is_simple_punct(c) {
        Step {
            tokens: seq![range_token(simple_punct_kind(c), src, pos, pos + 1, Option::None, line)],
            errors: seq![],
            pos: pos + 1,
            line,
        }
    } else if is_munch_char(c) {
        if pos + 1 < src.len() && src[pos + 1] == '=' {
            Step {
                tokens: seq![
                    range_token(munch_double_kind(c), src, pos, pos + 2, Option::None, line),
                ],
                errors: seq![],
                pos: pos + 2,
                line,
            }
        } else {
            Step {
                tokens: seq![
                    range_token(munch_single_kind(c), src, pos, pos + 1, Option::None, line),
                ],
                errors: seq![],
                pos: pos + 1,
                line,
            }
        }
    } else if c == '/' {
        if pos + 1 < src.len() && src[pos + 1] == '/' {
            // A line comment runs to the end of the line and emits nothing;
            // the newline itself is consumed by the next dispatch.
            Step { tokens: seq![], errors: seq![], pos: next_of(src, pos + 2, '\n'), line }
        } else {
            Step {
                tokens: seq![range_token(TokenType::Slash, src, pos, pos + 1, Option::None, line)],
                errors: seq![],
                pos: pos + 1,
                line,
            }
        }
    } else if c == ' ' || c == '\r' || c == '\t' {
        Step { tokens: seq![], errors: seq![], pos: pos + 1, line }
    } else if c == '\n' {
        Step { tokens: seq![], errors: seq![], pos: pos + 1, line: line + 1 }
    } else if c == '"' {
        let close = next_of(src, pos + 1, '"');
        if close < src.len() {
            let end_line = line + count_nl(src, pos + 1, close);
            Step {
                tokens: seq![
                    TokenModel {
                        kind: TokenType::String,
                        lexeme: src.subrange(pos, close + 1),
                        literal: Option::Some(ObjectModel::Str(src.subrange(pos + 1, close))),
                        line: end_line,
                    },
                ],
                errors: seq![],
                pos: close + 1,
                line: end_line,
            }
        } else {
            // Unterminated: the diagnostic carries the line on which the
            // string began, and the cursor runs to the end of the input.
            Step {
                tokens: seq![],
                errors: seq![ErrorModel { line, message: "Unterminated string."@ }],
                pos: src.len() as int,
                line: line + count_nl(src, pos + 1, src.len() as int),
            }
        }
    } else if is_digit_char(c) {
        let whole = digit_end(src, pos);
        // A dot joins the number only when a digit follows it.
        let end = if whole < src.len() && src[whole] == '.' && whole + 1 < src.len()
            && is_digit_char(src[whole + 1]) {
            digit_end(src, whole + 1)
        } else {
            whole
        };
        Step {
            tokens: seq![
                range_token(
                    TokenType::Number,
                    src,
                    pos,
                    end,
                    Option::Some(ObjectModel::Num(src.subrange(pos, end))),
                    line,
                ),
            ],
            errors: seq![],
            pos: end,
            line,
        }
    } else if is_alpha_char(c) {
        let end = ident_end(src, pos);
        Step {
            tokens: seq![
                range_token(ident_kind(src.subrange(pos, end)), src, pos, end, Option::None, line),
            ],
            errors: seq![],
            pos: end,
            line,
        }
    } else {
        Step {
            tokens: seq![],
            errors: seq![ErrorModel { line, message: "Unexpected character."@ }],
            pos: pos + 1,
            line,
        }
    }
}

/// Everything a scan emits: the token list, which always ends with exactly
/// one end-of-input token, and the diagnostics in the order they were found.
#[verifier::ext_equal]
pub struct ScanOut {
    pub tokens: Seq<TokenModel>,
    pub errors: Seq<ErrorModel>,
}

/// The scan from position `pos` on line `line` to the end of the source.
pub open spec fn scan_from(src: Seq<char>, pos: int, line: int) -> ScanOut
    decreases src.len() - pos,
        when 0 <= pos
        via scan_from_decreases
{
    if pos < src.len() {
        let s = step(src, pos, line);
        let rest = scan_from(src, s.pos, s.line);
        ScanOut { tokens: s.tokens + rest.tokens, errors: s.errors + rest.errors }
    } else {
        ScanOut { tokens: seq![eof_token(line)], errors: seq![] }
    }
}

#[via_fn]
proof fn scan_from_decreases(src: Seq<char>, pos: int, line: int) {
    if 0 <= pos && pos < src.len() {
        lemma_step_in_bounds(src, pos, line);
    }
}

/// The whole scan of a source text: from the start, on line 1.
pub open spec fn spec_scan(src: Seq<char>) -> ScanOut {
    scan_from(src, 0, 1)
}

/// `digit_end` never moves backwards and never leaves the source.
pub proof fn lemma_digit_end_bounds(src: Seq<char>, i: int)
    requires
        0 <= i <= src.len(),
    ensures
        i <= digit_end(src, i) <= src.len(),
    decreases src.len() - i,
{
    if i < src.len() && is_digit_char(src[i]) {
        lemma_digit_end_bounds(src, i + 1);
    }
}

/// `ident_end` never moves backwards and never leaves the source.
pub proof fn lemma_ident_end_bounds(src: Seq<char>, i: int)
    requires
        0 <= i <= src.len(),
    ensures
        i <= ident_end(src, i) <= src.len(),
    decreases src.len() - i,
{
    if i < src.len() && is_alpha_numeric_char(src[i]) {
        lemma_ident_end_bounds(src, i + 1);
    }
}

/// `next_of` never moves backwards and never leaves the source.
pub proof fn lemma_next_of_bounds(src: Seq<char>, i: int, c: char)
    requires
        0 <= i <= src.len(),
    ensures
        i <= next_of(src, i, c) <= src.len(),
    decreases src.len() - i,
{
    if i < src.len() && src[i] != c {
        lemma_next_of_bounds(src, i + 1, c);
    }
}

/// Where `c` occurs nowhere at or after `i`, `next_of` runs to the end.
pub proof fn lemma_next_of_absent(src: Seq<char>, i: int, c: char)
    requires
        0 <= i <= src.len(),
        forall|j: int| i <= j < src.len() ==> src[j] != c,
    ensures
        next_of(src, i, c) == src.len(),
    decreases src.len() - i,
{
    if i < src.len() {
        lemma_next_of_absent(src, i + 1, c);
    }
}

/// Every dispatch moves the cursor strictly forward and never past the end:
/// the scan makes progress on every branch and terminates on finite input.
pub proof fn lemma_step_in_bounds(src: Seq<char>, pos: int, line: int)
    requires
        0 <= pos < src.len(),
    ensures
        pos < step(src, pos, line).pos <= src.len(),
{
    let c = src[pos];
    if is_simple_punct(c) || is_munch_char(c) {
    } else if c == '/' {
        if pos + 1 < src.len() && src[pos + 1] == '/' {
            lemma_next_of_bounds(src, pos + 2, '\n');
        }
    } else if c == '"' {
        lemma_next_of_bounds(src, pos + 1, '"');
    } else if is_digit_char(c) {
        assert(digit_end(src, pos) == digit_end(src, pos + 1));
        lemma_digit_end_bounds(src, pos + 1);
        let whole = digit_end(src, pos);
        if whole < src.len() && src[whole] == '.' && whole + 1 < src.len() && is_digit_char(
            src[whole + 1],
        ) {
            lemma_digit_end_bounds(src, whole + 1);
        }
    } else if is_alpha_char(c) {
        assert(ident_end(src, pos) == ident_end(src, pos + 1));
        lemma_ident_end_bounds(src, pos + 1);
    }
}

} // verus!
