//! Laws that hold of every scan, stated over the model in `crate::model`
//! and proved once and for all. `Scanner::scan_tokens` is proved to emit
//! exactly `spec_scan` of its source, so each law carries over to the
//! executable scanner.

use vstd::prelude::*;

use crate::errors::ErrorModel;
use crate::model::count_nl;
use crate::model::eof_token;
use crate::model::is_munch_char;
use crate::model::is_simple_punct;
use crate::model::is_unrecognized;
use crate::model::lemma_next_of_absent;
use crate::model::lemma_next_of_bounds;
use crate::model::lemma_step_in_bounds;
use crate::model::munch_double_kind;
use crate::model::munch_single_kind;
use crate::model::next_of;
use crate::model::range_token;
use crate::model::scan_from;
use crate::model::simple_punct_kind;
use crate::model::spec_scan;
use crate::model::step;
use crate::object::ObjectModel;
use crate::token_type::TokenType;

verus! {

/// Law: whatever the input, the scan never fails outright — its token list
/// closes with exactly one end-of-input token, whose lexeme is empty and
/// whose literal is absent, and no token before it is an end-of-input token.
pub proof fn lemma_scan_ends_with_one_eof(src: Seq<char>)
    ensures
        spec_scan(src).tokens.len() >= 1,
        spec_scan(src).tokens.last().kind == TokenType::EOF,
        spec_scan(src).tokens.last().lexeme.len() == 0,
        spec_scan(src).tokens.last().literal == Option::<ObjectModel>::None,
        forall|i: int|
            0 <= i < spec_scan(src).tokens.len() - 1 ==> spec_scan(src).tokens[i].kind
                != TokenType::EOF,
{
    lemma_eof_scan_from(src, 0, 1);
}

proof fn lemma_eof_scan_from(src: Seq<char>, pos: int, line: int)
    requires
        0 <= pos,
    ensures
        scan_from(src, pos, line).tokens.len() >= 1,
        scan_from(src, pos, line).tokens.last().kind == TokenType::EOF,
        scan_from(src, pos, line).tokens.last().lexeme.len() == 0,
        scan_from(src, pos, line).tokens.last().literal == Option::<ObjectModel>::None,
        forall|i: int|
            0 <= i < scan_from(src, pos, line).tokens.len() - 1 ==> scan_from(
                src,
                pos,
                line,
            ).tokens[i].kind != TokenType::EOF,
    decreases src.len() - pos,
{
    if pos < src.len() {
        lemma_step_in_bounds(src, pos, line);
        let s = step(src, pos, line);
        let rest = scan_from(src, s.pos, s.line);
        lemma_eof_scan_from(src, s.pos, s.line);
        if s.tokens.len() > 0 {
            assert(s.tokens[0].kind != TokenType::EOF);
        }
        assert(scan_from(src, pos, line).tokens =~= s.tokens + rest.tokens);
        assert forall|i: int| 0 <= i < scan_from(src, pos, line).tokens.len() - 1 implies scan_from(
            src,
            pos,
            line,
        ).tokens[i].kind != TokenType::EOF by {
            if i >= s.tokens.len() {
                assert(scan_from(src, pos, line).tokens[i] == rest.tokens[i - s.tokens.len()]);
            }
        }
    }
}

/// Law: every number token carries as its literal exactly its lexeme, every
/// string token carries exactly the content of its lexeme with the two
/// delimiting quotes stripped, and a token of any other kind carries no
/// literal at all.
pub proof fn lemma_literal_matches_lexeme(src: Seq<char>)
    ensures
        forall|i: int|
            0 <= i < spec_scan(src).tokens.len() ==> (#[trigger] spec_scan(src).tokens[i]).literal
                == literal_of(spec_scan(src).tokens[i].kind, spec_scan(src).tokens[i].lexeme),
{
    lemma_literal_scan_from(src, 0, 1);
}

/// The literal a token of the given kind and lexeme must carry.
pub open spec fn literal_of(kind: TokenType, lexeme: Seq<char>) -> Option<ObjectModel> {
    if kind == TokenType::Number {
        Option::Some(ObjectModel::Num(lexeme))
    } else if kind == TokenType::String {
        Option::Some(ObjectModel::Str(lexeme.subrange(1, lexeme.len() - 1)))
    } else {
        Option::None
    }
}

proof fn lemma_literal_scan_from(src: Seq<char>, pos: int, line: int)
    requires
        0 <= pos,
    ensures
        forall|i: int|
            0 <= i < scan_from(src, pos, line).tokens.len() ==> (#[trigger] scan_from(
                src,
                pos,
                line,
            ).tokens[i]).literal == literal_of(
                scan_from(src, pos, line).tokens[i].kind,
                scan_from(src, pos, line).tokens[i].lexeme,
            ),
    decreases src.len() - pos,
{
    if pos < src.len() {
        lemma_step_in_bounds(src, pos, line);
        let s = step(src, pos, line);
        let rest = scan_from(src, s.pos, s.line);
        lemma_literal_scan_from(src, s.pos, s.line);
        if s.tokens.len() > 0 {
            let t = s.tokens[0];
            if t.kind == TokenType::String {
                let close = next_of(src, pos + 1, '"');
                lemma_next_of_bounds(src, pos + 1, '"');
                assert(t.lexeme == src.subrange(pos, close + 1));
                assert(t.lexeme.subrange(1, t.lexeme.len() - 1) =~= src.subrange(pos + 1, close));
            }
            assert(t.literal == literal_of(t.kind, t.lexeme));
        }
        assert(scan_from(src, pos, line).tokens =~= s.tokens + rest.tokens);
        assert forall|i: int| 0 <= i < scan_from(src, pos, line).tokens.len() implies (
        #[trigger] scan_from(src, pos, line).tokens[i]).literal == literal_of(
            scan_from(src, pos, line).tokens[i].kind,
            scan_from(src, pos, line).tokens[i].lexeme,
        ) by {
            if i >= s.tokens.len() {
                assert(scan_from(src, pos, line).tokens[i] == rest.tokens[i - s.tokens.len()]);
            }
        }
    } else {
        assert(scan_from(src, pos, line).tokens =~= seq![eof_token(line)]);
    }
}

/// Input that holds nothing but whitespace and line comments from position
/// `pos` on: every character is a space, carriage return, tab or newline,
/// or opens a `//` comment that runs to the end of its line.
pub open spec fn blank_input(src: Seq<char>, pos: int) -> bool
    decreases src.len() - pos,
        when 0 <= pos
        via blank_input_decreases
{
    if pos >= src.len() {
        true
    } else if src[pos] == ' ' || src[pos] == '\r' || src[pos] == '\t' || src[pos] == '\n' {
        blank_input(src, pos + 1)
    } else if src[pos] == '/' && pos + 1 < src.len() && src[pos + 1] == '/' {
        blank_input(src, next_of(src, pos + 2, '\n'))
    } else {
        false
    }
}

#[via_fn]
proof fn blank_input_decreases(src: Seq<char>, pos: int) {
    if 0 <= pos && pos < src.len() {
        if src[pos] == '/' && pos + 1 < src.len() && src[pos + 1] == '/' {
            lemma_next_of_bounds(src, pos + 2, '\n');
        }
    }
}

proof fn lemma_blank_scan_from(src: Seq<char>, pos: int, line: int)
    requires
        0 <= pos,
        blank_input(src, pos),
    ensures
        scan_from(src, pos, line).tokens.len() == 1,
        scan_from(src, pos, line).tokens[0].kind == TokenType::EOF,
        scan_from(src, pos, line).errors.len() == 0,
    decreases src.len() - pos,
{
    if pos >= src.len() {
    } else if src[pos] == ' ' || src[pos] == '\r' || src[pos] == '\t' || src[pos] == '\n' {
        lemma_blank_scan_from(src, pos + 1, step(src, pos, line).line);
    } else {
        lemma_next_of_bounds(src, pos + 2, '\n');
        lemma_blank_scan_from(src, next_of(src, pos + 2, '\n'), line);
    }
}

/// Law: input consisting solely of whitespace and line comments scans to
/// exactly one token, the end-of-input token, with no diagnostics.
pub proof fn lemma_blank_input_scans_to_eof_alone(src: Seq<char>)
    requires
        blank_input(src, 0),
    ensures
        spec_scan(src).tokens.len() == 1,
        spec_scan(src).tokens[0].kind == TokenType::EOF,
        spec_scan(src).errors.len() == 0,
{
    lemma_blank_scan_from(src, 0, 1);
}

proof fn lemma_punct_scan_from(src: Seq<char>, pos: int, line: int)
    requires
        0 <= pos <= src.len(),
        forall|i: int| 0 <= i < src.len() ==> is_simple_punct(src[i]),
    ensures
        scan_from(src, pos, line).tokens.len() == src.len() - pos + 1,
        forall|i: int|
            0 <= i < src.len() - pos ==> scan_from(src, pos, line).tokens[i] == range_token(
                simple_punct_kind(src[pos + i]),
                src,
                pos + i,
                pos + i + 1,
                Option::None,
                line,
            ),
        scan_from(src, pos, line).tokens[src.len() - pos] == eof_token(line),
        scan_from(src, pos, line).errors.len() == 0,
    decreases src.len() - pos,
{
    if pos < src.len() {
        lemma_punct_scan_from(src, pos + 1, line);
        let s = step(src, pos, line);
        let rest = scan_from(src, pos + 1, line);
        assert(scan_from(src, pos, line).tokens =~= s.tokens + rest.tokens);
        assert(scan_from(src, pos, line).errors =~= s.errors + rest.errors);
        assert forall|i: int| 0 <= i < src.len() - pos implies scan_from(
            src,
            pos,
            line,
        ).tokens[i] == range_token(
            simple_punct_kind(src[pos + i]),
            src,
            pos + i,
            pos + i + 1,
            Option::None,
            line,
        ) by {
            if i > 0 {
                assert(rest.tokens[i - 1] == range_token(
                    simple_punct_kind(src[pos + i]),
                    src,
                    pos + i,
                    pos + i + 1,
                    Option::None,
                    line,
                ));
            }
        }
    }
}

/// Law: input consisting solely of the always-single punctuation characters
/// scans to one token per character — of that character's kind, with the
/// character itself as lexeme, on line 1 — followed by the end-of-input
/// token, with no diagnostics.
pub proof fn lemma_punct_sequence(src: Seq<char>)
    requires
        forall|i: int| 0 <= i < src.len() ==> is_simple_punct(src[i]),
    ensures
        spec_scan(src).tokens.len() == src.len() + 1,
        forall|i: int|
            0 <= i < src.len() ==> spec_scan(src).tokens[i] == range_token(
                simple_punct_kind(src[i]),
                src,
                i,
                i + 1,
                Option::None,
                1,
            ),
        forall|i: int| 0 <= i < src.len() ==> spec_scan(src).tokens[i].lexeme =~= seq![src[i]],
        spec_scan(src).tokens[src.len() as int] == eof_token(1),
        spec_scan(src).errors.len() == 0,
{
    lemma_punct_scan_from(src, 0, 1);
}

/// Law (maximal munch): a lookahead character followed by `=` scans as the
/// single two-character operator token, and otherwise as the one-character
/// operator token with the rest of the input scanned independently after it.
pub proof fn lemma_maximal_munch(src: Seq<char>)
    requires
        src.len() >= 1,
        is_munch_char(src[0]),
    ensures
        (src.len() >= 2 && src[1] == '=') ==> spec_scan(src).tokens =~= seq![
            range_token(munch_double_kind(src[0]), src, 0, 2, Option::None, 1),
        ] + scan_from(src, 2, 1).tokens,
        (src.len() >= 2 && src[1] == '=') ==> spec_scan(src).errors =~= scan_from(src, 2, 1).errors,
        !(src.len() >= 2 && src[1] == '=') ==> spec_scan(src).tokens =~= seq![
            range_token(munch_single_kind(src[0]), src, 0, 1, Option::None, 1),
        ] + scan_from(src, 1, 1).tokens,
        !(src.len() >= 2 && src[1] == '=') ==> spec_scan(src).errors =~= scan_from(src, 1, 1).errors,
{
}

/// Law (line tracking): a prefix of `n` newline characters contributes no
/// token and no diagnostic, and what follows is scanned from position `n`
/// on line `n + 1`.
pub proof fn lemma_line_tracking(src: Seq<char>, n: int)
    requires
        0 <= n <= src.len(),
        forall|i: int| 0 <= i < n ==> src[i] == '\n',
    ensures
        spec_scan(src).tokens =~= scan_from(src, n, n + 1).tokens,
        spec_scan(src).errors =~= scan_from(src, n, n + 1).errors,
{
    lemma_nl_prefix(src, 0, n, 1);
}

proof fn lemma_nl_prefix(src: Seq<char>, k: int, n: int, line: int)
    requires
        0 <= k <= n <= src.len(),
        forall|i: int| k <= i < n ==> src[i] == '\n',
    ensures
        scan_from(src, k, line).tokens =~= scan_from(src, n, line + (n - k)).tokens,
        scan_from(src, k, line).errors =~= scan_from(src, n, line + (n - k)).errors,
    decreases n - k,
{
    if k < n {
        lemma_nl_prefix(src, k + 1, n, line + 1);
        assert(scan_from(src, k, line).tokens =~= step(src, k, line).tokens + scan_from(
            src,
            k + 1,
            line + 1,
        ).tokens);
    }
}

/// Law: an unrecognized character at the head of the input contributes
/// exactly one "unexpected character" diagnostic and no token, and scanning
/// continues independently with the rest of the input.
pub proof fn lemma_unexpected_character(src: Seq<char>)
    requires
        src.len() >= 1,
        is_unrecognized(src[0]),
    ensures
        spec_scan(src).tokens =~= scan_from(src, 1, 1).tokens,
        spec_scan(src).errors =~= seq![
            ErrorModel { line: 1, message: "Unexpected character."@ },
        ] + scan_from(src, 1, 1).errors,
{
}

/// Law: a string literal that opens and never closes before the end of the
/// input yields no token at all — only the end-of-input token remains — and
/// exactly one "unterminated string" diagnostic, at the line on which the
/// string began.
pub proof fn lemma_unterminated_string(src: Seq<char>)
    requires
        src.len() >= 1,
        src[0] == '"',
        forall|i: int| 1 <= i < src.len() ==> src[i] != '"',
    ensures
        spec_scan(src).tokens =~= seq![eof_token(1 + count_nl(src, 1, src.len() as int))],
        spec_scan(src).errors =~= seq![ErrorModel { line: 1, message: "Unterminated string."@ }],
{
    lemma_next_of_absent(src, 1, '"');
    let s = step(src, 0, 1);
    let l2 = 1 + count_nl(src, 1, src.len() as int);
    assert(s.pos == src.len() as int && s.line == l2);
    assert(scan_from(src, src.len() as int, l2).tokens =~= seq![eof_token(l2)]);
    assert(spec_scan(src).tokens =~= s.tokens + scan_from(src, s.pos, s.line).tokens);
    assert(spec_scan(src).errors =~= s.errors + scan_from(src, s.pos, s.line).errors);
}

} // verus!
