use rlox::LoxError;
use rlox::Object;
use rlox::Scanner;
use rlox::Token;
use rlox::TokenType;

fn scan(source: &str) -> (Vec<Token>, Vec<LoxError>) {
    let mut scanner = Scanner::from_source(source.to_string());
    scanner.scan_tokens();
    (scanner.tokens, scanner.errors)
}

fn kinds(tokens: &[Token]) -> Vec<TokenType> {
    tokens.iter().map(|t| t.typ).collect()
}

#[test]
fn empty_input_yields_only_eof() {
    let (tokens, errors) = scan("");
    assert_eq!(tokens.len(), 1);
    assert_eq!(tokens[0].typ, TokenType::EOF);
    assert_eq!(tokens[0].lexeme, "");
    assert_eq!(tokens[0].literal, None);
    assert_eq!(tokens[0].line, 1);
    assert!(errors.is_empty());
}

#[test]
fn whitespace_and_comments_yield_only_eof() {
    let (tokens, errors) = scan(" \t\r // a comment\n// another, to the very end");
    assert_eq!(tokens.len(), 1);
    assert_eq!(tokens[0].typ, TokenType::EOF);
    assert_eq!(tokens[0].line, 2);
    assert!(errors.is_empty());
}

#[test]
fn punctuation_sequence_yields_one_token_per_character() {
    let source = "(){},.-+;*";
    let expected = [
        TokenType::LeftParen,
        TokenType::RightParen,
        TokenType::LeftBrace,
        TokenType::RightBrace,
        TokenType::Comma,
        TokenType::Dot,
        TokenType::Minus,
        TokenType::Plus,
        TokenType::Semicolon,
        TokenType::Star,
    ];
    let (tokens, errors) = scan(source);
    assert!(errors.is_empty());
    assert_eq!(tokens.len(), source.len() + 1);
    for (i, c) in source.chars().enumerate() {
        assert_eq!(tokens[i].typ, expected[i]);
        assert_eq!(tokens[i].lexeme, c.to_string());
        assert_eq!(tokens[i].literal, None);
        assert_eq!(tokens[i].line, 1);
    }
    assert_eq!(tokens[source.len()].typ, TokenType::EOF);
}

#[test]
fn maximal_munch_prefers_bang_equal() {
    let (tokens, errors) = scan("!=");
    assert!(errors.is_empty());
    assert_eq!(kinds(&tokens), vec![TokenType::BangEqual, TokenType::EOF]);
    assert_eq!(tokens[0].lexeme, "!=");
}

#[test]
fn bang_before_other_character_stands_alone() {
    let (tokens, errors) = scan("!(");
    assert!(errors.is_empty());
    assert_eq!(
        kinds(&tokens),
        vec![TokenType::Bang, TokenType::LeftParen, TokenType::EOF]
    );
    assert_eq!(tokens[0].lexeme, "!");
    assert_eq!(tokens[1].lexeme, "(");
}

#[test]
fn one_and_two_character_operators() {
    let (tokens, errors) = scan("<= >= == < > = !");
    assert!(errors.is_empty());
    assert_eq!(
        kinds(&tokens),
        vec![
            TokenType::LessEqual,
            TokenType::GreaterEqual,
            TokenType::EqualEqual,
            TokenType::Less,
            TokenType::Greater,
            TokenType::Equal,
            TokenType::Bang,
            TokenType::EOF,
        ]
    );
}

#[test]
fn number_literal_round_trips() {
    let (tokens, errors) = scan("123.45");
    assert!(errors.is_empty());
    assert_eq!(tokens.len(), 2);
    assert_eq!(tokens[0].typ, TokenType::Number);
    assert_eq!(tokens[0].lexeme, "123.45");
    let literal = tokens[0].literal.clone().unwrap();
    match literal {
        Object::Num(text) => {
            assert_eq!(text, "123.45");
            let value: f64 = text.parse().unwrap();
            assert_eq!(value, 123.45);
        }
        other => panic!("expected a number literal, got {:?}", other),
    }
}

#[test]
fn trailing_dot_is_not_part_of_the_number() {
    let (tokens, errors) = scan("123.");
    assert!(errors.is_empty());
    assert_eq!(
        kinds(&tokens),
        vec![TokenType::Number, TokenType::Dot, TokenType::EOF]
    );
    assert_eq!(tokens[0].lexeme, "123");
    assert_eq!(tokens[1].lexeme, ".");
}

#[test]
fn fractional_part_consumes_every_digit() {
    let (tokens, errors) = scan("3.1415");
    assert!(errors.is_empty());
    assert_eq!(kinds(&tokens), vec![TokenType::Number, TokenType::EOF]);
    assert_eq!(tokens[0].lexeme, "3.1415");
    assert_eq!(tokens[0].literal, Some(Object::Num("3.1415".to_string())));
}

#[test]
fn string_literal_strips_the_quotes() {
    let (tokens, errors) = scan("\"hello\"");
    assert!(errors.is_empty());
    assert_eq!(tokens.len(), 2);
    assert_eq!(tokens[0].typ, TokenType::String);
    assert_eq!(tokens[0].lexeme, "\"hello\"");
    assert_eq!(tokens[0].literal, Some(Object::Str("hello".to_string())));
}

#[test]
fn unterminated_string_reports_and_emits_no_token() {
    let (tokens, errors) = scan("\"abc");
    assert_eq!(kinds(&tokens), vec![TokenType::EOF]);
    assert_eq!(errors.len(), 1);
    let LoxError::Error { line, message } = &errors[0];
    assert_eq!(*line, 1);
    assert_eq!(message.as_str(), "Unterminated string.");
}

#[test]
fn unterminated_string_reports_its_opening_line() {
    let (tokens, errors) = scan("\"a\nbc");
    assert_eq!(kinds(&tokens), vec![TokenType::EOF]);
    assert_eq!(tokens[0].line, 2);
    assert_eq!(errors.len(), 1);
    let LoxError::Error { line, message } = &errors[0];
    assert_eq!(*line, 1);
    assert_eq!(message.as_str(), "Unterminated string.");
}

#[test]
fn string_spanning_lines_keeps_its_content() {
    let (tokens, errors) = scan("\"a\nb\"");
    assert!(errors.is_empty());
    assert_eq!(tokens.len(), 2);
    assert_eq!(tokens[0].typ, TokenType::String);
    assert_eq!(tokens[0].literal, Some(Object::Str("a\nb".to_string())));
    assert_eq!(tokens[0].line, 2);
}

#[test]
fn identifier_is_not_a_keyword_by_prefix() {
    let (tokens, errors) = scan("classify");
    assert!(errors.is_empty());
    assert_eq!(kinds(&tokens), vec![TokenType::Identifier, TokenType::EOF]);
    assert_eq!(tokens[0].lexeme, "classify");
    assert_eq!(tokens[0].literal, None);
}

#[test]
fn exact_keyword_gets_its_reserved_kind() {
    let (tokens, errors) = scan("class");
    assert!(errors.is_empty());
    assert_eq!(kinds(&tokens), vec![TokenType::Class, TokenType::EOF]);
    assert_eq!(tokens[0].lexeme, "class");
}

#[test]
fn every_reserved_word_is_recognized() {
    let source = "and class else false for fun if nil or print return super this true var while";
    let expected = vec![
        TokenType::And,
        TokenType::Class,
        TokenType::Else,
        TokenType::False,
        TokenType::For,
        TokenType::Fun,
        TokenType::If,
        TokenType::Nil,
        TokenType::Or,
        TokenType::Print,
        TokenType::Return,
        TokenType::Super,
        TokenType::This,
        TokenType::True,
        TokenType::Var,
        TokenType::While,
        TokenType::EOF,
    ];
    let (tokens, errors) = scan(source);
    assert!(errors.is_empty());
    assert_eq!(kinds(&tokens), expected);
}

#[test]
fn newlines_before_a_lexeme_set_its_line() {
    let (tokens, errors) = scan("\n\n\nfoo");
    assert!(errors.is_empty());
    assert_eq!(kinds(&tokens), vec![TokenType::Identifier, TokenType::EOF]);
    assert_eq!(tokens[0].lexeme, "foo");
    assert_eq!(tokens[0].line, 4);
    assert_eq!(tokens[1].line, 4);
}

#[test]
fn comment_runs_to_the_end_of_its_line_only() {
    let (tokens, errors) = scan("// ignored\n(");
    assert!(errors.is_empty());
    assert_eq!(kinds(&tokens), vec![TokenType::LeftParen, TokenType::EOF]);
    assert_eq!(tokens[0].line, 2);
}

#[test]
fn single_slash_is_a_token() {
    let (tokens, errors) = scan("1/2");
    assert!(errors.is_empty());
    assert_eq!(
        kinds(&tokens),
        vec![TokenType::Number, TokenType::Slash, TokenType::Number, TokenType::EOF]
    );
    assert_eq!(tokens[1].lexeme, "/");
}

#[test]
fn unexpected_character_reports_and_emits_no_token() {
    let (tokens, errors) = scan("@");
    assert_eq!(kinds(&tokens), vec![TokenType::EOF]);
    assert_eq!(errors.len(), 1);
    let LoxError::Error { line, message } = &errors[0];
    assert_eq!(*line, 1);
    assert_eq!(message.as_str(), "Unexpected character.");
}

#[test]
fn scanning_continues_past_an_unexpected_character() {
    let (tokens, errors) = scan("@foo");
    assert_eq!(errors.len(), 1);
    let LoxError::Error { line, message } = &errors[0];
    assert_eq!(*line, 1);
    assert_eq!(message.as_str(), "Unexpected character.");
    assert_eq!(kinds(&tokens), vec![TokenType::Identifier, TokenType::EOF]);
    assert_eq!(tokens[0].lexeme, "foo");
    assert_eq!(tokens[0].line, 1);
}

#[test]
fn error_construction_keeps_line_and_message() {
    let e = LoxError::error(7, "Unexpected character.".to_string());
    let LoxError::Error { line, message } = &e;
    assert_eq!(*line, 7);
    assert_eq!(message.as_str(), "Unexpected character.");
}

#[test]
fn token_construction_keeps_every_field() {
    let t = Token::new(
        TokenType::String,
        "\"hi\"".to_string(),
        Some(Object::Str("hi".to_string())),
        3,
    );
    assert_eq!(t.typ, TokenType::String);
    assert_eq!(t.lexeme, "\"hi\"");
    assert_eq!(t.literal, Some(Object::Str("hi".to_string())));
    assert_eq!(t.line, 3);
}

#[test]
fn multibyte_characters_are_scanned_per_character() {
    let (tokens, errors) = scan("\"héllo\"");
    assert!(errors.is_empty());
    assert_eq!(tokens[0].literal, Some(Object::Str("héllo".to_string())));
}

#[test]
fn a_small_program_scans_cleanly() {
    let source = "var answer = 41.5 + 0.5;\nprint answer; // the meaning\n";
    let (tokens, errors) = scan(source);
    assert!(errors.is_empty());
    assert_eq!(
        kinds(&tokens),
        vec![
            TokenType::Var,
            TokenType::Identifier,
            TokenType::Equal,
            TokenType::Number,
            TokenType::Plus,
            TokenType::Number,
            TokenType::Semicolon,
            TokenType::Print,
            TokenType::Identifier,
            TokenType::Semicolon,
            TokenType::EOF,
        ]
    );
    assert_eq!(tokens[7].line, 2);
    assert_eq!(tokens[10].line, 3);
}

#[test]
fn object_conversions_keep_their_value() {
    assert_eq!(Object::from(true), Object::Bool(true));
    assert_eq!(Object::from(false), Object::Bool(false));
    assert_eq!(Object::from("nil?".to_string()), Object::Str("nil?".to_string()));
}
