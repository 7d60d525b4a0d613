use rlox::number::Number;
use rlox::scanner::{Literal, Scanner, Token, TokenType};

fn kinds(source: &str) -> Vec<TokenType> {
    let (tokens, _) = Scanner::new(source.to_string()).scan_tokens();
    tokens.iter().map(|t| t.type_).collect()
}

#[test]
fn scans_punctuation_and_operators() {
    assert_eq!(
        kinds("(){},.-+;*/ ! != = == > >= < <="),
        vec![
            TokenType::LeftParen,
            TokenType::RightParen,
            TokenType::LeftBrace,
            TokenType::RightBrace,
            TokenType::Comma,
            TokenType::Dot,
            TokenType::Minus,
            TokenType::Plus,
            TokenType::Semicolon,
            TokenType::Star,
            TokenType::Slash,
            TokenType::Bang,
            TokenType::BangEqual,
            TokenType::Equal,
            TokenType::EqualEqual,
            TokenType::Greater,
            TokenType::GreaterEqual,
            TokenType::Less,
            TokenType::LessEqual,
            TokenType::Eof,
        ]
    );
}

#[test]
fn scans_number_literals() {
    let (tokens, errors) = Scanner::new("12 3.5 7.".to_string()).scan_tokens();
    assert!(errors.is_empty());
    assert_eq!(tokens.len(), 5);
    assert_eq!(tokens[0], Token::new(TokenType::Number, "12".to_string(), Some(Literal::Integer(12)), 1));
    assert_eq!(
        tokens[1],
        Token::new(
            TokenType::Number,
            "3.5".to_string(),
            Some(Literal::Float(Number::from_units(3_500_000_000).unwrap())),
            1
        )
    );
    assert_eq!(tokens[2].literal, Some(Literal::Integer(7)));
    assert_eq!(tokens[3].type_, TokenType::Dot);
    assert_eq!(tokens[4].type_, TokenType::Eof);
}

fn token(type_: TokenType, lexeme: &str, line: usize) -> Token {
    Token::new(type_, lexeme.to_string(), None, line)
}

#[test]
fn token_sequence_ends_with_eof() {
    let (tokens, errors) = Scanner::new(String::new()).scan_tokens();
    assert!(errors.is_empty());
    assert_eq!(tokens, vec![token(TokenType::Eof, "", 1)]);
    assert_eq!(kinds("a b").last(), Some(&TokenType::Eof));
}

#[test]
fn scans_keywords_and_identifiers() {
    assert_eq!(
        kinds("and break class else false for fun if nil or print return super this true var while"),
        vec![
            TokenType::And,
            TokenType::Break,
            TokenType::Class,
            TokenType::Else,
            TokenType::False,
            TokenType::For,
            TokenType::Fun,
            TokenType::If,
            TokenType::Nil,
            TokenType::Or,
            TokenType::Print,
            TokenType::Return,
            TokenType::Super,
            TokenType::This,
            TokenType::True,
            TokenType::Var,
            TokenType::While,
            TokenType::Eof,
        ]
    );
    let (tokens, _) = Scanner::new("_x1 android printer".to_string()).scan_tokens();
    assert_eq!(
        tokens,
        vec![
            token(TokenType::Identifier, "_x1", 1),
            token(TokenType::Identifier, "android", 1),
            token(TokenType::Identifier, "printer", 1),
            token(TokenType::Eof, "", 1),
        ]
    );
}

#[test]
fn comments_run_to_the_end_of_the_line() {
    let (tokens, errors) = Scanner::new("a // b c\n/ d //".to_string()).scan_tokens();
    assert!(errors.is_empty());
    assert_eq!(
        tokens,
        vec![
            token(TokenType::Identifier, "a", 1),
            token(TokenType::Slash, "/", 2),
            token(TokenType::Identifier, "d", 2),
            token(TokenType::Eof, "", 2),
        ]
    );
}

#[test]
fn newlines_count_lines_and_whitespace_is_dropped() {
    let (tokens, _) = Scanner::new("a\n\t b \r\n\nc".to_string()).scan_tokens();
    let lines: Vec<usize> = tokens.iter().map(|t| t.line).collect();
    assert_eq!(lines, vec![1, 2, 4, 4]);
}

#[test]
fn scans_string_literals() {
    let (tokens, errors) = Scanner::new("\"hi\" \"two\nlines\" \"\"".to_string()).scan_tokens();
    assert!(errors.is_empty());
    assert_eq!(
        tokens[0],
        Token::new(TokenType::String, "\"hi\"".to_string(), Some(Literal::String("hi".to_string())), 1)
    );
    assert_eq!(tokens[1].literal, Some(Literal::String("two\nlines".to_string())));
    assert_eq!(tokens[1].line, 2);
    assert_eq!(tokens[2].literal, Some(Literal::String(String::new())));
    assert_eq!(tokens.len(), 4);
}

#[test]
fn unterminated_string_is_reported() {
    let (tokens, errors) = Scanner::new("a \"open\nstill".to_string()).scan_tokens();
    assert_eq!(kinds("a \"open\nstill"), vec![TokenType::Identifier, TokenType::Eof]);
    assert_eq!(tokens.len(), 2);
    assert_eq!(errors.len(), 1);
    assert_eq!(errors[0].msg, "Unterminated string.");
    assert_eq!(errors[0].line, 2);
    assert_eq!(errors[0].where_, "\"");
}

#[test]
fn unexpected_character_is_reported_and_scanning_goes_on() {
    let (tokens, errors) = Scanner::new("a # b\n@".to_string()).scan_tokens();
    assert_eq!(tokens.len(), 3);
    assert_eq!(errors.len(), 2);
    assert_eq!(errors[0].msg, "Unexpected character.");
    assert_eq!(errors[0].where_, "#");
    assert_eq!(errors[0].line, 1);
    assert_eq!(errors[1].where_, "@");
    assert_eq!(errors[1].line, 2);
}

#[test]
fn a_trailing_dot_is_no_part_of_a_number() {
    assert_eq!(
        kinds("1.foo 2.5.x"),
        vec![
            TokenType::Number,
            TokenType::Dot,
            TokenType::Identifier,
            TokenType::Number,
            TokenType::Dot,
            TokenType::Identifier,
            TokenType::Eof
        ]
    );
}

#[test]
fn number_literals_out_of_range_are_reported() {
    let (tokens, errors) = Scanner::new("9223372036854775807 9223372036854775808".to_string()).scan_tokens();
    assert_eq!(tokens[0].literal, Some(Literal::Integer(i64::MAX)));
    assert_eq!(tokens.len(), 2);
    assert_eq!(errors.len(), 1);
    assert_eq!(errors[0].msg, "Number literal out of range.");
    assert_eq!(errors[0].where_, "9223372036854775808");
    let (tokens, errors) = Scanner::new("0.123456789 0.1234567891".to_string()).scan_tokens();
    assert_eq!(tokens[0].literal, Some(Literal::Float(Number::from_units(123_456_789).unwrap())));
    assert_eq!(tokens.len(), 2);
    assert_eq!(errors.len(), 1);
}
