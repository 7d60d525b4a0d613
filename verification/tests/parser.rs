use rlox::ast::{Expr, Stmt};
use rlox::err::LoxError;
use rlox::number::Number;
use rlox::parser::Parser;
use rlox::scanner::{Literal, Scanner, Token, TokenType};

fn tokens(source: &str) -> Vec<Token> {
    let (tokens, errors) = Scanner::new(source.to_string()).scan_tokens();
    assert!(errors.is_empty(), "lexical errors: {:?}", errors);
    tokens
}

fn parse(source: &str) -> Vec<Stmt> {
    Parser::new(tokens(source)).parse().expect("the program parses")
}

fn parse_error(source: &str) -> LoxError {
    Parser::new(tokens(source)).parse().expect_err("the program does not parse")
}

fn token(type_: TokenType, lexeme: &str) -> Token {
    Token::new(type_, lexeme.to_string(), None, 1)
}

fn whole(v: i64) -> Expr {
    Expr::Literal(Literal::Integer(v))
}

fn var(name: &str) -> Expr {
    Expr::Variable(token(TokenType::Identifier, name))
}

fn binary(left: Expr, type_: TokenType, lexeme: &str, right: Expr) -> Expr {
    Expr::Binary { left: Box::new(left), operator: token(type_, lexeme), right: Box::new(right) }
}

#[test]
fn multiplication_binds_tighter_than_addition() {
    assert_eq!(
        parse("1 + 2 * 3;"),
        vec![Stmt::Expression(binary(
            whole(1),
            TokenType::Plus,
            "+",
            binary(whole(2), TokenType::Star, "*", whole(3))
        ))]
    );
}

#[test]
fn binary_operators_fold_to_the_left() {
    assert_eq!(
        parse("1 - 2 - 3;"),
        vec![Stmt::Expression(binary(
            binary(whole(1), TokenType::Minus, "-", whole(2)),
            TokenType::Minus,
            "-",
            whole(3)
        ))]
    );
}

#[test]
fn assignment_folds_to_the_right() {
    assert_eq!(
        parse("a = b = 1;"),
        vec![Stmt::Expression(Expr::Assign {
            name: token(TokenType::Identifier, "a"),
            value: Box::new(Expr::Assign {
                name: token(TokenType::Identifier, "b"),
                value: Box::new(whole(1)),
            }),
        })]
    );
}

#[test]
fn logical_operators_make_logical_nodes() {
    assert_eq!(
        parse("a or b and c;"),
        vec![Stmt::Expression(Expr::Logical {
            left: Box::new(var("a")),
            operator: token(TokenType::Or, "or"),
            right: Box::new(Expr::Logical {
                left: Box::new(var("b")),
                operator: token(TokenType::And, "and"),
                right: Box::new(var("c")),
            }),
        })]
    );
}

#[test]
fn unary_and_grouping() {
    assert_eq!(
        parse("-(1 + 2);"),
        vec![Stmt::Expression(Expr::Unary {
            operator: token(TokenType::Minus, "-"),
            right: Box::new(Expr::Grouping(Box::new(binary(whole(1), TokenType::Plus, "+", whole(2))))),
        })]
    );
}

#[test]
fn calls_chain() {
    assert_eq!(
        parse("f(1)(a, 2.5);"),
        vec![Stmt::Expression(Expr::Call {
            callee: Box::new(Expr::Call {
                callee: Box::new(var("f")),
                paren: token(TokenType::RightParen, ")"),
                args: vec![whole(1)],
            }),
            paren: token(TokenType::RightParen, ")"),
            args: vec![
                var("a"),
                Expr::Literal(Literal::Float(Number::from_units(2_500_000_000).unwrap()))
            ],
        })]
    );
}

#[test]
fn for_stands_for_a_block_with_a_while() {
    let stmts = parse("for (var i = 0; i < 3; i = i + 1) print i;");
    let expected = Stmt::Block {
        stmts: vec![
            Stmt::Var { name: token(TokenType::Identifier, "i"), init: Some(whole(0)) },
            Stmt::While {
                cond: binary(var("i"), TokenType::Less, "<", whole(3)),
                body: Box::new(Stmt::Block {
                    stmts: vec![
                        Stmt::Print(var("i")),
                        Stmt::Expression(Expr::Assign {
                            name: token(TokenType::Identifier, "i"),
                            value: Box::new(binary(var("i"), TokenType::Plus, "+", whole(1))),
                        }),
                    ],
                }),
            },
        ],
    };
    assert_eq!(stmts, vec![expected]);
}

#[test]
fn for_without_clauses_loops_on_true() {
    assert_eq!(
        parse("for (;;) { break; }"),
        vec![Stmt::While {
            cond: Expr::Literal(Literal::Boolean(true)),
            body: Box::new(Stmt::Block { stmts: vec![Stmt::Break(None)] }),
        }]
    );
}

#[test]
fn function_declaration_has_parameters_and_body() {
    assert_eq!(
        parse("fun add(a, b) { return a + b; }"),
        vec![Stmt::Func {
            name: token(TokenType::Identifier, "add"),
            params: vec![token(TokenType::Identifier, "a"), token(TokenType::Identifier, "b")],
            body: vec![Stmt::Return {
                keyword: token(TokenType::Return, "return"),
                value: Some(binary(var("a"), TokenType::Plus, "+", var("b"))),
            }],
        }]
    );
}

#[test]
fn if_with_else_and_break_with_level() {
    assert_eq!(
        parse("if (a) break 2; else print nil;"),
        vec![Stmt::If {
            cond: var("a"),
            then_br: Box::new(Stmt::Break(Some(whole(2)))),
            else_br: Some(Box::new(Stmt::Print(Expr::Literal(Literal::Nil)))),
        }]
    );
}

#[test]
fn invalid_assignment_target_is_an_error() {
    let e = parse_error("1 = 2;");
    assert_eq!(e.msg, "Invalid assignment target.");
    assert_eq!(e.where_, "=");
    assert_eq!(e.line, 1);
}

#[test]
fn missing_expression_is_an_error_at_the_offending_token() {
    let e = parse_error("print 1;\nprint ;");
    assert_eq!(e.msg, "Expected expression");
    assert_eq!(e.where_, ";");
    assert_eq!(e.line, 2);
}

#[test]
fn unclosed_grouping_is_an_error() {
    let e = parse_error("print (1 + 2;");
    assert_eq!(e.msg, "Expect ')' after expression.");
}

#[test]
fn too_many_arguments_is_an_error() {
    let mut source = String::from("f(");
    for i in 0..256 {
        if i > 0 {
            source.push(',');
        }
        source.push('1');
    }
    source.push_str(");");
    let e = parse_error(&source);
    assert_eq!(e.msg, "Can't have more than 255 args.");
    let ok = source.replacen("1,", "", 1);
    assert_eq!(parse(&ok).len(), 1);
}

#[test]
fn parsing_goes_on_after_an_error() {
    let (stmts, errors) = Parser::new(tokens("print ; var = 3; print 1; print (2;")).parse_all();
    assert_eq!(stmts, vec![Stmt::Print(whole(1))]);
    let messages: Vec<&str> = errors.iter().map(|e| e.msg.as_str()).collect();
    assert_eq!(
        messages,
        vec!["Expected expression", "Expect variable name", "Expect ')' after expression."]
    );
}

#[test]
fn a_missing_end_of_input_token_is_supplied() {
    let mut given = tokens("print 1;");
    given.pop();
    assert_eq!(Parser::new(given).parse(), Ok(vec![Stmt::Print(whole(1))]));
    assert_eq!(Parser::new(Vec::new()).parse(), Ok(vec![]));
}

#[test]
fn each_syntax_error_has_its_message() {
    let cases = [
        ("f(1;", "Expect ')' after arguments."),
        ("fun (a) {}", "Expect function name."),
        ("fun f a) {}", "Expect '(' after function name."),
        ("fun f(a {}", "Expect ')' after parameters."),
        ("fun f(a) print 1;", "Expect '{' before function body."),
        ("fun f(a, 1) {}", "Expect parameter name."),
        ("var 1 = 2;", "Expect variable name"),
        ("var a = 2", "Expect ';' after expression."),
        ("a + 1", "Expect ';' after expression."),
        ("print 1", "Expect ';' after value."),
        ("break 1 2;", "Expect ';' after break."),
        ("return 1 2;", "Expect ';' after return value."),
        ("if a) print 1;", "Expect '(' after 'if'."),
        ("if (a print 1;", "Expect ')' after if condition."),
        ("while a) print 1;", "Expect '(' after 'while'"),
        ("while (a print 1;", "Expect ')' after while condition"),
        ("for var i = 0;;) print 1;", "Expect '(' after 'for'."),
        ("for (var i = 0; i < 2 i = i + 1) print 1;", "Expect ';' after loop condition."),
        ("for (;; i = i + 1 print 1;", "Expect ')' after loop condition."),
        ("{ print 1;", "Expect '}' after block."),
        ("(1 + 2", "Expect ')' after expression."),
        ("a.b = 3;", "Expect ';' after expression."),
        ("(a) = 3;", "Invalid assignment target."),
        ("print else;", "Expected expression"),
    ];
    for (source, message) in cases {
        assert_eq!(parse_error(source).msg, message, "{source}");
    }
    let mut source = String::from("fun f(");
    for i in 0..256 {
        if i > 0 {
            source.push(',');
        }
        source.push('a');
    }
    source.push_str(") {}");
    assert_eq!(parse_error(&source).msg, "Can't have more than 255 parameters.");
}

#[test]
fn a_literal_token_without_a_value_is_an_error() {
    let given = vec![
        Token::new(TokenType::Number, "1".to_string(), None, 3),
        Token::new(TokenType::Semicolon, ";".to_string(), None, 3),
    ];
    assert_eq!(
        Parser::new(given).parse(),
        Err(LoxError::new(3, "1".to_string(), "No literal value"))
    );
}

#[test]
fn tokens_behind_the_end_of_input_are_not_read() {
    let mut given = tokens("print 1;");
    given.extend(tokens("print 2;"));
    assert_eq!(Parser::new(given).parse(), Ok(vec![Stmt::Print(whole(1))]));
}
