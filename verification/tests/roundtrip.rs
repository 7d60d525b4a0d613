use rlox::ast::Stmt;
use rlox::idempotence::reparse;
use rlox::parser::Parser;
use rlox::printer::{print_program, to_source};
use rlox::scanner::{Scanner, TokenType};

fn parse(source: &str) -> Vec<Stmt> {
    let (tokens, errors) = Scanner::new(source.to_string()).scan_tokens();
    assert!(errors.is_empty(), "lexical errors: {:?}", errors);
    Parser::new(tokens).parse().expect("the program parses")
}

const PROGRAMS: [&str; 8] = [
    "print 1 + 2 * 3 - 4 / 5;",
    "var a = (1 + 2) * -3; a = b = !c == d != e;",
    "print a < b or c >= d and e <= f or g > h;",
    "f(1)(a, \"two\", 3.5)(); g(h(i), j)(k);",
    "if (a) if (b) print 1; else print 2;",
    "if (a) { if (b) print 1; } else while (c) if (d) break 2; else break;",
    "for (var i = 0; i < 3; i = i + 1) print i; for (;;) { break; } for (i = 1; ; ) i;",
    "fun add(a, b) { return a + b; } fun none() { return; } { var x; { x = nil; } } print true;",
];

#[test]
fn parsing_what_was_printed_gives_the_tree_back() {
    for source in PROGRAMS {
        let tree = parse(source);
        assert_eq!(reparse(&tree), Ok(tree.clone()), "{source}");
        let tokens = print_program(&tree);
        assert_eq!(tokens.last().map(|t| t.type_), Some(TokenType::Eof));
        assert_eq!(Parser::new(tokens).parse(), Ok(tree), "{source}");
    }
}

#[test]
fn scanning_and_parsing_the_printed_text_gives_the_tree_back() {
    for source in PROGRAMS {
        let tree = parse(source);
        let text = to_source(&print_program(&tree));
        assert_eq!(parse(&text), tree, "{source} printed as {text}");
    }
}

#[test]
fn printed_text_is_the_lexemes_with_spaces() {
    let tree = parse("print (1+2)*x; var s = \"a b\"; f(1.50, nil);");
    assert_eq!(
        to_source(&print_program(&tree)),
        "print ( 1 + 2 ) * x ; var s = \"a b\" ; f ( 1.5 , nil ) ;  "
    );
}

#[test]
fn a_tree_that_the_parser_does_not_build_may_come_back_changed() {
    let dangling = parse("if (a) { if (b) print 1; } else print 2;");
    let inner = match &dangling[0] {
        Stmt::If { cond, then_br, else_br } => match then_br.as_ref() {
            Stmt::Block { stmts } => Stmt::If {
                cond: cond.clone(),
                then_br: Box::new(stmts[0].clone()),
                else_br: else_br.clone(),
            },
            other => panic!("unexpected {other:?}"),
        },
        other => panic!("unexpected {other:?}"),
    };
    let back = reparse(&vec![inner.clone()]).expect("it parses");
    assert_ne!(back, vec![inner]);
}
