//! Writing a tree back as tokens.
//!
//! [`expr_tokens`] and [`stmt_tokens`] give the token sequence that
//! writes a tree. The tokens that the tree holds (operators, names, the
//! closing parenthesis of a call, the `return` keyword) are written as
//! they are; punctuation and keywords that the tree does not hold are
//! written on line 0.

use vstd::prelude::*;
use vstd::string::StringExecFns;
use crate::ast::{Expr, ExprView, Stmt, StmtView};
use crate::err::views;
use crate::number::{number_text, Number};
use crate::scanner::{Literal, LiteralView, Token, TokenType, TokenView};

verus! {

/// How punctuation and keywords are spelt.
pub open spec fn symbol_text(t: TokenType) -> Seq<char> {
    match t {
        TokenType::LeftParen => "("@,
        TokenType::RightParen => ")"@,
        TokenType::LeftBrace => "{"@,
        TokenType::RightBrace => "}"@,
        TokenType::Comma => ","@,
        TokenType::Dot => "."@,
        TokenType::Minus => "-"@,
        TokenType::Plus => "+"@,
        TokenType::Semicolon => ";"@,
        TokenType::Slash => "/"@,
        TokenType::Star => "*"@,
        TokenType::Bang => "!"@,
        TokenType::BangEqual => "!="@,
        TokenType::Equal => "="@,
        TokenType::EqualEqual => "=="@,
        TokenType::Greater => ">"@,
        TokenType::GreaterEqual => ">="@,
        TokenType::Less => "<"@,
        TokenType::LessEqual => "<="@,
        TokenType::And => "and"@,
        TokenType::Break => "break"@,
        TokenType::Class => "class"@,
        TokenType::Else => "else"@,
        TokenType::False => "false"@,
        TokenType::Fun => "fun"@,
        TokenType::For => "for"@,
        TokenType::If => "if"@,
        TokenType::Nil => "nil"@,
        TokenType::Or => "or"@,
        TokenType::Print => "print"@,
        TokenType::Return => "return"@,
        TokenType::Super => "super"@,
        TokenType::This => "this"@,
        TokenType::True => "true"@,
        TokenType::Var => "var"@,
        TokenType::While => "while"@,
        _ => Seq::empty(),
    }
}

/// The token that writes the punctuation or keyword `t`.
pub open spec fn symbol(t: TokenType) -> TokenView {
    TokenView { type_: t, lexeme: symbol_text(t), literal: None, line: 0 }
}

/// The token that writes a literal.
pub open spec fn literal_token(l: LiteralView) -> TokenView {
    match l {
        LiteralView::Boolean(b) => if b {
            symbol(TokenType::True)
        } else {
            symbol(TokenType::False)
        },
        LiteralView::Nil => symbol(TokenType::Nil),
        LiteralView::String(s) => TokenView {
            type_: TokenType::String,
            lexeme: seq!['"'] + s + seq!['"'],
            literal: Some(l),
            line: 0,
        },
        LiteralView::Integer(v) => TokenView {
            type_: TokenType::Number,
            lexeme: number_text(v * crate::number::SCALE),
            literal: Some(l),
            line: 0,
        },
        LiteralView::Float(u) => TokenView {
            type_: TokenType::Number,
            lexeme: number_text(u),
            literal: Some(l),
            line: 0,
        },
    }
}

/// The tokens that write an expression.
pub open spec fn expr_tokens(e: ExprView) -> Seq<TokenView>
    decreases e, 0nat,
{
    match e {
        ExprView::Literal(l) => seq![literal_token(l)],
        ExprView::Grouping(inner) => seq![symbol(TokenType::LeftParen)] + expr_tokens(*inner)
            + seq![symbol(TokenType::RightParen)],
        ExprView::Variable(name) => seq![name],
        ExprView::Unary { operator, right } => seq![operator] + expr_tokens(*right),
        ExprView::Binary { left, operator, right } => expr_tokens(*left) + seq![operator]
            + expr_tokens(*right),
        ExprView::Logical { left, operator, right } => expr_tokens(*left) + seq![operator]
            + expr_tokens(*right),
        ExprView::Assign { name, value } => seq![name, symbol(TokenType::Equal)] + expr_tokens(
            *value,
        ),
        ExprView::Call { callee, paren, args } => expr_tokens(*callee) + seq![
            symbol(TokenType::LeftParen),
        ] + list_tokens(args, 0) + seq![paren],
    }
}

/// The tokens that write the expressions `args` from `i` on, with
/// commas between them.
pub open spec fn list_tokens(args: Seq<ExprView>, i: nat) -> Seq<TokenView>
    decreases args, args.len() - i,
{
    if i >= args.len() {
        Seq::empty()
    } else if i + 1 == args.len() {
        expr_tokens(args[i as int])
    } else {
        expr_tokens(args[i as int]) + seq![symbol(TokenType::Comma)] + list_tokens(args, i + 1)
    }
}

/// The tokens that write an optional expression: none where there is
/// none.
pub open spec fn option_tokens(e: Option<ExprView>) -> Seq<TokenView> {
    match e {
        Some(e) => expr_tokens(e),
        None => Seq::empty(),
    }
}

/// The tokens that write names with commas between them, from `i` on.
pub open spec fn name_tokens(names: Seq<TokenView>, i: nat) -> Seq<TokenView>
    decreases names.len() - i,
{
    if i >= names.len() {
        Seq::empty()
    } else if i + 1 == names.len() {
        seq![names[i as int]]
    } else {
        seq![names[i as int], symbol(TokenType::Comma)] + name_tokens(names, i + 1)
    }
}

/// The tokens that write a statement.
pub open spec fn stmt_tokens(s: StmtView) -> Seq<TokenView>
    decreases s, 0nat,
{
    match s {
        StmtView::Expression(e) => expr_tokens(e) + seq![symbol(TokenType::Semicolon)],
        StmtView::Print(e) => seq![symbol(TokenType::Print)] + expr_tokens(e) + seq![
            symbol(TokenType::Semicolon),
        ],
        StmtView::Var { name, init } => seq![symbol(TokenType::Var), name] + (match init {
            Some(e) => seq![symbol(TokenType::Equal)] + expr_tokens(e),
            None => Seq::empty(),
        }) + seq![symbol(TokenType::Semicolon)],
        StmtView::Block { stmts } => seq![symbol(TokenType::LeftBrace)] + block_tokens(stmts, 0)
            + seq![symbol(TokenType::RightBrace)],
        StmtView::If { cond, then_br, else_br } => seq![
            symbol(TokenType::If),
            symbol(TokenType::LeftParen),
        ] + expr_tokens(cond) + seq![symbol(TokenType::RightParen)] + stmt_tokens(*then_br) + (
        match else_br {
            Some(other) => seq![symbol(TokenType::Else)] + stmt_tokens(*other),
            None => Seq::empty(),
        }),
        StmtView::While { cond, body } => seq![
            symbol(TokenType::While),
            symbol(TokenType::LeftParen),
        ] + expr_tokens(cond) + seq![symbol(TokenType::RightParen)] + stmt_tokens(*body),
        StmtView::Func { name, params, body } => seq![
            symbol(TokenType::Fun),
            name,
            symbol(TokenType::LeftParen),
        ] + name_tokens(params, 0) + seq![
            symbol(TokenType::RightParen),
            symbol(TokenType::LeftBrace),
        ] + block_tokens(body, 0) + seq![symbol(TokenType::RightBrace)],
        StmtView::Break(level) => seq![symbol(TokenType::Break)] + option_tokens(level) + seq![
            symbol(TokenType::Semicolon),
        ],
        StmtView::Return { keyword, value } => seq![keyword] + option_tokens(value) + seq![
            symbol(TokenType::Semicolon),
        ],
    }
}

/// The tokens that write the statements `stmts` from `i` on, one after
/// the other.
pub open spec fn block_tokens(stmts: Seq<StmtView>, i: nat) -> Seq<TokenView>
    decreases stmts, stmts.len() - i,
{
    if i >= stmts.len() {
        Seq::empty()
    } else {
        stmt_tokens(stmts[i as int]) + block_tokens(stmts, i + 1)
    }
}

/// The tokens that write a program: its statements and the end-of-input
/// token.
pub open spec fn program_tokens(stmts: Seq<StmtView>) -> Seq<TokenView> {
    block_tokens(stmts, 0) + seq![symbol(TokenType::Eof)]
}

/// The spelling of the punctuation or keyword `t`.
fn symbol_string(t: TokenType) -> (s: String)
    ensures
        s@ == symbol_text(t),
{
    match t {
        TokenType::LeftParen => "(".to_string(),
        TokenType::RightParen => ")".to_string(),
        TokenType::LeftBrace => "{".to_string(),
        TokenType::RightBrace => "}".to_string(),
        TokenType::Comma => ",".to_string(),
        TokenType::Dot => ".".to_string(),
        TokenType::Minus => "-".to_string(),
        TokenType::Plus => "+".to_string(),
        TokenType::Semicolon => ";".to_string(),
        TokenType::Slash => "/".to_string(),
        TokenType::Star => "*".to_string(),
        TokenType::Bang => "!".to_string(),
        TokenType::BangEqual => "!=".to_string(),
        TokenType::Equal => "=".to_string(),
        TokenType::EqualEqual => "==".to_string(),
        TokenType::Greater => ">".to_string(),
        TokenType::GreaterEqual => ">=".to_string(),
        TokenType::Less => "<".to_string(),
        TokenType::LessEqual => "<=".to_string(),
        TokenType::And => "and".to_string(),
        TokenType::Break => "break".to_string(),
        TokenType::Class => "class".to_string(),
        TokenType::Else => "else".to_string(),
        TokenType::False => "false".to_string(),
        TokenType::Fun => "fun".to_string(),
        TokenType::For => "for".to_string(),
        TokenType::If => "if".to_string(),
        TokenType::Nil => "nil".to_string(),
        TokenType::Or => "or".to_string(),
        TokenType::Print => "print".to_string(),
        TokenType::Return => "return".to_string(),
        TokenType::Super => "super".to_string(),
        TokenType::This => "this".to_string(),
        TokenType::True => "true".to_string(),
        TokenType::Var => "var".to_string(),
        TokenType::While => "while".to_string(),
        _ => String::new(),
    }
}

/// Puts the token `t` behind `out`.
fn emit(out: &mut Vec<Token>, t: Token)
    ensures
        views(final(out)@) == views(old(out)@) + seq![t@],
{
    out.push(t);
    assert(views(out@) =~= views(old(out)@) + seq![t@]);
}

/// Puts the punctuation or keyword `t` behind `out`.
fn emit_symbol(out: &mut Vec<Token>, t: TokenType)
    ensures
        views(final(out)@) == views(old(out)@) + seq![symbol(t)],
{
    emit(out, Token::new(t, symbol_string(t), None, 0));
}

/// The token that writes a literal.
pub fn print_literal(l: &Literal) -> (t: Token)
    ensures
        t@ == literal_token(l@),
{
    match l {
        Literal::Boolean(b) => if *b {
            Token::new(TokenType::True, symbol_string(TokenType::True), None, 0)
        } else {
            Token::new(TokenType::False, symbol_string(TokenType::False), None, 0)
        },
        Literal::Nil => Token::new(TokenType::Nil, symbol_string(TokenType::Nil), None, 0),
        Literal::String(s) => {
            let mut lexeme = String::new();
            lexeme.push('"');
            lexeme.append(s.as_str());
            lexeme.push('"');
            proof {
                assert(lexeme@ =~= seq!['"'] + s@ + seq!['"']);
            }
            Token::new(TokenType::String, lexeme, Some(l.clone()), 0)
        },
        Literal::Integer(v) => Token::new(
            TokenType::Number,
            Number::from_i64(*v).to_string(),
            Some(l.clone()),
            0,
        ),
        Literal::Float(n) => Token::new(TokenType::Number, n.to_string(), Some(l.clone()), 0),
    }
}

/// Puts the tokens that write `e` behind `out`.
pub fn print_expr(e: &Expr, out: &mut Vec<Token>)
    ensures
        views(final(out)@) == views(old(out)@) + expr_tokens(e@),
    decreases e,
{
    let ghost start = views(out@);
    match e {
        Expr::Literal(l) => {
            emit(out, print_literal(l));
        },
        Expr::Grouping(inner) => {
            emit_symbol(out, TokenType::LeftParen);
            print_expr(inner, out);
            emit_symbol(out, TokenType::RightParen);
            proof {
                assert(views(out@) =~= start + expr_tokens(e@));
            }
        },
        Expr::Variable(name) => {
            emit(out, name.clone());
        },
        Expr::Unary { operator, right } => {
            emit(out, operator.clone());
            print_expr(right, out);
            proof {
                assert(views(out@) =~= start + expr_tokens(e@));
            }
        },
        Expr::Binary { left, operator, right } => {
            print_expr(left, out);
            emit(out, operator.clone());
            print_expr(right, out);
            proof {
                assert(views(out@) =~= start + expr_tokens(e@));
            }
        },
        Expr::Logical { left, operator, right } => {
            print_expr(left, out);
            emit(out, operator.clone());
            print_expr(right, out);
            proof {
                assert(views(out@) =~= start + expr_tokens(e@));
            }
        },
        Expr::Assign { name, value } => {
            emit(out, name.clone());
            emit_symbol(out, TokenType::Equal);
            print_expr(value, out);
            proof {
                assert(views(out@) =~= start + expr_tokens(e@));
            }
        },
        Expr::Call { callee, paren, args } => {
            print_expr(callee, out);
            emit_symbol(out, TokenType::LeftParen);
            let ghost list = views(args@);
            let ghost head = views(out@);
            proof {
                crate::ast::lemma_call_view(*callee, *paren, *args);
            }
            let mut i: usize = 0;
            while i < args.len()
                invariant
                    i <= args.len(),
                    e is Call,
                    e->Call_args == *args,
                    list == views(args@),
                    views(out@) + list_tokens(list, i as nat) == head + list_tokens(list, 0),
                decreases args.len() - i,
            {
                proof {
                    vstd::std_specs::vec::axiom_vec_index_decreases(*args, i as int);
                    assert(decreases_to!(*e => e->Call_args));
                }
                let ghost before = views(out@);
                print_expr(&args[i], out);
                if i + 1 < args.len() {
                    emit_symbol(out, TokenType::Comma);
                    proof {
                        assert(views(out@) + list_tokens(list, (i + 1) as nat) =~= before
                            + list_tokens(list, i as nat));
                    }
                } else {
                    proof {
                        assert(list_tokens(list, (i + 1) as nat) =~= Seq::<TokenView>::empty());
                        assert(views(out@) + list_tokens(list, (i + 1) as nat) =~= before
                            + list_tokens(list, i as nat));
                    }
                }
                i += 1;
            }
            emit(out, paren.clone());
            proof {
                assert(list_tokens(list, args.len() as nat) =~= Seq::<TokenView>::empty());
                assert(views(out@) =~= start + expr_tokens(e@));
            }
        },
    }
}

/// Puts the tokens that write an optional expression behind `out`.
fn print_option(e: &Option<Expr>, out: &mut Vec<Token>)
    ensures
        views(final(out)@) == views(old(out)@) + option_tokens(crate::ast::option_view(*e)),
{
    match e {
        Some(e) => {
            print_expr(e, out);
        },
        None => {
            assert(views(out@) =~= views(out@) + Seq::<TokenView>::empty());
        },
    }
}

/// Puts the tokens that write the statements behind `out`.
fn print_block(stmts: &Vec<Stmt>, out: &mut Vec<Token>)
    ensures
        views(final(out)@) == views(old(out)@) + block_tokens(views(stmts@), 0),
    decreases stmts, 1nat,
{
    let ghost list = views(stmts@);
    let ghost head = views(out@);
    let mut i: usize = 0;
    while i < stmts.len()
        invariant
            i <= stmts.len(),
            list == views(stmts@),
            views(out@) + block_tokens(list, i as nat) == head + block_tokens(list, 0),
        decreases stmts.len() - i,
    {
        proof {
            vstd::std_specs::vec::axiom_vec_index_decreases(*stmts, i as int);
        }
        let ghost before = views(out@);
        print_stmt(&stmts[i], out);
        proof {
            assert(views(out@) + block_tokens(list, (i + 1) as nat) =~= before + block_tokens(
                list,
                i as nat,
            ));
        }
        i += 1;
    }
    proof {
        assert(block_tokens(list, stmts.len() as nat) =~= Seq::<TokenView>::empty());
        assert(views(out@) =~= head + block_tokens(list, 0));
    }
}

/// Puts names with commas between them behind `out`.
fn print_names(names: &Vec<Token>, out: &mut Vec<Token>)
    ensures
        views(final(out)@) == views(old(out)@) + name_tokens(views(names@), 0),
{
    let ghost list = views(names@);
    let ghost head = views(out@);
    let mut i: usize = 0;
    while i < names.len()
        invariant
            i <= names.len(),
            list == views(names@),
            views(out@) + name_tokens(list, i as nat) == head + name_tokens(list, 0),
        decreases names.len() - i,
    {
        let ghost before = views(out@);
        emit(out, names[i].clone());
        if i + 1 < names.len() {
            emit_symbol(out, TokenType::Comma);
            proof {
                assert(views(out@) + name_tokens(list, (i + 1) as nat) =~= before + name_tokens(
                    list,
                    i as nat,
                ));
            }
        } else {
            proof {
                assert(name_tokens(list, (i + 1) as nat) =~= Seq::<TokenView>::empty());
                assert(views(out@) + name_tokens(list, (i + 1) as nat) =~= before + name_tokens(
                    list,
                    i as nat,
                ));
            }
        }
        i += 1;
    }
    proof {
        assert(name_tokens(list, names.len() as nat) =~= Seq::<TokenView>::empty());
        assert(views(out@) =~= head + name_tokens(list, 0));
    }
}

/// Puts the tokens that write `s` behind `out`.
pub fn print_stmt(s: &Stmt, out: &mut Vec<Token>)
    ensures
        views(final(out)@) == views(old(out)@) + stmt_tokens(s@),
    decreases s, 0nat,
{
    let ghost start = views(out@);
    match s {
        Stmt::Expression(e) => {
            print_expr(e, out);
            emit_symbol(out, TokenType::Semicolon);
        },
        Stmt::Print(e) => {
            emit_symbol(out, TokenType::Print);
            print_expr(e, out);
            emit_symbol(out, TokenType::Semicolon);
        },
        Stmt::Var { name, init } => {
            emit_symbol(out, TokenType::Var);
            emit(out, name.clone());
            match init {
                Some(e) => {
                    emit_symbol(out, TokenType::Equal);
                    print_expr(e, out);
                },
                None => {},
            }
            emit_symbol(out, TokenType::Semicolon);
        },
        Stmt::Block { stmts } => {
            proof {
                crate::ast::lemma_block_view(*stmts);
                assert(decreases_to!(*s => s->Block_stmts));
            }
            emit_symbol(out, TokenType::LeftBrace);
            print_block(stmts, out);
            emit_symbol(out, TokenType::RightBrace);
        },
        Stmt::If { cond, then_br, else_br } => {
            emit_symbol(out, TokenType::If);
            emit_symbol(out, TokenType::LeftParen);
            print_expr(cond, out);
            emit_symbol(out, TokenType::RightParen);
            print_stmt(then_br, out);
            match else_br {
                Some(other) => {
                    emit_symbol(out, TokenType::Else);
                    print_stmt(other, out);
                },
                None => {},
            }
        },
        Stmt::While { cond, body } => {
            emit_symbol(out, TokenType::While);
            emit_symbol(out, TokenType::LeftParen);
            print_expr(cond, out);
            emit_symbol(out, TokenType::RightParen);
            print_stmt(body, out);
        },
        Stmt::Func { name, params, body } => {
            proof {
                crate::ast::lemma_func_view(*name, *params, *body);
                assert(decreases_to!(*s => s->Func_body));
            }
            emit_symbol(out, TokenType::Fun);
            emit(out, name.clone());
            emit_symbol(out, TokenType::LeftParen);
            print_names(params, out);
            emit_symbol(out, TokenType::RightParen);
            emit_symbol(out, TokenType::LeftBrace);
            print_block(body, out);
            emit_symbol(out, TokenType::RightBrace);
        },
        Stmt::Break(level) => {
            emit_symbol(out, TokenType::Break);
            print_option(level, out);
            emit_symbol(out, TokenType::Semicolon);
        },
        Stmt::Return { keyword, value } => {
            emit(out, keyword.clone());
            print_option(value, out);
            emit_symbol(out, TokenType::Semicolon);
        },
    }
    proof {
        assert(views(out@) =~= start + stmt_tokens(s@));
    }
}

/// The tokens that write a program: those of its statements, and the
/// end-of-input token.
pub fn print_program(stmts: &Vec<Stmt>) -> (tokens: Vec<Token>)
    ensures
        views(tokens@) == program_tokens(views(stmts@)),
{
    let mut out: Vec<Token> = Vec::new();
    proof {
        assert(views(out@) =~= Seq::<TokenView>::empty());
    }
    print_block(stmts, &mut out);
    emit_symbol(&mut out, TokenType::Eof);
    proof {
        assert(views(out@) =~= program_tokens(views(stmts@)));
    }
    out
}

/// The source text that writes the tokens: their lexemes with a space
/// behind each.
pub open spec fn source_text(tokens: Seq<TokenView>, i: nat) -> Seq<char>
    decreases tokens.len() - i,
{
    if i >= tokens.len() {
        Seq::empty()
    } else {
        tokens[i as int].lexeme + seq![' '] + source_text(tokens, i + 1)
    }
}

/// The source text that writes the tokens.
pub fn to_source(tokens: &Vec<Token>) -> (s: String)
    ensures
        s@ == source_text(views(tokens@), 0),
{
    let ghost list = views(tokens@);
    let mut s = String::new();
    let mut i: usize = 0;
    while i < tokens.len()
        invariant
            i <= tokens.len(),
            list == views(tokens@),
            s@ + source_text(list, i as nat) == source_text(list, 0),
        decreases tokens.len() - i,
    {
        let ghost before = s@;
        s.append(tokens[i].lexeme.as_str());
        s.push(' ');
        proof {
            assert(s@ + source_text(list, (i + 1) as nat) =~= before + source_text(list, i as nat));
        }
        i += 1;
    }
    proof {
        assert(source_text(list, tokens.len() as nat) =~= Seq::<char>::empty());
        assert(s@ =~= s@ + Seq::<char>::empty());
    }
    s
}

} // verus!
