//! Parsing what was printed gives the statements back.
//!
//! For sound statements, [`crate::grammar`] reads
//! [`crate::printer`]'s tokens back into the same trees, and notes no
//! error.

use vstd::prelude::*;
use crate::ast::{ExprView, StmtView};
use crate::err::ErrorView;
use crate::grammar::{
    block, break_statement, check, condition, declaration, expression, expression_statement,
    fun_declaration, if_statement, moved, ok, optional_terminated, parameters, plain,
    print_statement, program, program_from, return_statement, statement, terminated,
    var_declaration, while_statement, Declared, Noted, Program, MAX_ARGS,
};
use crate::printer::{
    block_tokens, expr_tokens, name_tokens, option_tokens, program_tokens, stmt_tokens, symbol,
};
use crate::roundtrip::lemma_read_expression;
use crate::scanner::{TokenType, TokenView};
use crate::shape::{
    all_sound, at, lemma_at_one, lemma_at_two, lemma_block_shape, lemma_expr_shape,
    lemma_names_shape, lemma_stmt_shape, open_if, plain_statement, sound, sound_option, sound_stmt,
    starts_expression,
};

verus! {

/// A construct that was read without an error noted.
pub open spec fn clean<T>(tree: T, pos: int) -> Noted<T> {
    Noted { result: Ok(tree), pos, errors: Seq::empty() }
}

/// An expression and its semicolon are read.
pub proof fn lemma_read_terminated(ts: Seq<TokenView>, pos: int, e: ExprView, msg: Seq<char>)
    requires
        sound(e),
        at(ts, pos, expr_tokens(e)),
        pos + expr_tokens(e).len() < ts.len(),
        ts[pos + expr_tokens(e).len()].type_ == TokenType::Semicolon,
    ensures
        terminated(ts, pos, msg) == ok(e, pos + expr_tokens(e).len() + 1),
{
    lemma_read_expression(ts, pos, e);
}

/// An optional expression and its semicolon are read.
pub proof fn lemma_read_optional(ts: Seq<TokenView>, pos: int, e: Option<ExprView>, msg: Seq<char>)
    requires
        sound_option(e),
        at(ts, pos, option_tokens(e)),
        pos + option_tokens(e).len() < ts.len(),
        ts[pos + option_tokens(e).len()].type_ == TokenType::Semicolon,
    ensures
        optional_terminated(ts, pos, msg) == ok(e, pos + option_tokens(e).len() + 1),
{
    match e {
        Some(x) => {
            lemma_expr_shape(x);
            assert(ts[pos] == expr_tokens(x)[0]);
            lemma_read_terminated(ts, pos, x, msg);
        },
        None => {},
    }
}

/// A condition in parentheses is read.
pub proof fn lemma_read_condition(
    ts: Seq<TokenView>,
    pos: int,
    cond: ExprView,
    open_msg: Seq<char>,
    close_msg: Seq<char>,
)
    requires
        sound(cond),
        0 <= pos < ts.len(),
        ts[pos].type_ == TokenType::LeftParen,
        at(ts, pos + 1, expr_tokens(cond)),
        pos + 1 + expr_tokens(cond).len() < ts.len(),
        ts[pos + 1 + expr_tokens(cond).len()].type_ == TokenType::RightParen,
    ensures
        condition(ts, pos, open_msg, close_msg) == ok(cond, pos + expr_tokens(cond).len() + 2),
{
    lemma_read_expression(ts, pos + 1, cond);
}

/// A list of parameters is read up to the closing parenthesis.
pub proof fn lemma_read_parameters(ts: Seq<TokenView>, pos: int, names: Seq<TokenView>, i: nat)
    requires
        forall|j: int| 0 <= j < names.len() ==> (#[trigger] names[j]).type_
            == TokenType::Identifier,
        i < names.len() <= MAX_ARGS,
        at(ts, pos, name_tokens(names, i)),
        pos + name_tokens(names, i).len() < ts.len(),
        ts[pos + name_tokens(names, i).len()].type_ == TokenType::RightParen,
    ensures
        parameters(ts, pos, names.subrange(0, i as int)) == ok(
            names,
            pos + name_tokens(names, i).len(),
        ),
    decreases names.len() - i,
{
    let before = names.subrange(0, i as int);
    assert(before.push(names[i as int]) =~= names.subrange(0, i as int + 1));
    if i + 1 == names.len() {
        lemma_at_one(ts, pos, names[i as int]);
        assert(names.subrange(0, i as int + 1) =~= names);
    } else {
        let head = seq![names[i as int], symbol(TokenType::Comma)];
        lemma_at_two(ts, pos, head, name_tokens(names, i + 1));
        assert(ts[pos] == head[0]);
        assert(ts[pos + 1] == head[1]);
        lemma_read_parameters(ts, pos + 2, names, i + 1);
    }
}

/// A variable declaration is read from behind its keyword on.
pub proof fn lemma_read_var(ts: Seq<TokenView>, pos: int, s: StmtView)
    requires
        sound_stmt(s),
        s is Var,
        at(ts, pos, stmt_tokens(s)),
    ensures
        check(ts, pos, TokenType::Var),
        var_declaration(ts, pos + 1) == ok(s, pos + stmt_tokens(s).len()),
{
    let name = s->Var_name;
    let init = s->Var_init;
    let end = pos + stmt_tokens(s).len();
    let head = seq![symbol(TokenType::Var), name];
    let semi = seq![symbol(TokenType::Semicolon)];
    let mid = match init {
        Some(e) => seq![symbol(TokenType::Equal)] + expr_tokens(e),
        None => Seq::empty(),
    };
    lemma_at_two(ts, pos, head + mid, semi);
    lemma_at_two(ts, pos, head, mid);
    assert(ts[pos] == head[0]);
    assert(ts[pos + 1] == head[1]);
    lemma_at_one(ts, end - 1, symbol(TokenType::Semicolon));
    match init {
        Some(e) => {
            lemma_at_two(ts, pos + 2, seq![symbol(TokenType::Equal)], expr_tokens(e));
            lemma_at_one(ts, pos + 2, symbol(TokenType::Equal));
            lemma_read_expression(ts, pos + 3, e);
        },
        None => {},
    }
}

/// An expression statement is read.
pub proof fn lemma_read_expression_statement(ts: Seq<TokenView>, pos: int, e: ExprView)
    requires
        sound(e),
        at(ts, pos, expr_tokens(e) + seq![symbol(TokenType::Semicolon)]),
    ensures
        expression_statement(ts, pos) == ok(
            StmtView::Expression(e),
            pos + expr_tokens(e).len() + 1,
        ),
{
    lemma_at_two(ts, pos, expr_tokens(e), seq![symbol(TokenType::Semicolon)]);
    lemma_at_one(ts, pos + expr_tokens(e).len(), symbol(TokenType::Semicolon));
    lemma_read_terminated(ts, pos, e, "Expect ';' after expression."@);
}

/// Where the parts of a statement that ends with a semicolon stand.
pub proof fn lemma_simple_layout(ts: Seq<TokenView>, pos: int, s: StmtView)
    requires
        s is Print || s is Break || s is Return,
        at(ts, pos, stmt_tokens(s)),
    ensures
        ({
            let inner = match s {
                StmtView::Print(e) => expr_tokens(e),
                StmtView::Break(level) => option_tokens(level),
                StmtView::Return { keyword, value } => option_tokens(value),
                _ => Seq::empty(),
            };
            &&& 0 <= pos
            &&& stmt_tokens(s).len() == inner.len() + 2
            &&& pos + inner.len() + 1 < ts.len()
            &&& ts[pos] == match s {
                StmtView::Print(_) => symbol(TokenType::Print),
                StmtView::Break(_) => symbol(TokenType::Break),
                StmtView::Return { keyword, value } => keyword,
                _ => symbol(TokenType::Eof),
            }
            &&& at(ts, pos + 1, inner)
            &&& ts[pos + inner.len() + 1] == symbol(TokenType::Semicolon)
        }),
{
    let semi = seq![symbol(TokenType::Semicolon)];
    let end = pos + stmt_tokens(s).len();
    match s {
        StmtView::Print(e) => {
            lemma_at_two(ts, pos, seq![symbol(TokenType::Print)] + expr_tokens(e), semi);
            lemma_at_two(ts, pos, seq![symbol(TokenType::Print)], expr_tokens(e));
            lemma_at_one(ts, pos, symbol(TokenType::Print));
            lemma_at_one(ts, end - 1, symbol(TokenType::Semicolon));
        },
        StmtView::Break(level) => {
            lemma_at_two(ts, pos, seq![symbol(TokenType::Break)] + option_tokens(level), semi);
            lemma_at_two(ts, pos, seq![symbol(TokenType::Break)], option_tokens(level));
            lemma_at_one(ts, pos, symbol(TokenType::Break));
            lemma_at_one(ts, end - 1, symbol(TokenType::Semicolon));
        },
        StmtView::Return { keyword, value } => {
            lemma_at_two(ts, pos, seq![keyword] + option_tokens(value), semi);
            lemma_at_two(ts, pos, seq![keyword], option_tokens(value));
            lemma_at_one(ts, pos, keyword);
            lemma_at_one(ts, end - 1, symbol(TokenType::Semicolon));
        },
        _ => {},
    }
}

/// A `print` is read.
pub proof fn lemma_read_print(ts: Seq<TokenView>, pos: int, s: StmtView)
    requires
        sound_stmt(s),
        s is Print,
        at(ts, pos, stmt_tokens(s)),
    ensures
        statement(ts, pos) == clean(s, pos + stmt_tokens(s).len()),
{
    lemma_simple_layout(ts, pos, s);
    lemma_read_terminated(ts, pos + 1, s->Print_0, "Expect ';' after value."@);
    assert(check(ts, pos, TokenType::Print));
    assert(print_statement(ts, pos + 1) == ok(s, pos + stmt_tokens(s).len()));
}

/// A `break` is read.
pub proof fn lemma_read_break(ts: Seq<TokenView>, pos: int, s: StmtView)
    requires
        sound_stmt(s),
        s is Break,
        at(ts, pos, stmt_tokens(s)),
    ensures
        statement(ts, pos) == clean(s, pos + stmt_tokens(s).len()),
{
    lemma_simple_layout(ts, pos, s);
    lemma_read_optional(ts, pos + 1, s->Break_0, "Expect ';' after break."@);
    assert(check(ts, pos, TokenType::Break));
    assert(break_statement(ts, pos + 1) == ok(s, pos + stmt_tokens(s).len()));
}

/// A `return` is read.
pub proof fn lemma_read_return(ts: Seq<TokenView>, pos: int, s: StmtView)
    requires
        sound_stmt(s),
        s is Return,
        at(ts, pos, stmt_tokens(s)),
    ensures
        statement(ts, pos) == clean(s, pos + stmt_tokens(s).len()),
{
    lemma_simple_layout(ts, pos, s);
    lemma_read_optional(ts, pos + 1, s->Return_value, "Expect ';' after return value."@);
    assert(check(ts, pos, TokenType::Return));
    assert(ts[pos] == s->Return_keyword);
    assert(return_statement(ts, pos + 1, ts[pos]) == ok(s, pos + stmt_tokens(s).len()));
}

/// Where a statement starts with a token that starts an expression, it
/// is an expression statement.
#[verifier::rlimit(50)]
pub proof fn lemma_bare_statement(ts: Seq<TokenView>, pos: int)
    requires
        starts_expression(ts[pos].type_),
    ensures
        statement(ts, pos) == plain(expression_statement(ts, pos)),
{
}

/// An expression statement is read as a statement.
pub proof fn lemma_read_bare(ts: Seq<TokenView>, pos: int, s: StmtView)
    requires
        sound_stmt(s),
        s is Expression,
        at(ts, pos, stmt_tokens(s)),
    ensures
        statement(ts, pos) == clean(s, pos + stmt_tokens(s).len()),
{
    let e = s->Expression_0;
    lemma_expr_shape(e);
    lemma_at_two(ts, pos, expr_tokens(e), seq![symbol(TokenType::Semicolon)]);
    assert(ts[pos] == expr_tokens(e)[0]);
    lemma_read_expression_statement(ts, pos, e);
    lemma_bare_statement(ts, pos);
}

/// Where the parts of an `if` or a `while` stand.
pub proof fn lemma_branch_layout(ts: Seq<TokenView>, pos: int, s: StmtView)
    requires
        s is If || s is While,
        at(ts, pos, stmt_tokens(s)),
    ensures
        ({
            let cond = if s is If {
                s->If_cond
            } else {
                s->While_cond
            };
            let first = if s is If {
                *s->If_then_br
            } else {
                *s->While_body
            };
            let second: Option<StmtView> = if s is If {
                match s->If_else_br {
                    Some(other) => Some(*other),
                    None => None,
                }
            } else {
                None
            };
            let p_close = pos + 2 + expr_tokens(cond).len();
            let behind = p_close + 1 + stmt_tokens(first).len();
            &&& 0 <= pos
            &&& ts[pos] == if s is If {
                symbol(TokenType::If)
            } else {
                symbol(TokenType::While)
            }
            &&& ts[pos + 1] == symbol(TokenType::LeftParen)
            &&& at(ts, pos + 2, expr_tokens(cond))
            &&& p_close < ts.len()
            &&& ts[p_close] == symbol(TokenType::RightParen)
            &&& at(ts, p_close + 1, stmt_tokens(first))
            &&& match second {
                Some(other) => behind < ts.len() && ts[behind] == symbol(TokenType::Else) && at(
                    ts,
                    behind + 1,
                    stmt_tokens(other),
                ) && pos + stmt_tokens(s).len() == behind + 1 + stmt_tokens(other).len(),
                None => pos + stmt_tokens(s).len() == behind,
            }
        }),
{
    let close = seq![symbol(TokenType::RightParen)];
    match s {
        StmtView::If { cond, then_br, else_br } => {
            let head = seq![symbol(TokenType::If), symbol(TokenType::LeftParen)];
            let tail = match else_br {
                Some(other) => seq![symbol(TokenType::Else)] + stmt_tokens(*other),
                None => Seq::empty(),
            };
            let p_close = pos + 2 + expr_tokens(cond).len();
            let behind = p_close + 1 + stmt_tokens(*then_br).len();
            lemma_at_two(ts, pos, head + expr_tokens(cond) + close + stmt_tokens(*then_br), tail);
            lemma_at_two(ts, pos, head + expr_tokens(cond) + close, stmt_tokens(*then_br));
            lemma_at_two(ts, pos, head + expr_tokens(cond), close);
            lemma_at_two(ts, pos, head, expr_tokens(cond));
            assert(ts[pos] == head[0]);
            assert(ts[pos + 1] == head[1]);
            lemma_at_one(ts, p_close, symbol(TokenType::RightParen));
            match else_br {
                Some(other) => {
                    lemma_at_two(ts, behind, seq![symbol(TokenType::Else)], stmt_tokens(*other));
                    lemma_at_one(ts, behind, symbol(TokenType::Else));
                },
                None => {},
            }
        },
        StmtView::While { cond, body } => {
            let head = seq![symbol(TokenType::While), symbol(TokenType::LeftParen)];
            let p_close = pos + 2 + expr_tokens(cond).len();
            lemma_at_two(ts, pos, head + expr_tokens(cond) + close, stmt_tokens(*body));
            lemma_at_two(ts, pos, head + expr_tokens(cond), close);
            lemma_at_two(ts, pos, head, expr_tokens(cond));
            assert(ts[pos] == head[0]);
            assert(ts[pos + 1] == head[1]);
            lemma_at_one(ts, p_close, symbol(TokenType::RightParen));
        },
        _ => {},
    }
}

/// An `if` is read from behind its keyword on, unless it ends with an
/// `if` without `else` and an `else` follows.
#[verifier::rlimit(50)]
pub proof fn lemma_read_if(ts: Seq<TokenView>, pos: int, s: StmtView)
    requires
        sound_stmt(s),
        s is If,
        at(ts, pos, stmt_tokens(s)),
        pos + stmt_tokens(s).len() < ts.len(),
        open_if(s) ==> ts[pos + stmt_tokens(s).len()].type_ != TokenType::Else,
    ensures
        check(ts, pos, TokenType::If),
        if_statement(ts, pos + 1) == clean(s, pos + stmt_tokens(s).len()),
    decreases s, 0nat,
{
    let cond = s->If_cond;
    let then_br = *s->If_then_br;
    let else_br = s->If_else_br;
    let p_close = pos + 2 + expr_tokens(cond).len();
    let behind = p_close + 1 + stmt_tokens(then_br).len();
    lemma_branch_layout(ts, pos, s);
    lemma_read_condition(
        ts,
        pos + 1,
        cond,
        "Expect '(' after 'if'."@,
        "Expect ')' after if condition."@,
    );
    let read = condition(ts, pos + 1, "Expect '(' after 'if'."@, "Expect ')' after if condition."@);
    assert(read == ok(cond, p_close + 1));
    assert(moved(ts, pos + 1, p_close + 1));
    match else_br {
        Some(other) => {
            lemma_read_statement(ts, p_close + 1, then_br);
            lemma_read_statement(ts, behind + 1, *other);
            assert(statement(ts, p_close + 1) == clean(then_br, behind));
            assert(check(ts, behind, TokenType::Else));
            assert(statement(ts, behind + 1) == clean(*other, pos + stmt_tokens(s).len()));
            assert(Seq::<ErrorView>::empty() + Seq::<ErrorView>::empty() =~= Seq::<
                ErrorView,
            >::empty());
        },
        None => {
            lemma_read_statement(ts, p_close + 1, then_br);
            assert(statement(ts, p_close + 1) == clean(then_br, behind));
            assert(!check(ts, behind, TokenType::Else));
        },
    }
}

/// A `while` is read from behind its keyword on, unless it ends with an
/// `if` without `else` and an `else` follows.
#[verifier::rlimit(50)]
pub proof fn lemma_read_while(ts: Seq<TokenView>, pos: int, s: StmtView)
    requires
        sound_stmt(s),
        s is While,
        at(ts, pos, stmt_tokens(s)),
        pos + stmt_tokens(s).len() < ts.len(),
        open_if(s) ==> ts[pos + stmt_tokens(s).len()].type_ != TokenType::Else,
    ensures
        check(ts, pos, TokenType::While),
        while_statement(ts, pos + 1) == clean(s, pos + stmt_tokens(s).len()),
    decreases s, 0nat,
{
    let cond = s->While_cond;
    let body = *s->While_body;
    let p_close = pos + 2 + expr_tokens(cond).len();
    lemma_branch_layout(ts, pos, s);
    lemma_read_condition(
        ts,
        pos + 1,
        cond,
        "Expect '(' after 'while'"@,
        "Expect ')' after while condition"@,
    );
    lemma_read_statement(ts, p_close + 1, body);
    assert(moved(ts, pos + 1, p_close + 1));
}

/// A function declaration is read from behind its keyword on.
#[verifier::rlimit(50)]
pub proof fn lemma_read_fun(ts: Seq<TokenView>, pos: int, s: StmtView)
    requires
        sound_stmt(s),
        s is Func,
        at(ts, pos, stmt_tokens(s)),
    ensures
        check(ts, pos, TokenType::Fun),
        fun_declaration(ts, pos + 1) == clean(s, pos + stmt_tokens(s).len()),
    decreases s, 0nat,
{
    let name = s->Func_name;
    let params = s->Func_params;
    let body = s->Func_body;
    let end = pos + stmt_tokens(s).len();
    let head = seq![symbol(TokenType::Fun), name, symbol(TokenType::LeftParen)];
    let mid = seq![symbol(TokenType::RightParen), symbol(TokenType::LeftBrace)];
    let close = seq![symbol(TokenType::RightBrace)];
    let p_mid = pos + 3 + name_tokens(params, 0).len();
    lemma_at_two(ts, pos, head + name_tokens(params, 0) + mid + block_tokens(body, 0), close);
    lemma_at_two(ts, pos, head + name_tokens(params, 0) + mid, block_tokens(body, 0));
    lemma_at_two(ts, pos, head + name_tokens(params, 0), mid);
    lemma_at_two(ts, pos, head, name_tokens(params, 0));
    assert(ts[pos] == head[0]);
    assert(ts[pos + 1] == head[1]);
    assert(ts[pos + 2] == head[2]);
    assert(ts[p_mid] == mid[0]);
    assert(ts[p_mid + 1] == mid[1]);
    lemma_at_one(ts, end - 1, symbol(TokenType::RightBrace));
    lemma_names_shape(params, 0);
    let read = if check(ts, pos + 3, TokenType::RightParen) {
        ok(Seq::<TokenView>::empty(), pos + 3)
    } else {
        parameters(ts, pos + 3, Seq::empty())
    };
    if params.len() == 0 {
        assert(params =~= Seq::<TokenView>::empty());
    } else {
        assert(ts[pos + 3] == name_tokens(params, 0)[0]);
        assert(params.subrange(0, 0) =~= Seq::<TokenView>::empty());
        lemma_read_parameters(ts, pos + 3, params, 0);
    }
    assert(read == ok(params, p_mid));
    assert(body.subrange(0, 0) =~= Seq::<StmtView>::empty());
    lemma_read_block(ts, p_mid + 2, body, 0);
    assert(moved(ts, pos + 1, p_mid + 2));
}

/// A statement is read, unless it ends with an `if` without `else` and
/// an `else` follows.
#[verifier::rlimit(50)]
pub proof fn lemma_read_statement(ts: Seq<TokenView>, pos: int, s: StmtView)
    requires
        sound_stmt(s),
        plain_statement(s),
        at(ts, pos, stmt_tokens(s)),
        pos + stmt_tokens(s).len() < ts.len(),
        open_if(s) ==> ts[pos + stmt_tokens(s).len()].type_ != TokenType::Else,
    ensures
        statement(ts, pos) == clean(s, pos + stmt_tokens(s).len()),
    decreases s, 1nat,
{
    let end = pos + stmt_tokens(s).len();
    match s {
        StmtView::If { .. } => {
            lemma_read_if(ts, pos, s);
        },
        StmtView::While { .. } => {
            lemma_read_while(ts, pos, s);
        },
        StmtView::Block { stmts } => {
            let open = seq![symbol(TokenType::LeftBrace)];
            let close = seq![symbol(TokenType::RightBrace)];
            lemma_at_two(ts, pos, open + block_tokens(stmts, 0), close);
            lemma_at_two(ts, pos, open, block_tokens(stmts, 0));
            lemma_at_one(ts, pos, symbol(TokenType::LeftBrace));
            lemma_at_one(ts, end - 1, symbol(TokenType::RightBrace));
            assert(stmts.subrange(0, 0) =~= Seq::<StmtView>::empty());
            lemma_read_block(ts, pos + 1, stmts, 0);
        },
        StmtView::Print(_) => {
            lemma_read_print(ts, pos, s);
        },
        StmtView::Break(_) => {
            lemma_read_break(ts, pos, s);
        },
        StmtView::Return { .. } => {
            lemma_read_return(ts, pos, s);
        },
        _ => {
            lemma_read_bare(ts, pos, s);
        },
    }
}

/// A declaration is read, unless it ends with an `if` without `else`
/// and an `else` follows.
#[verifier::rlimit(50)]
pub proof fn lemma_read_declaration(ts: Seq<TokenView>, pos: int, s: StmtView)
    requires
        sound_stmt(s),
        at(ts, pos, stmt_tokens(s)),
        pos + stmt_tokens(s).len() < ts.len(),
        open_if(s) ==> ts[pos + stmt_tokens(s).len()].type_ != TokenType::Else,
    ensures
        declaration(ts, pos) == (Declared {
            stmt: Some(s),
            pos: pos + stmt_tokens(s).len(),
            errors: Seq::empty(),
        }),
    decreases s, 2nat,
{
    lemma_stmt_shape(s);
    assert(ts[pos] == stmt_tokens(s)[0]);
    match s {
        StmtView::Var { .. } => {
            lemma_read_var(ts, pos, s);
        },
        StmtView::Func { .. } => {
            lemma_read_fun(ts, pos, s);
        },
        _ => {
            lemma_read_statement(ts, pos, s);
        },
    }
}

/// The statements of a block are read up to the closing brace.
#[verifier::rlimit(50)]
pub proof fn lemma_read_block(ts: Seq<TokenView>, pos: int, stmts: Seq<StmtView>, i: nat)
    requires
        all_sound(stmts),
        i <= stmts.len(),
        at(ts, pos, block_tokens(stmts, i)),
        pos + block_tokens(stmts, i).len() < ts.len(),
        ts[pos + block_tokens(stmts, i).len()].type_ == TokenType::RightBrace,
    ensures
        block(ts, pos, stmts.subrange(0, i as int), Seq::empty()) == clean(
            stmts,
            pos + block_tokens(stmts, i).len() + 1,
        ),
    decreases stmts, stmts.len() - i,
{
    lemma_block_shape(stmts, i);
    if i < stmts.len() {
        let s = stmts[i as int];
        let p = pos + stmt_tokens(s).len();
        lemma_at_two(ts, pos, stmt_tokens(s), block_tokens(stmts, i + 1));
        lemma_block_shape(stmts, i + 1);
        assert(ts[pos] == block_tokens(stmts, i)[0]);
        if i + 1 < stmts.len() {
            assert(ts[p] == block_tokens(stmts, i + 1)[0]);
        }
        lemma_read_declaration(ts, pos, s);
        lemma_read_block(ts, p, stmts, i + 1);
        lemma_stmt_shape(s);
        assert(stmts.subrange(0, i as int).push(s) =~= stmts.subrange(0, i as int + 1));
        assert(Seq::<ErrorView>::empty() + Seq::<ErrorView>::empty() =~= Seq::<
            ErrorView,
        >::empty());
        assert(moved(ts, pos, p));
    } else {
        assert(stmts.subrange(0, i as int) =~= stmts);
    }
}

/// The statements of a program are read up to the end of the input.
#[verifier::rlimit(50)]
pub proof fn lemma_read_program(ts: Seq<TokenView>, pos: int, stmts: Seq<StmtView>, i: nat)
    requires
        all_sound(stmts),
        i <= stmts.len(),
        at(ts, pos, block_tokens(stmts, i)),
        pos + block_tokens(stmts, i).len() < ts.len(),
        ts[pos + block_tokens(stmts, i).len()].type_ == TokenType::Eof,
    ensures
        program_from(
            ts,
            pos,
            Program { stmts: stmts.subrange(0, i as int), errors: Seq::empty() },
        ) == (Program { stmts, errors: Seq::empty() }),
    decreases stmts.len() - i,
{
    lemma_block_shape(stmts, i);
    if i < stmts.len() {
        let s = stmts[i as int];
        let p = pos + stmt_tokens(s).len();
        lemma_at_two(ts, pos, stmt_tokens(s), block_tokens(stmts, i + 1));
        lemma_block_shape(stmts, i + 1);
        assert(ts[pos] == block_tokens(stmts, i)[0]);
        if i + 1 < stmts.len() {
            assert(ts[p] == block_tokens(stmts, i + 1)[0]);
        }
        lemma_read_declaration(ts, pos, s);
        lemma_read_program(ts, p, stmts, i + 1);
        lemma_stmt_shape(s);
        assert(stmts.subrange(0, i as int).push(s) =~= stmts.subrange(0, i as int + 1));
        assert(Seq::<ErrorView>::empty() + Seq::<ErrorView>::empty() =~= Seq::<
            ErrorView,
        >::empty());
        assert(moved(ts, pos, p));
    } else {
        assert(stmts.subrange(0, i as int) =~= stmts);
    }
}

/// Parsing the tokens that write sound statements gives the statements
/// back, and notes no error.
pub proof fn lemma_print_then_parse(stmts: Seq<StmtView>)
    requires
        all_sound(stmts),
    ensures
        program(program_tokens(stmts)) == (Program { stmts, errors: Seq::empty() }),
{
    let ts = program_tokens(stmts);
    let body = block_tokens(stmts, 0);
    assert(at(ts, 0, body)) by {
        assert forall|i: int| 0 <= i < body.len() implies ts[0 + i] == #[trigger] body[i] by {}
    }
    assert(ts[body.len() as int] == symbol(TokenType::Eof));
    assert(stmts.subrange(0, 0) =~= Seq::<StmtView>::empty());
    lemma_read_program(ts, 0, stmts, 0);
}

} // verus!
