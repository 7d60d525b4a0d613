//! The syntax tree: expressions and statements, and their views.

use vstd::prelude::*;
use crate::scanner::{Literal, LiteralView, Token, TokenView};

verus! {

/// An expression.
#[derive(Debug, PartialEq, Eq)]
pub enum Expr {
    Literal(Literal),
    Unary { operator: Token, right: Box<Expr> },
    Binary { left: Box<Expr>, operator: Token, right: Box<Expr> },
    Grouping(Box<Expr>),
    Variable(Token),
    Assign { name: Token, value: Box<Expr> },
    /// `and` and `or`: the right operand is evaluated only where the
    /// left one does not decide.
    Logical { left: Box<Expr>, operator: Token, right: Box<Expr> },
    /// A call; `paren` is the closing parenthesis, kept to locate errors.
    Call { callee: Box<Expr>, paren: Token, args: Vec<Expr> },
}

/// A statement.
#[derive(Debug, PartialEq, Eq)]
#[allow(inconsistent_fields)]
pub enum Stmt {
    Expression(Expr),
    Print(Expr),
    Var { name: Token, init: Option<Expr> },
    Block { stmts: Vec<Stmt> },
    If { cond: Expr, then_br: Box<Stmt>, else_br: Option<Box<Stmt>> },
    While { cond: Expr, body: Box<Stmt> },
    Func { name: Token, params: Vec<Token>, body: Vec<Stmt> },
    Break(Option<Expr>),
    Return { keyword: Token, value: Option<Expr> },
}

/// An expression over token views.
pub enum ExprView {
    Literal(LiteralView),
    Unary { operator: TokenView, right: Box<ExprView> },
    Binary { left: Box<ExprView>, operator: TokenView, right: Box<ExprView> },
    Grouping(Box<ExprView>),
    Variable(TokenView),
    Assign { name: TokenView, value: Box<ExprView> },
    Logical { left: Box<ExprView>, operator: TokenView, right: Box<ExprView> },
    Call { callee: Box<ExprView>, paren: TokenView, args: Seq<ExprView> },
}

/// A statement over token views.
#[allow(inconsistent_fields)]
pub enum StmtView {
    Expression(ExprView),
    Print(ExprView),
    Var { name: TokenView, init: Option<ExprView> },
    Block { stmts: Seq<StmtView> },
    If { cond: ExprView, then_br: Box<StmtView>, else_br: Option<Box<StmtView>> },
    While { cond: ExprView, body: Box<StmtView> },
    Func { name: TokenView, params: Seq<TokenView>, body: Seq<StmtView> },
    Break(Option<ExprView>),
    Return { keyword: TokenView, value: Option<ExprView> },
}

/// The view of an expression.
pub open spec fn expr_view(e: Expr) -> ExprView
    decreases e,
{
    match e {
        Expr::Literal(l) => ExprView::Literal(l@),
        Expr::Unary { operator, right } => ExprView::Unary {
            operator: operator@,
            right: Box::new(expr_view(*right)),
        },
        Expr::Binary { left, operator, right } => ExprView::Binary {
            left: Box::new(expr_view(*left)),
            operator: operator@,
            right: Box::new(expr_view(*right)),
        },
        Expr::Grouping(inner) => ExprView::Grouping(Box::new(expr_view(*inner))),
        Expr::Variable(name) => ExprView::Variable(name@),
        Expr::Assign { name, value } => ExprView::Assign {
            name: name@,
            value: Box::new(expr_view(*value)),
        },
        Expr::Logical { left, operator, right } => ExprView::Logical {
            left: Box::new(expr_view(*left)),
            operator: operator@,
            right: Box::new(expr_view(*right)),
        },
        Expr::Call { callee, paren, args } => ExprView::Call {
            callee: Box::new(expr_view(*callee)),
            paren: paren@,
            args: Seq::new(
                args@.len(),
                |i: int|
                    if 0 <= i < args@.len() {
                        expr_view(args@[i])
                    } else {
                        ExprView::Literal(LiteralView::Nil)
                    },
            ),
        },
    }
}

impl View for Expr {
    type V = ExprView;

    open spec fn view(&self) -> ExprView {
        expr_view(*self)
    }
}

/// The view of an optional expression.
pub open spec fn option_view(e: Option<Expr>) -> Option<ExprView> {
    match e {
        Some(e) => Some(e@),
        None => None,
    }
}

/// The view of a statement.
pub open spec fn stmt_view(s: Stmt) -> StmtView
    decreases s,
{
    match s {
        Stmt::Expression(e) => StmtView::Expression(e@),
        Stmt::Print(e) => StmtView::Print(e@),
        Stmt::Var { name, init } => StmtView::Var { name: name@, init: option_view(init) },
        Stmt::Block { stmts } => StmtView::Block {
            stmts: Seq::new(
                stmts@.len(),
                |i: int|
                    if 0 <= i < stmts@.len() {
                        stmt_view(stmts@[i])
                    } else {
                        StmtView::Break(None)
                    },
            ),
        },
        Stmt::If { cond, then_br, else_br } => StmtView::If {
            cond: cond@,
            then_br: Box::new(stmt_view(*then_br)),
            else_br: match else_br {
                Some(s) => Some(Box::new(stmt_view(*s))),
                None => None,
            },
        },
        Stmt::While { cond, body } => StmtView::While {
            cond: cond@,
            body: Box::new(stmt_view(*body)),
        },
        Stmt::Func { name, params, body } => StmtView::Func {
            name: name@,
            params: params@.map_values(|t: Token| t@),
            body: Seq::new(
                body@.len(),
                |i: int|
                    if 0 <= i < body@.len() {
                        stmt_view(body@[i])
                    } else {
                        StmtView::Break(None)
                    },
            ),
        },
        Stmt::Break(level) => StmtView::Break(option_view(level)),
        Stmt::Return { keyword, value } => StmtView::Return {
            keyword: keyword@,
            value: option_view(value),
        },
    }
}

impl View for Stmt {
    type V = StmtView;

    open spec fn view(&self) -> StmtView {
        stmt_view(*self)
    }
}

/// Viewing a block looks at its statements one by one.
pub proof fn lemma_block_view(stmts: Vec<Stmt>)
    ensures
        (Stmt::Block { stmts })@ == (StmtView::Block { stmts: crate::err::views(stmts@) }),
{
    assert(stmt_view(Stmt::Block { stmts })->Block_stmts =~= crate::err::views(stmts@));
}

/// Viewing a call looks at its arguments one by one.
pub proof fn lemma_call_view(callee: Box<Expr>, paren: Token, args: Vec<Expr>)
    ensures
        (Expr::Call { callee, paren, args })@ == (ExprView::Call {
            callee: Box::new(callee@),
            paren: paren@,
            args: crate::err::views(args@),
        }),
{
    assert(expr_view(Expr::Call { callee, paren, args })->Call_args =~= crate::err::views(
        args@,
    ));
}

/// Viewing a function declaration looks at its parameters and its
/// statements one by one.
pub proof fn lemma_func_view(name: Token, params: Vec<Token>, body: Vec<Stmt>)
    ensures
        (Stmt::Func { name, params, body })@ == (StmtView::Func {
            name: name@,
            params: crate::err::views(params@),
            body: crate::err::views(body@),
        }),
{
    assert(stmt_view(Stmt::Func { name, params, body })->Func_body =~= crate::err::views(
        body@,
    ));
}

/// A copy of the tokens.
pub fn clone_tokens(tokens: &Vec<Token>) -> (r: Vec<Token>)
    ensures
        r@ == tokens@,
{
    let mut r: Vec<Token> = Vec::new();
    let mut i: usize = 0;
    while i < tokens.len()
        invariant
            i <= tokens.len(),
            r@ == tokens@.subrange(0, i as int),
        decreases tokens.len() - i,
    {
        r.push(tokens[i].clone());
        i += 1;
        assert(tokens@.subrange(0, i as int) == tokens@.subrange(0, i - 1).push(tokens@[i - 1]));
    }
    assert(tokens@.subrange(0, i as int) == tokens@);
    r
}

/// A copy of the expression.
pub fn clone_expr(e: &Expr) -> (r: Expr)
    ensures
        r@ == e@,
    decreases e,
{
    match e {
        Expr::Literal(l) => Expr::Literal(l.clone()),
        Expr::Unary { operator, right } => Expr::Unary {
            operator: operator.clone(),
            right: Box::new(clone_expr(right)),
        },
        Expr::Binary { left, operator, right } => Expr::Binary {
            left: Box::new(clone_expr(left)),
            operator: operator.clone(),
            right: Box::new(clone_expr(right)),
        },
        Expr::Grouping(inner) => Expr::Grouping(Box::new(clone_expr(inner))),
        Expr::Variable(name) => Expr::Variable(name.clone()),
        Expr::Assign { name, value } => Expr::Assign {
            name: name.clone(),
            value: Box::new(clone_expr(value)),
        },
        Expr::Logical { left, operator, right } => Expr::Logical {
            left: Box::new(clone_expr(left)),
            operator: operator.clone(),
            right: Box::new(clone_expr(right)),
        },
        Expr::Call { callee, paren, args } => {
            let mut copies: Vec<Expr> = Vec::new();
            let mut i: usize = 0;
            while i < args.len()
                invariant
                    i <= args.len(),
                    e is Call,
                    e->Call_args == *args,
                    copies.len() == i,
                    forall|k: int| 0 <= k < i ==> copies@[k]@ == args@[k]@,
                decreases args.len() - i,
            {
                proof {
                    vstd::std_specs::vec::axiom_vec_index_decreases(*args, i as int);
                    assert(decreases_to!(*e => e->Call_args));
                }
                let copy = clone_expr(&args[i]);
                copies.push(copy);
                i += 1;
            }
            let paren = paren.clone();
            let callee = Box::new(clone_expr(callee));
            proof {
                lemma_call_view(callee, paren, copies);
                assert(crate::err::views(copies@) =~= e@->Call_args);
            }
            Expr::Call { callee, paren, args: copies }
        },
    }
}

/// A copy of the optional expression.
pub fn clone_option(e: &Option<Expr>) -> (r: Option<Expr>)
    ensures
        option_view(r) == option_view(*e),
{
    match e {
        Some(e) => Some(clone_expr(e)),
        None => None,
    }
}

/// A copy of the statements.
pub fn clone_stmts(stmts: &Vec<Stmt>) -> (r: Vec<Stmt>)
    ensures
        crate::err::views(r@) == crate::err::views(stmts@),
    decreases stmts,
{
    let mut copies: Vec<Stmt> = Vec::new();
    let mut i: usize = 0;
    while i < stmts.len()
        invariant
            i <= stmts.len(),
            copies.len() == i,
            forall|k: int| 0 <= k < i ==> copies@[k]@ == stmts@[k]@,
        decreases stmts.len() - i,
    {
        proof {
            vstd::std_specs::vec::axiom_vec_index_decreases(*stmts, i as int);
        }
        let copy = clone_stmt(&stmts[i]);
        copies.push(copy);
        i += 1;
    }
    assert(crate::err::views(copies@) =~= crate::err::views(stmts@));
    copies
}

/// A copy of the statement.
pub fn clone_stmt(s: &Stmt) -> (r: Stmt)
    ensures
        r@ == s@,
    decreases s,
{
    match s {
        Stmt::Expression(e) => Stmt::Expression(clone_expr(e)),
        Stmt::Print(e) => Stmt::Print(clone_expr(e)),
        Stmt::Var { name, init } => Stmt::Var { name: name.clone(), init: clone_option(init) },
        Stmt::Block { stmts } => {
            proof {
                assert(decreases_to!(*s => s->Block_stmts));
            }
            let copies = clone_stmts(stmts);
            proof {
                lemma_block_view(copies);
                lemma_block_view(*stmts);
            }
            Stmt::Block { stmts: copies }
        },
        Stmt::If { cond, then_br, else_br } => Stmt::If {
            cond: clone_expr(cond),
            then_br: Box::new(clone_stmt(then_br)),
            else_br: match else_br {
                Some(other) => Some(Box::new(clone_stmt(other))),
                None => None,
            },
        },
        Stmt::While { cond, body } => Stmt::While {
            cond: clone_expr(cond),
            body: Box::new(clone_stmt(body)),
        },
        Stmt::Func { name, params, body } => {
            proof {
                assert(decreases_to!(*s => s->Func_body));
            }
            let copies = clone_stmts(body);
            let name = name.clone();
            let params = clone_tokens(params);
            proof {
                lemma_func_view(name, params, copies);
                lemma_func_view(name, params, *body);
            }
            Stmt::Func { name, params, body: copies }
        },
        Stmt::Break(level) => Stmt::Break(clone_option(level)),
        Stmt::Return { keyword, value } => Stmt::Return {
            keyword: keyword.clone(),
            value: clone_option(value),
        },
    }
}

impl Clone for Expr {
    fn clone(&self) -> (r: Self)
        ensures
            r@ == self@,
    {
        clone_expr(self)
    }
}

impl Clone for Stmt {
    fn clone(&self) -> (r: Self)
        ensures
            r@ == self@,
    {
        clone_stmt(self)
    }
}

} // verus!
