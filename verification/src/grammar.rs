//! The grammar, as functions from a token sequence and a position to a
//! tree and the position behind it.
//!
//! The tiers bind from loosest to tightest: assignment, `or`, `and`,
//! equality, comparison, additive, multiplicative, unary, call, primary.
//! Every tier but assignment folds its operators to the left; assignment
//! folds to the right.

use vstd::prelude::*;
use crate::ast::{ExprView, StmtView};
use crate::err::{error_at, ErrorView};
use crate::scanner::{LiteralView, TokenType, TokenView};

verus! {

/// What parsing one construct yields: the tree or the error, and the
/// position behind what was read.
pub struct Parsed<T> {
    pub result: Result<T, ErrorView>,
    pub pos: int,
}

/// Like [`Parsed`], for a construct that may hold declarations: `errors`
/// are the errors of the declarations in it that were given up.
pub struct Noted<T> {
    pub result: Result<T, ErrorView>,
    pub pos: int,
    pub errors: Seq<ErrorView>,
}

/// A tree read up to `pos`.
pub open spec fn ok<T>(tree: T, pos: int) -> Parsed<T> {
    Parsed { result: Ok(tree), pos }
}

/// A failure noticed at `pos`.
pub open spec fn fail<T>(error: ErrorView, pos: int) -> Parsed<T> {
    Parsed { result: Err(error), pos }
}

/// The failure of `p`, for a construct of another type.
pub open spec fn failed<T, U>(p: Parsed<T>) -> Parsed<U> {
    Parsed {
        result: match p.result {
            Ok(_) => Err(no_progress()),
            Err(e) => Err(e),
        },
        pos: p.pos,
    }
}

/// The error of a step that read nothing where the grammar reads
/// something. It keeps the definitions well founded; the parser proves
/// of each construct it reads that the step went forward.
pub open spec fn no_progress() -> ErrorView {
    ErrorView { line: 0, where_: Seq::empty(), msg: Seq::empty() }
}

/// Whether a step from `from` to `to` read something and stayed within
/// the sequence.
pub open spec fn moved(ts: Seq<TokenView>, from: int, to: int) -> bool {
    from < to <= ts.len()
}

/// The error that says `msg` of the token at `pos`.
pub open spec fn error_here(ts: Seq<TokenView>, pos: int, msg: Seq<char>) -> ErrorView {
    error_at(ts[pos].line, ts[pos].lexeme, msg)
}

/// Whether the parser is at the end: at the end-of-input token, or
/// outside the sequence.
pub open spec fn at_end(ts: Seq<TokenView>, pos: int) -> bool {
    !(0 <= pos < ts.len()) || ts[pos].type_ == TokenType::Eof
}

/// Whether the token at `pos` is of category `t`. Never so at the end.
pub open spec fn check(ts: Seq<TokenView>, pos: int, t: TokenType) -> bool {
    !at_end(ts, pos) && ts[pos].type_ == t
}

/// The position behind the token at `pos`; the end is never passed.
pub open spec fn advance(ts: Seq<TokenView>, pos: int) -> int {
    if at_end(ts, pos) {
        pos
    } else {
        pos + 1
    }
}

/// Reads a token of category `t`, or fails with `msg`.
pub open spec fn consume(ts: Seq<TokenView>, pos: int, t: TokenType, msg: Seq<char>) -> Parsed<
    TokenView,
> {
    if check(ts, pos, t) {
        ok(ts[pos], pos + 1)
    } else {
        fail(error_here(ts, pos, msg), pos)
    }
}

/// Whether `t` is an operator of the binary tier `tier`: 1 is
/// multiplicative, 2 additive, 3 comparison, 4 equality, 5 `and`, 6 `or`.
pub open spec fn tier_has(tier: nat, t: TokenType) -> bool {
    if tier == 1 {
        t == TokenType::Slash || t == TokenType::Star
    } else if tier == 2 {
        t == TokenType::Minus || t == TokenType::Plus
    } else if tier == 3 {
        t == TokenType::Greater || t == TokenType::GreaterEqual || t == TokenType::Less || t
            == TokenType::LessEqual
    } else if tier == 4 {
        t == TokenType::BangEqual || t == TokenType::EqualEqual
    } else if tier == 5 {
        t == TokenType::And
    } else if tier == 6 {
        t == TokenType::Or
    } else {
        false
    }
}

/// The node that an operator of tier `tier` makes of its operands.
pub open spec fn combine(tier: nat, left: ExprView, operator: TokenView, right: ExprView) -> ExprView {
    if tier >= 5 {
        ExprView::Logical { left: Box::new(left), operator, right: Box::new(right) }
    } else {
        ExprView::Binary { left: Box::new(left), operator, right: Box::new(right) }
    }
}

/// The most arguments that a call may have.
pub const MAX_ARGS: usize = 255;

/// expression → assignment
pub open spec fn expression(ts: Seq<TokenView>, pos: int) -> Parsed<ExprView>
    decreases ts.len() - pos, 11nat,
{
    assignment(ts, pos)
}

/// assignment → IDENTIFIER "=" assignment | or
pub open spec fn assignment(ts: Seq<TokenView>, pos: int) -> Parsed<ExprView>
    decreases ts.len() - pos, 10nat,
{
    let target = binary(ts, pos, 6);
    match target.result {
        Err(_) => target,
        Ok(expr) => if check(ts, target.pos, TokenType::Equal) {
            if target.pos < pos {
                fail(no_progress(), target.pos)
            } else {
                let value = assignment(ts, target.pos + 1);
                match value.result {
                    Err(_) => value,
                    Ok(v) => match expr {
                        ExprView::Variable(name) => ok(
                            ExprView::Assign { name, value: Box::new(v) },
                            value.pos,
                        ),
                        _ => fail(
                            error_here(ts, target.pos, "Invalid assignment target."@),
                            value.pos,
                        ),
                    },
                }
            }
        } else {
            target
        },
    }
}

/// One binary tier: an operand of the next tighter tier, then any number
/// of operators of this tier, each with another such operand. Tier 0 is
/// the unary tier.
pub open spec fn binary(ts: Seq<TokenView>, pos: int, tier: nat) -> Parsed<ExprView>
    decreases ts.len() - pos, tier + 3,
{
    if tier == 0 {
        unary(ts, pos)
    } else {
        let first = binary(ts, pos, (tier - 1) as nat);
        match first.result {
            Err(_) => first,
            Ok(left) => if !moved(ts, pos, first.pos) {
                fail(no_progress(), first.pos)
            } else {
                binary_rest(ts, first.pos, tier, left)
            },
        }
    }
}

/// The operators of tier `tier` from `pos` on, folded onto `left`.
pub open spec fn binary_rest(ts: Seq<TokenView>, pos: int, tier: nat, left: ExprView) -> Parsed<
    ExprView,
>
    decreases ts.len() - pos, 0nat,
{
    if tier >= 1 && !at_end(ts, pos) && tier_has(tier, ts[pos].type_) {
        let operand = binary(ts, pos + 1, (tier - 1) as nat);
        match operand.result {
            Err(_) => operand,
            Ok(right) => if !moved(ts, pos, operand.pos) {
                fail(no_progress(), operand.pos)
            } else {
                binary_rest(ts, operand.pos, tier, combine(tier, left, ts[pos], right))
            },
        }
    } else {
        ok(left, pos)
    }
}

/// unary → ( "!" | "-" ) unary | call
pub open spec fn unary(ts: Seq<TokenView>, pos: int) -> Parsed<ExprView>
    decreases ts.len() - pos, 2nat,
{
    if check(ts, pos, TokenType::Bang) || check(ts, pos, TokenType::Minus) {
        let operand = unary(ts, pos + 1);
        match operand.result {
            Err(_) => operand,
            Ok(right) => ok(
                ExprView::Unary { operator: ts[pos], right: Box::new(right) },
                operand.pos,
            ),
        }
    } else {
        call(ts, pos)
    }
}

/// call → primary ( "(" arguments? ")" )*
pub open spec fn call(ts: Seq<TokenView>, pos: int) -> Parsed<ExprView>
    decreases ts.len() - pos, 1nat,
{
    let callee = primary(ts, pos);
    match callee.result {
        Err(_) => callee,
        Ok(expr) => if !moved(ts, pos, callee.pos) {
            fail(no_progress(), callee.pos)
        } else {
            call_rest(ts, callee.pos, expr)
        },
    }
}

/// The argument lists from `pos` on, applied to `callee` one after the
/// other.
pub open spec fn call_rest(ts: Seq<TokenView>, pos: int, callee: ExprView) -> Parsed<ExprView>
    decreases ts.len() - pos, 1nat,
{
    if check(ts, pos, TokenType::LeftParen) {
        let applied = finish_call(ts, pos + 1, callee);
        match applied.result {
            Err(_) => applied,
            Ok(expr) => if !moved(ts, pos, applied.pos) {
                fail(no_progress(), applied.pos)
            } else {
                call_rest(ts, applied.pos, expr)
            },
        }
    } else {
        ok(callee, pos)
    }
}

/// The arguments and the closing parenthesis of a call whose opening
/// parenthesis stands before `pos`.
pub open spec fn finish_call(ts: Seq<TokenView>, pos: int, callee: ExprView) -> Parsed<ExprView>
    decreases ts.len() - pos, 13nat,
{
    let args = if check(ts, pos, TokenType::RightParen) || pos < 0 {
        ok(Seq::empty(), pos)
    } else {
        arguments(ts, pos, Seq::empty())
    };
    match args.result {
        Err(_) => failed(args),
        Ok(list) => {
            let paren = consume(ts, args.pos, TokenType::RightParen, "Expect ')' after arguments."@);
            match paren.result {
                Err(_) => failed(paren),
                Ok(token) => ok(
                    ExprView::Call { callee: Box::new(callee), paren: token, args: list },
                    paren.pos,
                ),
            }
        },
    }
}

/// arguments → expression ( "," expression )*, behind the arguments
/// `args` that were read before.
pub open spec fn arguments(ts: Seq<TokenView>, pos: int, args: Seq<ExprView>) -> Parsed<
    Seq<ExprView>,
>
    decreases ts.len() - pos, 12nat,
{
    if args.len() >= MAX_ARGS {
        fail(error_here(ts, pos, "Can't have more than 255 args."@), pos)
    } else {
        let arg = expression(ts, pos);
        match arg.result {
            Err(_) => failed(arg),
            Ok(e) => if check(ts, arg.pos, TokenType::Comma) {
                if arg.pos < pos {
                    fail(no_progress(), arg.pos)
                } else {
                    arguments(ts, arg.pos + 1, args.push(e))
                }
            } else {
                ok(args.push(e), arg.pos)
            },
        }
    }
}

/// primary → "false" | "true" | "nil" | NUMBER | STRING
///         | "(" expression ")" | IDENTIFIER
pub open spec fn primary(ts: Seq<TokenView>, pos: int) -> Parsed<ExprView>
    decreases ts.len() - pos, 0nat,
{
    if check(ts, pos, TokenType::False) {
        ok(ExprView::Literal(LiteralView::Boolean(false)), pos + 1)
    } else if check(ts, pos, TokenType::True) {
        ok(ExprView::Literal(LiteralView::Boolean(true)), pos + 1)
    } else if check(ts, pos, TokenType::Nil) {
        ok(ExprView::Literal(LiteralView::Nil), pos + 1)
    } else if check(ts, pos, TokenType::Number) || check(ts, pos, TokenType::String) {
        match ts[pos].literal {
            Some(l) => ok(ExprView::Literal(l), pos + 1),
            None => fail(error_here(ts, pos, "No literal value"@), pos + 1),
        }
    } else if check(ts, pos, TokenType::LeftParen) {
        let inner = expression(ts, pos + 1);
        match inner.result {
            Err(_) => inner,
            Ok(e) => {
                let close = consume(
                    ts,
                    inner.pos,
                    TokenType::RightParen,
                    "Expect ')' after expression."@,
                );
                match close.result {
                    Err(_) => failed(close),
                    Ok(_) => ok(ExprView::Grouping(Box::new(e)), close.pos),
                }
            },
        }
    } else if check(ts, pos, TokenType::Identifier) {
        ok(ExprView::Variable(ts[pos]), pos + 1)
    } else {
        fail(error_here(ts, pos, "Expected expression"@), pos)
    }
}

/// `p` as a construct that noted no errors.
pub open spec fn plain<T>(p: Parsed<T>) -> Noted<T> {
    Noted { result: p.result, pos: p.pos, errors: Seq::empty() }
}

/// A failure noticed at `pos`, behind the noted `errors`.
pub open spec fn give_up<T>(error: ErrorView, pos: int, errors: Seq<ErrorView>) -> Noted<T> {
    Noted { result: Err(error), pos, errors }
}

/// Whether a statement or a declaration may start with `t`.
pub open spec fn starts_statement(t: TokenType) -> bool {
    t == TokenType::Class || t == TokenType::Fun || t == TokenType::Var || t == TokenType::For
        || t == TokenType::If || t == TokenType::While || t == TokenType::Print || t
        == TokenType::Return
}

/// The first position from `pos` on that is a statement boundary: the
/// end, a position behind a semicolon, or one where a statement starts.
pub open spec fn skip_to_boundary(ts: Seq<TokenView>, pos: int) -> int
    decreases ts.len() - pos,
{
    if at_end(ts, pos) {
        pos
    } else if pos >= 1 && ts[pos - 1].type_ == TokenType::Semicolon {
        pos
    } else if starts_statement(ts[pos].type_) {
        pos
    } else {
        skip_to_boundary(ts, pos + 1)
    }
}

/// Where parsing goes on after an error at `pos`: the token at `pos` is
/// dropped, and so is what follows it up to a statement boundary.
pub open spec fn synchronize(ts: Seq<TokenView>, pos: int) -> int {
    skip_to_boundary(ts, advance(ts, pos))
}

/// What a declaration yields: the statement, unless it was given up; the
/// position behind it; and the errors noted on the way.
pub struct Declared {
    pub stmt: Option<StmtView>,
    pub pos: int,
    pub errors: Seq<ErrorView>,
}

/// `stmts` with the statement of `d` behind them, if it has one.
pub open spec fn with_stmt(stmts: Seq<StmtView>, d: Declared) -> Seq<StmtView> {
    match d.stmt {
        Some(s) => stmts.push(s),
        None => stmts,
    }
}

/// declaration → funDecl | varDecl | statement. A declaration that
/// fails is given up: its error is noted, and parsing goes on at the
/// next statement boundary.
pub open spec fn declaration(ts: Seq<TokenView>, pos: int) -> Declared
    decreases ts.len() - pos, 3nat,
{
    let s = if check(ts, pos, TokenType::Fun) {
        fun_declaration(ts, pos + 1)
    } else if check(ts, pos, TokenType::Var) {
        plain(var_declaration(ts, pos + 1))
    } else {
        statement(ts, pos)
    };
    match s.result {
        Ok(stmt) => Declared { stmt: Some(stmt), pos: s.pos, errors: s.errors },
        Err(e) => Declared { stmt: None, pos: synchronize(ts, s.pos), errors: s.errors.push(e) },
    }
}

/// parameters → IDENTIFIER ( "," IDENTIFIER )*, behind the parameters
/// `params` that were read before.
pub open spec fn parameters(ts: Seq<TokenView>, pos: int, params: Seq<TokenView>) -> Parsed<
    Seq<TokenView>,
>
    decreases ts.len() - pos,
{
    if params.len() >= MAX_ARGS {
        fail(error_here(ts, pos, "Can't have more than 255 parameters."@), pos)
    } else if !check(ts, pos, TokenType::Identifier) {
        fail(error_here(ts, pos, "Expect parameter name."@), pos)
    } else if check(ts, pos + 1, TokenType::Comma) {
        parameters(ts, pos + 2, params.push(ts[pos]))
    } else {
        ok(params.push(ts[pos]), pos + 1)
    }
}

/// funDecl → "fun" IDENTIFIER "(" parameters? ")" "{" declaration* "}",
/// from behind the keyword on.
pub open spec fn fun_declaration(ts: Seq<TokenView>, pos: int) -> Noted<StmtView>
    decreases ts.len() - pos, 1nat,
{
    let name = consume(ts, pos, TokenType::Identifier, "Expect function name."@);
    let open = consume(ts, name.pos, TokenType::LeftParen, "Expect '(' after function name."@);
    if name.result is Err {
        plain(failed(name))
    } else if open.result is Err {
        plain(failed(open))
    } else {
        let params = if check(ts, open.pos, TokenType::RightParen) {
            ok(Seq::empty(), open.pos)
        } else {
            parameters(ts, open.pos, Seq::empty())
        };
        let close = consume(ts, params.pos, TokenType::RightParen, "Expect ')' after parameters."@);
        let brace = consume(
            ts,
            close.pos,
            TokenType::LeftBrace,
            "Expect '{' before function body."@,
        );
        if params.result is Err {
            plain(failed(params))
        } else if close.result is Err {
            plain(failed(close))
        } else if brace.result is Err {
            plain(failed(brace))
        } else if !moved(ts, pos, brace.pos) {
            plain(fail(no_progress(), brace.pos))
        } else {
            let body = block(ts, brace.pos, Seq::empty(), Seq::empty());
            Noted {
                result: match body.result {
                    Ok(stmts) => Ok(
                        StmtView::Func {
                            name: name.result->Ok_0,
                            params: params.result->Ok_0,
                            body: stmts,
                        },
                    ),
                    Err(e) => Err(e),
                },
                pos: body.pos,
                errors: body.errors,
            }
        }
    }
}

/// varDecl → "var" IDENTIFIER ( "=" expression )? ";", from behind the
/// keyword on.
pub open spec fn var_declaration(ts: Seq<TokenView>, pos: int) -> Parsed<StmtView> {
    let name = consume(ts, pos, TokenType::Identifier, "Expect variable name"@);
    if name.result is Err {
        failed(name)
    } else {
        let init = if check(ts, name.pos, TokenType::Equal) {
            let value = expression(ts, name.pos + 1);
            Parsed {
                result: match value.result {
                    Ok(e) => Ok(Some(e)),
                    Err(e) => Err(e),
                },
                pos: value.pos,
            }
        } else {
            ok(None, name.pos)
        };
        let end = consume(ts, init.pos, TokenType::Semicolon, "Expect ';' after expression."@);
        if init.result is Err {
            failed(init)
        } else if end.result is Err {
            failed(end)
        } else {
            ok(StmtView::Var { name: name.result->Ok_0, init: init.result->Ok_0 }, end.pos)
        }
    }
}

/// An expression and the semicolon that ends it, with `msg` where the
/// semicolon is missing.
pub open spec fn terminated(ts: Seq<TokenView>, pos: int, msg: Seq<char>) -> Parsed<ExprView> {
    let value = expression(ts, pos);
    let end = consume(ts, value.pos, TokenType::Semicolon, msg);
    if value.result is Err {
        value
    } else if end.result is Err {
        failed(end)
    } else {
        ok(value.result->Ok_0, end.pos)
    }
}

/// An expression unless a semicolon comes first, and the semicolon, with
/// `msg` where the semicolon is missing.
pub open spec fn optional_terminated(ts: Seq<TokenView>, pos: int, msg: Seq<char>) -> Parsed<
    Option<ExprView>,
> {
    if check(ts, pos, TokenType::Semicolon) {
        ok(None, pos + 1)
    } else {
        let value = terminated(ts, pos, msg);
        Parsed {
            result: match value.result {
                Ok(e) => Ok(Some(e)),
                Err(e) => Err(e),
            },
            pos: value.pos,
        }
    }
}

/// exprStmt → expression ";"
pub open spec fn expression_statement(ts: Seq<TokenView>, pos: int) -> Parsed<StmtView> {
    let value = terminated(ts, pos, "Expect ';' after expression."@);
    Parsed {
        result: match value.result {
            Ok(e) => Ok(StmtView::Expression(e)),
            Err(e) => Err(e),
        },
        pos: value.pos,
    }
}

/// printStmt → "print" expression ";", from behind the keyword on.
pub open spec fn print_statement(ts: Seq<TokenView>, pos: int) -> Parsed<StmtView> {
    let value = terminated(ts, pos, "Expect ';' after value."@);
    Parsed {
        result: match value.result {
            Ok(e) => Ok(StmtView::Print(e)),
            Err(e) => Err(e),
        },
        pos: value.pos,
    }
}

/// breakStmt → "break" expression? ";", from behind the keyword on.
pub open spec fn break_statement(ts: Seq<TokenView>, pos: int) -> Parsed<StmtView> {
    let level = optional_terminated(ts, pos, "Expect ';' after break."@);
    Parsed {
        result: match level.result {
            Ok(e) => Ok(StmtView::Break(e)),
            Err(e) => Err(e),
        },
        pos: level.pos,
    }
}

/// returnStmt → "return" expression? ";", from behind the keyword
/// `keyword` on.
pub open spec fn return_statement(ts: Seq<TokenView>, pos: int, keyword: TokenView) -> Parsed<
    StmtView,
> {
    let value = optional_terminated(ts, pos, "Expect ';' after return value."@);
    Parsed {
        result: match value.result {
            Ok(e) => Ok(StmtView::Return { keyword, value: e }),
            Err(e) => Err(e),
        },
        pos: value.pos,
    }
}

/// "(" expression ")", with the messages for a missing parenthesis.
pub open spec fn condition(
    ts: Seq<TokenView>,
    pos: int,
    open_msg: Seq<char>,
    close_msg: Seq<char>,
) -> Parsed<ExprView> {
    let open = consume(ts, pos, TokenType::LeftParen, open_msg);
    let cond = expression(ts, open.pos);
    let close = consume(ts, cond.pos, TokenType::RightParen, close_msg);
    if open.result is Err {
        failed(open)
    } else if cond.result is Err {
        cond
    } else if close.result is Err {
        failed(close)
    } else {
        ok(cond.result->Ok_0, close.pos)
    }
}

/// statement → ifStmt | printStmt | breakStmt | returnStmt | whileStmt
///           | forStmt | block | exprStmt
pub open spec fn statement(ts: Seq<TokenView>, pos: int) -> Noted<StmtView>
    decreases ts.len() - pos, 2nat,
{
    if check(ts, pos, TokenType::If) {
        if_statement(ts, pos + 1)
    } else if check(ts, pos, TokenType::Print) {
        plain(print_statement(ts, pos + 1))
    } else if check(ts, pos, TokenType::Break) {
        plain(break_statement(ts, pos + 1))
    } else if check(ts, pos, TokenType::Return) {
        plain(return_statement(ts, pos + 1, ts[pos]))
    } else if check(ts, pos, TokenType::While) {
        while_statement(ts, pos + 1)
    } else if check(ts, pos, TokenType::For) {
        for_statement(ts, pos + 1)
    } else if check(ts, pos, TokenType::LeftBrace) {
        let body = block(ts, pos + 1, Seq::empty(), Seq::empty());
        Noted {
            result: match body.result {
                Ok(stmts) => Ok(StmtView::Block { stmts }),
                Err(e) => Err(e),
            },
            pos: body.pos,
            errors: body.errors,
        }
    } else {
        plain(expression_statement(ts, pos))
    }
}

/// ifStmt → "if" "(" expression ")" statement ( "else" statement )?,
/// from behind the keyword on.
pub open spec fn if_statement(ts: Seq<TokenView>, pos: int) -> Noted<StmtView>
    decreases ts.len() - pos, 1nat,
{
    let cond = condition(ts, pos, "Expect '(' after 'if'."@, "Expect ')' after if condition."@);
    if cond.result is Err {
        plain(failed(cond))
    } else if !moved(ts, pos, cond.pos) {
        plain(fail(no_progress(), cond.pos))
    } else {
        let then_br = statement(ts, cond.pos);
        if then_br.result is Err {
            then_br
        } else if !check(ts, then_br.pos, TokenType::Else) {
            Noted {
                result: Ok(
                    StmtView::If {
                        cond: cond.result->Ok_0,
                        then_br: Box::new(then_br.result->Ok_0),
                        else_br: None,
                    },
                ),
                pos: then_br.pos,
                errors: then_br.errors,
            }
        } else if then_br.pos < pos {
            give_up(no_progress(), then_br.pos, then_br.errors)
        } else {
            let else_br = statement(ts, then_br.pos + 1);
            Noted {
                result: match else_br.result {
                    Ok(s) => Ok(
                        StmtView::If {
                            cond: cond.result->Ok_0,
                            then_br: Box::new(then_br.result->Ok_0),
                            else_br: Some(Box::new(s)),
                        },
                    ),
                    Err(e) => Err(e),
                },
                pos: else_br.pos,
                errors: then_br.errors + else_br.errors,
            }
        }
    }
}

/// whileStmt → "while" "(" expression ")" statement, from behind the
/// keyword on.
pub open spec fn while_statement(ts: Seq<TokenView>, pos: int) -> Noted<StmtView>
    decreases ts.len() - pos, 1nat,
{
    let cond = condition(
        ts,
        pos,
        "Expect '(' after 'while'"@,
        "Expect ')' after while condition"@,
    );
    if cond.result is Err {
        plain(failed(cond))
    } else if !moved(ts, pos, cond.pos) {
        plain(fail(no_progress(), cond.pos))
    } else {
        let body = statement(ts, cond.pos);
        Noted {
            result: match body.result {
                Ok(s) => Ok(StmtView::While { cond: cond.result->Ok_0, body: Box::new(s) }),
                Err(e) => Err(e),
            },
            pos: body.pos,
            errors: body.errors,
        }
    }
}

/// The initializer clause of a `for`: nothing but a semicolon, a
/// variable declaration, or an expression statement.
pub open spec fn for_initializer(ts: Seq<TokenView>, pos: int) -> Parsed<Option<StmtView>> {
    if check(ts, pos, TokenType::Semicolon) {
        ok(None, pos + 1)
    } else {
        let init = if check(ts, pos, TokenType::Var) {
            var_declaration(ts, pos + 1)
        } else {
            expression_statement(ts, pos)
        };
        Parsed {
            result: match init.result {
                Ok(s) => Ok(Some(s)),
                Err(e) => Err(e),
            },
            pos: init.pos,
        }
    }
}

/// The condition clause of a `for` and its semicolon: `true` where no
/// condition is written.
pub open spec fn for_condition(ts: Seq<TokenView>, pos: int) -> Parsed<ExprView> {
    if check(ts, pos, TokenType::Semicolon) {
        ok(ExprView::Literal(LiteralView::Boolean(true)), pos + 1)
    } else {
        terminated(ts, pos, "Expect ';' after loop condition."@)
    }
}

/// The increment clause of a `for` and the closing parenthesis.
pub open spec fn for_increment(ts: Seq<TokenView>, pos: int) -> Parsed<Option<ExprView>> {
    let incr = if check(ts, pos, TokenType::RightParen) {
        ok(None, pos)
    } else {
        let e = expression(ts, pos);
        Parsed {
            result: match e.result {
                Ok(e) => Ok(Some(e)),
                Err(e) => Err(e),
            },
            pos: e.pos,
        }
    };
    let close = consume(ts, incr.pos, TokenType::RightParen, "Expect ')' after loop condition."@);
    if incr.result is Err {
        incr
    } else if close.result is Err {
        failed(close)
    } else {
        ok(incr.result->Ok_0, close.pos)
    }
}

/// What a `for` stands for: a block that holds the initializer and a
/// `while`, whose body is the loop's body with the increment behind it.
pub open spec fn desugar_for(
    init: Option<StmtView>,
    cond: ExprView,
    incr: Option<ExprView>,
    body: StmtView,
) -> StmtView {
    let stepped = match incr {
        Some(inc) => match body {
            StmtView::Block { stmts } => StmtView::Block {
                stmts: stmts.push(StmtView::Expression(inc)),
            },
            other => StmtView::Block { stmts: seq![other, StmtView::Expression(inc)] },
        },
        None => body,
    };
    let looped = StmtView::While { cond, body: Box::new(stepped) };
    match init {
        Some(i) => StmtView::Block { stmts: seq![i, looped] },
        None => looped,
    }
}

/// forStmt → "for" "(" ( varDecl | exprStmt | ";" ) expression? ";"
///           expression? ")" statement, from behind the keyword on.
pub open spec fn for_statement(ts: Seq<TokenView>, pos: int) -> Noted<StmtView>
    decreases ts.len() - pos, 1nat,
{
    let open = consume(ts, pos, TokenType::LeftParen, "Expect '(' after 'for'."@);
    let init = for_initializer(ts, open.pos);
    let cond = for_condition(ts, init.pos);
    let incr = for_increment(ts, cond.pos);
    if open.result is Err {
        plain(failed(open))
    } else if init.result is Err {
        plain(failed(init))
    } else if cond.result is Err {
        plain(failed(cond))
    } else if incr.result is Err {
        plain(failed(incr))
    } else if !moved(ts, pos, incr.pos) {
        plain(fail(no_progress(), incr.pos))
    } else {
        let body = statement(ts, incr.pos);
        Noted {
            result: match body.result {
                Ok(s) => Ok(
                    desugar_for(init.result->Ok_0, cond.result->Ok_0, incr.result->Ok_0, s),
                ),
                Err(e) => Err(e),
            },
            pos: body.pos,
            errors: body.errors,
        }
    }
}

/// block → declaration* "}", behind the statements `stmts` that were
/// read and the `errors` that were noted before.
pub open spec fn block(
    ts: Seq<TokenView>,
    pos: int,
    stmts: Seq<StmtView>,
    errors: Seq<ErrorView>,
) -> Noted<Seq<StmtView>>
    decreases ts.len() - pos, 4nat,
{
    if !check(ts, pos, TokenType::RightBrace) && !at_end(ts, pos) {
        let d = declaration(ts, pos);
        if !moved(ts, pos, d.pos) {
            give_up(no_progress(), d.pos, errors + d.errors)
        } else {
            block(ts, d.pos, with_stmt(stmts, d), errors + d.errors)
        }
    } else {
        let close = consume(ts, pos, TokenType::RightBrace, "Expect '}' after block."@);
        Noted {
            result: match close.result {
                Ok(_) => Ok(stmts),
                Err(e) => Err(e),
            },
            pos: close.pos,
            errors,
        }
    }
}

/// The statements of a program and the errors of the declarations that
/// were given up.
pub struct Program {
    pub stmts: Seq<StmtView>,
    pub errors: Seq<ErrorView>,
}

/// program → declaration* EOF, behind what was read before.
pub open spec fn program_from(ts: Seq<TokenView>, pos: int, found: Program) -> Program
    decreases ts.len() - pos, 4nat,
{
    if at_end(ts, pos) {
        found
    } else {
        let d = declaration(ts, pos);
        if !moved(ts, pos, d.pos) {
            found
        } else {
            program_from(
                ts,
                d.pos,
                Program { stmts: with_stmt(found.stmts, d), errors: found.errors + d.errors },
            )
        }
    }
}

/// The program that a token sequence writes.
pub open spec fn program(ts: Seq<TokenView>) -> Program {
    program_from(ts, 0, Program { stmts: Seq::empty(), errors: Seq::empty() })
}

} // verus!
