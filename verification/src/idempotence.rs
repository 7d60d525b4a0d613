//! Parsing is idempotent.
//!
//! What the parser builds is sound in the sense of
//! [`crate::shape`]; so writing it back as tokens and parsing those
//! gives the same tree.

use vstd::prelude::*;
use crate::ast::{ExprView, StmtView};
use crate::err::ErrorView;
use crate::grammar::{
    arguments, assignment, at_end, binary, binary_rest, block, break_statement, call, call_rest,
    check, combine, condition, consume, declaration, desugar_for, expression,
    expression_statement, finish_call, for_condition, for_increment, for_initializer,
    for_statement, fun_declaration, if_statement, moved, ok, optional_terminated, parameters,
    primary, print_statement, program, program_from, return_statement, statement, terminated,
    tier_has, unary, var_declaration, while_statement, with_stmt, Program, MAX_ARGS,
};
use crate::ast::Stmt;
use crate::err::{views, LoxError};
use crate::parser::{list_result_view, terminated_tokens, Parser};
use crate::printer::{print_program, program_tokens};
use crate::readback::lemma_print_then_parse;
use crate::shape::{
    all_sound, lemma_tier, open_if, plain_statement, rank, sound, sound_option, sound_stmt,
};
use crate::scanner::{TokenType, TokenView};

verus! {

/// Whether every expression of a sequence is sound.
pub open spec fn all_sound_exprs(args: Seq<ExprView>) -> bool {
    forall|i: int| 0 <= i < args.len() ==> sound(#[trigger] args[i])
}

/// Whether every token of a sequence is an identifier.
pub open spec fn all_names(names: Seq<TokenView>) -> bool {
    forall|i: int| 0 <= i < names.len() ==> (#[trigger] names[i]).type_ == TokenType::Identifier
}

/// What the parser reads as a primary is sound.
pub proof fn lemma_primary_sound(ts: Seq<TokenView>, pos: int)
    ensures
        primary(ts, pos).result matches Ok(e) ==> sound(e) && rank(e) == 0,
    decreases ts.len() - pos, 0nat,
{
    if check(ts, pos, TokenType::LeftParen) {
        lemma_expression_sound(ts, pos + 1);
    }
}

/// What the parser reads as a call is sound.
pub proof fn lemma_call_sound(ts: Seq<TokenView>, pos: int)
    ensures
        call(ts, pos).result matches Ok(e) ==> sound(e) && rank(e) == 0,
    decreases ts.len() - pos, 1nat,
{
    lemma_primary_sound(ts, pos);
    let callee = primary(ts, pos);
    match callee.result {
        Ok(expr) => {
            if moved(ts, pos, callee.pos) {
                lemma_call_rest_sound(ts, callee.pos, expr);
            }
        },
        Err(_) => {},
    }
}

/// Argument lists applied to a sound callee give a sound call.
pub proof fn lemma_call_rest_sound(ts: Seq<TokenView>, pos: int, callee: ExprView)
    requires
        sound(callee),
        rank(callee) == 0,
    ensures
        call_rest(ts, pos, callee).result matches Ok(e) ==> sound(e) && rank(e) == 0,
    decreases ts.len() - pos, 1nat,
{
    if check(ts, pos, TokenType::LeftParen) {
        lemma_finish_call_sound(ts, pos + 1, callee);
        let applied = finish_call(ts, pos + 1, callee);
        match applied.result {
            Ok(expr) => {
                if moved(ts, pos, applied.pos) {
                    lemma_call_rest_sound(ts, applied.pos, expr);
                }
            },
            Err(_) => {},
        }
    }
}

/// One argument list applied to a sound callee gives a sound call.
pub proof fn lemma_finish_call_sound(ts: Seq<TokenView>, pos: int, callee: ExprView)
    requires
        sound(callee),
        rank(callee) == 0,
    ensures
        finish_call(ts, pos, callee).result matches Ok(e) ==> sound(e) && rank(e) == 0,
    decreases ts.len() - pos, 13nat,
{
    if !(check(ts, pos, TokenType::RightParen) || pos < 0) {
        lemma_arguments_sound(ts, pos, Seq::empty());
    }
}

/// The arguments that the parser reads are sound, and at most 255.
pub proof fn lemma_arguments_sound(ts: Seq<TokenView>, pos: int, args: Seq<ExprView>)
    requires
        all_sound_exprs(args),
    ensures
        arguments(ts, pos, args).result matches Ok(list) ==> all_sound_exprs(list) && list.len()
            <= MAX_ARGS,
    decreases ts.len() - pos, 12nat,
{
    if args.len() < MAX_ARGS {
        lemma_expression_sound(ts, pos);
        let arg = expression(ts, pos);
        match arg.result {
            Ok(e) => {
                assert(all_sound_exprs(args.push(e)));
                if check(ts, arg.pos, TokenType::Comma) && arg.pos >= pos {
                    lemma_arguments_sound(ts, arg.pos + 1, args.push(e));
                }
            },
            Err(_) => {},
        }
    }
}

/// What the parser reads at the unary tier is sound.
pub proof fn lemma_unary_sound(ts: Seq<TokenView>, pos: int)
    ensures
        unary(ts, pos).result matches Ok(e) ==> sound(e) && rank(e) <= 1,
    decreases ts.len() - pos, 2nat,
{
    if check(ts, pos, TokenType::Bang) || check(ts, pos, TokenType::Minus) {
        lemma_unary_sound(ts, pos + 1);
    } else {
        lemma_call_sound(ts, pos);
    }
}

/// What the parser reads at a binary tier is sound, and binds at least
/// as tightly as the tier.
pub proof fn lemma_binary_sound(ts: Seq<TokenView>, pos: int, k: nat)
    requires
        k <= 6,
    ensures
        binary(ts, pos, k).result matches Ok(e) ==> sound(e) && rank(e) <= k + 1,
    decreases ts.len() - pos, k + 3,
{
    if k == 0 {
        lemma_unary_sound(ts, pos);
    } else {
        lemma_binary_sound(ts, pos, (k - 1) as nat);
        let first = binary(ts, pos, (k - 1) as nat);
        match first.result {
            Ok(left) => {
                if moved(ts, pos, first.pos) {
                    lemma_binary_rest_sound(ts, first.pos, k, left);
                }
            },
            Err(_) => {},
        }
    }
}

/// Operators of a tier folded onto a sound operand give a sound
/// expression.
pub proof fn lemma_binary_rest_sound(ts: Seq<TokenView>, pos: int, k: nat, left: ExprView)
    requires
        1 <= k <= 6,
        sound(left),
        rank(left) <= k + 1,
    ensures
        binary_rest(ts, pos, k, left).result matches Ok(e) ==> sound(e) && rank(e) <= k + 1,
    decreases ts.len() - pos, 0nat,
{
    if !at_end(ts, pos) && tier_has(k, ts[pos].type_) {
        lemma_binary_sound(ts, pos + 1, (k - 1) as nat);
        lemma_tier(ts[pos].type_, k);
        let operand = binary(ts, pos + 1, (k - 1) as nat);
        match operand.result {
            Ok(right) => {
                if moved(ts, pos, operand.pos) {
                    lemma_binary_rest_sound(ts, operand.pos, k, combine(k, left, ts[pos], right));
                }
            },
            Err(_) => {},
        }
    }
}

/// What the parser reads as an expression is sound.
pub proof fn lemma_expression_sound(ts: Seq<TokenView>, pos: int)
    ensures
        expression(ts, pos).result matches Ok(e) ==> sound(e),
        assignment(ts, pos).result matches Ok(e) ==> sound(e),
    decreases ts.len() - pos, 10nat,
{
    lemma_binary_sound(ts, pos, 6);
    let target = binary(ts, pos, 6);
    if target.result is Ok && check(ts, target.pos, TokenType::Equal) && target.pos >= pos {
        lemma_expression_sound(ts, target.pos + 1);
    }
}

/// What the parser reads as a variable declaration is sound.
pub proof fn lemma_var_sound(ts: Seq<TokenView>, pos: int)
    ensures
        var_declaration(ts, pos).result matches Ok(s) ==> sound_stmt(s),
{
    let name = consume(ts, pos, TokenType::Identifier, "Expect variable name"@);
    if name.result is Ok {
        lemma_expression_sound(ts, name.pos + 1);
    }
}

/// What the parser reads as a statement without inner statements is
/// sound, and no declaration.
pub proof fn lemma_simple_sound(ts: Seq<TokenView>, pos: int, msg: Seq<char>)
    ensures
        terminated(ts, pos, msg).result matches Ok(e) ==> sound(e),
        optional_terminated(ts, pos, msg).result matches Ok(e) ==> sound_option(e),
        expression_statement(ts, pos).result matches Ok(s) ==> sound_stmt(s) && s is Expression,
        print_statement(ts, pos).result matches Ok(s) ==> sound_stmt(s) && s is Print,
        break_statement(ts, pos).result matches Ok(s) ==> sound_stmt(s) && s is Break,
{
    lemma_expression_sound(ts, pos);
}

/// What the parser reads as a `return` is sound.
pub proof fn lemma_return_sound(ts: Seq<TokenView>, pos: int)
    requires
        0 <= pos < ts.len(),
        ts[pos].type_ == TokenType::Return,
    ensures
        return_statement(ts, pos + 1, ts[pos]).result matches Ok(s) ==> sound_stmt(s)
            && s is Return,
{
    lemma_simple_sound(ts, pos + 1, "Expect ';' after return value."@);
}

/// What the parser reads as a condition is sound.
pub proof fn lemma_condition_sound(
    ts: Seq<TokenView>,
    pos: int,
    open_msg: Seq<char>,
    close_msg: Seq<char>,
)
    ensures
        condition(ts, pos, open_msg, close_msg).result matches Ok(e) ==> sound(e),
{
    let open = consume(ts, pos, TokenType::LeftParen, open_msg);
    lemma_expression_sound(ts, open.pos);
}

/// The parameters that the parser reads are identifiers, and at most
/// 255.
pub proof fn lemma_parameters_sound(ts: Seq<TokenView>, pos: int, params: Seq<TokenView>)
    requires
        all_names(params),
    ensures
        parameters(ts, pos, params).result matches Ok(names) ==> all_names(names) && names.len()
            <= MAX_ARGS,
    decreases ts.len() - pos,
{
    if params.len() < MAX_ARGS && check(ts, pos, TokenType::Identifier) {
        assert(all_names(params.push(ts[pos])));
        if check(ts, pos + 1, TokenType::Comma) {
            lemma_parameters_sound(ts, pos + 2, params.push(ts[pos]));
        }
    }
}

/// What follows a statement that the parser read.
pub open spec fn closed(ts: Seq<TokenView>, s: StmtView, pos: int) -> bool {
    open_if(s) ==> !check(ts, pos, TokenType::Else)
}

/// What the parser reads as a function declaration is sound.
pub proof fn lemma_fun_sound(ts: Seq<TokenView>, pos: int)
    ensures
        fun_declaration(ts, pos).result matches Ok(s) ==> sound_stmt(s),
    decreases ts.len() - pos, 1nat,
{
    let name = consume(ts, pos, TokenType::Identifier, "Expect function name."@);
    let open = consume(ts, name.pos, TokenType::LeftParen, "Expect '(' after function name."@);
    if name.result is Ok && open.result is Ok {
        let params = if check(ts, open.pos, TokenType::RightParen) {
            ok(Seq::<TokenView>::empty(), open.pos)
        } else {
            parameters(ts, open.pos, Seq::empty())
        };
        lemma_parameters_sound(ts, open.pos, Seq::empty());
        let close = consume(ts, params.pos, TokenType::RightParen, "Expect ')' after parameters."@);
        let brace = consume(
            ts,
            close.pos,
            TokenType::LeftBrace,
            "Expect '{' before function body."@,
        );
        if params.result is Ok && close.result is Ok && brace.result is Ok && moved(
            ts,
            pos,
            brace.pos,
        ) {
            lemma_block_sound(ts, brace.pos, Seq::empty(), Seq::empty());
        }
    }
}

/// What the parser reads as an `if` is sound, no declaration, and
/// closed.
pub proof fn lemma_if_sound(ts: Seq<TokenView>, pos: int)
    ensures
        if_statement(ts, pos).result matches Ok(s) ==> sound_stmt(s) && plain_statement(s)
            && closed(ts, s, if_statement(ts, pos).pos),
    decreases ts.len() - pos, 1nat,
{
    let cond = condition(ts, pos, "Expect '(' after 'if'."@, "Expect ')' after if condition."@);
    lemma_condition_sound(ts, pos, "Expect '(' after 'if'."@, "Expect ')' after if condition."@);
    if cond.result is Ok && moved(ts, pos, cond.pos) {
        lemma_statement_sound(ts, cond.pos);
        let then_br = statement(ts, cond.pos);
        if then_br.result is Ok && check(ts, then_br.pos, TokenType::Else) && then_br.pos >= pos {
            lemma_statement_sound(ts, then_br.pos + 1);
        }
    }
}

/// What the parser reads as a `while` is sound, no declaration, and
/// closed.
pub proof fn lemma_while_sound(ts: Seq<TokenView>, pos: int)
    ensures
        while_statement(ts, pos).result matches Ok(s) ==> sound_stmt(s) && plain_statement(s)
            && closed(ts, s, while_statement(ts, pos).pos),
    decreases ts.len() - pos, 1nat,
{
    let cond = condition(
        ts,
        pos,
        "Expect '(' after 'while'"@,
        "Expect ')' after while condition"@,
    );
    lemma_condition_sound(
        ts,
        pos,
        "Expect '(' after 'while'"@,
        "Expect ')' after while condition"@,
    );
    if cond.result is Ok && moved(ts, pos, cond.pos) {
        lemma_statement_sound(ts, cond.pos);
    }
}

/// What a `for` stands for is sound if its parts are.
pub proof fn lemma_desugar_sound(
    init: Option<StmtView>,
    cond: ExprView,
    incr: Option<ExprView>,
    body: StmtView,
)
    requires
        init matches Some(i) ==> sound_stmt(i),
        sound(cond),
        sound_option(incr),
        sound_stmt(body),
        plain_statement(body),
    ensures
        sound_stmt(desugar_for(init, cond, incr, body)),
        plain_statement(desugar_for(init, cond, incr, body)),
        open_if(desugar_for(init, cond, incr, body)) ==> open_if(body),
{
    reveal_with_fuel(open_if, 3);
    reveal_with_fuel(sound_stmt, 3);
    let stepped = match incr {
        Some(inc) => match body {
            StmtView::Block { stmts } => StmtView::Block {
                stmts: stmts.push(StmtView::Expression(inc)),
            },
            other => StmtView::Block { stmts: seq![other, StmtView::Expression(inc)] },
        },
        None => body,
    };
    match incr {
        Some(inc) => {
            let last = StmtView::Expression(inc);
            assert(sound_stmt(last));
            match body {
                StmtView::Block { stmts } => {
                    assert forall|i: int| 0 <= i < stmts.push(last).len() implies sound_stmt(
                        #[trigger] stmts.push(last)[i],
                    ) by {
                        if i < stmts.len() {
                            assert(sound_stmt(stmts[i]));
                        }
                    }
                },
                other => {
                    let pair = seq![other, last];
                    assert forall|i: int| 0 <= i < pair.len() implies sound_stmt(
                        #[trigger] pair[i],
                    ) by {}
                },
            }
            assert(stepped is Block);
            assert(!open_if(stepped));
        },
        None => {},
    }
    assert(sound_stmt(stepped));
    assert(plain_statement(stepped));
    let looped = StmtView::While { cond, body: Box::new(stepped) };
    assert(sound_stmt(looped));
    assert(open_if(looped) == open_if(stepped));
    match init {
        Some(i) => {
            let pair = seq![i, looped];
            assert forall|k: int| 0 <= k < pair.len() implies sound_stmt(#[trigger] pair[k]) by {}
        },
        None => {},
    }
}

/// What the parser reads as a `for` is sound, no declaration, and
/// closed.
pub proof fn lemma_for_sound(ts: Seq<TokenView>, pos: int)
    ensures
        for_statement(ts, pos).result matches Ok(s) ==> sound_stmt(s) && plain_statement(s)
            && closed(ts, s, for_statement(ts, pos).pos),
    decreases ts.len() - pos, 1nat,
{
    let open = consume(ts, pos, TokenType::LeftParen, "Expect '(' after 'for'."@);
    let init = for_initializer(ts, open.pos);
    let cond = for_condition(ts, init.pos);
    let incr = for_increment(ts, cond.pos);
    lemma_var_sound(ts, open.pos + 1);
    lemma_simple_sound(ts, open.pos, "Expect ';' after expression."@);
    lemma_simple_sound(ts, init.pos, "Expect ';' after loop condition."@);
    lemma_expression_sound(ts, cond.pos);
    if open.result is Ok && init.result is Ok && cond.result is Ok && incr.result is Ok && moved(
        ts,
        pos,
        incr.pos,
    ) {
        lemma_statement_sound(ts, incr.pos);
        let body = statement(ts, incr.pos);
        match body.result {
            Ok(s) => {
                lemma_desugar_sound(init.result->Ok_0, cond.result->Ok_0, incr.result->Ok_0, s);
            },
            Err(_) => {},
        }
    }
}

/// What the parser reads as a statement is sound, no declaration, and
/// closed.
pub proof fn lemma_statement_sound(ts: Seq<TokenView>, pos: int)
    ensures
        statement(ts, pos).result matches Ok(s) ==> sound_stmt(s) && plain_statement(s) && closed(
            ts,
            s,
            statement(ts, pos).pos,
        ),
    decreases ts.len() - pos, 2nat,
{
    if check(ts, pos, TokenType::If) {
        lemma_if_sound(ts, pos + 1);
    } else if check(ts, pos, TokenType::Print) {
        lemma_simple_sound(ts, pos + 1, "Expect ';' after value."@);
    } else if check(ts, pos, TokenType::Break) {
        lemma_simple_sound(ts, pos + 1, "Expect ';' after break."@);
    } else if check(ts, pos, TokenType::Return) {
        lemma_return_sound(ts, pos);
    } else if check(ts, pos, TokenType::While) {
        lemma_while_sound(ts, pos + 1);
    } else if check(ts, pos, TokenType::For) {
        lemma_for_sound(ts, pos + 1);
    } else if check(ts, pos, TokenType::LeftBrace) {
        lemma_block_sound(ts, pos + 1, Seq::empty(), Seq::empty());
    } else {
        lemma_simple_sound(ts, pos, "Expect ';' after expression."@);
    }
}

/// What the parser reads as a declaration is sound.
pub proof fn lemma_declaration_sound(ts: Seq<TokenView>, pos: int)
    ensures
        declaration(ts, pos).stmt matches Some(s) ==> sound_stmt(s),
    decreases ts.len() - pos, 3nat,
{
    if check(ts, pos, TokenType::Fun) {
        lemma_fun_sound(ts, pos + 1);
    } else if check(ts, pos, TokenType::Var) {
        lemma_var_sound(ts, pos + 1);
    } else {
        lemma_statement_sound(ts, pos);
    }
}

/// The statements that the parser reads as a block are sound.
pub proof fn lemma_block_sound(
    ts: Seq<TokenView>,
    pos: int,
    stmts: Seq<StmtView>,
    errors: Seq<ErrorView>,
)
    requires
        all_sound(stmts),
    ensures
        block(ts, pos, stmts, errors).result matches Ok(all) ==> all_sound(all),
    decreases ts.len() - pos, 4nat,
{
    if !check(ts, pos, TokenType::RightBrace) && !at_end(ts, pos) {
        lemma_declaration_sound(ts, pos);
        let d = declaration(ts, pos);
        if moved(ts, pos, d.pos) {
            assert(all_sound(with_stmt(stmts, d)));
            lemma_block_sound(ts, d.pos, with_stmt(stmts, d), errors + d.errors);
        }
    }
}

/// The statements that the parser reads as a program are sound.
pub proof fn lemma_program_sound(ts: Seq<TokenView>, pos: int, found: Program)
    requires
        all_sound(found.stmts),
    ensures
        all_sound(program_from(ts, pos, found).stmts),
    decreases ts.len() - pos, 4nat,
{
    if !at_end(ts, pos) {
        lemma_declaration_sound(ts, pos);
        let d = declaration(ts, pos);
        if moved(ts, pos, d.pos) {
            assert(all_sound(with_stmt(found.stmts, d)));
            lemma_program_sound(
                ts,
                d.pos,
                Program { stmts: with_stmt(found.stmts, d), errors: found.errors + d.errors },
            );
        }
    }
}

/// Parsing is idempotent: where a token sequence is parsed without an
/// error, writing the statements back as tokens and parsing those gives
/// the same statements, again without an error.
pub proof fn lemma_parse_idempotent(ts: Seq<TokenView>)
    requires
        program(ts).errors.len() == 0,
    ensures
        program(program_tokens(program(ts).stmts)) == program(ts),
{
    lemma_program_sound(ts, 0, Program { stmts: Seq::empty(), errors: Seq::empty() });
    lemma_print_then_parse(program(ts).stmts);
    assert(program(ts).errors =~= Seq::<ErrorView>::empty());
}

/// Writes the statements back as tokens and parses those. Sound
/// statements, such as the parser builds, come back as they are.
pub fn reparse(stmts: &Vec<Stmt>) -> (r: Result<Vec<Stmt>, LoxError>)
    ensures
        ({
            let p = program(program_tokens(views(stmts@)));
            list_result_view(r) == if p.errors.len() == 0 {
                Ok::<Seq<StmtView>, ErrorView>(p.stmts)
            } else {
                Err::<Seq<StmtView>, ErrorView>(p.errors[0])
            }
        }),
        all_sound(views(stmts@)) ==> list_result_view(r) == Ok::<Seq<StmtView>, ErrorView>(
            views(stmts@),
        ),
{
    let tokens = print_program(stmts);
    proof {
        assert(terminated_tokens(views(tokens@)) == views(tokens@));
        if all_sound(views(stmts@)) {
            lemma_print_then_parse(views(stmts@));
        }
    }
    Parser::new(tokens).parse()
}

} // verus!
