//! Parsing what was printed gives the expression back.
//!
//! For sound expressions, [`crate::grammar`] reads
//! [`crate::printer`]'s tokens back into the same tree.

use vstd::prelude::*;
use crate::ast::ExprView;
use crate::grammar::{
    arguments, assignment, at_end, binary, binary_rest, call, call_rest, check, combine,
    consume, expression, finish_call, moved, ok, primary, unary, MAX_ARGS,
};
use crate::printer::{expr_tokens, list_tokens, literal_token, symbol};
use crate::scanner::{LiteralView, TokenType, TokenView};
use crate::shape::{
    at, ends_expression, lemma_at_one, lemma_at_two, lemma_expr_shape, lemma_list_shape,
    lemma_tier, rank, sound, tier_of,
};

verus! {

/// A name alone is read as a variable at every tier.
pub proof fn lemma_read_name(ts: Seq<TokenView>, pos: int, k: nat)
    requires
        0 <= pos,
        pos + 1 < ts.len(),
        ts[pos].type_ == TokenType::Identifier,
        ts[pos + 1].type_ != TokenType::LeftParen,
        tier_of(ts[pos + 1].type_) == 0 || tier_of(ts[pos + 1].type_) > k,
        k <= 6,
    ensures
        binary(ts, pos, k) == ok(ExprView::Variable(ts[pos]), pos + 1),
    decreases k,
{
    assert(primary(ts, pos) == ok(ExprView::Variable(ts[pos]), pos + 1));
    assert(call_rest(ts, pos + 1, ExprView::Variable(ts[pos])) == ok(
        ExprView::Variable(ts[pos]),
        pos + 1,
    ));
    assert(call(ts, pos) == ok(ExprView::Variable(ts[pos]), pos + 1));
    assert(unary(ts, pos) == ok(ExprView::Variable(ts[pos]), pos + 1));
    if k > 0 {
        lemma_read_name(ts, pos, (k - 1) as nat);
        lemma_tier(ts[pos + 1].type_, k);
        assert(binary_rest(ts, pos + 1, k, ExprView::Variable(ts[pos])) == ok(
            ExprView::Variable(ts[pos]),
            pos + 1,
        ));
    }
}

/// A literal is read as it was written.
pub proof fn lemma_read_literal(ts: Seq<TokenView>, pos: int, l: LiteralView)
    requires
        0 <= pos < ts.len(),
        ts[pos] == literal_token(l),
    ensures
        primary(ts, pos) == ok(ExprView::Literal(l), pos + 1),
{
}

/// A grouping is read up to its closing parenthesis.
pub proof fn lemma_read_grouping(ts: Seq<TokenView>, pos: int, e: ExprView)
    requires
        sound(e),
        e is Grouping,
        at(ts, pos, expr_tokens(e)),
    ensures
        primary(ts, pos) == ok(e, pos + expr_tokens(e).len()),
    decreases e, 0nat, 0nat,
{
    let end = pos + expr_tokens(e).len();
    let inner = *e->Grouping_0;
    let open = seq![symbol(TokenType::LeftParen)];
    let close = seq![symbol(TokenType::RightParen)];
    lemma_at_two(ts, pos, open + expr_tokens(inner), close);
    lemma_at_two(ts, pos, open, expr_tokens(inner));
    lemma_at_one(ts, pos, symbol(TokenType::LeftParen));
    lemma_at_one(ts, end - 1, symbol(TokenType::RightParen));
    lemma_read_expression(ts, pos + 1, inner);
    assert(check(ts, pos, TokenType::LeftParen));
    assert(expression(ts, pos + 1) == ok(inner, end - 1));
    assert(consume(ts, end - 1, TokenType::RightParen, "Expect ')' after expression."@) == ok(
        ts[end - 1],
        end,
    ));
}

/// The argument list of a call is read up to its closing parenthesis.
pub proof fn lemma_read_applied(ts: Seq<TokenView>, pos: int, e: ExprView)
    requires
        sound(e),
        e is Call,
        at(ts, pos, expr_tokens(e)),
    ensures
        finish_call(ts, pos + expr_tokens(*e->Call_callee).len() + 1, *e->Call_callee) == ok(
            e,
            pos + expr_tokens(e).len(),
        ),
        check(ts, pos + expr_tokens(*e->Call_callee).len(), TokenType::LeftParen),
        pos + expr_tokens(*e->Call_callee).len() + 1 < pos + expr_tokens(e).len(),
        at(ts, pos, expr_tokens(*e->Call_callee)),
    decreases e, 0nat, 0nat,
{
    let end = pos + expr_tokens(e).len();
    let callee = *e->Call_callee;
    let paren = e->Call_paren;
    let args = e->Call_args;
    let open = seq![symbol(TokenType::LeftParen)];
    let list = list_tokens(args, 0);
    let cut = pos + expr_tokens(callee).len();
    lemma_at_two(ts, pos, expr_tokens(callee) + open + list, seq![paren]);
    lemma_at_two(ts, pos, expr_tokens(callee) + open, list);
    lemma_at_two(ts, pos, expr_tokens(callee), open);
    lemma_at_one(ts, cut, symbol(TokenType::LeftParen));
    lemma_at_one(ts, end - 1, paren);
    lemma_list_shape(args, 0);
    let found = if check(ts, cut + 1, TokenType::RightParen) || cut + 1 < 0 {
        ok(Seq::<ExprView>::empty(), cut + 1)
    } else {
        arguments(ts, cut + 1, Seq::empty())
    };
    if args.len() == 0 {
        assert(args =~= Seq::<ExprView>::empty());
        assert(check(ts, cut + 1, TokenType::RightParen));
    } else {
        assert(ts[cut + 1] == list[0]);
        assert(!check(ts, cut + 1, TokenType::RightParen));
        assert(args.subrange(0, 0) =~= Seq::<ExprView>::empty());
        lemma_read_arguments(ts, cut + 1, args, 0);
    }
    assert(found == ok(args, end - 1));
    assert(consume(ts, end - 1, TokenType::RightParen, "Expect ')' after arguments."@) == ok(
        paren,
        end,
    ));
}

/// A primary or a call is read up to its end, whatever follows; the
/// parser then looks for further argument lists.
pub proof fn lemma_read_call(ts: Seq<TokenView>, pos: int, e: ExprView)
    requires
        sound(e),
        rank(e) == 0,
        at(ts, pos, expr_tokens(e)),
        pos + expr_tokens(e).len() < ts.len(),
    ensures
        call(ts, pos) == call_rest(ts, pos + expr_tokens(e).len(), e),
    decreases e, 0nat, 1nat,
{
    let end = pos + expr_tokens(e).len();
    lemma_expr_shape(e);
    match e {
        ExprView::Literal(l) => {
            lemma_at_one(ts, pos, literal_token(l));
            lemma_read_literal(ts, pos, l);
            assert(moved(ts, pos, end));
        },
        ExprView::Variable(name) => {
            lemma_at_one(ts, pos, name);
            assert(primary(ts, pos) == ok(e, pos + 1));
            assert(moved(ts, pos, end));
        },
        ExprView::Grouping(inner) => {
            lemma_read_grouping(ts, pos, e);
            assert(moved(ts, pos, end));
        },
        ExprView::Call { callee, paren, args } => {
            let cut = pos + expr_tokens(*callee).len();
            lemma_read_applied(ts, pos, e);
            lemma_read_call(ts, pos, *callee);
            assert(moved(ts, cut, end));
            assert(call_rest(ts, cut, *callee) == call_rest(ts, end, e));
        },
        _ => {},
    }
}

/// A list of arguments is read up to the closing parenthesis.
pub proof fn lemma_read_arguments(ts: Seq<TokenView>, pos: int, args: Seq<ExprView>, i: nat)
    requires
        forall|j: int| 0 <= j < args.len() ==> sound(#[trigger] args[j]),
        i < args.len() <= MAX_ARGS,
        at(ts, pos, list_tokens(args, i)),
        pos + list_tokens(args, i).len() < ts.len(),
        ts[pos + list_tokens(args, i).len()].type_ == TokenType::RightParen,
    ensures
        arguments(ts, pos, args.subrange(0, i as int)) == ok(
            args,
            pos + list_tokens(args, i).len(),
        ),
    decreases args, args.len() - i, 0nat,
{
    let first = expr_tokens(args[i as int]);
    let p = pos + first.len();
    let before = args.subrange(0, i as int);
    assert(before.push(args[i as int]) =~= args.subrange(0, i as int + 1));
    if i + 1 == args.len() {
        lemma_read_expression(ts, pos, args[i as int]);
        assert(args.subrange(0, i as int + 1) =~= args);
    } else {
        let comma = seq![symbol(TokenType::Comma)];
        lemma_at_two(ts, pos, first + comma, list_tokens(args, i + 1));
        lemma_at_two(ts, pos, first, comma);
        lemma_at_one(ts, p, symbol(TokenType::Comma));
        lemma_read_expression(ts, pos, args[i as int]);
        assert(check(ts, p, TokenType::Comma));
        lemma_read_arguments(ts, p + 1, args, i + 1);
    }
}

/// A primary, a call or a unary operation is read up to its end, unless
/// an opening parenthesis follows.
pub proof fn lemma_read_unary(ts: Seq<TokenView>, pos: int, e: ExprView)
    requires
        sound(e),
        rank(e) <= 1,
        at(ts, pos, expr_tokens(e)),
        pos + expr_tokens(e).len() < ts.len(),
        ts[pos + expr_tokens(e).len()].type_ != TokenType::LeftParen,
    ensures
        unary(ts, pos) == ok(e, pos + expr_tokens(e).len()),
    decreases e, 1nat, 0nat,
{
    let end = pos + expr_tokens(e).len();
    lemma_expr_shape(e);
    match e {
        ExprView::Unary { operator, right } => {
            lemma_at_two(ts, pos, seq![operator], expr_tokens(*right));
            lemma_at_one(ts, pos, operator);
            lemma_read_unary(ts, pos + 1, *right);
        },
        _ => {
            assert(ts[pos] == expr_tokens(e)[0]);
            lemma_read_call(ts, pos, e);
            assert(call_rest(ts, end, e) == ok(e, end));
        },
    }
}

/// An expression of tier `k` or tighter is read up to its end, unless
/// an opening parenthesis or an operator of a tighter tier follows; the
/// parser then looks for further operators of tier `k`.
pub proof fn lemma_read_operand(ts: Seq<TokenView>, pos: int, e: ExprView, k: nat)
    requires
        1 <= k <= 6,
        sound(e),
        rank(e) <= k + 1,
        at(ts, pos, expr_tokens(e)),
        pos + expr_tokens(e).len() < ts.len(),
        ts[pos + expr_tokens(e).len()].type_ != TokenType::LeftParen,
        tier_of(ts[pos + expr_tokens(e).len()].type_) == 0 || tier_of(
            ts[pos + expr_tokens(e).len()].type_,
        ) >= k,
    ensures
        binary(ts, pos, k) == binary_rest(ts, pos + expr_tokens(e).len(), k, e),
    decreases e, k + 1, 0nat,
{
    let end = pos + expr_tokens(e).len();
    lemma_expr_shape(e);
    if rank(e) <= k {
        lemma_read_binary(ts, pos, e, (k - 1) as nat);
        assert(moved(ts, pos, end));
    } else {
        let (left, operator, right) = match e {
            ExprView::Binary { left, operator, right } => (*left, operator, *right),
            ExprView::Logical { left, operator, right } => (*left, operator, *right),
            _ => (e, symbol(TokenType::Eof), e),
        };
        assert(expr_tokens(e) == expr_tokens(left) + seq![operator] + expr_tokens(right));
        let cut = pos + expr_tokens(left).len();
        lemma_at_two(ts, pos, expr_tokens(left) + seq![operator], expr_tokens(right));
        lemma_at_two(ts, pos, expr_tokens(left), seq![operator]);
        lemma_at_one(ts, cut, operator);
        lemma_expr_shape(left);
        lemma_expr_shape(right);
        lemma_tier(operator.type_, k);
        lemma_read_operand(ts, pos, left, k);
        lemma_read_binary(ts, cut + 1, right, (k - 1) as nat);
        assert(!at_end(ts, cut));
        assert(moved(ts, cut, end));
        assert(combine(k, left, operator, right) == e);
        assert(binary_rest(ts, cut, k, left) == binary_rest(ts, end, k, e));
    }
}

/// An expression of tier `k` or tighter is read up to its end, unless
/// an opening parenthesis or an operator of tier `k` or tighter
/// follows.
pub proof fn lemma_read_binary(ts: Seq<TokenView>, pos: int, e: ExprView, k: nat)
    requires
        k <= 6,
        sound(e),
        rank(e) <= k + 1,
        at(ts, pos, expr_tokens(e)),
        pos + expr_tokens(e).len() < ts.len(),
        ts[pos + expr_tokens(e).len()].type_ != TokenType::LeftParen,
        tier_of(ts[pos + expr_tokens(e).len()].type_) == 0 || tier_of(
            ts[pos + expr_tokens(e).len()].type_,
        ) > k,
    ensures
        binary(ts, pos, k) == ok(e, pos + expr_tokens(e).len()),
    decreases e, k + 1, 1nat,
{
    let end = pos + expr_tokens(e).len();
    if k == 0 {
        lemma_read_unary(ts, pos, e);
    } else {
        lemma_read_operand(ts, pos, e, k);
        lemma_tier(ts[end].type_, k);
        assert(binary_rest(ts, end, k, e) == ok(e, end));
    }
}

/// A sound expression is read up to its end, unless a token follows
/// that goes on with it.
pub proof fn lemma_read_expression(ts: Seq<TokenView>, pos: int, e: ExprView)
    requires
        sound(e),
        at(ts, pos, expr_tokens(e)),
        pos + expr_tokens(e).len() < ts.len(),
        ends_expression(ts[pos + expr_tokens(e).len()].type_),
    ensures
        expression(ts, pos) == ok(e, pos + expr_tokens(e).len()),
        assignment(ts, pos) == ok(e, pos + expr_tokens(e).len()),
    decreases e, 8nat, 2nat,
{
    let end = pos + expr_tokens(e).len();
    match e {
        ExprView::Assign { name, value } => {
            lemma_at_two(ts, pos, seq![name, symbol(TokenType::Equal)], expr_tokens(*value));
            assert(ts[pos] == seq![name, symbol(TokenType::Equal)][0]);
            assert(ts[pos + 1] == seq![name, symbol(TokenType::Equal)][1]);
            lemma_expr_shape(*value);
            lemma_read_name(ts, pos, 6);
            lemma_read_expression(ts, pos + 2, *value);
            assert(check(ts, pos + 1, TokenType::Equal));
        },
        _ => {
            lemma_read_binary(ts, pos, e, 6);
            assert(!check(ts, end, TokenType::Equal));
        },
    }
}

} // verus!
