//! Sound trees: the shape of the trees that the parser builds.
//!
//! In a sound tree operands bind at least as tightly as their place
//! asks, names are identifiers, operators are operators of their tier,
//! and no `else` could belong to two `if`s. This module also says what
//! the tokens that write a sound tree look like.

use vstd::prelude::*;
use crate::ast::{ExprView, StmtView};
use crate::grammar::{tier_has, MAX_ARGS};
use crate::printer::{
    block_tokens, expr_tokens, list_tokens, name_tokens, option_tokens, stmt_tokens, symbol,
};
use crate::scanner::{TokenType, TokenView};

verus! {


/// Whether the tokens `part` stand in `ts` from `pos` on.
pub open spec fn at(ts: Seq<TokenView>, pos: int, part: Seq<TokenView>) -> bool {
    &&& 0 <= pos
    &&& pos + part.len() <= ts.len()
    &&& forall|i: int| 0 <= i < part.len() ==> ts[pos + i] == #[trigger] part[i]
}

/// The binary tier of an operator, from 1 (multiplicative) to 6 (`or`);
/// 0 for a token that is no binary operator.
pub open spec fn tier_of(t: TokenType) -> nat {
    if t == TokenType::Slash || t == TokenType::Star {
        1
    } else if t == TokenType::Minus || t == TokenType::Plus {
        2
    } else if t == TokenType::Greater || t == TokenType::GreaterEqual || t == TokenType::Less
        || t == TokenType::LessEqual {
        3
    } else if t == TokenType::BangEqual || t == TokenType::EqualEqual {
        4
    } else if t == TokenType::And {
        5
    } else if t == TokenType::Or {
        6
    } else {
        0
    }
}

/// How loosely the top of an expression binds: 0 for a primary or a
/// call, 1 for a unary operator, 2 to 7 for the binary tiers, 8 for an
/// assignment.
pub open spec fn rank(e: ExprView) -> nat {
    match e {
        ExprView::Unary { .. } => 1,
        ExprView::Binary { operator, .. } => 1 + tier_of(operator.type_),
        ExprView::Logical { operator, .. } => 1 + tier_of(operator.type_),
        ExprView::Assign { .. } => 8,
        _ => 0,
    }
}

/// Whether an expression has the shape of one that the parser builds.
pub open spec fn sound(e: ExprView) -> bool
    decreases e,
{
    match e {
        ExprView::Literal(_) => true,
        ExprView::Variable(name) => name.type_ == TokenType::Identifier,
        ExprView::Grouping(inner) => sound(*inner),
        ExprView::Unary { operator, right } => (operator.type_ == TokenType::Bang || operator.type_
            == TokenType::Minus) && sound(*right) && rank(*right) <= 1,
        ExprView::Binary { left, operator, right } => 1 <= tier_of(operator.type_) <= 4 && sound(
            *left,
        ) && sound(*right) && rank(*left) <= 1 + tier_of(operator.type_) && rank(*right)
            <= tier_of(operator.type_),
        ExprView::Logical { left, operator, right } => 5 <= tier_of(operator.type_) <= 6 && sound(
            *left,
        ) && sound(*right) && rank(*left) <= 1 + tier_of(operator.type_) && rank(*right)
            <= tier_of(operator.type_),
        ExprView::Assign { name, value } => name.type_ == TokenType::Identifier && sound(*value),
        ExprView::Call { callee, paren, args } => sound(*callee) && rank(*callee) == 0
            && paren.type_ == TokenType::RightParen && args.len() <= MAX_ARGS && forall|i: int|
            0 <= i < args.len() ==> sound(#[trigger] args[i]),
    }
}

/// Whether an expression may start with a token of category `t`.
pub open spec fn starts_expression(t: TokenType) -> bool {
    t == TokenType::False || t == TokenType::True || t == TokenType::Nil || t == TokenType::Number
        || t == TokenType::String || t == TokenType::LeftParen || t == TokenType::Identifier || t
        == TokenType::Bang || t == TokenType::Minus
}

/// Whether a token of category `t` ends an expression: it is neither an
/// opening parenthesis, nor an equals sign, nor a binary operator.
pub open spec fn ends_expression(t: TokenType) -> bool {
    t != TokenType::LeftParen && t != TokenType::Equal && tier_of(t) == 0
}

/// Splitting a part in two.
pub proof fn lemma_at_two(ts: Seq<TokenView>, pos: int, a: Seq<TokenView>, b: Seq<TokenView>)
    requires
        at(ts, pos, a + b),
    ensures
        at(ts, pos, a),
        at(ts, pos + a.len(), b),
{
    assert forall|i: int| 0 <= i < a.len() implies ts[pos + i] == #[trigger] a[i] by {
        assert((a + b)[i] == a[i]);
    }
    assert forall|i: int| 0 <= i < b.len() implies ts[pos + a.len() + i] == #[trigger] b[i] by {
        assert((a + b)[a.len() + i] == b[i]);
    }
}

/// A part that is one token.
pub proof fn lemma_at_one(ts: Seq<TokenView>, pos: int, x: TokenView)
    requires
        at(ts, pos, seq![x]),
    ensures
        0 <= pos < ts.len(),
        ts[pos] == x,
{
    assert(seq![x][0] == x);
}

/// The operators of a tier are those that `tier_of` sends to it.
pub proof fn lemma_tier(t: TokenType, k: nat)
    ensures
        tier_has(k, t) <==> (1 <= k <= 6 && tier_of(t) == k),
{
}

/// Whether none of the tokens is the end-of-input token.
pub open spec fn no_eof(tokens: Seq<TokenView>) -> bool {
    forall|i: int| 0 <= i < tokens.len() ==> (#[trigger] tokens[i]).type_ != TokenType::Eof
}

/// Two runs of tokens joined: none is the end-of-input token if none
/// was, and the first is the first of the first run.
pub proof fn lemma_join(a: Seq<TokenView>, b: Seq<TokenView>)
    ensures
        (a + b).len() == a.len() + b.len(),
        no_eof(a) && no_eof(b) ==> no_eof(a + b),
        a.len() > 0 ==> (a + b)[0] == a[0],
        a.len() == 0 ==> a + b == b,
{
    if no_eof(a) && no_eof(b) {
        assert forall|i: int| 0 <= i < (a + b).len() implies (#[trigger] (a + b)[i]).type_
            != TokenType::Eof by {
            if i < a.len() {
                assert((a + b)[i] == a[i]);
            } else {
                assert((a + b)[i] == b[i - a.len()]);
            }
        }
    }
    if a.len() == 0 {
        assert(a + b =~= b);
    }
}

/// One token that is not the end-of-input token.
pub proof fn lemma_single(x: TokenView)
    requires
        x.type_ != TokenType::Eof,
    ensures
        no_eof(seq![x]),
        seq![x].len() == 1,
        seq![x][0] == x,
{
}

/// The tokens of a sound expression: there is one at least, none is the
/// end-of-input token, the first may start an expression, and that of a
/// primary or a call is no unary operator.
pub proof fn lemma_expr_shape(e: ExprView)
    requires
        sound(e),
    ensures
        expr_tokens(e).len() >= 1,
        no_eof(expr_tokens(e)),
        starts_expression(expr_tokens(e)[0].type_),
        rank(e) == 0 ==> expr_tokens(e)[0].type_ != TokenType::Bang && expr_tokens(e)[0].type_
            != TokenType::Minus,
    decreases e, 0nat,
{
    match e {
        ExprView::Literal(l) => {
            lemma_single(crate::printer::literal_token(l));
        },
        ExprView::Variable(name) => {
            lemma_single(name);
        },
        ExprView::Grouping(inner) => {
            lemma_expr_shape(*inner);
            let open = seq![symbol(TokenType::LeftParen)];
            let close = seq![symbol(TokenType::RightParen)];
            lemma_single(symbol(TokenType::LeftParen));
            lemma_single(symbol(TokenType::RightParen));
            lemma_join(open, expr_tokens(*inner));
            lemma_join(open + expr_tokens(*inner), close);
        },
        ExprView::Unary { operator, right } => {
            lemma_expr_shape(*right);
            lemma_single(operator);
            lemma_join(seq![operator], expr_tokens(*right));
        },
        ExprView::Binary { left, operator, right } => {
            lemma_expr_shape(*left);
            lemma_expr_shape(*right);
            lemma_single(operator);
            lemma_join(expr_tokens(*left), seq![operator]);
            lemma_join(expr_tokens(*left) + seq![operator], expr_tokens(*right));
        },
        ExprView::Logical { left, operator, right } => {
            lemma_expr_shape(*left);
            lemma_expr_shape(*right);
            lemma_single(operator);
            lemma_join(expr_tokens(*left), seq![operator]);
            lemma_join(expr_tokens(*left) + seq![operator], expr_tokens(*right));
        },
        ExprView::Assign { name, value } => {
            lemma_expr_shape(*value);
            let head = seq![name, symbol(TokenType::Equal)];
            assert(no_eof(head));
            assert(head[0] == name);
            lemma_join(head, expr_tokens(*value));
        },
        ExprView::Call { callee, paren, args } => {
            lemma_expr_shape(*callee);
            lemma_list_shape(args, 0);
            let open = seq![symbol(TokenType::LeftParen)];
            lemma_single(symbol(TokenType::LeftParen));
            lemma_single(paren);
            lemma_join(expr_tokens(*callee), open);
            lemma_join(expr_tokens(*callee) + open, list_tokens(args, 0));
            lemma_join(expr_tokens(*callee) + open + list_tokens(args, 0), seq![paren]);
        },
    }
}

/// The tokens of a list of sound expressions: none is the end-of-input
/// token, and the first, if there is one, may start an expression.
pub proof fn lemma_list_shape(args: Seq<ExprView>, i: nat)
    requires
        forall|j: int| 0 <= j < args.len() ==> sound(#[trigger] args[j]),
    ensures
        no_eof(list_tokens(args, i)),
        i < args.len() ==> list_tokens(args, i).len() >= 1 && starts_expression(
            list_tokens(args, i)[0].type_,
        ),
        i >= args.len() ==> list_tokens(args, i).len() == 0,
    decreases args, args.len() - i,
{
    if i < args.len() {
        lemma_expr_shape(args[i as int]);
        if i + 1 < args.len() {
            lemma_list_shape(args, i + 1);
            let comma = seq![symbol(TokenType::Comma)];
            lemma_single(symbol(TokenType::Comma));
            lemma_join(expr_tokens(args[i as int]), comma);
            lemma_join(expr_tokens(args[i as int]) + comma, list_tokens(args, i + 1));
        }
    }
}

/// Whether a statement ends with an `if` that has no `else`: an `else`
/// behind it would be read as its own.
pub open spec fn open_if(s: StmtView) -> bool
    decreases s,
{
    match s {
        StmtView::If { cond, then_br, else_br } => match else_br {
            Some(other) => open_if(*other),
            None => true,
        },
        StmtView::While { cond, body } => open_if(*body),
        _ => false,
    }
}

/// Whether an optional expression is sound.
pub open spec fn sound_option(e: Option<ExprView>) -> bool {
    match e {
        Some(e) => sound(e),
        None => true,
    }
}

/// Whether a statement stands where only a statement may stand, and no
/// declaration.
pub open spec fn plain_statement(s: StmtView) -> bool {
    !(s is Var) && !(s is Func)
}

/// Whether a statement has the shape of one that the parser builds.
pub open spec fn sound_stmt(s: StmtView) -> bool
    decreases s,
{
    match s {
        StmtView::Expression(e) => sound(e),
        StmtView::Print(e) => sound(e),
        StmtView::Var { name, init } => name.type_ == TokenType::Identifier && sound_option(init),
        StmtView::Block { stmts } => forall|i: int|
            0 <= i < stmts.len() ==> sound_stmt(#[trigger] stmts[i]),
        StmtView::If { cond, then_br, else_br } => sound(cond) && sound_stmt(*then_br)
            && plain_statement(*then_br) && (match else_br {
            Some(other) => sound_stmt(*other) && plain_statement(*other) && !open_if(*then_br),
            None => true,
        }),
        StmtView::While { cond, body } => sound(cond) && sound_stmt(*body) && plain_statement(
            *body,
        ),
        StmtView::Func { name, params, body } => name.type_ == TokenType::Identifier
            && params.len() <= MAX_ARGS && (forall|i: int|
            0 <= i < params.len() ==> (#[trigger] params[i]).type_ == TokenType::Identifier) && (
        forall|i: int| 0 <= i < body.len() ==> sound_stmt(#[trigger] body[i])),
        StmtView::Break(level) => sound_option(level),
        StmtView::Return { keyword, value } => keyword.type_ == TokenType::Return && sound_option(
            value,
        ),
    }
}

/// Whether every statement of a sequence is sound.
pub open spec fn all_sound(stmts: Seq<StmtView>) -> bool {
    forall|i: int| 0 <= i < stmts.len() ==> sound_stmt(#[trigger] stmts[i])
}

/// Whether a statement or a declaration may start with a token of
/// category `t`.
pub open spec fn starts_declaration(t: TokenType) -> bool {
    starts_expression(t) || t == TokenType::If || t == TokenType::Print || t == TokenType::Break
        || t == TokenType::Return || t == TokenType::While || t == TokenType::LeftBrace || t
        == TokenType::Var || t == TokenType::Fun
}

/// The tokens of names with commas: none is the end-of-input token, and
/// the first, if there is one, is the first name.
pub proof fn lemma_names_shape(names: Seq<TokenView>, i: nat)
    requires
        forall|j: int| 0 <= j < names.len() ==> (#[trigger] names[j]).type_
            == TokenType::Identifier,
    ensures
        no_eof(name_tokens(names, i)),
        i < names.len() ==> name_tokens(names, i).len() >= 1 && name_tokens(names, i)[0]
            == names[i as int],
        i >= names.len() ==> name_tokens(names, i).len() == 0,
    decreases names.len() - i,
{
    if i < names.len() {
        if i + 1 < names.len() {
            lemma_names_shape(names, i + 1);
            let head = seq![names[i as int], symbol(TokenType::Comma)];
            assert(no_eof(head));
            assert(head[0] == names[i as int]);
            lemma_join(head, name_tokens(names, i + 1));
        } else {
            lemma_single(names[i as int]);
        }
    }
}

/// The tokens of an optional sound expression: none is the end-of-input
/// token, and the first, if there is one, may start an expression.
pub proof fn lemma_option_shape(e: Option<ExprView>)
    requires
        sound_option(e),
    ensures
        no_eof(option_tokens(e)),
        e is Some ==> option_tokens(e).len() >= 1 && starts_expression(option_tokens(e)[0].type_),
        e is None ==> option_tokens(e).len() == 0,
{
    match e {
        Some(x) => {
            lemma_expr_shape(x);
        },
        None => {},
    }
}

/// What the shape lemma says of the tokens of a statement.
pub open spec fn stmt_shape(s: StmtView) -> bool {
    &&& stmt_tokens(s).len() >= 1
    &&& no_eof(stmt_tokens(s))
    &&& starts_declaration(stmt_tokens(s)[0].type_)
    &&& plain_statement(s) ==> stmt_tokens(s)[0].type_ != TokenType::Var && stmt_tokens(
        s,
    )[0].type_ != TokenType::Fun
    &&& s is Expression ==> starts_expression(stmt_tokens(s)[0].type_)
}

/// The tokens of a statement that ends with a semicolon.
proof fn lemma_simple_shape(s: StmtView)
    requires
        sound_stmt(s),
        s is Expression || s is Print || s is Var || s is Break || s is Return,
    ensures
        stmt_shape(s),
{
    let semi = seq![symbol(TokenType::Semicolon)];
    lemma_single(symbol(TokenType::Semicolon));
    match s {
        StmtView::Expression(e) => {
            lemma_expr_shape(e);
            lemma_join(expr_tokens(e), semi);
        },
        StmtView::Print(e) => {
            lemma_expr_shape(e);
            lemma_single(symbol(TokenType::Print));
            lemma_join(seq![symbol(TokenType::Print)], expr_tokens(e));
            lemma_join(seq![symbol(TokenType::Print)] + expr_tokens(e), semi);
        },
        StmtView::Var { name, init } => {
            let head = seq![symbol(TokenType::Var), name];
            assert(no_eof(head));
            assert(head[0] == symbol(TokenType::Var));
            let mid = match init {
                Some(e) => seq![symbol(TokenType::Equal)] + expr_tokens(e),
                None => Seq::empty(),
            };
            match init {
                Some(e) => {
                    lemma_expr_shape(e);
                    lemma_single(symbol(TokenType::Equal));
                    lemma_join(seq![symbol(TokenType::Equal)], expr_tokens(e));
                },
                None => {},
            }
            lemma_join(head, mid);
            lemma_join(head + mid, semi);
        },
        StmtView::Break(level) => {
            lemma_option_shape(level);
            lemma_single(symbol(TokenType::Break));
            lemma_join(seq![symbol(TokenType::Break)], option_tokens(level));
            lemma_join(seq![symbol(TokenType::Break)] + option_tokens(level), semi);
        },
        StmtView::Return { keyword, value } => {
            lemma_option_shape(value);
            lemma_single(keyword);
            lemma_join(seq![keyword], option_tokens(value));
            lemma_join(seq![keyword] + option_tokens(value), semi);
        },
        _ => {},
    }
}

/// The tokens of a sound statement: there is one at least, none is the
/// end-of-input token, and the first may start a declaration, or a
/// statement if it is no declaration.
pub proof fn lemma_stmt_shape(s: StmtView)
    requires
        sound_stmt(s),
    ensures
        stmt_shape(s),
    decreases s, 0nat,
{
    match s {
        StmtView::Block { stmts } => {
            lemma_block_shape(stmts, 0);
            let open = seq![symbol(TokenType::LeftBrace)];
            let close = seq![symbol(TokenType::RightBrace)];
            lemma_single(symbol(TokenType::LeftBrace));
            lemma_single(symbol(TokenType::RightBrace));
            lemma_join(open, block_tokens(stmts, 0));
            lemma_join(open + block_tokens(stmts, 0), close);
        },
        StmtView::If { cond, then_br, else_br } => {
            lemma_expr_shape(cond);
            lemma_stmt_shape(*then_br);
            let head = seq![symbol(TokenType::If), symbol(TokenType::LeftParen)];
            let close = seq![symbol(TokenType::RightParen)];
            let tail = match else_br {
                Some(other) => seq![symbol(TokenType::Else)] + stmt_tokens(*other),
                None => Seq::empty(),
            };
            assert(no_eof(head));
            assert(head[0] == symbol(TokenType::If));
            lemma_single(symbol(TokenType::RightParen));
            match else_br {
                Some(other) => {
                    lemma_stmt_shape(*other);
                    lemma_single(symbol(TokenType::Else));
                    lemma_join(seq![symbol(TokenType::Else)], stmt_tokens(*other));
                },
                None => {},
            }
            lemma_join(head, expr_tokens(cond));
            lemma_join(head + expr_tokens(cond), close);
            lemma_join(head + expr_tokens(cond) + close, stmt_tokens(*then_br));
            lemma_join(head + expr_tokens(cond) + close + stmt_tokens(*then_br), tail);
        },
        StmtView::While { cond, body } => {
            lemma_expr_shape(cond);
            lemma_stmt_shape(*body);
            let head = seq![symbol(TokenType::While), symbol(TokenType::LeftParen)];
            let close = seq![symbol(TokenType::RightParen)];
            assert(no_eof(head));
            assert(head[0] == symbol(TokenType::While));
            lemma_single(symbol(TokenType::RightParen));
            lemma_join(head, expr_tokens(cond));
            lemma_join(head + expr_tokens(cond), close);
            lemma_join(head + expr_tokens(cond) + close, stmt_tokens(*body));
        },
        StmtView::Func { name, params, body } => {
            lemma_names_shape(params, 0);
            lemma_block_shape(body, 0);
            let head = seq![symbol(TokenType::Fun), name, symbol(TokenType::LeftParen)];
            let mid = seq![symbol(TokenType::RightParen), symbol(TokenType::LeftBrace)];
            let close = seq![symbol(TokenType::RightBrace)];
            assert(no_eof(head));
            assert(no_eof(mid));
            assert(head[0] == symbol(TokenType::Fun));
            lemma_single(symbol(TokenType::RightBrace));
            lemma_join(head, name_tokens(params, 0));
            lemma_join(head + name_tokens(params, 0), mid);
            lemma_join(head + name_tokens(params, 0) + mid, block_tokens(body, 0));
            lemma_join(head + name_tokens(params, 0) + mid + block_tokens(body, 0), close);
        },
        _ => {
            lemma_simple_shape(s);
        },
    }
}

/// The tokens of sound statements: none is the end-of-input token, and
/// the first, if there is one, may start a declaration.
pub proof fn lemma_block_shape(stmts: Seq<StmtView>, i: nat)
    requires
        all_sound(stmts),
    ensures
        no_eof(block_tokens(stmts, i)),
        i < stmts.len() ==> block_tokens(stmts, i).len() >= 1 && starts_declaration(
            block_tokens(stmts, i)[0].type_,
        ),
        i >= stmts.len() ==> block_tokens(stmts, i).len() == 0,
    decreases stmts, stmts.len() - i,
{
    if i < stmts.len() {
        lemma_stmt_shape(stmts[i as int]);
        lemma_block_shape(stmts, i + 1);
        lemma_join(stmt_tokens(stmts[i as int]), block_tokens(stmts, i + 1));
    }
}

} // verus!
