//! What a program means: the value of an expression and the effect of a
//! statement, as functions of the state before.
//!
//! Evaluation goes left to right and depth first. Two bounds make it
//! total: `depth` is the number of nested function calls that may still
//! be entered, and a `while` runs at most `rounds` times. Running into
//! either is a runtime error.

use vstd::prelude::*;
use crate::ast::{ExprView, StmtView};
use crate::callable::FunctionView;
use crate::env::{
    assigned, defined, env_wf, lookup, moved_to, popped, pushed, pushed_under, EnvView,
};
use crate::err::{error_at, ErrorView};
use crate::number::{in_range, product, quotient, truncated, SCALE};
use crate::scanner::{LiteralView, TokenType, TokenView};
use crate::value::{equal, truthy, value_text, ValueView};

verus! {

/// The state of a running program.
pub struct State {
    /// The scope frames.
    pub env: EnvView,
    /// The lines printed so far.
    pub output: Seq<Seq<char>>,
    /// What `clock` returns, in units.
    pub now: int,
    /// How many times a `while` may run.
    pub rounds: nat,
}

/// How a statement ends: normally, with a pending `break` out of so many
/// loops, or with a pending `return` of a value.
pub enum FlowView {
    Normal,
    Break(nat),
    Return(ValueView),
}

/// What evaluating an expression yields.
pub struct Evaluated {
    pub result: Result<ValueView, ErrorView>,
    pub state: State,
}

/// What evaluating a list of expressions yields.
pub struct EvaluatedAll {
    pub result: Result<Seq<ValueView>, ErrorView>,
    pub state: State,
}

/// What executing a statement yields.
pub struct Executed {
    pub result: Result<FlowView, ErrorView>,
    pub state: State,
}

/// `s` with the environment `env`.
pub open spec fn with_env(s: State, env: EnvView) -> State {
    State { env, output: s.output, now: s.now, rounds: s.rounds }
}

/// The value of a literal. Whole and fractional numbers become numbers
/// alike.
pub open spec fn literal_value(l: LiteralView) -> ValueView {
    match l {
        LiteralView::Nil => ValueView::Nil,
        LiteralView::Boolean(b) => ValueView::Bool(b),
        LiteralView::String(s) => ValueView::Str(s),
        LiteralView::Integer(v) => ValueView::Number(v * SCALE),
        LiteralView::Float(u) => ValueView::Number(u),
    }
}

/// The error that says `msg` of `token`.
pub open spec fn error_of(token: TokenView, msg: Seq<char>) -> ErrorView {
    error_at(token.line, token.lexeme, msg)
}

/// A number, or the error that it is out of range.
pub open spec fn ranged(operator: TokenView, units: int) -> Result<ValueView, ErrorView> {
    if in_range(units) {
        Ok(ValueView::Number(units))
    } else {
        Err(error_of(operator, "Number out of range"@))
    }
}

/// What a unary operator makes of its operand: `-` negates a number, `!`
/// says whether the operand counts as false.
pub open spec fn unary_op(operator: TokenView, right: ValueView) -> Result<ValueView, ErrorView> {
    if operator.type_ == TokenType::Minus {
        match right {
            ValueView::Number(n) => ranged(operator, -n),
            _ => Err(error_of(operator, "Operand of '-' must be a number"@)),
        }
    } else if operator.type_ == TokenType::Bang {
        Ok(ValueView::Bool(!truthy(right)))
    } else {
        Err(error_of(operator, "Invalid unary operator"@))
    }
}

/// What an arithmetic or comparison operator makes of two numbers.
pub open spec fn number_op(operator: TokenView, l: int, r: int) -> Result<ValueView, ErrorView> {
    match operator.type_ {
        TokenType::Minus => ranged(operator, l - r),
        TokenType::Plus => ranged(operator, l + r),
        TokenType::Star => ranged(operator, product(l, r)),
        TokenType::Slash => if r == 0 {
            Err(error_of(operator, "Division by zero"@))
        } else {
            ranged(operator, quotient(l, r))
        },
        TokenType::Greater => Ok(ValueView::Bool(l > r)),
        TokenType::GreaterEqual => Ok(ValueView::Bool(l >= r)),
        TokenType::Less => Ok(ValueView::Bool(l < r)),
        TokenType::LessEqual => Ok(ValueView::Bool(l <= r)),
        _ => Err(error_of(operator, "Invalid binary operator"@)),
    }
}

/// Whether `t` is an operator that takes two numbers.
pub open spec fn is_numeric(t: TokenType) -> bool {
    t == TokenType::Minus || t == TokenType::Star || t == TokenType::Slash || t
        == TokenType::Greater || t == TokenType::GreaterEqual || t == TokenType::Less || t
        == TokenType::LessEqual
}

/// What a binary operator makes of its operands. Equality takes any two
/// values; `+` two numbers or two strings; the others two numbers.
pub open spec fn binary_op(operator: TokenView, l: ValueView, r: ValueView) -> Result<
    ValueView,
    ErrorView,
> {
    if operator.type_ == TokenType::EqualEqual {
        Ok(ValueView::Bool(equal(l, r)))
    } else if operator.type_ == TokenType::BangEqual {
        Ok(ValueView::Bool(!equal(l, r)))
    } else if operator.type_ == TokenType::Plus {
        match (l, r) {
            (ValueView::Number(a), ValueView::Number(b)) => number_op(operator, a, b),
            (ValueView::Str(a), ValueView::Str(b)) => Ok(ValueView::Str(a + b)),
            _ => Err(error_of(operator, "Operand must be number or str"@)),
        }
    } else if is_numeric(operator.type_) {
        match (l, r) {
            (ValueView::Number(a), ValueView::Number(b)) => number_op(operator, a, b),
            _ => Err(error_of(operator, "Operand must be number"@)),
        }
    } else {
        Err(error_of(operator, "Invalid binary operator"@))
    }
}

/// The depth of a `break`: the whole part of a number that is at least
/// one.
pub open spec fn break_level(v: ValueView) -> Result<FlowView, ErrorView> {
    match v {
        ValueView::Number(n) => if 1 <= truncated(n, SCALE as int) <= usize::MAX {
            Ok(FlowView::Break(truncated(n, SCALE as int) as nat))
        } else {
            Err(error_at(0, "break"@, "Break level must be at least one"@))
        },
        _ => Err(error_at(0, "break"@, "Break level must be a number"@)),
    }
}

/// The error of a call whose argument count is not the callee's arity.
pub open spec fn arity_error(paren: TokenView, expected: nat, got: nat) -> ErrorView {
    error_of(
        paren,
        "Expected "@ + crate::text::decimal(expected) + " args but got "@ + crate::text::decimal(
            got,
        ) + "."@,
    )
}

/// `env` with each of `params` defined as the value of `args` at the
/// same place, from `i` on.
pub open spec fn bind_params(
    env: EnvView,
    params: Seq<TokenView>,
    args: Seq<ValueView>,
    i: nat,
) -> EnvView
    decreases params.len() - i,
{
    if i >= params.len() || i >= args.len() {
        env
    } else {
        bind_params(defined(env, params[i as int].lexeme, args[i as int]), params, args, i + 1)
    }
}

/// What a function's body hands to its caller: the returned value, or
/// `nil` where the body ended without a `return`.
pub open spec fn call_result(body: Result<FlowView, ErrorView>) -> Result<ValueView, ErrorView> {
    match body {
        Err(e) => Err(e),
        Ok(FlowView::Return(v)) => Ok(v),
        Ok(_) => Ok(ValueView::Nil),
    }
}

/// What a loop makes of the way its body ended: it goes on after a
/// normal end, ends normally after a `break` of depth one, hands on a
/// deeper `break` with one level less, and hands on a `return`.
pub open spec fn after_body(flow: FlowView) -> Option<FlowView> {
    match flow {
        FlowView::Normal => None,
        FlowView::Break(n) => if n <= 1 {
            Some(FlowView::Normal)
        } else {
            Some(FlowView::Break((n - 1) as nat))
        },
        FlowView::Return(v) => Some(FlowView::Return(v)),
    }
}

/// The state in which the body of `f` starts when `f` is called with
/// `args` in state `s`: a new scope inside the scope that `f` was
/// declared in holds the parameters.
pub open spec fn entered(f: FunctionView, args: Seq<ValueView>, s: State) -> State {
    with_env(s, bind_params(pushed_under(s.env, f.closure), f.params, args, 0))
}

/// What a call yields whose body ended as `body` says: the value that
/// the body hands back, in the caller's scope, which was current in
/// `s`.
pub open spec fn left(body: Executed, s: State) -> Evaluated {
    Evaluated {
        result: call_result(body.result),
        state: with_env(body.state, moved_to(body.state.env, s.env.current)),
    }
}

/// What calling `f` with `args` in state `s` yields; `site` is the token
/// at which errors of the call itself are located.
pub open spec fn call(f: FunctionView, site: TokenView, args: Seq<ValueView>, s: State, depth: nat) -> Evaluated {
    if args.len() != f.params.len() {
        Evaluated { result: Err(arity_error(site, f.params.len(), args.len())), state: s }
    } else if depth == 0 {
        Evaluated { result: Err(error_of(site, "Stack overflow"@)), state: s }
    } else if !(0 <= f.closure < s.env.frames.len()) {
        Evaluated { result: Err(error_of(site, "Function outlived its scope"@)), state: s }
    } else {
        left(exec_all(f.body, 0, entered(f, args, s), (depth - 1) as nat), s)
    }
}

/// The value of `e` in state `s`, and the state after.
pub open spec fn eval(e: ExprView, s: State, depth: nat) -> Evaluated
    decreases depth, 0nat, e, 0nat, 0nat,
{
    match e {
        ExprView::Literal(l) => Evaluated { result: Ok(literal_value(l)), state: s },
        ExprView::Grouping(inner) => eval(*inner, s, depth),
        ExprView::Variable(name) => Evaluated {
            result: match lookup(s.env, name.lexeme) {
                Some(v) => Ok(v),
                None => Err(error_of(name, "Undefined variable"@)),
            },
            state: s,
        },
        ExprView::Assign { name, value } => {
            let v = eval(*value, s, depth);
            match v.result {
                Err(_) => v,
                Ok(val) => match assigned(v.state.env, name.lexeme, val) {
                    Some(env) => Evaluated { result: Ok(val), state: with_env(v.state, env) },
                    None => Evaluated {
                        result: Err(error_of(name, "Undefined variable"@)),
                        state: v.state,
                    },
                },
            }
        },
        ExprView::Logical { left, operator, right } => {
            let l = eval(*left, s, depth);
            match l.result {
                Err(_) => l,
                Ok(val) => if (operator.type_ == TokenType::Or) == truthy(val) {
                    l
                } else {
                    eval(*right, l.state, depth)
                },
            }
        },
        ExprView::Unary { operator, right } => {
            let r = eval(*right, s, depth);
            match r.result {
                Err(_) => r,
                Ok(val) => Evaluated { result: unary_op(operator, val), state: r.state },
            }
        },
        ExprView::Binary { left, operator, right } => {
            let l = eval(*left, s, depth);
            match l.result {
                Err(_) => l,
                Ok(lv) => {
                    let r = eval(*right, l.state, depth);
                    match r.result {
                        Err(_) => r,
                        Ok(rv) => Evaluated { result: binary_op(operator, lv, rv), state: r.state },
                    }
                },
            }
        },
        ExprView::Call { callee, paren, args } => {
            let c = eval(*callee, s, depth);
            match c.result {
                Err(_) => c,
                Ok(target) => {
                    let a = eval_all(args, 0, c.state, depth, Seq::empty());
                    match a.result {
                        Err(e) => Evaluated { result: Err(e), state: a.state },
                        Ok(values) => match target {
                            ValueView::Function(f) => if values.len() != f.params.len() {
                                Evaluated {
                                    result: Err(arity_error(paren, f.params.len(), values.len())),
                                    state: a.state,
                                }
                            } else if depth == 0 {
                                Evaluated {
                                    result: Err(error_of(paren, "Stack overflow"@)),
                                    state: a.state,
                                }
                            } else if !(0 <= f.closure < a.state.env.frames.len()) {
                                Evaluated {
                                    result: Err(error_of(paren, "Function outlived its scope"@)),
                                    state: a.state,
                                }
                            } else {
                                let body = exec_all(
                                    f.body,
                                    0,
                                    entered(f, values, a.state),
                                    (depth - 1) as nat,
                                );
                                left(body, a.state)
                            },
                            ValueView::Native => if values.len() != 0 {
                                Evaluated {
                                    result: Err(arity_error(paren, 0, values.len())),
                                    state: a.state,
                                }
                            } else {
                                Evaluated {
                                    result: Ok(ValueView::Number(a.state.now)),
                                    state: a.state,
                                }
                            },
                            _ => Evaluated {
                                result: Err(
                                    error_of(paren, "Can only call functions and classes."@),
                                ),
                                state: a.state,
                            },
                        },
                    }
                },
            }
        },
    }
}

/// The values of `args` from `i` on, in order, behind the values `found`
/// of those before.
pub open spec fn eval_all(
    args: Seq<ExprView>,
    i: nat,
    s: State,
    depth: nat,
    found: Seq<ValueView>,
) -> EvaluatedAll
    decreases depth, 0nat, args, 0nat, args.len() - i,
{
    if i >= args.len() {
        EvaluatedAll { result: Ok(found), state: s }
    } else {
        let v = eval(args[i as int], s, depth);
        match v.result {
            Err(e) => EvaluatedAll { result: Err(e), state: v.state },
            Ok(val) => eval_all(args, i + 1, v.state, depth, found.push(val)),
        }
    }
}

/// The effect of the statement `st` in state `s`.
pub open spec fn exec(st: StmtView, s: State, depth: nat) -> Executed
    decreases depth, 1nat, st, 1nat, 0nat,
{
    match st {
        StmtView::Expression(e) => {
            let v = eval(e, s, depth);
            Executed {
                result: match v.result {
                    Ok(_) => Ok(FlowView::Normal),
                    Err(e) => Err(e),
                },
                state: v.state,
            }
        },
        StmtView::Print(e) => {
            let v = eval(e, s, depth);
            match v.result {
                Err(e) => Executed { result: Err(e), state: v.state },
                Ok(val) => Executed {
                    result: Ok(FlowView::Normal),
                    state: State {
                        env: v.state.env,
                        output: v.state.output.push(value_text(val)),
                        now: v.state.now,
                        rounds: v.state.rounds,
                    },
                },
            }
        },
        StmtView::Var { name, init } => {
            let v = match init {
                Some(e) => eval(e, s, depth),
                None => Evaluated { result: Ok(ValueView::Nil), state: s },
            };
            match v.result {
                Err(e) => Executed { result: Err(e), state: v.state },
                Ok(val) => Executed {
                    result: Ok(FlowView::Normal),
                    state: with_env(v.state, defined(v.state.env, name.lexeme, val)),
                },
            }
        },
        StmtView::Block { stmts } => {
            let inner = exec_all(stmts, 0, with_env(s, pushed(s.env)), depth);
            Executed { result: inner.result, state: with_env(inner.state, popped(inner.state.env)) }
        },
        StmtView::If { cond, then_br, else_br } => {
            let c = eval(cond, s, depth);
            match c.result {
                Err(e) => Executed { result: Err(e), state: c.state },
                Ok(val) => if truthy(val) {
                    exec(*then_br, c.state, depth)
                } else {
                    match else_br {
                        Some(other) => exec(*other, c.state, depth),
                        None => Executed { result: Ok(FlowView::Normal), state: c.state },
                    }
                },
            }
        },
        StmtView::While { cond, body } => exec_while(st, s, depth, s.rounds),
        StmtView::Func { name, params, body } => Executed {
            result: Ok(FlowView::Normal),
            state: with_env(
                s,
                defined(
                    s.env,
                    name.lexeme,
                    ValueView::Function(FunctionView { name, params, body, closure: s.env.current }),
                ),
            ),
        },
        StmtView::Break(level) => match level {
            None => Executed { result: Ok(FlowView::Break(1)), state: s },
            Some(e) => {
                let v = eval(e, s, depth);
                match v.result {
                    Err(e) => Executed { result: Err(e), state: v.state },
                    Ok(val) => Executed { result: break_level(val), state: v.state },
                }
            },
        },
        StmtView::Return { keyword, value } => match value {
            None => Executed { result: Ok(FlowView::Return(ValueView::Nil)), state: s },
            Some(e) => {
                let v = eval(e, s, depth);
                Executed {
                    result: match v.result {
                        Ok(val) => Ok(FlowView::Return(val)),
                        Err(e) => Err(e),
                    },
                    state: v.state,
                }
            },
        },
    }
}

/// The effect of the loop `st`, which may still run `rounds` times.
pub open spec fn exec_while(st: StmtView, s: State, depth: nat, rounds: nat) -> Executed
    decreases depth, 1nat, st, 0nat, rounds,
{
    match st {
        StmtView::While { cond, body } => {
            let c = eval(cond, s, depth);
            match c.result {
                Err(e) => Executed { result: Err(e), state: c.state },
                Ok(val) => if !truthy(val) {
                    Executed { result: Ok(FlowView::Normal), state: c.state }
                } else if rounds == 0 {
                    Executed {
                        result: Err(error_at(0, "while"@, "Loop ran too long"@)),
                        state: c.state,
                    }
                } else {
                    let b = exec(*body, c.state, depth);
                    match b.result {
                        Err(_) => b,
                        Ok(flow) => match after_body(flow) {
                            Some(out) => Executed { result: Ok(out), state: b.state },
                            None => exec_while(st, b.state, depth, (rounds - 1) as nat),
                        },
                    }
                },
            }
        },
        _ => Executed { result: Ok(FlowView::Normal), state: s },
    }
}

/// The effect of the statements `stmts` from `i` on, one after the
/// other, up to the first that does not end normally.
pub open spec fn exec_all(stmts: Seq<StmtView>, i: nat, s: State, depth: nat) -> Executed
    decreases depth, 1nat, stmts, 0nat, stmts.len() - i,
{
    if i >= stmts.len() {
        Executed { result: Ok(FlowView::Normal), state: s }
    } else {
        let first = exec(stmts[i as int], s, depth);
        match first.result {
            Ok(FlowView::Normal) => exec_all(stmts, i + 1, first.state, depth),
            _ => first,
        }
    }
}

/// Short circuit: where the left operand of `or` counts as true, or that
/// of `and` as false, the expression is the left operand, and the right
/// operand is not evaluated.
pub proof fn lemma_short_circuit(
    left: ExprView,
    operator: TokenView,
    right: ExprView,
    s: State,
    depth: nat,
)
    requires
        eval(left, s, depth).result matches Ok(v) && (operator.type_ == TokenType::Or) == truthy(v),
    ensures
        eval(
            ExprView::Logical { left: Box::new(left), operator, right: Box::new(right) },
            s,
            depth,
        ) == eval(left, s, depth),
{
}

/// Equality converts nothing: values of different kinds are not equal,
/// and no function, class or native function equals anything.
pub proof fn lemma_equal_same_kind(a: ValueView, b: ValueView)
    requires
        equal(a, b),
    ensures
        (a is Nil && b is Nil) || (a is Number && b is Number) || (a is Bool && b is Bool) || (a is Str
            && b is Str),
        a == b,
{
}

/// A call with another number of arguments than the function has
/// parameters fails, and the error names both counts.
pub proof fn lemma_call_arity(
    f: FunctionView,
    site: TokenView,
    args: Seq<ValueView>,
    s: State,
    depth: nat,
)
    requires
        args.len() != f.params.len(),
    ensures
        call(f, site, args, s, depth) == (Evaluated {
            result: Err(arity_error(site, f.params.len(), args.len())),
            state: s,
        }),
{
}

/// Break depth: a loop ends normally on a `break` of depth one, and
/// hands a deeper `break` on with one level less.
pub proof fn lemma_break_depth(n: nat)
    requires
        n >= 1,
    ensures
        after_body(FlowView::Break(n)) == Some(
            if n == 1 {
                FlowView::Normal
            } else {
                FlowView::Break((n - 1) as nat)
            },
        ),
{
}

/// Closures: the body of a function starts in a scope inside the scope
/// that the function was declared in, whatever scope the caller is in.
pub proof fn lemma_call_ignores_caller_scope(
    f: FunctionView,
    args: Seq<ValueView>,
    s: State,
    frame: int,
)
    ensures
        entered(f, args, with_env(s, moved_to(s.env, frame))) == entered(f, args, s),
        args.len() == 0 || f.params.len() == 0 ==> entered(f, args, s).env.frames.last().parent
            == Some(f.closure),
{
    assert(pushed_under(moved_to(s.env, frame), f.closure) == pushed_under(s.env, f.closure));
}

/// What evaluation leaves as it was: the current scope, the frames that
/// were there and their nesting, the clock and the loop bound.
pub open spec fn settled(before: State, after: State) -> bool {
    &&& after.env.current == before.env.current
    &&& after.env.frames.len() >= before.env.frames.len()
    &&& forall|i: int|
        0 <= i < before.env.frames.len() ==> #[trigger] after.env.frames[i].parent
            == before.env.frames[i].parent
    &&& after.now == before.now
    &&& after.rounds == before.rounds
}

/// What is settled stays settled.
pub proof fn lemma_settled_twice(a: State, b: State, c: State)
    requires
        settled(a, b),
        settled(b, c),
    ensures
        settled(a, c),
{
    assert forall|i: int| 0 <= i < a.env.frames.len() implies #[trigger] c.env.frames[i].parent
        == a.env.frames[i].parent by {
        assert(b.env.frames[i].parent == a.env.frames[i].parent);
    }
}

/// Binding a name in a frame keeps the frames in order: the same
/// current scope, as many frames, the same nesting.
pub proof fn lemma_bound_settled(e: EnvView, frame: int, name: Seq<char>, v: ValueView)
    requires
        env_wf(e),
        0 <= frame < e.frames.len(),
    ensures
        env_wf(crate::env::bound(e, frame, name, v)),
        crate::env::bound(e, frame, name, v).current == e.current,
        crate::env::bound(e, frame, name, v).frames.len() == e.frames.len(),
        forall|i: int|
            0 <= i < e.frames.len() ==> #[trigger] crate::env::bound(
                e,
                frame,
                name,
                v,
            ).frames[i].parent == e.frames[i].parent,
{
    let after = crate::env::bound(e, frame, name, v);
    assert forall|i: int| 0 <= i < after.frames.len() implies (
    #[trigger] after.frames[i].parent matches Some(p) ==> 0 <= p < i) by {
        assert(after.frames[i].parent == e.frames[i].parent);
    }
}

/// Binding the parameters keeps the frames in order.
pub proof fn lemma_bind_params_settled(
    e: EnvView,
    params: Seq<TokenView>,
    args: Seq<ValueView>,
    i: nat,
)
    requires
        env_wf(e),
    ensures
        env_wf(bind_params(e, params, args, i)),
        bind_params(e, params, args, i).current == e.current,
        bind_params(e, params, args, i).frames.len() == e.frames.len(),
        forall|k: int|
            0 <= k < e.frames.len() ==> #[trigger] bind_params(e, params, args, i).frames[k].parent
                == e.frames[k].parent,
    decreases params.len() - i,
{
    if !(i >= params.len() || i >= args.len()) {
        let next = defined(e, params[i as int].lexeme, args[i as int]);
        lemma_bound_settled(e, e.current, params[i as int].lexeme, args[i as int]);
        lemma_bind_params_settled(next, params, args, i + 1);
        let last = bind_params(e, params, args, i);
        assert forall|k: int| 0 <= k < e.frames.len() implies #[trigger] last.frames[k].parent
            == e.frames[k].parent by {
            assert(next.frames[k].parent == e.frames[k].parent);
        }
    }
}

/// Evaluating an expression leaves the scopes settled.
pub proof fn lemma_eval_settled(e: ExprView, s: State, depth: nat)
    requires
        env_wf(s.env),
    ensures
        settled(s, eval(e, s, depth).state),
        env_wf(eval(e, s, depth).state.env),
    decreases depth, 1nat, e, 0nat, 0nat,
{
    match e {
        ExprView::Literal(l) => {},
        ExprView::Grouping(inner) => {
            lemma_eval_settled(*inner, s, depth);
        },
        ExprView::Variable(name) => {},
        ExprView::Assign { name, value } => {
            lemma_eval_settled(*value, s, depth);
            let v = eval(*value, s, depth);
            match v.result {
                Ok(val) => {
                    crate::env::lemma_holder_bounds(v.state.env, v.state.env.current, name.lexeme);
                    match crate::env::holder(v.state.env, v.state.env.current, name.lexeme) {
                        Some(f) => {
                            lemma_bound_settled(v.state.env, f, name.lexeme, val);
                            lemma_settled_twice(s, v.state, eval(e, s, depth).state);
                        },
                        None => {},
                    }
                },
                Err(_) => {},
            }
        },
        ExprView::Logical { left, operator, right } => {
            lemma_eval_settled(*left, s, depth);
            let l = eval(*left, s, depth);
            if l.result is Ok {
                lemma_eval_settled(*right, l.state, depth);
                lemma_settled_twice(s, l.state, eval(*right, l.state, depth).state);
            }
        },
        ExprView::Unary { operator, right } => {
            lemma_eval_settled(*right, s, depth);
        },
        ExprView::Binary { left, operator, right } => {
            lemma_eval_settled(*left, s, depth);
            let l = eval(*left, s, depth);
            if l.result is Ok {
                lemma_eval_settled(*right, l.state, depth);
                lemma_settled_twice(s, l.state, eval(*right, l.state, depth).state);
            }
        },
        ExprView::Call { callee, paren, args } => {
            lemma_eval_settled(*callee, s, depth);
            let c = eval(*callee, s, depth);
            match c.result {
                Ok(target) => {
                    lemma_eval_all_settled(args, 0, c.state, depth, Seq::empty());
                    let a = eval_all(args, 0, c.state, depth, Seq::empty());
                    lemma_settled_twice(s, c.state, a.state);
                    match a.result {
                        Ok(values) => {
                            match target {
                                ValueView::Function(f) => {
                                    if values.len() == f.params.len() && depth > 0 && 0 <= f.closure
                                        < a.state.env.frames.len() {
                                        lemma_call_settled(f, paren, values, a.state, depth);
                                        lemma_settled_twice(
                                            s,
                                            a.state,
                                            call(f, paren, values, a.state, depth).state,
                                        );
                                    }
                                },
                                _ => {},
                            }
                        },
                        Err(_) => {},
                    }
                },
                Err(_) => {},
            }
        },
    }
}

/// Calling a function leaves the caller's scopes settled.
pub proof fn lemma_call_settled(
    f: FunctionView,
    site: TokenView,
    args: Seq<ValueView>,
    s: State,
    depth: nat,
)
    requires
        env_wf(s.env),
    ensures
        settled(s, call(f, site, args, s, depth).state),
        env_wf(call(f, site, args, s, depth).state.env),
    decreases depth, 0nat,
{
    if args.len() == f.params.len() && depth > 0 && 0 <= f.closure < s.env.frames.len() {
        let fresh = pushed_under(s.env, f.closure);
        assert(env_wf(fresh)) by {
            assert forall|i: int| 0 <= i < fresh.frames.len() implies (
            #[trigger] fresh.frames[i].parent matches Some(p) ==> 0 <= p < i) by {
                if i < s.env.frames.len() {
                    assert(fresh.frames[i].parent == s.env.frames[i].parent);
                }
            }
        }
        lemma_bind_params_settled(fresh, f.params, args, 0);
        let start = entered(f, args, s);
        lemma_exec_all_settled(f.body, 0, start, (depth - 1) as nat);
        let body = exec_all(f.body, 0, start, (depth - 1) as nat);
        let out = left(body, s);
        assert forall|i: int| 0 <= i < s.env.frames.len() implies #[trigger] out.state.env.frames[i].parent
            == s.env.frames[i].parent by {
            assert(start.env.frames[i].parent == fresh.frames[i].parent);
            assert(body.state.env.frames[i].parent == start.env.frames[i].parent);
        }
    }
}

/// Evaluating a list of expressions leaves the scopes settled.
pub proof fn lemma_eval_all_settled(
    args: Seq<ExprView>,
    i: nat,
    s: State,
    depth: nat,
    found: Seq<ValueView>,
)
    requires
        env_wf(s.env),
    ensures
        settled(s, eval_all(args, i, s, depth, found).state),
        env_wf(eval_all(args, i, s, depth, found).state.env),
    decreases depth, 1nat, args, 0nat, args.len() - i,
{
    if i < args.len() {
        lemma_eval_settled(args[i as int], s, depth);
        let v = eval(args[i as int], s, depth);
        match v.result {
            Ok(val) => {
                lemma_eval_all_settled(args, i + 1, v.state, depth, found.push(val));
                lemma_settled_twice(
                    s,
                    v.state,
                    eval_all(args, i + 1, v.state, depth, found.push(val)).state,
                );
            },
            Err(_) => {},
        }
    }
}

/// Executing a statement leaves the scopes settled, however it ends.
pub proof fn lemma_exec_settled(st: StmtView, s: State, depth: nat)
    requires
        env_wf(s.env),
    ensures
        settled(s, exec(st, s, depth).state),
        env_wf(exec(st, s, depth).state.env),
    decreases depth, 2nat, st, 1nat, 0nat,
{
    match st {
        StmtView::Expression(e) => {
            lemma_eval_settled(e, s, depth);
        },
        StmtView::Print(e) => {
            lemma_eval_settled(e, s, depth);
        },
        StmtView::Var { name, init } => {
            let v = match init {
                Some(e) => eval(e, s, depth),
                None => Evaluated { result: Ok(ValueView::Nil), state: s },
            };
            match init {
                Some(e) => {
                    lemma_eval_settled(e, s, depth);
                },
                None => {},
            }
            match v.result {
                Ok(val) => {
                    lemma_bound_settled(v.state.env, v.state.env.current, name.lexeme, val);
                    lemma_settled_twice(s, v.state, exec(st, s, depth).state);
                },
                Err(_) => {},
            }
        },
        StmtView::Block { stmts } => {
            let fresh = pushed(s.env);
            assert(env_wf(fresh)) by {
                assert forall|i: int| 0 <= i < fresh.frames.len() implies (
                #[trigger] fresh.frames[i].parent matches Some(p) ==> 0 <= p < i) by {
                    if i < s.env.frames.len() {
                        assert(fresh.frames[i].parent == s.env.frames[i].parent);
                    }
                }
            }
            let start = with_env(s, fresh);
            lemma_exec_all_settled(stmts, 0, start, depth);
            let inner = exec_all(stmts, 0, start, depth);
            let out = exec(st, s, depth).state;
            assert(inner.state.env.frames[fresh.current].parent == Some(s.env.current));
            assert forall|i: int| 0 <= i < s.env.frames.len() implies #[trigger] out.env.frames[i].parent
                == s.env.frames[i].parent by {
                assert(inner.state.env.frames[i].parent == fresh.frames[i].parent);
            }
        },
        StmtView::If { cond, then_br, else_br } => {
            lemma_eval_settled(cond, s, depth);
            let c = eval(cond, s, depth);
            match c.result {
                Ok(val) => {
                    if truthy(val) {
                        lemma_exec_settled(*then_br, c.state, depth);
                        lemma_settled_twice(s, c.state, exec(*then_br, c.state, depth).state);
                    } else {
                        match else_br {
                            Some(other) => {
                                lemma_exec_settled(*other, c.state, depth);
                                lemma_settled_twice(s, c.state, exec(*other, c.state, depth).state);
                            },
                            None => {},
                        }
                    }
                },
                Err(_) => {},
            }
        },
        StmtView::While { cond, body } => {
            lemma_exec_while_settled(st, s, depth, s.rounds);
        },
        StmtView::Func { name, params, body } => {
            lemma_bound_settled(
                s.env,
                s.env.current,
                name.lexeme,
                ValueView::Function(FunctionView { name, params, body, closure: s.env.current }),
            );
        },
        StmtView::Break(level) => {
            match level {
                Some(e) => {
                    lemma_eval_settled(e, s, depth);
                },
                None => {},
            }
        },
        StmtView::Return { keyword, value } => {
            match value {
                Some(e) => {
                    lemma_eval_settled(e, s, depth);
                },
                None => {},
            }
        },
    }
}

/// Running a loop leaves the scopes settled.
pub proof fn lemma_exec_while_settled(st: StmtView, s: State, depth: nat, rounds: nat)
    requires
        env_wf(s.env),
    ensures
        settled(s, exec_while(st, s, depth, rounds).state),
        env_wf(exec_while(st, s, depth, rounds).state.env),
    decreases depth, 2nat, st, 0nat, rounds,
{
    match st {
        StmtView::While { cond, body } => {
            lemma_eval_settled(cond, s, depth);
            let c = eval(cond, s, depth);
            match c.result {
                Ok(val) => {
                    if truthy(val) && rounds > 0 {
                        lemma_exec_settled(*body, c.state, depth);
                        let b = exec(*body, c.state, depth);
                        lemma_settled_twice(s, c.state, b.state);
                        match b.result {
                            Ok(flow) => {
                                if after_body(flow) is None {
                                    lemma_exec_while_settled(st, b.state, depth, (rounds - 1) as nat);
                                    lemma_settled_twice(
                                        s,
                                        b.state,
                                        exec_while(st, b.state, depth, (rounds - 1) as nat).state,
                                    );
                                }
                            },
                            Err(_) => {},
                        }
                    }
                },
                Err(_) => {},
            }
        },
        _ => {},
    }
}

/// Executing statements one after the other leaves the scopes settled.
pub proof fn lemma_exec_all_settled(stmts: Seq<StmtView>, i: nat, s: State, depth: nat)
    requires
        env_wf(s.env),
    ensures
        settled(s, exec_all(stmts, i, s, depth).state),
        env_wf(exec_all(stmts, i, s, depth).state.env),
    decreases depth, 2nat, stmts, 0nat, stmts.len() - i,
{
    if i < stmts.len() {
        lemma_exec_settled(stmts[i as int], s, depth);
        let first = exec(stmts[i as int], s, depth);
        match first.result {
            Ok(FlowView::Normal) => {
                lemma_exec_all_settled(stmts, i + 1, first.state, depth);
                lemma_settled_twice(s, first.state, exec_all(stmts, i + 1, first.state, depth).state);
            },
            _ => {},
        }
    }
}

/// No scope leaks: after a statement was executed, the same scope is
/// current and as many scopes are in effect as before, whether the
/// statement ended normally, with a `break`, with a `return` or with an
/// error.
pub proof fn lemma_no_scope_leak(st: StmtView, s: State, depth: nat)
    requires
        env_wf(s.env),
    ensures
        exec(st, s, depth).state.env.current == s.env.current,
        crate::env::scopes(exec(st, s, depth).state.env, s.env.current) == crate::env::scopes(
            s.env,
            s.env.current,
        ),
{
    lemma_exec_settled(st, s, depth);
    crate::env::lemma_scopes_grow(s.env, exec(st, s, depth).state.env, s.env.current);
}

} // verus!
