//! The evaluator: it walks the syntax tree and does what
//! [`crate::semantics`] says.

use vstd::prelude::*;
use vstd::string::StringExecFns;
use std::rc::Rc;
use crate::ast::{clone_stmts, clone_tokens, Expr, Stmt};
use crate::callable::{Clock, LoxFunction};
use crate::env::{env_wf, lemma_scopes_grow, scopes, Env};
use crate::err::{result_view, views, ErrorView, LoxError};
use crate::number::Number;
use crate::scanner::{Literal, Token, TokenType};
use crate::semantics::{
    arity_error, binary_op, bind_params, break_level, eval, eval_all, exec, exec_all, exec_while,
    literal_value, number_op, settled, unary_op, Evaluated, Executed, FlowView, State,
};
use crate::text::push_decimal;
pub use crate::value::{Value, ValueView};

verus! {

/// How a statement ended.
#[derive(Debug)]
pub enum ControlFlow {
    /// It ran to its end.
    Normal,
    /// A `break` out of so many loops is pending.
    Break(usize),
    /// A `return` of this value is pending.
    Return(Value),
}

impl View for ControlFlow {
    type V = FlowView;

    open spec fn view(&self) -> FlowView {
        match self {
            ControlFlow::Normal => FlowView::Normal,
            ControlFlow::Break(n) => FlowView::Break(*n as nat),
            ControlFlow::Return(v) => FlowView::Return(v@),
        }
    }
}

impl Literal {
    /// The value of the literal.
    pub fn evaluate(&self) -> (v: Value)
        ensures
            v@ == literal_value(self@),
    {
        match self {
            Literal::Nil => Value::Nil,
            Literal::Boolean(v) => Value::Bool(*v),
            Literal::String(v) => Value::Str(v.clone()),
            Literal::Integer(v) => Value::Number(Number::from_i64(*v)),
            Literal::Float(v) => Value::Number(*v),
        }
    }
}

/// A number where there is one, and else the error that it is out of
/// range.
fn in_range_or(operator: &Token, number: Option<Number>) -> (r: Result<Value, LoxError>)
    ensures
        result_view(r) == match number {
            Some(n) => Ok::<ValueView, ErrorView>(ValueView::Number(n@)),
            None => Err::<ValueView, ErrorView>(
                crate::semantics::error_of(operator@, "Number out of range"@),
            ),
        },
{
    match number {
        Some(n) => Ok(Value::Number(n)),
        None => Err(LoxError::at_token(operator, "Number out of range")),
    }
}

/// Applies a unary operator.
pub fn apply_unary(operator: &Token, right: &Value) -> (r: Result<Value, LoxError>)
    ensures
        result_view(r) == unary_op(operator@, right@),
{
    match operator.type_ {
        TokenType::Minus => match right {
            Value::Number(n) => {
Ok(Value::Number(n.neg()))
            },
            _ => Err(LoxError::at_token(operator, "Operand of '-' must be a number")),
        },
        TokenType::Bang => Ok(Value::Bool(!right.is_truthy())),
        _ => Err(LoxError::at_token(operator, "Invalid unary operator")),
    }
}

/// Applies an arithmetic or comparison operator to two numbers.
pub fn apply_number(operator: &Token, l: Number, r: Number) -> (res: Result<Value, LoxError>)
    ensures
        result_view(res) == number_op(operator@, l@, r@),
{
    match operator.type_ {
        TokenType::Minus => in_range_or(operator, l.sub(r)),
        TokenType::Plus => in_range_or(operator, l.add(r)),
        TokenType::Star => in_range_or(operator, l.mul(r)),
        TokenType::Slash => {
            if r.same(Number::zero()) {
                Err(LoxError::at_token(operator, "Division by zero"))
            } else {
                in_range_or(operator, l.div(r))
            }
        },
        TokenType::Greater => Ok(Value::Bool(r.lt(l))),
        TokenType::GreaterEqual => Ok(Value::Bool(r.le(l))),
        TokenType::Less => Ok(Value::Bool(l.lt(r))),
        TokenType::LessEqual => Ok(Value::Bool(l.le(r))),
        _ => Err(LoxError::at_token(operator, "Invalid binary operator")),
    }
}

/// Applies a binary operator.
pub fn apply_binary(operator: &Token, l: &Value, r: &Value) -> (res: Result<Value, LoxError>)
    ensures
        result_view(res) == binary_op(operator@, l@, r@),
{
    match operator.type_ {
        TokenType::EqualEqual => Ok(Value::Bool(l.is_equal(r))),
        TokenType::BangEqual => Ok(Value::Bool(!l.is_equal(r))),
        TokenType::Plus => match (l, r) {
            (Value::Number(a), Value::Number(b)) => apply_number(operator, *a, *b),
            (Value::Str(a), Value::Str(b)) => {
                let mut s = a.clone();
                s.append(b.as_str());
                Ok(Value::Str(s))
            },
            _ => Err(LoxError::at_token(operator, "Operand must be number or str")),
        },
        TokenType::Minus | TokenType::Star | TokenType::Slash | TokenType::Greater
        | TokenType::GreaterEqual | TokenType::Less | TokenType::LessEqual => match (l, r) {
            (Value::Number(a), Value::Number(b)) => apply_number(operator, *a, *b),
            _ => Err(LoxError::at_token(operator, "Operand must be number")),
        },
        _ => Err(LoxError::at_token(operator, "Invalid binary operator")),
    }
}

/// The pending `break` that a level value asks for.
pub fn level_of(v: &Value) -> (r: Result<ControlFlow, LoxError>)
    ensures
        result_view(r) == break_level(v@),
{
    match v {
        Value::Number(n) => {
            let whole = n.whole();
            if whole >= 1 && whole <= usize::MAX as i128 {
                Ok(ControlFlow::Break(whole as usize))
            } else {
                Err(LoxError::new(0, "break".to_string(), "Break level must be at least one"))
            }
        },
        _ => Err(LoxError::new(0, "break".to_string(), "Break level must be a number")),
    }
}

/// The error of a call with `got` arguments to a callee that takes
/// `expected`.
pub fn wrong_arity(paren: &Token, expected: usize, got: usize) -> (e: LoxError)
    ensures
        e@ == arity_error(paren@, expected as nat, got as nat),
{
    let mut msg = "Expected ".to_string();
    push_decimal(&mut msg, expected as u128);
    msg.append(" args but got ");
    push_decimal(&mut msg, got as u128);
    msg.append(".");
    LoxError::at_token(paren, msg.as_str())
}

/// The evaluator's state: the program, the scopes, the lines printed,
/// the clock and the two bounds.
pub struct Interpreter {
    pub ast: Vec<Stmt>,
    env: Env,
    output: Vec<String>,
    now: Number,
    max_depth: usize,
    max_rounds: u64,
}

impl View for Interpreter {
    type V = State;

    closed spec fn view(&self) -> State {
        State {
            env: self.env@,
            output: views(self.output@),
            now: self.now@,
            rounds: self.max_rounds as nat,
        }
    }
}

/// How many nested calls a fresh interpreter enters.
pub const DEFAULT_DEPTH: usize = 64;

impl Interpreter {
    /// The scopes are well formed.
    pub closed spec fn wf(&self) -> bool {
        self.env.wf()
    }

    /// The program.
    pub closed spec fn program(&self) -> Vec<Stmt> {
        self.ast
    }

    /// How many nested calls may be entered.
    pub closed spec fn depth(&self) -> nat {
        self.max_depth as nat
    }

    /// Whether `self` is `before` after something ran: the program and
    /// the bounds are the same, and the state is settled.
    pub closed spec fn ran(&self, before: Interpreter) -> bool {
        &&& self.wf()
        &&& self.ast == before.ast
        &&& self.max_depth == before.max_depth
        &&& settled(before@, self@)
        &&& env_wf(self@.env)
    }

    /// What `ran` says.
    pub proof fn lemma_ran(&self, before: Interpreter)
        requires
            self.ran(before),
            before.wf(),
        ensures
            self.wf(),
            self.program() == before.program(),
            self.depth() == before.depth(),
            settled(before@, self@),
            env_wf(before@.env),
            env_wf(self@.env),
            scopes(self@.env, self@.env.current) == scopes(before@.env, before@.env.current),
    {
        before.env.lemma_wf();
        lemma_scopes_grow(before@.env, self@.env, before@.env.current);
    }

    fn eval_at(&mut self, expr: &Expr, depth: usize) -> (r: Result<Value, LoxError>)
        requires
            old(self).wf(),
        ensures
            final(self).ran(*old(self)),
            (Evaluated { result: result_view(r), state: final(self)@ }) == eval(
                expr@,
                old(self)@,
                depth as nat,
            ),
        decreases depth, 2nat, expr, 1nat,
    {
        proof {
            old(self).env.lemma_wf();
        }
        match expr {
            Expr::Literal(lit) => Ok(lit.evaluate()),
            Expr::Grouping(inner) => self.eval_at(inner, depth),
            Expr::Variable(token) => match self.env.get(token) {
                Some(v) => Ok(v),
                None => Err(LoxError::at_token(token, "Undefined variable")),
            },
            Expr::Assign { name, value } => {
                let val = self.eval_at(value, depth)?;
                proof {
                    self.env.lemma_wf();
                }
                match self.env.assign(name, val.clone()) {
                    Ok(_) => {
                        proof {
                            self.env.lemma_wf();
                        }
                        Ok(val)
                    },
                    Err(e) => Err(e),
                }
            },
            Expr::Logical { left, operator, right } => {
                let left = self.eval_at(left, depth)?;
                let is_or = operator.type_ == TokenType::Or;
                if is_or == left.is_truthy() {
                    return Ok(left);
                }
                self.eval_at(right, depth)
            },
            Expr::Unary { operator, right } => {
                let right = self.eval_at(right, depth)?;
                apply_unary(operator, &right)
            },
            Expr::Binary { left, operator, right } => {
                let left = self.eval_at(left, depth)?;
                let right = self.eval_at(right, depth)?;
                apply_binary(operator, &left, &right)
            },
            Expr::Call { callee, paren, args } => self.eval_call(expr, depth),
        }
    }

    fn eval_call(&mut self, expr: &Expr, depth: usize) -> (r: Result<Value, LoxError>)
        requires
            old(self).wf(),
            expr is Call,
        ensures
            final(self).ran(*old(self)),
            (Evaluated { result: result_view(r), state: final(self)@ }) == eval(
                expr@,
                old(self)@,
                depth as nat,
            ),
        decreases depth, 2nat, expr, 0nat,
    {
        proof {
            old(self).env.lemma_wf();
        }
        match expr {
            Expr::Call { callee, paren, args } => {
                proof {
                    crate::ast::lemma_call_view(*callee, *paren, *args);
                }
                let target = self.eval_at(callee, depth)?;
                let ghost after_callee = *self;
                let mut values: Vec<Value> = Vec::new();
                let ghost goal = eval_all(views(args@), 0, self@, depth as nat, Seq::empty());
                proof {
                    assert(views(values@) =~= Seq::<ValueView>::empty());
                }
                let mut i: usize = 0;
                while i < args.len()
                    invariant
                        i <= args.len(),
                        expr is Call,
                        expr->Call_args == *args,
                        expr->Call_callee == *callee,
                        expr->Call_paren == *paren,
                        self.ran(*old(self)),
                        self.wf(),
                        old(self).wf(),
                        eval(callee@, old(self)@, depth as nat) == (Evaluated {
                            result: Ok(target@),
                            state: after_callee@,
                        }),
                        goal == eval_all(views(args@), 0, after_callee@, depth as nat, Seq::empty()),
                        goal == eval_all(views(args@), i as nat, self@, depth as nat, views(values@)),
                    decreases args.len() - i,
                {
                    proof {
                        vstd::std_specs::vec::axiom_vec_index_decreases(*args, i as int);
                        assert(decreases_to!(*expr => expr->Call_args));
                    }
                    let value = match self.eval_at(&args[i], depth) {
                        Ok(v) => v,
                        Err(e) => {
                            proof {
                                crate::ast::lemma_call_view(*callee, *paren, *args);
                            }
                            return Err(e);
                        },
                    };
                    proof {
                        assert(views(values@.push(value)) =~= views(values@).push(value@));
                    }
                    values.push(value);
                    i += 1;
                }
                match target {
                    Value::Function(f) => self.call_function(&f, paren, values, depth),
                    Value::Native(_) => {
                        if values.len() != 0 {
                            Err(wrong_arity(paren, 0, values.len()))
                        } else {
                            Ok(Value::Number(self.now))
                        }
                    },
                    _ => Err(LoxError::at_token(paren, "Can only call functions and classes.")),
                }
            },
            _ => vstd::pervasive::unreached(),
        }
    }

    /// Calls `f` with `args`: binds the parameters in a new scope inside
    /// the scope that `f` was declared in, runs the body there, and goes
    /// back to the caller's scope.
    fn call_function(&mut self, f: &LoxFunction, paren: &Token, args: Vec<Value>, depth: usize) -> (r:
        Result<Value, LoxError>)
        requires
            old(self).wf(),
        ensures
            final(self).ran(*old(self)),
            (Evaluated { result: result_view(r), state: final(self)@ }) == crate::semantics::call(
                f@,
                paren@,
                views(args@),
                old(self)@,
                depth as nat,
            ),
        decreases depth, 1nat,
    {
        proof {
            old(self).env.lemma_wf();
        }
        if args.len() != f.params.len() {
            return Err(wrong_arity(paren, f.params.len(), args.len()));
        }
        if depth == 0 {
            return Err(LoxError::at_token(paren, "Stack overflow"));
        }
        if f.closure >= self.env.frames() {
            return Err(LoxError::at_token(paren, "Function outlived its scope"));
        }
        let saved = self.env.current();
        self.env.enter(f.closure);
        let ghost params = views(f.params@);
        let ghost values = views(args@);
        let ghost entered = self.env@;
        let mut i: usize = 0;
        while i < f.params.len()
            invariant
                i <= f.params.len(),
                args.len() == f.params.len(),
                params == views(f.params@),
                values == views(args@),
                self.env.wf(),
                self.ast == old(self).ast,
                self.max_depth == old(self).max_depth,
                self.max_rounds == old(self).max_rounds,
                self.now == old(self).now,
                self.output == old(self).output,
                self.env@.current == entered.current,
                self.env@.frames.len() == entered.frames.len(),
                forall|k: int|
                    0 <= k < entered.frames.len() ==> #[trigger] self.env@.frames[k].parent
                        == entered.frames[k].parent,
                bind_params(entered, params, values, 0) == bind_params(
                    self.env@,
                    params,
                    values,
                    i as nat,
                ),
            decreases f.params.len() - i,
        {
            proof {
                self.env.lemma_wf();
            }
            self.env.define(f.params[i].lexeme.clone(), args[i].clone());
            i += 1;
        }
        let body = self.exec_block(&f.body, depth - 1);
        proof {
            self.env.lemma_wf();
        }
        self.env.restore(saved);
        proof {
            self.env.lemma_wf();
        }
        match body {
            Err(e) => Err(e),
            Ok(ControlFlow::Return(v)) => Ok(v),
            Ok(_) => Ok(Value::Nil),
        }
    }

    /// Runs the statements one after the other, up to the first that
    /// does not end normally.
    fn exec_block(&mut self, stmts: &Vec<Stmt>, depth: usize) -> (r: Result<ControlFlow, LoxError>)
        requires
            old(self).wf(),
        ensures
            final(self).ran(*old(self)),
            (Executed { result: result_view(r), state: final(self)@ }) == exec_all(
                views(stmts@),
                0,
                old(self)@,
                depth as nat,
            ),
        decreases depth, 3nat, stmts, 0nat,
    {
        proof {
            old(self).env.lemma_wf();
        }
        let ghost goal = exec_all(views(stmts@), 0, self@, depth as nat);
        let mut i: usize = 0;
        while i < stmts.len()
            invariant
                i <= stmts.len(),
                self.ran(*old(self)),
                self.wf(),
                old(self).wf(),
                goal == exec_all(views(stmts@), 0, old(self)@, depth as nat),
                goal == exec_all(views(stmts@), i as nat, self@, depth as nat),
            decreases stmts.len() - i,
        {
            proof {
                vstd::std_specs::vec::axiom_vec_index_decreases(*stmts, i as int);
            }
            let out = self.exec_at(&stmts[i], depth);
            match out {
                Ok(ControlFlow::Normal) => {},
                other => {
                    return other;
                },
            }
            i += 1;
        }
        Ok(ControlFlow::Normal)
    }

    fn exec_at(&mut self, statement: &Stmt, depth: usize) -> (r: Result<ControlFlow, LoxError>)
        requires
            old(self).wf(),
        ensures
            final(self).ran(*old(self)),
            (Executed { result: result_view(r), state: final(self)@ }) == exec(
                statement@,
                old(self)@,
                depth as nat,
            ),
        decreases depth, 3nat, statement, 1nat,
    {
        proof {
            old(self).env.lemma_wf();
        }
        match statement {
            Stmt::Break(e) => {
                match e {
                    Some(expr) => {
                        let v = self.eval_at(expr, depth)?;
                        level_of(&v)
                    },
                    None => Ok(ControlFlow::Break(1)),
                }
            },
            Stmt::Return { keyword, value } => {
                match value {
                    Some(expr) => {
                        let v = self.eval_at(expr, depth)?;
                        Ok(ControlFlow::Return(v))
                    },
                    None => Ok(ControlFlow::Return(Value::Nil)),
                }
            },
            Stmt::Var { name, init } => {
                let value = match init {
                    Some(expr) => self.eval_at(expr, depth)?,
                    None => Value::Nil,
                };
                self.env.define(name.lexeme.clone(), value);
                proof {
                    self.env.lemma_wf();
                }
                Ok(ControlFlow::Normal)
            },
            Stmt::Block { stmts } => {
                proof {
                    crate::ast::lemma_block_view(*stmts);
                    assert(decreases_to!(*statement => statement->Block_stmts));
                }
                self.env.push_scope();
                proof {
                    self.env.lemma_wf();
                }
                let out = self.exec_block(stmts, depth);
                proof {
                    self.env.lemma_wf();
                }
                self.env.pop_scope();
                proof {
                    self.env.lemma_wf();
                }
                out
            },
            Stmt::Print(expr) => {
                let value = self.eval_at(expr, depth)?;
                let line = value.to_string();
                proof {
                    assert(views(self.output@.push(line)) =~= views(self.output@).push(line@));
                }
                self.output.push(line);
                Ok(ControlFlow::Normal)
            },
            Stmt::Expression(expr) => {
                let _ = self.eval_at(expr, depth)?;
                Ok(ControlFlow::Normal)
            },
            Stmt::If { cond, then_br, else_br } => {
                if self.eval_at(cond, depth)?.is_truthy() {
                    self.exec_at(then_br, depth)
                } else {
                    match else_br {
                        Some(el) => self.exec_at(el, depth),
                        None => Ok(ControlFlow::Normal),
                    }
                }
            },
            Stmt::While { cond, body } => self.exec_while(statement, depth),
            Stmt::Func { name, params, body } => {
                proof {
                    crate::ast::lemma_func_view(*name, *params, *body);
                }
                let function = LoxFunction {
                    name: name.clone(),
                    params: clone_tokens(params),
                    body: clone_stmts(body),
                    closure: self.env.current(),
                };
                self.env.define(name.lexeme.clone(), Value::Function(Rc::new(function)));
                proof {
                    self.env.lemma_wf();
                }
                Ok(ControlFlow::Normal)
            },
        }
    }

    /// Runs a loop: as long as the condition counts as true, the body
    /// runs, unless it ends with a `break` or a `return`.
    fn exec_while(&mut self, statement: &Stmt, depth: usize) -> (r: Result<ControlFlow, LoxError>)
        requires
            old(self).wf(),
            statement is While,
        ensures
            final(self).ran(*old(self)),
            (Executed { result: result_view(r), state: final(self)@ }) == exec(
                statement@,
                old(self)@,
                depth as nat,
            ),
        decreases depth, 3nat, statement, 0nat,
    {
        proof {
            old(self).env.lemma_wf();
        }
        match statement {
            Stmt::While { cond, body } => {
                let mut rounds: u64 = self.max_rounds;
                let ghost goal = exec(statement@, self@, depth as nat);
                loop
                    invariant
                        statement is While,
                        statement->While_cond == *cond,
                        statement->While_body == *body,
                        self.ran(*old(self)),
                        self.wf(),
                        old(self).wf(),
                        goal == exec(statement@, old(self)@, depth as nat),
                        goal == exec_while(statement@, self@, depth as nat, rounds as nat),
                    decreases rounds,
                {
                    let c = match self.eval_at(cond, depth) {
                        Ok(v) => v,
                        Err(e) => {
                            return Err(e);
                        },
                    };
                    if !c.is_truthy() {
                        return Ok(ControlFlow::Normal);
                    }
                    if rounds == 0 {
                        return Err(LoxError::new(0, "while".to_string(), "Loop ran too long"));
                    }
                    match self.exec_at(body, depth) {
                        Err(e) => {
                            return Err(e);
                        },
                        Ok(ControlFlow::Normal) => {},
                        Ok(ControlFlow::Break(n)) => {
                            if n <= 1 {
                                return Ok(ControlFlow::Normal);
                            }
                            return Ok(ControlFlow::Break(n - 1));
                        },
                        Ok(ControlFlow::Return(v)) => {
                            return Ok(ControlFlow::Return(v));
                        },
                    }
                    rounds = rounds - 1;
                }
            },
            _ => vstd::pervasive::unreached(),
        }
    }
}

/// The effect of the statements of a program from `i` on: each runs in
/// turn, whatever way the one before ended, up to the first runtime
/// error.
pub open spec fn run(stmts: Seq<crate::ast::StmtView>, i: nat, s: State, depth: nat) -> (Result<
    (),
    ErrorView,
>, State)
    decreases stmts.len() - i,
{
    if i >= stmts.len() {
        (Ok(()), s)
    } else {
        let first = exec(stmts[i as int], s, depth);
        match first.result {
            Err(e) => (Err(e), first.state),
            Ok(_) => run(stmts, i + 1, first.state, depth),
        }
    }
}

/// The state of a fresh interpreter: the global scope holds `clock`, no
/// line is printed, the clock stands at zero, and a loop may run as
/// often as a `u64` counts.
pub open spec fn fresh() -> State {
    State {
        env: crate::env::defined(crate::env::initial(), "clock"@, ValueView::Native),
        output: Seq::empty(),
        now: 0,
        rounds: u64::MAX as nat,
    }
}

impl Interpreter {
    /// An interpreter for the program `ast`.
    pub fn new(ast: Vec<Stmt>) -> (r: Self)
        ensures
            r.wf(),
            r.program() == ast,
            r.depth() == DEFAULT_DEPTH,
            r@ == fresh(),
    {
        let mut env = Env::new();
        env.define("clock".to_string(), Value::Native(Clock));
        let r = Interpreter {
            ast,
            env,
            output: Vec::new(),
            now: Number::zero(),
            max_depth: DEFAULT_DEPTH,
            max_rounds: u64::MAX,
        };
        proof {
            assert(views(r.output@) =~= Seq::<Seq<char>>::empty());
        }
        r
    }

    /// What `clock` returns.
    pub fn time(&self) -> (now: Number)
        ensures
            now@ == self@.now,
    {
        self.now
    }

    /// Calls `f` with `args` in the current state. Errors of the call
    /// itself are located at the function's name.
    pub fn call(&mut self, f: &LoxFunction, args: Vec<Value>) -> (r: Result<Value, LoxError>)
        requires
            old(self).wf(),
        ensures
            final(self).wf(),
            final(self).program() == old(self).program(),
            final(self).depth() == old(self).depth(),
            (Evaluated { result: result_view(r), state: final(self)@ }) == crate::semantics::call(
                f@,
                f@.name,
                views(args@),
                old(self)@,
                old(self).depth(),
            ),
            settled(old(self)@, final(self)@),
    {
        let depth = self.max_depth;
        let r = self.call_function(f, &f.name, args, depth);
        proof {
            self.lemma_ran(*old(self));
        }
        r
    }

    /// Sets the bounds: how many nested calls may be entered, and how
    /// many times a loop may run.
    pub fn set_limits(&mut self, depth: usize, rounds: u64)
        requires
            old(self).wf(),
        ensures
            final(self).wf(),
            final(self).program() == old(self).program(),
            final(self).depth() == depth,
            final(self)@ == (State { rounds: rounds as nat, ..old(self)@ }),
    {
        self.max_depth = depth;
        self.max_rounds = rounds;
    }

    /// Sets what `clock` returns.
    pub fn set_time(&mut self, now: Number)
        requires
            old(self).wf(),
        ensures
            final(self).wf(),
            final(self).program() == old(self).program(),
            final(self).depth() == old(self).depth(),
            final(self)@ == (State { now: now@, ..old(self)@ }),
    {
        self.now = now;
    }

    /// Hands out the lines printed so far, and forgets them.
    pub fn take_output(&mut self) -> (lines: Vec<String>)
        requires
            old(self).wf(),
        ensures
            final(self).wf(),
            final(self).program() == old(self).program(),
            final(self).depth() == old(self).depth(),
            views(lines@) == old(self)@.output,
            final(self)@ == (State { output: Seq::empty(), ..old(self)@ }),
    {
        let mut lines: Vec<String> = Vec::new();
        std::mem::swap(&mut lines, &mut self.output);
        proof {
            assert(views(self.output@) =~= Seq::<Seq<char>>::empty());
        }
        lines
    }

    /// Runs the program: each statement in turn, up to the first runtime
    /// error. Returns the lines printed and how the run ended.
    pub fn interpret(self) -> (r: (Vec<String>, Result<(), LoxError>))
        requires
            self.wf(),
        ensures
            ({
                let spec = run(views(self.program()@), 0, self@, self.depth());
                &&& result_view_unit(r.1) == spec.0
                &&& views(r.0@) == spec.1.output
            }),
    {
        let ghost goal = run(views(self.ast@), 0, self@, self.depth());
        let mut me = self;
        let mut ast: Vec<Stmt> = Vec::new();
        std::mem::swap(&mut ast, &mut me.ast);
        let depth = me.max_depth;
        let mut i: usize = 0;
        while i < ast.len()
            invariant
                i <= ast.len(),
                me.wf(),
                depth == me.max_depth,
                goal == run(views(self.ast@), 0, self@, self.max_depth as nat),
                goal == run(views(ast@), i as nat, me@, depth as nat),
            decreases ast.len() - i,
        {
            match me.exec_at(&ast[i], depth) {
                Ok(_) => {},
                Err(e) => {
                    return (me.output, Err(e));
                },
            }
            i += 1;
        }
        (me.output, Ok(()))
    }

    /// Executes one statement in the current state. The current scope
    /// and the number of scopes in effect are the same afterwards,
    /// however the statement ends.
    pub fn execute(&mut self, statement: &Stmt) -> (r: Result<ControlFlow, LoxError>)
        requires
            old(self).wf(),
        ensures
            final(self).wf(),
            final(self).program() == old(self).program(),
            final(self).depth() == old(self).depth(),
            (Executed { result: result_view(r), state: final(self)@ }) == exec(
                statement@,
                old(self)@,
                old(self).depth(),
            ),
            settled(old(self)@, final(self)@),
            scopes(final(self)@.env, final(self)@.env.current) == scopes(
                old(self)@.env,
                old(self)@.env.current,
            ),
    {
        let depth = self.max_depth;
        let r = self.exec_at(statement, depth);
        proof {
            self.lemma_ran(*old(self));
        }
        r
    }

    /// The program.
    pub fn ast(&self) -> (r: &[Stmt])
        ensures
            r@ == self.program()@,
    {
        self.ast.as_slice()
    }

    /// Evaluates one expression in the current state. The current scope
    /// and the number of scopes in effect are the same afterwards,
    /// whether the expression has a value or fails.
    pub fn evaluate(&mut self, expr: &Expr) -> (r: Result<Value, LoxError>)
        requires
            old(self).wf(),
        ensures
            final(self).wf(),
            final(self).program() == old(self).program(),
            final(self).depth() == old(self).depth(),
            (Evaluated { result: result_view(r), state: final(self)@ }) == eval(
                expr@,
                old(self)@,
                old(self).depth(),
            ),
            settled(old(self)@, final(self)@),
            scopes(final(self)@.env, final(self)@.env.current) == scopes(
                old(self)@.env,
                old(self)@.env.current,
            ),
    {
        let depth = self.max_depth;
        let r = self.eval_at(expr, depth);
        proof {
            self.lemma_ran(*old(self));
        }
        r
    }
}

/// The view of a result without a value.
pub open spec fn result_view_unit(r: Result<(), LoxError>) -> Result<(), ErrorView> {
    match r {
        Ok(_) => Ok(()),
        Err(e) => Err(e@),
    }
}

} // verus!
