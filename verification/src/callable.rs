//! What can be called: functions of the language and native functions.

use vstd::prelude::*;
use std::time::{Duration, SystemTime, UNIX_EPOCH};
use crate::ast::{Stmt, StmtView};
use crate::err::{result_view, views, LoxError};
use crate::interpreter::Interpreter;
use crate::number::Number;
use crate::scanner::{Token, TokenView};
use crate::semantics::{Evaluated};
use crate::value::{Value, ValueView};

verus! {

/// A function of the language: its declaration and the scope in which it
/// was declared.
#[derive(Debug)]
pub struct LoxFunction {
    /// The name it was declared under.
    pub name: Token,
    /// The parameters, in order.
    pub params: Vec<Token>,
    /// The statements of the body.
    pub body: Vec<Stmt>,
    /// The scope frame that was current where the function was declared.
    pub closure: usize,
}

/// A function with its declaration as a view.
pub struct FunctionView {
    pub name: TokenView,
    pub params: Seq<TokenView>,
    pub body: Seq<StmtView>,
    pub closure: int,
}

impl View for LoxFunction {
    type V = FunctionView;

    open spec fn view(&self) -> FunctionView {
        FunctionView {
            name: self.name@,
            params: views(self.params@),
            body: views(self.body@),
            closure: self.closure as int,
        }
    }
}

/// A class. It has neither fields nor methods.
#[derive(Debug)]
pub struct LoxClass {}

/// The native function `clock`: it takes no arguments and returns the
/// time in seconds.
#[derive(Clone, Copy, Debug)]
pub struct Clock;

/// A point in time as the system clock gives it. Nothing is known of
/// what it holds.
#[verifier::external_type_specification]
#[verifier::external_body]
pub struct ExSystemTime(std::time::SystemTime);

/// `SystemTime::now` reads the system clock. Nothing is claimed of the
/// time it returns.
#[verifier::external_body]
fn system_now() -> SystemTime {
    SystemTime::now()
}

/// `SystemTime::duration_since` gives the time that passed between the
/// start of 1970 and `t`, and fails where `t` is earlier than that.
/// Nothing is claimed of the duration.
#[verifier::external_body]
fn since_epoch(t: &SystemTime) -> Option<Duration> {
    t.duration_since(UNIX_EPOCH).ok()
}

/// `Duration::as_secs` gives the whole seconds of a duration. Nothing is
/// claimed of their number.
pub assume_specification[ std::time::Duration::as_secs ](d: &std::time::Duration) -> (secs: u64)
;

/// `Duration::subsec_nanos` gives the part of a duration below one
/// second, in nanoseconds: it is less than a thousand million.
pub assume_specification[ std::time::Duration::subsec_nanos ](d: &std::time::Duration) -> (nanos:
    u32)
    ensures
        nanos < 1_000_000_000,
;

impl Clock {
    /// The time since the start of 1970 in seconds, as the system clock
    /// gives it now. Nothing where the clock stands before 1970 or
    /// beyond the range of a number.
    pub fn now() -> (r: Option<Number>)
        ensures
            r matches Some(n) ==> n@ >= 0,
    {
        let t = system_now();
        match since_epoch(&t) {
            Some(d) => Number::from_parts(false, d.as_secs(), d.subsec_nanos()),
            None => None,
        }
    }
}

/// What can be called with arguments.
pub trait Callable {
    /// How many arguments a call takes.
    spec fn parameters(&self) -> nat;

    /// How many arguments a call takes.
    fn arity(&self) -> (n: usize)
        ensures
            n == self.parameters(),
    ;

    /// Calls `self` with as many arguments as its arity.
    fn call(&self, interpreter: &mut Interpreter, args: Vec<Value>) -> (r: Result<Value, LoxError>)
        requires
            old(interpreter).wf(),
            args.len() == self.parameters(),
        ensures
            final(interpreter).wf(),
    ;
}

impl Callable for Clock {
    open spec fn parameters(&self) -> nat {
        0
    }

    fn arity(&self) -> (n: usize) {
        0
    }

    /// Returns the interpreter's time and leaves its state as it was.
    fn call(&self, interpreter: &mut Interpreter, args: Vec<Value>) -> (r: Result<Value, LoxError>)
        ensures
            final(interpreter)@ == old(interpreter)@,
            result_view(r) == Ok::<ValueView, crate::err::ErrorView>(
                ValueView::Number(old(interpreter)@.now),
            ),
    {
        Ok(Value::Number(interpreter.time()))
    }
}

impl Callable for LoxFunction {
    open spec fn parameters(&self) -> nat {
        self@.params.len()
    }

    fn arity(&self) -> (n: usize) {
        self.params.len()
    }

    /// Runs the body in a new scope inside the scope that the function
    /// was declared in, with the parameters bound to `args`, and returns
    /// what the body returns, or `nil`. Errors raised by the call itself
    /// are located at the function's name.
    fn call(&self, interpreter: &mut Interpreter, args: Vec<Value>) -> (r: Result<Value, LoxError>)
        ensures
            (Evaluated { result: result_view(r), state: final(interpreter)@ })
                == crate::semantics::call(
                self@,
                self@.name,
                views(args@),
                old(interpreter)@,
                old(interpreter).depth(),
            ),
    {
        interpreter.call(self, args)
    }
}

} // verus!
