//! The values that a program computes with.

use vstd::prelude::*;
use std::rc::Rc;
use crate::callable::{Clock, FunctionView, LoxClass, LoxFunction};
use crate::number::{number_text, Number};

verus! {

/// A runtime value.
#[derive(Debug)]
pub enum Value {
    Nil,
    Number(Number),
    Bool(bool),
    Str(String),
    Function(Rc<LoxFunction>),
    Class(Rc<LoxClass>),
    Native(Clock),
}

/// A value with its text as a character sequence and its number in
/// units.
pub enum ValueView {
    Nil,
    Number(int),
    Bool(bool),
    Str(Seq<char>),
    Function(FunctionView),
    Class,
    Native,
}

impl View for Value {
    type V = ValueView;

    open spec fn view(&self) -> ValueView {
        match self {
            Value::Nil => ValueView::Nil,
            Value::Number(n) => ValueView::Number(n@),
            Value::Bool(b) => ValueView::Bool(*b),
            Value::Str(s) => ValueView::Str(s@),
            Value::Function(f) => ValueView::Function(f@),
            Value::Class(_) => ValueView::Class,
            Value::Native(_) => ValueView::Native,
        }
    }
}

impl Clone for Value {
    fn clone(&self) -> (r: Self)
        ensures
            r == *self,
    {
        match self {
            Value::Nil => Value::Nil,
            Value::Number(n) => Value::Number(*n),
            Value::Bool(b) => Value::Bool(*b),
            Value::Str(s) => Value::Str(s.clone()),
            Value::Function(f) => Value::Function(f.clone()),
            Value::Class(c) => Value::Class(c.clone()),
            Value::Native(n) => Value::Native(*n),
        }
    }
}

impl Default for Value {
    fn default() -> (r: Self)
        ensures
            r == Value::Nil,
    {
        Value::Nil
    }
}

/// Whether a value counts as true: everything but `nil` and `false`.
pub open spec fn truthy(v: ValueView) -> bool {
    match v {
        ValueView::Nil => false,
        ValueView::Bool(b) => b,
        _ => true,
    }
}

/// Whether two values are equal: two numbers, two booleans or two
/// strings that are the same, or `nil` twice. Nothing is converted.
pub open spec fn equal(a: ValueView, b: ValueView) -> bool {
    match (a, b) {
        (ValueView::Number(l), ValueView::Number(r)) => l == r,
        (ValueView::Bool(l), ValueView::Bool(r)) => l == r,
        (ValueView::Str(l), ValueView::Str(r)) => l == r,
        (ValueView::Nil, ValueView::Nil) => true,
        _ => false,
    }
}

/// How a value is printed.
pub open spec fn value_text(v: ValueView) -> Seq<char> {
    match v {
        ValueView::Nil => "<NIL>"@,
        ValueView::Number(n) => number_text(n),
        ValueView::Bool(b) => if b {
            "true"@
        } else {
            "false"@
        },
        ValueView::Str(s) => s,
        ValueView::Function(_) => "Function"@,
        ValueView::Native => "Native function"@,
        ValueView::Class => "Class"@,
    }
}

impl Value {
    pub fn is_truthy(&self) -> (b: bool)
        ensures
            b == truthy(self@),
    {
        match self {
            Value::Nil => false,
            Value::Bool(b) => *b,
            _ => true,
        }
    }

    pub fn is_equal(&self, v: &Value) -> (b: bool)
        ensures
            b == equal(self@, v@),
    {
        match (self, v) {
            (Value::Number(l), Value::Number(r)) => l.same(*r),
            (Value::Bool(l), Value::Bool(r)) => *l == *r,
            (Value::Str(l), Value::Str(r)) => *l == *r,
            (Value::Nil, Value::Nil) => true,
            _ => false,
        }
    }

    pub fn to_string(&self) -> (s: String)
        ensures
            s@ == value_text(self@),
    {
        match self {
            Value::Nil => "<NIL>".to_string(),
            Value::Number(n) => n.to_string(),
            Value::Bool(b) => if *b {
                "true".to_string()
            } else {
                "false".to_string()
            },
            Value::Str(s) => s.clone(),
            Value::Function(_) => "Function".to_string(),
            Value::Native(_) => "Native function".to_string(),
            Value::Class(_) => "Class".to_string(),
        }
    }
}

} // verus!
