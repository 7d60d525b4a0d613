//! The error type that the lexer, the parser and the evaluator share: a
//! source line, the place that failed and a message.

use vstd::prelude::*;
use vstd::string::StringExecFns;
use crate::scanner::Token;
use crate::text::{decimal, push_decimal};

verus! {

/// A lexical, syntax or runtime error.
#[derive(Debug, PartialEq, Eq)]
pub struct LoxError {
    /// The source line, counted from one.
    pub line: usize,
    /// The place that failed, most often the offending lexeme.
    pub where_: String,
    /// What went wrong.
    pub msg: String,
}

/// An error with its texts as character sequences.
pub struct ErrorView {
    pub line: usize,
    pub where_: Seq<char>,
    pub msg: Seq<char>,
}

impl View for LoxError {
    type V = ErrorView;

    open spec fn view(&self) -> ErrorView {
        ErrorView { line: self.line, where_: self.where_@, msg: self.msg@ }
    }
}

impl Clone for LoxError {
    fn clone(&self) -> (r: Self)
        ensures
            r == *self,
    {
        LoxError { line: self.line, where_: self.where_.clone(), msg: self.msg.clone() }
    }
}

/// The views of the items of a sequence, in order.
pub open spec fn views<T: View>(items: Seq<T>) -> Seq<T::V> {
    items.map_values(|item: T| item@)
}

/// The view of a result.
pub open spec fn result_view<T: View>(r: Result<T, LoxError>) -> Result<T::V, ErrorView> {
    match r {
        Ok(t) => Ok(t@),
        Err(e) => Err(e@),
    }
}

/// The error raised at a token: it carries the token's line and lexeme.
pub open spec fn error_at(line: usize, lexeme: Seq<char>, msg: Seq<char>) -> ErrorView {
    ErrorView { line, where_: lexeme, msg }
}

/// How an error is reported: `[line N] Error W: M`.
pub open spec fn report_text(e: ErrorView) -> Seq<char> {
    "[line "@ + decimal(e.line as nat) + "] Error "@ + e.where_ + ": "@ + e.msg
}

impl LoxError {
    /// The error with the given line, place and message.
    pub fn new(line: usize, where_: String, msg: &str) -> (e: Self)
        ensures
            e@ == (ErrorView { line, where_: where_@, msg: msg@ }),
            e.where_ == where_,
    {
        LoxError { line, where_, msg: msg.to_string() }
    }

    /// The error raised while evaluating at `token`.
    pub fn runtime_error(token: &Token, msg: &str) -> (e: Self)
        ensures
            e@ == error_at(token.line, token.lexeme@, msg@),
    {
        LoxError::new(token.line, token.lexeme.clone(), msg)
    }

    /// The error located at `token`.
    pub fn at_token(token: &Token, msg: &str) -> (e: Self)
        ensures
            e@ == error_at(token.line, token.lexeme@, msg@),
    {
        LoxError::new(token.line, token.lexeme.clone(), msg)
    }

    /// The line that reports this error.
    pub fn to_string(&self) -> (s: String)
        ensures
            s@ == report_text(self@),
    {
        let mut s = "[line ".to_string();
        push_decimal(&mut s, self.line as u128);
        s.append("] Error ");
        s.append(self.where_.as_str());
        s.append(": ");
        s.append(self.msg.as_str());
        s
    }
}

} // verus!
