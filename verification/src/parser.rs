//! The recursive-descent parser: from tokens to statements.
//!
//! Each method reads the construct that the function of the same name in
//! [`crate::grammar`] describes, and is proved to yield that function's
//! tree, error and position.

use vstd::prelude::*;
pub use crate::ast::{Expr, ExprView, Stmt, StmtView};
use crate::err::{result_view, views, ErrorView, LoxError};
use crate::grammar::{
    advance, arguments, assignment, at_end, binary, binary_rest, block, break_statement, call,
    call_rest, check, condition, consume, declaration, desugar_for, expression,
    expression_statement, finish_call, for_statement, fun_declaration, if_statement,
    optional_terminated, parameters, primary, print_statement, program_from, return_statement,
    skip_to_boundary, starts_statement, statement, synchronize, terminated, tier_has, unary,
    var_declaration, while_statement, Noted, Parsed, Program, MAX_ARGS,
};
use crate::scanner::{Literal, Token, TokenType, TokenView};

verus! {

/// A placeholder for a whole program's tree.
#[derive(Debug)]
pub struct Ast {}

/// The parser's state: the tokens, the cursor, and the errors of the
/// declarations that were given up.
pub struct Parser {
    tokens: Vec<Token>,
    current: usize,
    errors: Vec<LoxError>,
}

/// The view of a result that holds an optional expression.
pub open spec fn option_result_view(r: Result<Option<Expr>, LoxError>) -> Result<
    Option<ExprView>,
    ErrorView,
> {
    match r {
        Ok(Some(e)) => Ok(Some(e@)),
        Ok(None) => Ok(None),
        Err(e) => Err(e@),
    }
}

/// The view of a result that holds a sequence.
pub open spec fn list_result_view<T: View>(r: Result<Vec<T>, LoxError>) -> Result<
    Seq<T::V>,
    ErrorView,
> {
    match r {
        Ok(v) => Ok(views(v@)),
        Err(e) => Err(e@),
    }
}

/// The tokens `tokens`, with an end-of-input token behind them unless
/// they end with one.
pub open spec fn terminated_tokens(tokens: Seq<TokenView>) -> Seq<TokenView> {
    if tokens.len() > 0 && tokens.last().type_ == TokenType::Eof {
        tokens
    } else {
        tokens.push(
            TokenView {
                type_: TokenType::Eof,
                lexeme: Seq::empty(),
                literal: None,
                line: if tokens.len() > 0 {
                    tokens.last().line
                } else {
                    1
                },
            },
        )
    }
}

fn tier_holds(tier: u8, t: TokenType) -> (b: bool)
    ensures
        b == tier_has(tier as nat, t),
{
    match tier {
        1 => t == TokenType::Slash || t == TokenType::Star,
        2 => t == TokenType::Minus || t == TokenType::Plus,
        3 => t == TokenType::Greater || t == TokenType::GreaterEqual || t == TokenType::Less || t
            == TokenType::LessEqual,
        4 => t == TokenType::BangEqual || t == TokenType::EqualEqual,
        5 => t == TokenType::And,
        6 => t == TokenType::Or,
        _ => false,
    }
}

impl Parser {
    /// The tokens that the parser reads.
    pub closed spec fn tokens(&self) -> Seq<TokenView> {
        views(self.tokens@)
    }

    /// Where the cursor stands.
    pub closed spec fn position(&self) -> int {
        self.current as int
    }

    /// The errors noted so far.
    pub closed spec fn errors(&self) -> Seq<ErrorView> {
        views(self.errors@)
    }

    /// The tokens end with the end-of-input token, and the cursor stands
    /// on a token.
    pub closed spec fn wf(&self) -> bool {
        &&& self.tokens.len() > 0
        &&& self.tokens@.last().type_ == TokenType::Eof
        &&& self.current < self.tokens.len()
    }

    /// Whether `self` is `before` after a construct was read that yields
    /// `out`, the method having returned `r`.
    pub closed spec fn read<V>(&self, before: Parser, r: Result<V, ErrorView>, out: Parsed<V>) -> bool {
        &&& self.wf()
        &&& self.tokens == before.tokens
        &&& self.errors == before.errors
        &&& self.current == out.pos
        &&& self.current >= before.current
        &&& r == out.result
    }

    /// The same for a construct that may hold declarations.
    pub closed spec fn noted<V>(&self, before: Parser, r: Result<V, ErrorView>, out: Noted<V>) -> bool {
        &&& self.wf()
        &&& self.tokens == before.tokens
        &&& views(self.errors@) =~= views(before.errors@) + out.errors
        &&& self.current == out.pos
        &&& self.current >= before.current
        &&& r == out.result
    }

    /// A parser at the start of `tokens`. Where they do not end with an
    /// end-of-input token, one is put behind them.
    pub fn new(tokens: Vec<Token>) -> (p: Self)
        ensures
            p.wf(),
            p.tokens() == terminated_tokens(views(tokens@)),
            p.position() == 0,
            p.errors() == Seq::<ErrorView>::empty(),
    {
        let mut tokens = tokens;
        let ghost given = tokens@;
        let n = tokens.len();
        if n == 0 || tokens[n - 1].type_ != TokenType::Eof {
            let line = if n == 0 {
                1
            } else {
                tokens[n - 1].line
            };
            tokens.push(Token::new(TokenType::Eof, String::new(), None, line));
            proof {
                assert(views(tokens@) =~= terminated_tokens(views(given)));
            }
        }
        let p = Parser { tokens, current: 0, errors: Vec::new() };
        proof {
            assert(views(p.errors@) =~= Seq::<ErrorView>::empty());
        }
        p
    }

    fn peek(&self) -> (t: &Token)
        requires
            self.wf(),
        ensures
            *t == self.tokens@[self.current as int],
            t@ == self.tokens()[self.position()],
    {
        &self.tokens[self.current]
    }

    fn is_eof(&self) -> (b: bool)
        requires
            self.wf(),
        ensures
            b == at_end(self.tokens(), self.position()),
            !b ==> self.current + 1 < self.tokens.len(),
    {
        self.tokens[self.current].type_ == TokenType::Eof
    }

    fn advance(&mut self)
        requires
            old(self).wf(),
        ensures
            final(self).wf(),
            final(self).tokens == old(self).tokens,
            final(self).errors == old(self).errors,
            final(self).current == advance(old(self).tokens(), old(self).position()),
    {
        if !self.is_eof() {
            self.current += 1;
        }
    }

    fn check(&self, t: TokenType) -> (b: bool)
        requires
            self.wf(),
        ensures
            b == check(self.tokens(), self.position(), t),
            b ==> self.current + 1 < self.tokens.len(),
    {
        !self.is_eof() && self.tokens[self.current].type_ == t
    }

    /// Reads the next token if it is of category `t`.
    fn matches(&mut self, t: TokenType) -> (b: bool)
        requires
            old(self).wf(),
        ensures
            final(self).wf(),
            final(self).tokens == old(self).tokens,
            final(self).errors == old(self).errors,
            b == check(old(self).tokens(), old(self).position(), t),
            final(self).current == if b {
                old(self).current + 1
            } else {
                old(self).current as int
            },
    {
        if self.check(t) {
            self.current += 1;
            true
        } else {
            false
        }
    }

    fn consume(&mut self, t: TokenType, msg: &str) -> (r: Result<Token, LoxError>)
        requires
            old(self).wf(),
        ensures
            final(self).read(
                *old(self),
                result_view(r),
                consume(old(self).tokens(), old(self).position(), t, msg@),
            ),
    {
        if self.check(t) {
            let token = self.peek().clone();
            self.current += 1;
            Ok(token)
        } else {
            Err(LoxError::at_token(self.peek(), msg))
        }
    }
}

// Expressions
impl Parser {
    fn expression(&mut self) -> (r: Result<Expr, LoxError>)
        requires
            old(self).wf(),
        ensures
            final(self).read(
                *old(self),
                result_view(r),
                expression(old(self).tokens(), old(self).position()),
            ),
            r is Ok ==> final(self).current > old(self).current,
        decreases old(self).tokens.len() - old(self).current, 11nat,
    {
        self.assignment()
    }

    fn assignment(&mut self) -> (r: Result<Expr, LoxError>)
        requires
            old(self).wf(),
        ensures
            final(self).read(
                *old(self),
                result_view(r),
                assignment(old(self).tokens(), old(self).position()),
            ),
            r is Ok ==> final(self).current > old(self).current,
        decreases old(self).tokens.len() - old(self).current, 10nat,
    {
        let expr = self.binary(6)?;
        if self.check(TokenType::Equal) {
            let eq = self.peek().clone();
            self.advance();
            let value = self.assignment()?;
            match expr {
                Expr::Variable(name) => {
                    return Ok(Expr::Assign { name, value: Box::new(value) });
                },
                _ => {
                    return Err(LoxError::new(eq.line, eq.lexeme, "Invalid assignment target."));
                },
            }
        }
        Ok(expr)
    }

    /// Reads one binary tier: 6 is `or`, 5 `and`, 4 equality, 3
    /// comparison, 2 additive, 1 multiplicative, 0 unary.
    fn binary(&mut self, tier: u8) -> (r: Result<Expr, LoxError>)
        requires
            old(self).wf(),
        ensures
            final(self).read(
                *old(self),
                result_view(r),
                binary(old(self).tokens(), old(self).position(), tier as nat),
            ),
            r is Ok ==> final(self).current > old(self).current,
        decreases old(self).tokens.len() - old(self).current, tier + 3,
    {
        if tier == 0 {
            return self.unary();
        }
        let ghost ts = self.tokens();
        let ghost goal = binary(ts, self.position(), tier as nat);
        let mut expr = self.binary(tier - 1)?;
        while !self.is_eof() && tier_holds(tier, self.peek().type_)
            invariant
                self.wf(),
                tier >= 1,
                self.tokens == old(self).tokens,
                self.errors == old(self).errors,
                ts == self.tokens(),
                self.current > old(self).current,
                goal == binary(old(self).tokens(), old(self).position(), tier as nat),
                goal == binary_rest(ts, self.position(), tier as nat, expr@),
            decreases self.tokens.len() - self.current,
        {
            let operator: Token = self.peek().clone();
            self.advance();
            let operand = self.binary(tier - 1);
            let right = match operand {
                Ok(e) => e,
                Err(e) => {
                    return Err(e);
                },
            };
            expr = if tier >= 5 {
                Expr::Logical { left: Box::new(expr), operator, right: Box::new(right) }
            } else {
                Expr::Binary { left: Box::new(expr), operator, right: Box::new(right) }
            };
        }
        Ok(expr)
    }

    fn unary(&mut self) -> (r: Result<Expr, LoxError>)
        requires
            old(self).wf(),
        ensures
            final(self).read(
                *old(self),
                result_view(r),
                unary(old(self).tokens(), old(self).position()),
            ),
            r is Ok ==> final(self).current > old(self).current,
        decreases old(self).tokens.len() - old(self).current, 2nat,
    {
        if self.check(TokenType::Bang) || self.check(TokenType::Minus) {
            let operator = self.peek().clone();
            self.advance();
            let right = self.unary()?;
            let expr = Expr::Unary { operator, right: Box::new(right) };
            return Ok(expr);
        }
        self.call()
    }

    fn call(&mut self) -> (r: Result<Expr, LoxError>)
        requires
            old(self).wf(),
        ensures
            final(self).read(
                *old(self),
                result_view(r),
                call(old(self).tokens(), old(self).position()),
            ),
            r is Ok ==> final(self).current > old(self).current,
        decreases old(self).tokens.len() - old(self).current, 1nat,
    {
        let ghost ts = self.tokens();
        let ghost goal = call(ts, self.position());
        let mut expr = self.primary()?;
        loop
            invariant_except_break
                goal == call_rest(ts, self.position(), expr@),
            invariant
                self.wf(),
                self.tokens == old(self).tokens,
                self.errors == old(self).errors,
                ts == self.tokens(),
                self.current > old(self).current,
                goal == call(old(self).tokens(), old(self).position()),
            ensures
                goal == crate::grammar::ok(expr@, self.position()),
            decreases self.tokens.len() - self.current,
        {
            if self.matches(TokenType::LeftParen) {
                let applied = self.finish_call(expr);
                match applied {
                    Ok(e) => {
                        expr = e;
                    },
                    Err(e) => {
                        return Err(e);
                    },
                }
            } else {
                break ;
            }
        }
        Ok(expr)
    }

    fn finish_call(&mut self, callee: Expr) -> (r: Result<Expr, LoxError>)
        requires
            old(self).wf(),
        ensures
            final(self).read(
                *old(self),
                result_view(r),
                finish_call(old(self).tokens(), old(self).position(), callee@),
            ),
            r is Ok ==> final(self).current > old(self).current,
        decreases old(self).tokens.len() - old(self).current, 13nat,
    {
        let mut args: Vec<Expr> = Vec::new();
        let ghost ts = self.tokens();
        let ghost goal = arguments(ts, self.position(), Seq::empty());
        proof {
            assert(views(args@) =~= Seq::<ExprView>::empty());
        }
        if !self.check(TokenType::RightParen) {
            loop
                invariant_except_break
                    goal == arguments(ts, self.position(), views(args@)),
                invariant
                    self.wf(),
                    self.tokens == old(self).tokens,
                    self.errors == old(self).errors,
                    ts == self.tokens(),
                    ts == old(self).tokens(),
                    self.current >= old(self).current,
                    goal == arguments(ts, old(self).position(), Seq::empty()),
                    !check(ts, old(self).position(), TokenType::RightParen),
                ensures
                    goal == crate::grammar::ok(views(args@), self.position()),
                decreases self.tokens.len() - self.current,
            {
                if args.len() >= MAX_ARGS {
                    return Err(
                        LoxError::runtime_error(self.peek(), "Can't have more than 255 args."),
                    );
                }
                let arg = self.expression();
                match arg {
                    Ok(e) => {
                        proof {
                            assert(views(args@.push(e)) =~= views(args@).push(e@));
                        }
                        args.push(e);
                    },
                    Err(e) => {
                        return Err(e);
                    },
                }
                if !self.matches(TokenType::Comma) {
                    break ;
                }
            }
        }
        let paren = match self.consume(TokenType::RightParen, "Expect ')' after arguments.") {
            Ok(t) => t,
            Err(e) => {
                return Err(e);
            },
        };
        proof {
            crate::ast::lemma_call_view(Box::new(callee), paren, args);
        }
        Ok(Expr::Call { callee: Box::new(callee), paren, args })
    }

    fn primary(&mut self) -> (r: Result<Expr, LoxError>)
        requires
            old(self).wf(),
        ensures
            final(self).read(
                *old(self),
                result_view(r),
                primary(old(self).tokens(), old(self).position()),
            ),
            r is Ok ==> final(self).current > old(self).current,
        decreases old(self).tokens.len() - old(self).current, 0nat,
    {
        if self.matches(TokenType::False) {
            return Ok(Expr::Literal(Literal::Boolean(false)));
        }
        if self.matches(TokenType::True) {
            return Ok(Expr::Literal(Literal::Boolean(true)));
        }
        if self.matches(TokenType::Nil) {
            return Ok(Expr::Literal(Literal::Nil));
        }
        if self.check(TokenType::Number) || self.check(TokenType::String) {
            let prev: Token = self.peek().clone();
            self.advance();
            return match prev.literal {
                Some(l) => Ok(Expr::Literal(l)),
                None => Err(LoxError::new(prev.line, prev.lexeme, "No literal value")),
            };
        }
        if self.matches(TokenType::LeftParen) {
            let expr = self.expression()?;
            match self.consume(TokenType::RightParen, "Expect ')' after expression.") {
                Ok(_) => {},
                Err(e) => {
                    return Err(e);
                },
            }
            let grp = Expr::Grouping(Box::new(expr));
            return Ok(grp);
        }
        if self.check(TokenType::Identifier) {
            let name = self.peek().clone();
            self.advance();
            return Ok(Expr::Variable(name));
        }
        Err(LoxError::at_token(self.peek(), "Expected expression"))
    }
}

/// The view of an optional statement.
pub open spec fn stmt_option_view(s: Option<Stmt>) -> Option<StmtView> {
    match s {
        Some(s) => Some(s@),
        None => None,
    }
}

fn is_boundary(t: TokenType) -> (b: bool)
    ensures
        b == starts_statement(t),
{
    t == TokenType::Class || t == TokenType::Fun || t == TokenType::Var || t == TokenType::For
        || t == TokenType::If || t == TokenType::While || t == TokenType::Print || t
        == TokenType::Return
}

// Statements and declarations
impl Parser {
    /// Parses the whole token sequence. Returns the statements if no
    /// declaration had to be given up, and else the first error.
    pub fn parse(self) -> (r: Result<Vec<Stmt>, LoxError>)
        requires
            self.wf(),
        ensures
            ({
                let p = program_from(
                    self.tokens(),
                    self.position(),
                    Program { stmts: Seq::empty(), errors: self.errors() },
                );
                list_result_view(r) == if p.errors.len() == 0 {
                    Ok::<Seq<StmtView>, ErrorView>(p.stmts)
                } else {
                    Err::<Seq<StmtView>, ErrorView>(p.errors[0])
                }
            }),
    {
        let (stmts, errors) = self.parse_all();
        if errors.len() == 0 {
            Ok(stmts)
        } else {
            Err(errors[0].clone())
        }
    }

    /// Parses the whole token sequence. Returns the statements of the
    /// declarations that were parsed, and the errors of those that were
    /// given up, each in source order.
    pub fn parse_all(self) -> (r: (Vec<Stmt>, Vec<LoxError>))
        requires
            self.wf(),
        ensures
            ({
                let p = program_from(
                    self.tokens(),
                    self.position(),
                    Program { stmts: Seq::empty(), errors: self.errors() },
                );
                views(r.0@) == p.stmts && views(r.1@) == p.errors
            }),
    {
        let ghost ts = self.tokens();
        let ghost goal = program_from(
            ts,
            self.position(),
            Program { stmts: Seq::empty(), errors: self.errors() },
        );
        let mut parser = self;
        let mut statements: Vec<Stmt> = Vec::new();
        proof {
            assert(views(statements@) =~= Seq::<StmtView>::empty());
        }
        while !parser.is_eof()
            invariant
                parser.wf(),
                ts == parser.tokens(),
                goal == program_from(
                    ts,
                    parser.position(),
                    Program { stmts: views(statements@), errors: parser.errors() },
                ),
            decreases parser.tokens.len() - parser.current,
        {
            let ghost before = views(statements@);
            let stmt = parser.declaration();
            match stmt {
                Some(s) => {
                    proof {
                        assert(views(statements@.push(s)) =~= before.push(s@));
                    }
                    statements.push(s);
                },
                None => {},
            }
        }
        (statements, parser.errors)
    }

    /// Reads one declaration. Where it fails, notes the error, skips to
    /// the next statement boundary and returns nothing.
    fn declaration(&mut self) -> (r: Option<Stmt>)
        requires
            old(self).wf(),
        ensures
            final(self).wf(),
            final(self).tokens == old(self).tokens,
            ({
                let d = declaration(old(self).tokens(), old(self).position());
                &&& final(self).errors() =~= old(self).errors() + d.errors
                &&& final(self).current == d.pos
                &&& stmt_option_view(r) == d.stmt
            }),
            final(self).current >= old(self).current,
            !at_end(old(self).tokens(), old(self).position()) ==> final(self).current > old(
                self,
            ).current,
        decreases old(self).tokens.len() - old(self).current, 3nat,
    {
        let parsed = if self.matches(TokenType::Fun) {
            self.fun_declaration()
        } else if self.matches(TokenType::Var) {
            self.var_declaration()
        } else {
            self.statement()
        };
        match parsed {
            Ok(stmt) => Some(stmt),
            Err(e) => {
                proof {
                    assert(views(self.errors@.push(e)) =~= views(self.errors@).push(e@));
                }
                self.errors.push(e);
                self.synchronize();
                None
            },
        }
    }

    /// Skips the token at the cursor and what follows it up to the next
    /// statement boundary.
    fn synchronize(&mut self)
        requires
            old(self).wf(),
        ensures
            final(self).wf(),
            final(self).tokens == old(self).tokens,
            final(self).errors == old(self).errors,
            final(self).current == synchronize(old(self).tokens(), old(self).position()),
            final(self).current >= advance(old(self).tokens(), old(self).position()),
    {
        self.advance();
        let ghost ts = self.tokens();
        let ghost from = self.position();
        while !self.is_eof()
            invariant
                self.wf(),
                self.tokens == old(self).tokens,
                self.errors == old(self).errors,
                ts == self.tokens(),
                self.current >= from,
                skip_to_boundary(ts, from) == skip_to_boundary(ts, self.position()),
            ensures
                self.wf(),
                self.tokens == old(self).tokens,
                self.errors == old(self).errors,
                self.current >= from,
                self.current == skip_to_boundary(ts, from),
            decreases self.tokens.len() - self.current,
        {
            if self.current >= 1 && self.tokens[self.current - 1].type_ == TokenType::Semicolon {
                break ;
            }
            if is_boundary(self.peek().type_) {
                break ;
            }
            self.advance();
        }
    }

    fn parameters(&mut self) -> (r: Result<Vec<Token>, LoxError>)
        requires
            old(self).wf(),
        ensures
            final(self).read(
                *old(self),
                list_result_view(r),
                parameters(old(self).tokens(), old(self).position(), Seq::empty()),
            ),
    {
        let mut params: Vec<Token> = Vec::new();
        let ghost ts = self.tokens();
        let ghost goal = parameters(ts, self.position(), Seq::empty());
        proof {
            assert(views(params@) =~= Seq::<TokenView>::empty());
        }
        loop
            invariant_except_break
                goal == parameters(ts, self.position(), views(params@)),
            invariant
                self.wf(),
                self.tokens == old(self).tokens,
                self.errors == old(self).errors,
                ts == self.tokens(),
                self.current >= old(self).current,
                goal == parameters(old(self).tokens(), old(self).position(), Seq::empty()),
            ensures
                goal == crate::grammar::ok(views(params@), self.position()),
            decreases self.tokens.len() - self.current,
        {
            if params.len() >= MAX_ARGS {
                return Err(
                    LoxError::at_token(self.peek(), "Can't have more than 255 parameters."),
                );
            }
            if !self.check(TokenType::Identifier) {
                return Err(LoxError::at_token(self.peek(), "Expect parameter name."));
            }
            let param = self.peek().clone();
            self.advance();
            proof {
                assert(views(params@.push(param)) =~= views(params@).push(param@));
            }
            params.push(param);
            if !self.matches(TokenType::Comma) {
                break ;
            }
        }
        Ok(params)
    }

    fn fun_declaration(&mut self) -> (r: Result<Stmt, LoxError>)
        requires
            old(self).wf(),
        ensures
            final(self).noted(
                *old(self),
                result_view(r),
                fun_declaration(old(self).tokens(), old(self).position()),
            ),
            r is Ok ==> final(self).current > old(self).current,
        decreases old(self).tokens.len() - old(self).current, 1nat,
    {
        let name = self.consume(TokenType::Identifier, "Expect function name.")?;
        let _ = self.consume(TokenType::LeftParen, "Expect '(' after function name.")?;
        let params = if self.check(TokenType::RightParen) {
            let none: Vec<Token> = Vec::new();
            proof {
                assert(views(none@) =~= Seq::<TokenView>::empty());
            }
            none
        } else {
            self.parameters()?
        };
        let _ = self.consume(TokenType::RightParen, "Expect ')' after parameters.")?;
        let _ = self.consume(TokenType::LeftBrace, "Expect '{' before function body.")?;
        let body = self.block()?;
        proof {
            crate::ast::lemma_func_view(name, params, body);
        }
        Ok(Stmt::Func { name, params, body })
    }

    fn var_declaration(&mut self) -> (r: Result<Stmt, LoxError>)
        requires
            old(self).wf(),
        ensures
            final(self).noted(
                *old(self),
                result_view(r),
                crate::grammar::plain(
                    var_declaration(old(self).tokens(), old(self).position()),
                ),
            ),
            r is Ok ==> final(self).current > old(self).current,
    {
        let name = self.consume(TokenType::Identifier, "Expect variable name")?;
        let mut initializer: Option<Expr> = None;
        if self.matches(TokenType::Equal) {
            initializer = Some(self.expression()?);
        }
        let _ = self.consume(TokenType::Semicolon, "Expect ';' after expression.")?;
        Ok(Stmt::Var { name, init: initializer })
    }

    /// Reads an expression and the semicolon behind it.
    fn terminated(&mut self, msg: &str) -> (r: Result<Expr, LoxError>)
        requires
            old(self).wf(),
        ensures
            final(self).read(
                *old(self),
                result_view(r),
                terminated(old(self).tokens(), old(self).position(), msg@),
            ),
            r is Ok ==> final(self).current > old(self).current,
    {
        let value = self.expression()?;
        let _ = self.consume(TokenType::Semicolon, msg)?;
        Ok(value)
    }

    /// Reads an expression unless a semicolon comes first, and the
    /// semicolon.
    fn optional_terminated(&mut self, msg: &str) -> (r: Result<Option<Expr>, LoxError>)
        requires
            old(self).wf(),
        ensures
            final(self).read(
                *old(self),
                option_result_view(r),
                optional_terminated(old(self).tokens(), old(self).position(), msg@),
            ),
            r is Ok ==> final(self).current > old(self).current,
    {
        if self.matches(TokenType::Semicolon) {
            return Ok(None);
        }
        let value = self.terminated(msg)?;
        Ok(Some(value))
    }

    /// Reads a condition in parentheses.
    fn condition(&mut self, open_msg: &str, close_msg: &str) -> (r: Result<Expr, LoxError>)
        requires
            old(self).wf(),
        ensures
            final(self).read(
                *old(self),
                result_view(r),
                condition(old(self).tokens(), old(self).position(), open_msg@, close_msg@),
            ),
            r is Ok ==> final(self).current > old(self).current,
    {
        let _ = self.consume(TokenType::LeftParen, open_msg)?;
        let cond = self.expression()?;
        let _ = self.consume(TokenType::RightParen, close_msg)?;
        Ok(cond)
    }

    fn statement(&mut self) -> (r: Result<Stmt, LoxError>)
        requires
            old(self).wf(),
        ensures
            final(self).noted(
                *old(self),
                result_view(r),
                statement(old(self).tokens(), old(self).position()),
            ),
            r is Ok ==> final(self).current > old(self).current,
        decreases old(self).tokens.len() - old(self).current, 2nat,
    {
        if self.matches(TokenType::If) {
            return self.if_statement();
        }
        if self.matches(TokenType::Print) {
            return self.print_statement();
        }
        if self.matches(TokenType::Break) {
            return self.break_statement();
        }
        if self.check(TokenType::Return) {
            let keyword = self.peek().clone();
            self.advance();
            return self.return_statement(keyword);
        }
        if self.matches(TokenType::While) {
            return self.while_statement();
        }
        if self.matches(TokenType::For) {
            return self.for_statement();
        }
        if self.matches(TokenType::LeftBrace) {
            let stmts = self.block()?;
            proof {
                crate::ast::lemma_block_view(stmts);
            }
            return Ok(Stmt::Block { stmts });
        }
        self.expression_statement()
    }

    fn break_statement(&mut self) -> (r: Result<Stmt, LoxError>)
        requires
            old(self).wf(),
        ensures
            final(self).noted(
                *old(self),
                result_view(r),
                crate::grammar::plain(
                    break_statement(old(self).tokens(), old(self).position()),
                ),
            ),
            r is Ok ==> final(self).current > old(self).current,
    {
        let value = self.optional_terminated("Expect ';' after break.")?;
        Ok(Stmt::Break(value))
    }

    fn return_statement(&mut self, keyword: Token) -> (r: Result<Stmt, LoxError>)
        requires
            old(self).wf(),
        ensures
            final(self).noted(
                *old(self),
                result_view(r),
                crate::grammar::plain(
                    return_statement(old(self).tokens(), old(self).position(), keyword@),
                ),
            ),
            r is Ok ==> final(self).current > old(self).current,
    {
        let value = self.optional_terminated("Expect ';' after return value.")?;
        Ok(Stmt::Return { keyword, value })
    }

    fn while_statement(&mut self) -> (r: Result<Stmt, LoxError>)
        requires
            old(self).wf(),
        ensures
            final(self).noted(
                *old(self),
                result_view(r),
                while_statement(old(self).tokens(), old(self).position()),
            ),
            r is Ok ==> final(self).current > old(self).current,
        decreases old(self).tokens.len() - old(self).current, 1nat,
    {
        let cond = self.condition("Expect '(' after 'while'", "Expect ')' after while condition")?;
        let body = self.statement()?;
        Ok(Stmt::While { cond, body: Box::new(body) })
    }

    fn for_statement(&mut self) -> (r: Result<Stmt, LoxError>)
        requires
            old(self).wf(),
        ensures
            final(self).noted(
                *old(self),
                result_view(r),
                for_statement(old(self).tokens(), old(self).position()),
            ),
            r is Ok ==> final(self).current > old(self).current,
        decreases old(self).tokens.len() - old(self).current, 1nat,
    {
        let _ = self.consume(TokenType::LeftParen, "Expect '(' after 'for'.")?;
        let initializer = if self.matches(TokenType::Semicolon) {
            None
        } else if self.matches(TokenType::Var) {
            Some(self.var_declaration()?)
        } else {
            Some(self.expression_statement()?)
        };
        let cond = if self.matches(TokenType::Semicolon) {
            Expr::Literal(Literal::Boolean(true))
        } else {
            self.terminated("Expect ';' after loop condition.")?
        };
        let increment = if !self.check(TokenType::RightParen) {
            Some(self.expression()?)
        } else {
            None
        };
        let _ = self.consume(TokenType::RightParen, "Expect ')' after loop condition.")?;
        let body = self.statement()?;
        Ok(desugar(initializer, cond, increment, body))
    }

    fn if_statement(&mut self) -> (r: Result<Stmt, LoxError>)
        requires
            old(self).wf(),
        ensures
            final(self).noted(
                *old(self),
                result_view(r),
                if_statement(old(self).tokens(), old(self).position()),
            ),
            r is Ok ==> final(self).current > old(self).current,
        decreases old(self).tokens.len() - old(self).current, 1nat,
    {
        let cond = self.condition("Expect '(' after 'if'.", "Expect ')' after if condition.")?;
        let then_br = self.statement()?;
        let mut else_br = None;
        if self.matches(TokenType::Else) {
            else_br = Some(Box::new(self.statement()?));
        }
        Ok(Stmt::If { cond, then_br: Box::new(then_br), else_br })
    }

    /// Reads the declarations of a block and its closing brace.
    fn block(&mut self) -> (r: Result<Vec<Stmt>, LoxError>)
        requires
            old(self).wf(),
        ensures
            final(self).noted(
                *old(self),
                list_result_view(r),
                block(old(self).tokens(), old(self).position(), Seq::empty(), Seq::empty()),
            ),
            r is Ok ==> final(self).current > old(self).current,
        decreases old(self).tokens.len() - old(self).current, 4nat,
    {
        let mut statements: Vec<Stmt> = Vec::new();
        let ghost ts = self.tokens();
        let ghost goal = block(ts, self.position(), Seq::empty(), Seq::empty());
        let ghost mut errs = Seq::<ErrorView>::empty();
        proof {
            assert(views(statements@) =~= Seq::<StmtView>::empty());
        }
        while !self.check(TokenType::RightBrace) && !self.is_eof()
            invariant
                self.wf(),
                self.tokens == old(self).tokens,
                ts == self.tokens(),
                self.current >= old(self).current,
                self.errors() =~= old(self).errors() + errs,
                goal == block(ts, self.position(), views(statements@), errs),
                goal == block(
                    old(self).tokens(),
                    old(self).position(),
                    Seq::empty(),
                    Seq::empty(),
                ),
            decreases self.tokens.len() - self.current,
        {
            let ghost d = declaration(ts, self.position());
            let ghost before = views(statements@);
            let stmt = self.declaration();
            match stmt {
                Some(s) => {
                    proof {
                        assert(views(statements@.push(s)) =~= before.push(s@));
                    }
                    statements.push(s);
                },
                None => {},
            }
            proof {
                assert((old(self).errors() + errs) + d.errors =~= old(self).errors() + (errs
                    + d.errors));
                errs = errs + d.errors;
            }
        }
        match self.consume(TokenType::RightBrace, "Expect '}' after block.") {
            Ok(_) => Ok(statements),
            Err(e) => Err(e),
        }
    }

    fn expression_statement(&mut self) -> (r: Result<Stmt, LoxError>)
        requires
            old(self).wf(),
        ensures
            final(self).noted(
                *old(self),
                result_view(r),
                crate::grammar::plain(
                    expression_statement(old(self).tokens(), old(self).position()),
                ),
            ),
            r is Ok ==> final(self).current > old(self).current,
    {
        let expression = self.terminated("Expect ';' after expression.")?;
        Ok(Stmt::Expression(expression))
    }

    fn print_statement(&mut self) -> (r: Result<Stmt, LoxError>)
        requires
            old(self).wf(),
        ensures
            final(self).noted(
                *old(self),
                result_view(r),
                crate::grammar::plain(
                    print_statement(old(self).tokens(), old(self).position()),
                ),
            ),
            r is Ok ==> final(self).current > old(self).current,
    {
        let value = self.terminated("Expect ';' after value.")?;
        Ok(Stmt::Print(value))
    }
}

/// The statement that a `for` with these clauses and this body stands
/// for.
fn desugar(init: Option<Stmt>, cond: Expr, incr: Option<Expr>, body: Stmt) -> (r: Stmt)
    ensures
        r@ == desugar_for(
            stmt_option_view(init),
            cond@,
            crate::ast::option_view(incr),
            body@,
        ),
{
    let stepped = match incr {
        Some(inc) => match body {
            Stmt::Block { stmts } => {
                let mut stmts = stmts;
                proof {
                    crate::ast::lemma_block_view(stmts);
                    assert(views(stmts@.push(Stmt::Expression(inc))) =~= views(stmts@).push(
                        StmtView::Expression(inc@),
                    ));
                }
                stmts.push(Stmt::Expression(inc));
                proof {
                    crate::ast::lemma_block_view(stmts);
                }
                Stmt::Block { stmts }
            },
            other => {
                let mut stmts: Vec<Stmt> = Vec::new();
                stmts.push(other);
                stmts.push(Stmt::Expression(inc));
                proof {
                    crate::ast::lemma_block_view(stmts);
                    assert(views(stmts@) =~= seq![other@, StmtView::Expression(inc@)]);
                }
                Stmt::Block { stmts }
            },
        },
        None => body,
    };
    let looped = Stmt::While { cond, body: Box::new(stepped) };
    match init {
        Some(i) => {
            let mut stmts: Vec<Stmt> = Vec::new();
            stmts.push(i);
            stmts.push(looped);
            proof {
                crate::ast::lemma_block_view(stmts);
                assert(views(stmts@) =~= seq![i@, looped@]);
            }
            Stmt::Block { stmts }
        },
        None => looped,
    }
}

} // verus!
