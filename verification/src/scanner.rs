//! The lexer: from source text to tokens.
//!
//! [`scan`] says, as a function of the source's characters, which tokens
//! and which lexical errors a text yields; [`Scanner::scan_tokens`]
//! computes exactly that with one forward cursor.

use vstd::prelude::*;
use crate::err::{views, ErrorView, LoxError};
use crate::number::{in_range, Number, SCALE};
use crate::text::{
    chars_of, digit_value, digits_value, is_alpha, is_alpha_char, is_alphanumeric,
    is_alphanumeric_char, is_digit, is_digit_char, pow10, spells, text_of,
};

verus! {

/// The lexical categories.
#[derive(Clone, Copy, Debug, PartialEq, Eq, Structural, Hash)]
pub enum TokenType {
    // Single-character tokens
    LeftParen,
    RightParen,
    LeftBrace,
    RightBrace,
    Comma,
    Dot,
    Minus,
    Plus,
    Semicolon,
    Slash,
    Star,
    // One or two character tokens
    Bang,
    BangEqual,
    Equal,
    EqualEqual,
    Greater,
    GreaterEqual,
    Less,
    LessEqual,
    // Literals
    Identifier,
    String,
    Number,
    // Keywords
    And,
    Break,
    Class,
    Else,
    False,
    Fun,
    For,
    If,
    Nil,
    Or,
    Print,
    Return,
    Super,
    This,
    True,
    Var,
    While,
    Eof,
}

/// The value that a literal token carries.
#[derive(Debug, PartialEq, Eq)]
pub enum Literal {
    Boolean(bool),
    Nil,
    String(String),
    /// A number written without a fractional part.
    Integer(i64),
    /// A number written with a fractional part.
    Float(Number),
}

/// A literal with its text as a character sequence and its number in
/// units.
pub enum LiteralView {
    Boolean(bool),
    Nil,
    String(Seq<char>),
    Integer(i64),
    Float(int),
}

impl View for Literal {
    type V = LiteralView;

    open spec fn view(&self) -> LiteralView {
        match self {
            Literal::Boolean(b) => LiteralView::Boolean(*b),
            Literal::Nil => LiteralView::Nil,
            Literal::String(s) => LiteralView::String(s@),
            Literal::Integer(v) => LiteralView::Integer(*v),
            Literal::Float(n) => LiteralView::Float(n@),
        }
    }
}

impl Clone for Literal {
    fn clone(&self) -> (r: Self)
        ensures
            r == *self,
    {
        match self {
            Literal::Boolean(b) => Literal::Boolean(*b),
            Literal::Nil => Literal::Nil,
            Literal::String(s) => Literal::String(s.clone()),
            Literal::Integer(v) => Literal::Integer(*v),
            Literal::Float(n) => Literal::Float(*n),
        }
    }
}

/// A token: its category, the exact source text, the literal value if it
/// has one, and the line it ends on.
#[derive(Debug, PartialEq, Eq)]
pub struct Token {
    pub type_: TokenType,
    pub lexeme: String,
    pub literal: Option<Literal>,
    pub line: usize,
}

/// A token with its texts as character sequences.
pub struct TokenView {
    pub type_: TokenType,
    pub lexeme: Seq<char>,
    pub literal: Option<LiteralView>,
    pub line: usize,
}

impl View for Token {
    type V = TokenView;

    open spec fn view(&self) -> TokenView {
        TokenView {
            type_: self.type_,
            lexeme: self.lexeme@,
            literal: match self.literal {
                Some(l) => Some(l@),
                None => None,
            },
            line: self.line,
        }
    }
}

impl Clone for Token {
    fn clone(&self) -> (r: Self)
        ensures
            r == *self,
    {
        Token {
            type_: self.type_,
            lexeme: self.lexeme.clone(),
            literal: match &self.literal {
                Some(l) => Some(l.clone()),
                None => None,
            },
            line: self.line,
        }
    }
}

impl Token {
    pub fn new(type_: TokenType, lexeme: String, literal: Option<Literal>, line: usize) -> (t: Self)
        ensures
            t == (Token { type_, lexeme, literal, line }),
    {
        Token { type_, lexeme, literal, line }
    }
}

/// The character at `i`, or NUL beyond the text.
pub open spec fn char_at(src: Seq<char>, i: int) -> char {
    if 0 <= i < src.len() {
        src[i]
    } else {
        '\0'
    }
}

/// The kinds of runs of characters that the lexer takes as a whole.
pub enum Run {
    /// Decimal digits.
    Digits,
    /// Letters, digits and underscores.
    Word,
    /// Anything but the given character.
    Until(char),
}

/// Whether `c` continues a run of the given kind.
pub open spec fn continues(run: Run, c: char) -> bool {
    match run {
        Run::Digits => is_digit(c),
        Run::Word => is_alphanumeric(c),
        Run::Until(stop) => c != stop,
    }
}

/// Where the longest run of the given kind that starts at `pos` ends.
pub open spec fn run_end(src: Seq<char>, pos: int, run: Run) -> int
    decreases src.len() - pos,
{
    if 0 <= pos < src.len() && continues(run, src[pos]) {
        run_end(src, pos + 1, run)
    } else {
        pos
    }
}

/// How many newlines stand in `src[from..to]`.
pub open spec fn newlines(src: Seq<char>, from: int, to: int) -> nat
    decreases to - from,
{
    if from >= to {
        0
    } else {
        newlines(src, from, to - 1) + if char_at(src, to - 1) == '\n' {
            1nat
        } else {
            0nat
        }
    }
}

/// The line counter after `n` more newlines: it stops at the largest
/// `usize`.
pub open spec fn bump(line: usize, n: nat) -> usize {
    if line + n <= usize::MAX {
        (line + n) as usize
    } else {
        usize::MAX
    }
}

/// The keyword that `text` spells, if any.
pub open spec fn keyword(text: Seq<char>) -> Option<TokenType> {
    if text == "and"@ {
        Some(TokenType::And)
    } else if text == "break"@ {
        Some(TokenType::Break)
    } else if text == "class"@ {
        Some(TokenType::Class)
    } else if text == "else"@ {
        Some(TokenType::Else)
    } else if text == "false"@ {
        Some(TokenType::False)
    } else if text == "for"@ {
        Some(TokenType::For)
    } else if text == "fun"@ {
        Some(TokenType::Fun)
    } else if text == "if"@ {
        Some(TokenType::If)
    } else if text == "nil"@ {
        Some(TokenType::Nil)
    } else if text == "while"@ {
        Some(TokenType::While)
    } else if text == "or"@ {
        Some(TokenType::Or)
    } else if text == "print"@ {
        Some(TokenType::Print)
    } else if text == "return"@ {
        Some(TokenType::Return)
    } else if text == "super"@ {
        Some(TokenType::Super)
    } else if text == "this"@ {
        Some(TokenType::This)
    } else if text == "true"@ {
        Some(TokenType::True)
    } else if text == "var"@ {
        Some(TokenType::Var)
    } else {
        None
    }
}

/// What scanning one lexeme yields: where it ends, the line counter
/// after it, and the token or the error it gives, if any.
pub struct Step {
    pub end: int,
    pub line: usize,
    pub token: Option<TokenView>,
    pub error: Option<ErrorView>,
}

/// A step that yields the token of category `type_` for `src[pos..end]`.
pub open spec fn token_step(
    src: Seq<char>,
    pos: int,
    end: int,
    line: usize,
    type_: TokenType,
    literal: Option<LiteralView>,
) -> Step {
    Step {
        end,
        line,
        token: Some(TokenView { type_, lexeme: src.subrange(pos, end), literal, line }),
        error: None,
    }
}

/// A step that yields nothing.
pub open spec fn skip_step(end: int, line: usize) -> Step {
    Step { end, line, token: None, error: None }
}

/// A step that yields an error located at `src[pos..upto]`.
pub open spec fn error_step(
    src: Seq<char>,
    pos: int,
    upto: int,
    end: int,
    line: usize,
    msg: Seq<char>,
) -> Step {
    Step {
        end,
        line,
        token: None,
        error: Some(ErrorView { line, where_: src.subrange(pos, upto), msg }),
    }
}

/// An operator of one character that a following `expect` makes into
/// another.
pub open spec fn operator_step(
    src: Seq<char>,
    pos: int,
    line: usize,
    expect: char,
    if_match: TokenType,
    if_not: TokenType,
) -> Step {
    if pos + 1 < src.len() && src[pos + 1] == expect {
        token_step(src, pos, pos + 2, line, if_match, None)
    } else {
        token_step(src, pos, pos + 1, line, if_not, None)
    }
}

/// A character that, followed by `expect`, opens a comment that runs up
/// to the next `stop`, and that alone is the token `alone`.
pub open spec fn comment_step(
    src: Seq<char>,
    pos: int,
    line: usize,
    expect: char,
    alone: TokenType,
    stop: char,
) -> Step {
    if pos + 1 < src.len() && src[pos + 1] == expect {
        skip_step(run_end(src, pos + 2, Run::Until(stop)), line)
    } else {
        token_step(src, pos, pos + 1, line, alone, None)
    }
}

/// A string literal that opens at `pos`.
pub open spec fn string_step(src: Seq<char>, pos: int, line: usize) -> Step {
    let close = run_end(src, pos + 1, Run::Until('"'));
    let last = bump(line, newlines(src, pos + 1, close));
    if close >= src.len() {
        error_step(src, pos, pos + 1, close, last, "Unterminated string."@)
    } else {
        token_step(
            src,
            pos,
            close + 1,
            last,
            TokenType::String,
            Some(LiteralView::String(src.subrange(pos + 1, close))),
        )
    }
}

/// The fractional digits filled up with zeros to nine digits.
pub open spec fn padded(fraction: Seq<char>) -> Seq<char> {
    fraction + Seq::new((9 - fraction.len()) as nat, |i: int| '0')
}

/// The units of the number with whole part `whole` and the fractional
/// digits `fraction`, of which there are at most nine.
pub open spec fn decimal_units(whole: nat, fraction: Seq<char>) -> int {
    whole * SCALE + digits_value(padded(fraction))
}

/// A number literal that starts at `pos`.
pub open spec fn number_step(src: Seq<char>, pos: int, line: usize) -> Step {
    let whole_end = run_end(src, pos, Run::Digits);
    let whole = digits_value(src.subrange(pos, whole_end));
    if whole_end + 1 < src.len() && src[whole_end] == '.' && is_digit(src[whole_end + 1]) {
        let end = run_end(src, whole_end + 1, Run::Digits);
        let fraction = src.subrange(whole_end + 1, end);
        if fraction.len() <= 9 && in_range(decimal_units(whole, fraction)) {
            token_step(
                src,
                pos,
                end,
                line,
                TokenType::Number,
                Some(LiteralView::Float(decimal_units(whole, fraction))),
            )
        } else {
            error_step(src, pos, end, end, line, "Number literal out of range."@)
        }
    } else if whole <= i64::MAX {
        token_step(
            src,
            pos,
            whole_end,
            line,
            TokenType::Number,
            Some(LiteralView::Integer(whole as i64)),
        )
    } else {
        error_step(src, pos, whole_end, whole_end, line, "Number literal out of range."@)
    }
}

/// An identifier or a keyword that starts at `pos`.
pub open spec fn word_step(src: Seq<char>, pos: int, line: usize) -> Step {
    let end = run_end(src, pos, Run::Word);
    let type_ = match keyword(src.subrange(pos, end)) {
        Some(k) => k,
        None => TokenType::Identifier,
    };
    token_step(src, pos, end, line, type_, None)
}

/// The lexeme that starts at `pos`, where `pos` lies in the text.
pub open spec fn scan_one(src: Seq<char>, pos: int, line: usize) -> Step {
    let c = src[pos];
    if c == '(' {
        token_step(src, pos, pos + 1, line, TokenType::LeftParen, None)
    } else if c == ')' {
        token_step(src, pos, pos + 1, line, TokenType::RightParen, None)
    } else if c == '{' {
        token_step(src, pos, pos + 1, line, TokenType::LeftBrace, None)
    } else if c == '}' {
        token_step(src, pos, pos + 1, line, TokenType::RightBrace, None)
    } else if c == ',' {
        token_step(src, pos, pos + 1, line, TokenType::Comma, None)
    } else if c == '.' {
        token_step(src, pos, pos + 1, line, TokenType::Dot, None)
    } else if c == '-' {
        token_step(src, pos, pos + 1, line, TokenType::Minus, None)
    } else if c == '+' {
        token_step(src, pos, pos + 1, line, TokenType::Plus, None)
    } else if c == ';' {
        token_step(src, pos, pos + 1, line, TokenType::Semicolon, None)
    } else if c == '*' {
        token_step(src, pos, pos + 1, line, TokenType::Star, None)
    } else if c == '!' {
        operator_step(src, pos, line, '=', TokenType::BangEqual, TokenType::Bang)
    } else if c == '=' {
        operator_step(src, pos, line, '=', TokenType::EqualEqual, TokenType::Equal)
    } else if c == '<' {
        operator_step(src, pos, line, '=', TokenType::LessEqual, TokenType::Less)
    } else if c == '>' {
        operator_step(src, pos, line, '=', TokenType::GreaterEqual, TokenType::Greater)
    } else if c == '/' {
        comment_step(src, pos, line, '/', TokenType::Slash, '\n')
    } else if c == ' ' || c == '\r' || c == '\t' {
        skip_step(pos + 1, line)
    } else if c == '\n' {
        skip_step(pos + 1, bump(line, 1))
    } else if c == '"' {
        string_step(src, pos, line)
    } else if is_digit(c) {
        number_step(src, pos, line)
    } else if is_alpha(c) {
        word_step(src, pos, line)
    } else {
        error_step(src, pos, pos + 1, pos + 1, line, "Unexpected character."@)
    }
}

/// The tokens and the lexical errors found so far.
pub struct Scanned {
    pub tokens: Seq<TokenView>,
    pub errors: Seq<ErrorView>,
}

/// `found` with what `step` yields added.
pub open spec fn record(found: Scanned, step: Step) -> Scanned {
    Scanned {
        tokens: match step.token {
            Some(t) => found.tokens.push(t),
            None => found.tokens,
        },
        errors: match step.error {
            Some(e) => found.errors.push(e),
            None => found.errors,
        },
    }
}

/// The token that ends every token sequence.
pub open spec fn eof_token(line: usize) -> TokenView {
    TokenView { type_: TokenType::Eof, lexeme: Seq::empty(), literal: None, line }
}

/// What scanning yields from `pos` on, with the line counter at `line`
/// and `found` already in hand.
pub open spec fn scan_from(src: Seq<char>, pos: int, line: usize, found: Scanned) -> Scanned
    decreases src.len() - pos,
{
    if pos < 0 || pos >= src.len() {
        Scanned { tokens: found.tokens.push(eof_token(line)), errors: found.errors }
    } else {
        let step = scan_one(src, pos, line);
        if step.end <= pos || step.end > src.len() {
            found
        } else {
            scan_from(src, step.end, step.line, record(found, step))
        }
    }
}

/// The tokens and the lexical errors of a source text.
pub open spec fn scan(src: Seq<char>) -> Scanned {
    scan_from(src, 0, 1, Scanned { tokens: Seq::empty(), errors: Seq::empty() })
}

/// The longest run ends within the text, and behind `pos`.
pub proof fn lemma_run_end_bounds(src: Seq<char>, pos: int, run: Run)
    requires
        0 <= pos <= src.len(),
    ensures
        pos <= run_end(src, pos, run) <= src.len(),
        forall|i: int| pos <= i < run_end(src, pos, run) ==> continues(run, src[i]),
        run_end(src, pos, run) < src.len() ==> !continues(run, src[run_end(src, pos, run)]),
    decreases src.len() - pos,
{
    if pos < src.len() && continues(run, src[pos]) {
        lemma_run_end_bounds(src, pos + 1, run);
    }
}

/// Every lexeme ends behind its start and within the text.
pub proof fn lemma_scan_one_advances(src: Seq<char>, pos: int, line: usize)
    requires
        0 <= pos < src.len(),
    ensures
        pos < scan_one(src, pos, line).end <= src.len(),
{
    if pos + 2 <= src.len() {
        lemma_run_end_bounds(src, pos + 2, Run::Until('\n'));
    }
    lemma_run_end_bounds(src, pos + 1, Run::Until('"'));
    lemma_run_end_bounds(src, pos, Run::Digits);
    lemma_run_end_bounds(src, pos, Run::Word);
    let whole_end = run_end(src, pos, Run::Digits);
    if is_digit(src[pos]) {
        assert(whole_end > pos);
        if whole_end + 1 < src.len() {
            lemma_run_end_bounds(src, whole_end + 1, Run::Digits);
        }
    }
}

/// A token sequence always ends with the end-of-input token, and holds
/// no other.
pub proof fn lemma_scan_ends_with_eof(src: Seq<char>, pos: int, line: usize, found: Scanned)
    requires
        0 <= pos <= src.len(),
    ensures
        scan_from(src, pos, line, found).tokens.len() > found.tokens.len(),
        scan_from(src, pos, line, found).tokens.last().type_ == TokenType::Eof,
        forall|i: int|
            0 <= i < found.tokens.len() ==> scan_from(src, pos, line, found).tokens[i]
                == found.tokens[i],
        forall|i: int|
            found.tokens.len() <= i < scan_from(src, pos, line, found).tokens.len() - 1
                ==> scan_from(src, pos, line, found).tokens[i].type_ != TokenType::Eof,
    decreases src.len() - pos,
{
    if pos < src.len() {
        let step = scan_one(src, pos, line);
        let next = record(found, step);
        lemma_scan_one_advances(src, pos, line);
        lemma_scan_ends_with_eof(src, step.end, step.line, next);
        assert(step.token matches Some(t) ==> t.type_ != TokenType::Eof);
        assert(forall|i: int| 0 <= i < found.tokens.len() ==> next.tokens[i] == found.tokens[i]);
        let all = scan_from(src, step.end, step.line, next).tokens;
        assert forall|i: int| found.tokens.len() <= i < all.len() - 1 implies all[i].type_
            != TokenType::Eof by {
            if i < next.tokens.len() {
                assert(all[i] == next.tokens[i]);
            }
        }
    }
}

/// The number that a run of digits writes grows with the run.
pub proof fn lemma_digits_value_grows(s: Seq<char>, k: int)
    requires
        0 <= k <= s.len(),
    ensures
        digits_value(s.subrange(0, k)) <= digits_value(s),
    decreases s.len(),
{
    if k < s.len() {
        lemma_digits_value_grows(s.drop_last(), k);
        assert(s.drop_last().subrange(0, k) =~= s.subrange(0, k));
    } else {
        assert(s.subrange(0, k) =~= s);
    }
}

/// The number that `chars[from..to]` writes, where it is at most `cap`.
fn digits_capped(chars: &Vec<char>, from: usize, to: usize, cap: u128) -> (r: Option<u128>)
    requires
        from <= to <= chars.len(),
        cap <= 1_000_000_000_000_000_000_000_000_000_000,
        forall|i: int| from <= i < to ==> is_digit(chars@[i]),
    ensures
        r == if digits_value(chars@.subrange(from as int, to as int)) <= cap {
            Some(digits_value(chars@.subrange(from as int, to as int)) as u128)
        } else {
            None
        },
{
    let ghost all = chars@.subrange(from as int, to as int);
    let mut acc: u128 = 0;
    let mut i: usize = from;
    while i < to
        invariant
            from <= i <= to <= chars.len(),
            cap <= 1_000_000_000_000_000_000_000_000_000_000,
            forall|k: int| from <= k < to ==> is_digit(chars@[k]),
            all == chars@.subrange(from as int, to as int),
            acc == digits_value(chars@.subrange(from as int, i as int)),
            acc <= cap,
        decreases to - i,
    {
        let d: u128 = (chars[i] as u32 - '0' as u32) as u128;
        proof {
            let longer = chars@.subrange(from as int, i + 1);
            assert(longer.drop_last() =~= chars@.subrange(from as int, i as int));
            assert(longer.last() == chars@[i as int]);
            assert(digit_value(chars@[i as int]) == d);
            assert(all.subrange(0, i + 1 - from) =~= longer);
            lemma_digits_value_grows(all, i + 1 - from);
        }
        acc = acc * 10 + d;
        i += 1;
        if acc > cap {
            return None;
        }
    }
    proof {
        assert(chars@.subrange(from as int, i as int) == all);
    }
    Some(acc)
}

/// The lexer's state: the source, the cursor and what was found so far.
pub struct Scanner {
    tokens: Vec<Token>,
    errors: Vec<LoxError>,
    source: Vec<char>,
    start: usize,
    current: usize,
    line: usize,
}

impl Scanner {
    /// The characters of the source.
    pub closed spec fn source(&self) -> Seq<char> {
        self.source@
    }

    /// Where the cursor stands.
    pub closed spec fn position(&self) -> int {
        self.current as int
    }

    /// The line that the cursor is on.
    pub closed spec fn line_no(&self) -> usize {
        self.line
    }

    /// The tokens and errors found so far.
    pub closed spec fn found(&self) -> Scanned {
        Scanned { tokens: views(self.tokens@), errors: views(self.errors@) }
    }

    /// The cursor lies within the source, at or behind the start of the
    /// current lexeme.
    pub closed spec fn wf(&self) -> bool {
        self.start <= self.current <= self.source.len()
    }

    /// Whether `self` is `before` after `step` was taken.
    spec fn stepped(&self, before: Scanner, step: Step) -> bool {
        &&& self.wf()
        &&& self.source == before.source
        &&& self.current == step.end
        &&& self.line == step.line
        &&& self.found() == record(before.found(), step)
    }

    /// A scanner at the start of `source`.
    pub fn new(source: String) -> (s: Self)
        ensures
            s.wf(),
            s.source() == source@,
            s.position() == 0,
            s.line_no() == 1,
            s.found() == (Scanned { tokens: Seq::empty(), errors: Seq::empty() }),
    {
        let s = Scanner {
            source: chars_of(source.as_str()),
            tokens: Vec::new(),
            errors: Vec::new(),
            start: 0,
            current: 0,
            line: 1,
        };
        assert(views(s.tokens@) =~= Seq::<TokenView>::empty());
        assert(views(s.errors@) =~= Seq::<ErrorView>::empty());
        s
    }

    /// Scans the rest of the source. Returns every token found, with the
    /// end-of-input token behind them, and every lexical error.
    pub fn scan_tokens(self) -> (r: (Vec<Token>, Vec<LoxError>))
        requires
            self.wf(),
        ensures
            views(r.0@) == scan_from(
                self.source(),
                self.position(),
                self.line_no(),
                self.found(),
            ).tokens,
            views(r.1@) == scan_from(
                self.source(),
                self.position(),
                self.line_no(),
                self.found(),
            ).errors,
    {
        let ghost first = self;
        let mut scanner = self;
        while !scanner.is_eof()
            invariant
                scanner.wf(),
                scanner.source == first.source,
                scan_from(first.source@, first.current as int, first.line, first.found())
                    == scan_from(
                    scanner.source@,
                    scanner.current as int,
                    scanner.line,
                    scanner.found(),
                ),
            decreases scanner.source.len() - scanner.current,
        {
            scanner.start = scanner.current;
            proof {
                lemma_scan_one_advances(scanner.source@, scanner.current as int, scanner.line);
            }
            scanner.scan_single_token();
        }
        scanner.start = scanner.current;
        scanner.add_token(TokenType::Eof);
        proof {
            assert(scanner.source@.subrange(scanner.current as int, scanner.current as int)
                =~= Seq::<char>::empty());
        }
        (scanner.tokens, scanner.errors)
    }

    fn add_token(&mut self, type_: TokenType)
        requires
            old(self).wf(),
        ensures
            final(self).source == old(self).source,
            final(self).start == old(self).start,
            final(self).current == old(self).current,
            final(self).line == old(self).line,
            final(self).errors == old(self).errors,
            views(final(self).tokens@) == views(old(self).tokens@).push(
                TokenView {
                    type_,
                    lexeme: old(self).source@.subrange(
                        old(self).start as int,
                        old(self).current as int,
                    ),
                    literal: None,
                    line: old(self).line,
                },
            ),
    {
        let token = Token::new(type_, self.get_lexeme(), None, self.line);
        self.tokens.push(token);
        assert(views(self.tokens@) =~= views(old(self).tokens@).push(token@));
    }

    fn add_token_with_literal(&mut self, type_: TokenType, literal: Literal)
        requires
            old(self).wf(),
        ensures
            final(self).source == old(self).source,
            final(self).start == old(self).start,
            final(self).current == old(self).current,
            final(self).line == old(self).line,
            final(self).errors == old(self).errors,
            views(final(self).tokens@) == views(old(self).tokens@).push(
                TokenView {
                    type_,
                    lexeme: old(self).source@.subrange(
                        old(self).start as int,
                        old(self).current as int,
                    ),
                    literal: Some(literal@),
                    line: old(self).line,
                },
            ),
    {
        let token = Token::new(type_, self.get_lexeme(), Some(literal), self.line);
        self.tokens.push(token);
        assert(views(self.tokens@) =~= views(old(self).tokens@).push(token@));
    }

    /// Records a lexical error on the current line, located at the
    /// characters from the start of the lexeme up to `upto`.
    fn add_error(&mut self, upto: usize, msg: &str)
        requires
            old(self).wf(),
            old(self).start <= upto <= old(self).source.len(),
        ensures
            final(self).source == old(self).source,
            final(self).start == old(self).start,
            final(self).current == old(self).current,
            final(self).line == old(self).line,
            final(self).tokens == old(self).tokens,
            views(final(self).errors@) == views(old(self).errors@).push(
                ErrorView {
                    line: old(self).line,
                    where_: old(self).source@.subrange(old(self).start as int, upto as int),
                    msg: msg@,
                },
            ),
    {
        let error = LoxError::new(self.line, text_of(&self.source, self.start, upto), msg);
        self.errors.push(error);
        assert(views(self.errors@) =~= views(old(self).errors@).push(error@));
    }

    fn get_lexeme(&self) -> (s: String)
        requires
            self.wf(),
        ensures
            s@ == self.source@.subrange(self.start as int, self.current as int),
    {
        text_of(&self.source, self.start, self.current)
    }

    fn is_eof(&self) -> (b: bool)
        ensures
            b == (self.current >= self.source.len()),
    {
        self.current >= self.source.len()
    }

    fn match_char(&mut self, expected: char) -> (b: bool)
        requires
            old(self).wf(),
        ensures
            b == (old(self).current < old(self).source.len() && old(self).source@[old(
                self,
            ).current as int] == expected),
            *final(self) == (Scanner {
                current: if b {
                    (old(self).current + 1) as usize
                } else {
                    old(self).current
                },
                ..*old(self)
            }),
            final(self).wf(),
    {
        if self.is_eof() {
            return false;
        }
        let next = self.source[self.current];
        if next != expected {
            return false;
        }
        self.current += 1;
        true
    }

    fn advance(&mut self) -> (c: char)
        requires
            old(self).wf(),
            old(self).current < old(self).source.len(),
        ensures
            c == old(self).source@[old(self).current as int],
            *final(self) == (Scanner { current: (old(self).current + 1) as usize, ..*old(self) }),
            final(self).wf(),
    {
        let ch = self.source[self.current];
        self.current += 1;
        ch
    }

    fn peek(&self) -> (c: char)
        ensures
            c == char_at(self.source@, self.current as int),
    {
        if self.is_eof() {
            return '\0';
        }
        self.source[self.current]
    }

    fn peek_next(&self) -> (c: char)
        ensures
            c == char_at(self.source@, self.current + 1),
    {
        if self.is_eof() || self.current + 1 >= self.source.len() {
            return '\0';
        }
        self.source[self.current + 1]
    }

    /// Scans the lexeme at the cursor.
    fn scan_single_token(&mut self)
        requires
            old(self).wf(),
            old(self).start == old(self).current,
            old(self).current < old(self).source.len(),
        ensures
            final(self).stepped(
                *old(self),
                scan_one(old(self).source@, old(self).current as int, old(self).line),
            ),
    {
        let ch: char = self.advance();
        match ch {
            '(' => self.add_token(TokenType::LeftParen),
            ')' => self.add_token(TokenType::RightParen),
            '{' => self.add_token(TokenType::LeftBrace),
            '}' => self.add_token(TokenType::RightBrace),
            ',' => self.add_token(TokenType::Comma),
            '.' => self.add_token(TokenType::Dot),
            '-' => self.add_token(TokenType::Minus),
            '+' => self.add_token(TokenType::Plus),
            ';' => self.add_token(TokenType::Semicolon),
            '*' => self.add_token(TokenType::Star),
            '!' => self.add_conditional_token('=', TokenType::BangEqual, TokenType::Bang),
            '=' => self.add_conditional_token('=', TokenType::EqualEqual, TokenType::Equal),
            '<' => self.add_conditional_token('=', TokenType::LessEqual, TokenType::Less),
            '>' => self.add_conditional_token('=', TokenType::GreaterEqual, TokenType::Greater),
            '/' => self.lookahead('/', TokenType::Slash, '\n'),
            ' ' | '\r' | '\t' => {},
            '\n' => {
                self.next_line();
            },
            '"' => self.string(),
            _ => {
                if is_digit_char(ch) {
                    self.number();
                } else if is_alpha_char(ch) {
                    self.identifier();
                } else {
                    self.add_error(self.current, "Unexpected character.");
                }
            },
        }
    }

    /// Moves the line counter on by one.
    fn next_line(&mut self)
        ensures
            *final(self) == (Scanner { line: bump(old(self).line, 1), ..*old(self) }),
    {
        if self.line < usize::MAX {
            self.line += 1;
        }
    }

    fn string(&mut self)
        requires
            old(self).wf(),
            old(self).current == old(self).start + 1,
            old(self).source@[old(self).start as int] == '"',
        ensures
            final(self).stepped(
                Scanner { current: old(self).start, ..*old(self) },
                string_step(old(self).source@, old(self).start as int, old(self).line),
            ),
    {
        let ghost src = self.source@;
        let ghost open = self.start as int;
        while self.peek() != '"' && !self.is_eof()
            invariant
                self.wf(),
                self.source == old(self).source,
                    src == self.source@,
                self.start == open,
                self.tokens == old(self).tokens,
                self.errors == old(self).errors,
                open + 1 <= self.current,
                run_end(src, open + 1, Run::Until('"')) == run_end(
                    src,
                    self.current as int,
                    Run::Until('"'),
                ),
                self.line == bump(old(self).line, newlines(src, open + 1, self.current as int)),
            decreases self.source.len() - self.current,
        {
            if self.peek() == '\n' {
                self.next_line();
            }
            self.advance();
        }
        assert(run_end(src, self.current as int, Run::Until('"')) == self.current);
        if self.is_eof() {
            self.add_error(self.start + 1, "Unterminated string.");
            return;
        }
        let lit = Literal::String(text_of(&self.source, self.start + 1, self.current));
        self.advance();
        self.add_token_with_literal(TokenType::String, lit);
    }

    fn number(&mut self)
        requires
            old(self).wf(),
            old(self).current == old(self).start + 1,
            is_digit(old(self).source@[old(self).start as int]),
        ensures
            final(self).stepped(
                Scanner { current: old(self).start, ..*old(self) },
                number_step(old(self).source@, old(self).start as int, old(self).line),
            ),
    {
        let ghost src = self.source@;
        let ghost first = self.start as int;
        // Integer part
        while is_digit_char(self.peek())
            invariant
                self.wf(),
                self.source == old(self).source,
                    src == self.source@,
                self.start == first,
                self.line == old(self).line,
                self.tokens == old(self).tokens,
                self.errors == old(self).errors,
                first + 1 <= self.current,
                run_end(src, first, Run::Digits) == run_end(src, self.current as int, Run::Digits),
            decreases self.source.len() - self.current,
        {
            self.advance();
        }
        let whole_end: usize = self.current;
        proof {
            assert(run_end(src, self.current as int, Run::Digits) == self.current);
            lemma_run_end_bounds(src, first, Run::Digits);
        }
        let whole = digits_capped(
            &self.source,
            self.start,
            whole_end,
            10_000_000_000_000_000_000,
        );
        // Look for fractional part
        if self.peek() == '.' && is_digit_char(self.peek_next()) {
            self.advance();  // consume "."
            while is_digit_char(self.peek())
                invariant
                    self.wf(),
                    self.source == old(self).source,
                    src == self.source@,
                    self.start == first,
                    self.line == old(self).line,
                    self.tokens == old(self).tokens,
                    self.errors == old(self).errors,
                    whole_end + 1 <= self.current,
                    run_end(src, whole_end + 1, Run::Digits) == run_end(
                        src,
                        self.current as int,
                        Run::Digits,
                    ),
                decreases self.source.len() - self.current,
            {
                self.advance();
            }
            proof {
                assert(run_end(src, self.current as int, Run::Digits) == self.current);
                lemma_run_end_bounds(src, whole_end + 1, Run::Digits);
            }
            let number = match whole {
                Some(w) => self.decimal(w as u64, whole_end + 1),
                None => None,
            };
            match number {
                Some(n) => self.add_token_with_literal(TokenType::Number, Literal::Float(n)),
                None => self.add_error(self.current, "Number literal out of range."),
            }
        } else {
            match whole {
                Some(w) if w <= i64::MAX as u128 => {
                    self.add_token_with_literal(TokenType::Number, Literal::Integer(w as i64))
                },
                _ => self.add_error(self.current, "Number literal out of range."),
            }
        }
    }

    /// The number with whole part `whole` and the fractional digits from
    /// `from` up to the cursor, where there are at most nine of them and
    /// the number is in range.
    fn decimal(&self, whole: u64, from: usize) -> (r: Option<Number>)
        requires
            self.wf(),
            from <= self.current,
            forall|i: int| from <= i < self.current ==> is_digit(self.source@[i]),
        ensures
            r is Some <==> self.current - from <= 9 && in_range(
                decimal_units(
                    whole as nat,
                    self.source@.subrange(from as int, self.current as int),
                ),
            ),
            r matches Some(n) ==> n@ == decimal_units(
                whole as nat,
                self.source@.subrange(from as int, self.current as int),
            ),
    {
        let count: usize = self.current - from;
        if count > 9 {
            return None;
        }
        let ghost fraction = self.source@.subrange(from as int, self.current as int);
        let ghost digits = padded(fraction);
        let mut billionths: u32 = 0;
        let mut i: usize = 0;
        while i < 9
            invariant
                i <= 9,
                self.wf(),
                count == self.current - from,
                count <= 9,
                from <= self.current,
                fraction == self.source@.subrange(from as int, self.current as int),
                digits == padded(fraction),
                forall|k: int| from <= k < self.current ==> is_digit(self.source@[k]),
                billionths == digits_value(digits.subrange(0, i as int)),
                billionths < pow10(i as nat),
                pow10(i as nat) <= 1_000_000_000,
            decreases 9 - i,
        {
            let d: u32 = if i < count {
                self.source[from + i] as u32 - '0' as u32
            } else {
                0
            };
            proof {
                let longer = digits.subrange(0, i + 1);
                assert(longer.drop_last() =~= digits.subrange(0, i as int));
                assert(digit_value(longer.last()) == d);
                reveal_with_fuel(pow10, 11);
                assert(pow10((i + 1) as nat) == 10 * pow10(i as nat));
                assert(pow10((i + 1) as nat) <= 1_000_000_000) by {
                    assert(pow10(9) == 1_000_000_000);
                    lemma_pow10_grows((i + 1) as nat, 9);
                }
            }
            billionths = billionths * 10 + d;
            i += 1;
        }
        proof {
            assert(digits.subrange(0, 9) =~= digits);
            reveal_with_fuel(pow10, 11);
        }
        Number::from_parts(false, whole, billionths)
    }

    fn identifier(&mut self)
        requires
            old(self).wf(),
            old(self).current == old(self).start + 1,
            is_alpha(old(self).source@[old(self).start as int]),
        ensures
            final(self).stepped(
                Scanner { current: old(self).start, ..*old(self) },
                word_step(old(self).source@, old(self).start as int, old(self).line),
            ),
    {
        let ghost src = self.source@;
        let ghost first = self.start as int;
        while is_alphanumeric_char(self.peek())
            invariant
                self.wf(),
                self.source == old(self).source,
                    src == self.source@,
                self.start == first,
                self.line == old(self).line,
                self.tokens == old(self).tokens,
                self.errors == old(self).errors,
                first + 1 <= self.current,
                run_end(src, first, Run::Word) == run_end(src, self.current as int, Run::Word),
            decreases self.source.len() - self.current,
        {
            self.advance();
        }
        assert(run_end(src, self.current as int, Run::Word) == self.current);
        let token = self.keyword_to_token();
        match token {
            Some(t) => self.add_token(t),
            None => self.add_token(TokenType::Identifier),
        };
    }

    fn add_conditional_token(&mut self, expect: char, if_match: TokenType, if_not: TokenType)
        requires
            old(self).wf(),
            old(self).current == old(self).start + 1,
        ensures
            final(self).stepped(
                Scanner { current: old(self).start, ..*old(self) },
                operator_step(
                    old(self).source@,
                    old(self).start as int,
                    old(self).line,
                    expect,
                    if_match,
                    if_not,
                ),
            ),
    {
        let t = if self.match_char(expect) {
            if_match
        } else {
            if_not
        };
        self.add_token(t);
    }

    /// After a character that may open a comment: skips the comment up
    /// to `escape`, or yields the token `on_found` for the character
    /// alone.
    fn lookahead(&mut self, expect: char, on_found: TokenType, escape: char)
        requires
            old(self).wf(),
            old(self).current == old(self).start + 1,
        ensures
            final(self).stepped(
                Scanner { current: old(self).start, ..*old(self) },
                comment_step(
                    old(self).source@,
                    old(self).start as int,
                    old(self).line,
                    expect,
                    on_found,
                    escape,
                ),
            ),
    {
        let next = self.match_char(expect);
        if next {
            let ghost src = self.source@;
            let ghost from = self.current as int;
            while self.peek() != escape && !self.is_eof()
                invariant
                    self.wf(),
                    self.source == old(self).source,
                    src == self.source@,
                    self.start == old(self).start,
                    self.line == old(self).line,
                    self.tokens == old(self).tokens,
                    self.errors == old(self).errors,
                    from <= self.current,
                    run_end(src, from, Run::Until(escape)) == run_end(
                        src,
                        self.current as int,
                        Run::Until(escape),
                    ),
                decreases self.source.len() - self.current,
            {
                self.advance();
            }
            assert(run_end(src, self.current as int, Run::Until(escape)) == self.current);
        } else {
            self.add_token(on_found);
        }
    }

    /// The keyword that the current lexeme spells, if it spells one.
    fn keyword_to_token(&self) -> (k: Option<TokenType>)
        requires
            self.wf(),
        ensures
            k == keyword(self.source@.subrange(self.start as int, self.current as int)),
    {
        let from = self.start;
        let to = self.current;
        if spells(&self.source, from, to, "and") {
            Some(TokenType::And)
        } else if spells(&self.source, from, to, "break") {
            Some(TokenType::Break)
        } else if spells(&self.source, from, to, "class") {
            Some(TokenType::Class)
        } else if spells(&self.source, from, to, "else") {
            Some(TokenType::Else)
        } else if spells(&self.source, from, to, "false") {
            Some(TokenType::False)
        } else if spells(&self.source, from, to, "for") {
            Some(TokenType::For)
        } else if spells(&self.source, from, to, "fun") {
            Some(TokenType::Fun)
        } else if spells(&self.source, from, to, "if") {
            Some(TokenType::If)
        } else if spells(&self.source, from, to, "nil") {
            Some(TokenType::Nil)
        } else if spells(&self.source, from, to, "while") {
            Some(TokenType::While)
        } else if spells(&self.source, from, to, "or") {
            Some(TokenType::Or)
        } else if spells(&self.source, from, to, "print") {
            Some(TokenType::Print)
        } else if spells(&self.source, from, to, "return") {
            Some(TokenType::Return)
        } else if spells(&self.source, from, to, "super") {
            Some(TokenType::Super)
        } else if spells(&self.source, from, to, "this") {
            Some(TokenType::This)
        } else if spells(&self.source, from, to, "true") {
            Some(TokenType::True)
        } else if spells(&self.source, from, to, "var") {
            Some(TokenType::Var)
        } else {
            None
        }
    }
}

/// Powers of ten grow with the exponent.
proof fn lemma_pow10_grows(a: nat, b: nat)
    requires
        a <= b,
    ensures
        pow10(a) <= pow10(b),
        pow10(a) >= 1,
    decreases b,
{
    if a < b {
        lemma_pow10_grows(a, (b - 1) as nat);
    } else if a > 0 {
        lemma_pow10_grows((a - 1) as nat, (a - 1) as nat);
    }
}

} // verus!
