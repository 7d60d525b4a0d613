use rlox::env::Env;
use rlox::err::LoxError;
use rlox::interpreter::{apply_binary, apply_unary, level_of, ControlFlow, Value};
use rlox::number::Number;
use rlox::scanner::{Literal, Token, TokenType};

fn units(u: i128) -> Number {
    Number::from_units(u).expect("in range")
}

fn name(lexeme: &str) -> Token {
    Token::new(TokenType::Identifier, lexeme.to_string(), None, 7)
}

fn text(v: Option<Value>) -> Option<String> {
    v.map(|v| v.to_string())
}

#[test]
fn error_reports_line_place_and_message() {
    let e = LoxError::new(12, "+".to_string(), "Operand must be number");
    assert_eq!(e.line, 12);
    assert_eq!(e.to_string(), "[line 12] Error +: Operand must be number");
    let at = LoxError::at_token(&name("x"), "Undefined variable");
    assert_eq!(at, LoxError::new(7, "x".to_string(), "Undefined variable"));
    assert_eq!(LoxError::runtime_error(&name("x"), "m"), LoxError::new(7, "x".to_string(), "m"));
    assert_eq!(LoxError::new(0, String::new(), "").to_string(), "[line 0] Error : ");
}

#[test]
fn number_arithmetic_is_exact() {
    let a = units(1_500_000_000);
    let b = units(-250_000_000);
    assert_eq!(a.add(b), Some(units(1_250_000_000)));
    assert_eq!(a.sub(b), Some(units(1_750_000_000)));
    assert_eq!(a.mul(b), Some(units(-375_000_000)));
    assert_eq!(a.div(b), Some(units(-6_000_000_000)));
    assert_eq!(a.neg(), units(-1_500_000_000));
    assert_eq!(units(1_000_000_000).div(units(3_000_000_000)), Some(units(333_333_333)));
    assert_eq!(units(-1_000_000_000).div(units(3_000_000_000)), Some(units(-333_333_333)));
    assert_eq!(units(1).mul(units(999_999_999)), Some(units(0)));
    assert_eq!(units(-7).mul(units(500_000_000)), Some(units(-3)));
    assert_eq!(a.div(Number::zero()), None);
    assert!(b.lt(a) && b.le(a) && !a.lt(a) && a.le(a) && a.same(a) && !a.same(b));
    assert_eq!(a.whole(), 1);
    assert_eq!(units(-2_900_000_000).whole(), -2);
    assert_eq!(Number::from_i64(-3), units(-3_000_000_000));
    assert_eq!(Number::from_parts(true, 2, 5), Some(units(-2_000_000_005)));
    assert_eq!(Number::from_parts(false, 2, 1_000_000_000), None);
}

#[test]
fn number_range_is_ten_to_the_nineteenth() {
    let limit: i128 = 10_000_000_000_000_000_000_000_000_000;
    assert_eq!(Number::from_units(limit).map(|n| n.units()), Some(limit));
    assert_eq!(Number::from_units(limit + 1), None);
    assert_eq!(Number::from_units(-limit - 1), None);
    let top = units(limit);
    assert_eq!(top.add(units(1)), None);
    assert_eq!(top.neg().sub(units(1)), None);
    assert_eq!(top.mul(units(1_000_000_001)), None);
    assert_eq!(top.mul(units(1_000_000_000)), Some(top));
    assert_eq!(top.div(units(999_999_999)), None);
    assert_eq!(top.div(units(-1_000_000_000)), Some(top.neg()));
}

#[test]
fn numbers_are_written_without_trailing_zeros() {
    assert_eq!(units(0).to_string(), "0");
    assert_eq!(units(3_000_000_000).to_string(), "3");
    assert_eq!(units(-3_500_000_000).to_string(), "-3.5");
    assert_eq!(units(1).to_string(), "0.000000001");
    assert_eq!(units(-120_030_000).to_string(), "-0.12003");
    assert_eq!(units(1_234_567_890_123_456_789).to_string(), "1234567890.123456789");
}

#[test]
fn only_nil_and_false_count_as_false() {
    assert!(!Value::Nil.is_truthy());
    assert!(!Value::Bool(false).is_truthy());
    assert!(Value::Bool(true).is_truthy());
    assert!(Value::Number(Number::zero()).is_truthy());
    assert!(Value::Str(String::new()).is_truthy());
    assert!(Value::Str("a".to_string()).is_truthy());
}

#[test]
fn values_are_written_as_their_kind_says() {
    assert_eq!(Value::Nil.to_string(), "<NIL>");
    assert_eq!(Value::Bool(true).to_string(), "true");
    assert_eq!(Value::Bool(false).to_string(), "false");
    assert_eq!(Value::Str("a b".to_string()).to_string(), "a b");
    assert_eq!(Value::Number(units(2_500_000_000)).to_string(), "2.5");
    assert_eq!(Value::default().to_string(), "<NIL>");
}

#[test]
fn literals_become_values() {
    assert_eq!(Literal::Nil.evaluate().to_string(), "<NIL>");
    assert_eq!(Literal::Boolean(true).evaluate().to_string(), "true");
    assert_eq!(Literal::String("s".to_string()).evaluate().to_string(), "s");
    assert_eq!(Literal::Integer(4).evaluate().to_string(), "4");
    assert_eq!(Literal::Float(units(250_000_000)).evaluate().to_string(), "0.25");
}

#[test]
fn operators_check_their_operands() {
    let minus = Token::new(TokenType::Minus, "-".to_string(), None, 3);
    let bang = Token::new(TokenType::Bang, "!".to_string(), None, 3);
    let comma = Token::new(TokenType::Comma, ",".to_string(), None, 3);
    let star = Token::new(TokenType::Star, "*".to_string(), None, 3);
    let one = Value::Number(units(1_000_000_000));
    let s = Value::Str("s".to_string());
    assert_eq!(apply_unary(&minus, &one).map(|v| v.to_string()), Ok("-1".to_string()));
    assert_eq!(apply_unary(&bang, &Value::Nil).map(|v| v.to_string()), Ok("true".to_string()));
    assert_eq!(apply_unary(&bang, &one).map(|v| v.to_string()), Ok("false".to_string()));
    assert_eq!(
        apply_unary(&minus, &s).map(|v| v.to_string()),
        Err(LoxError::new(3, "-".to_string(), "Operand of '-' must be a number"))
    );
    assert_eq!(
        apply_unary(&comma, &s).map(|v| v.to_string()),
        Err(LoxError::new(3, ",".to_string(), "Invalid unary operator"))
    );
    assert_eq!(
        apply_binary(&comma, &one, &one).map(|v| v.to_string()),
        Err(LoxError::new(3, ",".to_string(), "Invalid binary operator"))
    );
    let top = Value::Number(units(10_000_000_000_000_000_000_000_000_000));
    assert_eq!(
        apply_binary(&star, &top, &top).map(|v| v.to_string()),
        Err(LoxError::new(3, "*".to_string(), "Number out of range"))
    );
}

#[test]
fn break_level_is_a_whole_number_from_one_on() {
    assert!(matches!(level_of(&Value::Number(units(2_900_000_000))), Ok(ControlFlow::Break(2))));
    assert!(matches!(level_of(&Value::Number(units(1_000_000_000))), Ok(ControlFlow::Break(1))));
    assert_eq!(
        level_of(&Value::Number(units(999_999_999))).map(|_| ()),
        Err(LoxError::new(0, "break".to_string(), "Break level must be at least one"))
    );
    assert_eq!(
        level_of(&Value::Nil).map(|_| ()),
        Err(LoxError::new(0, "break".to_string(), "Break level must be a number"))
    );
}

#[test]
fn environment_looks_names_up_from_the_innermost_scope() {
    let mut env = Env::new();
    assert_eq!(text(env.get(&name("x"))), None);
    env.define("x".to_string(), Value::Bool(true));
    env.push_scope();
    assert_eq!(text(env.get(&name("x"))), Some("true".to_string()));
    env.define("x".to_string(), Value::Nil);
    env.define("y".to_string(), Value::Str("why".to_string()));
    assert_eq!(text(env.get(&name("x"))), Some("<NIL>".to_string()));
    env.define("x".to_string(), Value::Bool(false));
    assert_eq!(text(env.get(&name("x"))), Some("false".to_string()));
    env.pop_scope();
    assert_eq!(text(env.get(&name("x"))), Some("true".to_string()));
    assert_eq!(text(env.get(&name("y"))), None);
    env.pop_scope();
    assert_eq!(env.current(), 0);
    assert_eq!(text(env.get(&name("x"))), Some("true".to_string()));
}

#[test]
fn assignment_changes_the_nearest_scope_that_holds_the_name() {
    let mut env = Env::new();
    env.define("x".to_string(), Value::Bool(true));
    env.push_scope();
    assert_eq!(env.assign(&name("x"), Value::Nil), Ok(()));
    assert_eq!(
        env.assign(&name("z"), Value::Nil),
        Err(LoxError::new(7, "z".to_string(), "Undefined variable"))
    );
    env.define("x".to_string(), Value::Bool(false));
    assert_eq!(env.assign(&name("x"), Value::Str("in".to_string())), Ok(()));
    assert_eq!(text(env.get(&name("x"))), Some("in".to_string()));
    env.pop_scope();
    assert_eq!(text(env.get(&name("x"))), Some("<NIL>".to_string()));
    assert_eq!(env.frames(), 2);
}
