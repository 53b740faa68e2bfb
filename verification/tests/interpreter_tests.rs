use zsp::interpreter::exceptions::{exception, rtexception, rule_width};
use zsp::interpreter::lexer::{lex, Constant, Op, Symbol, Token};
use zsp::interpreter::value::{
    apply_op, checked_pow, evaluate_values, values_equal, ExpressionVal, Value, ValueError,
};

fn tok(symbol: Symbol, index: usize) -> Token {
    Token { symbol, index }
}

#[test]
fn lex_words_numbers_and_keywords() {
    let t = lex("x = 12\nput x".to_string());
    assert_eq!(
        t,
        vec![
            tok(Symbol::Name("x".to_string()), 1),
            tok(Symbol::Assign, 3),
            tok(Symbol::Constant(Constant::Number(12)), 6),
            tok(Symbol::Name("put".to_string()), 10),
            tok(Symbol::Name("x".to_string()), 12),
        ]
    );
}

#[test]
fn lex_string_literal() {
    let t = lex("s = \"a b\"".to_string());
    assert_eq!(
        t,
        vec![
            tok(Symbol::Name("s".to_string()), 1),
            tok(Symbol::Assign, 3),
            tok(Symbol::Constant(Constant::String("a b".to_string())), 8),
        ]
    );
}

#[test]
fn lex_interrupts_and_operators() {
    let t = lex("(1+2)".to_string());
    assert_eq!(
        t,
        vec![
            tok(Symbol::ParenStart, 0),
            tok(Symbol::Constant(Constant::Number(1)), 2),
            tok(Symbol::Op(Op::Plus), 2),
            tok(Symbol::Constant(Constant::Number(2)), 4),
            tok(Symbol::ParenEnd, 4),
        ]
    );
    let t = lex("a <= b && true".to_string());
    let syms: Vec<Symbol> = t.into_iter().map(|t| t.symbol).collect();
    assert_eq!(
        syms,
        vec![
            Symbol::Name("a".to_string()),
            Symbol::Op(Op::LessThanOrEqualTo),
            Symbol::Name("b".to_string()),
            Symbol::Op(Op::And),
            Symbol::Constant(Constant::Bool(true)),
        ]
    );
}

#[test]
fn lex_empty_input() {
    assert_eq!(lex(String::new()), vec![]);
}

#[test]
fn value_conversions() {
    assert!(Value::Number(5).to_bool());
    assert!(!Value::Number(0).to_bool());
    assert!(!Value::Number(-2).to_bool());
    assert!(Value::String("true".to_string()).to_bool());
    assert!(!Value::String("yes".to_string()).to_bool());
    assert!(!Value::Null.to_bool());
    assert_eq!(Value::String("12".to_string()).to_number(), 12);
    assert_eq!(Value::String("x".to_string()).to_number(), 0);
    assert_eq!(Value::Bool(true).to_number(), 1);
    assert_eq!(Value::Null.to_number(), 0);
    assert_eq!(Value::Number(-3).to_string(), "-3");
    assert_eq!(Value::Bool(false).to_string(), "false");
    assert_eq!(Value::Null.to_string(), "");
    assert_eq!(Value::Number(7).cast(Value::String(String::new())), Value::String("7".to_string()));
    assert_eq!(Value::String("9".to_string()).cast(Value::Number(0)), Value::Number(9));
    assert_eq!(Value::Number(1).cast(Value::Bool(false)), Value::Bool(true));
}

#[test]
fn operators() {
    let n = |x: i64| Value::Number(x);
    assert_eq!(apply_op(Op::Plus, &n(2), &n(3)), Ok(n(5)));
    assert_eq!(apply_op(Op::Minus, &n(2), &n(3)), Ok(n(-1)));
    assert_eq!(apply_op(Op::Multiply, &n(4), &n(3)), Ok(n(12)));
    assert_eq!(apply_op(Op::Divide, &n(-7), &n(2)), Ok(n(-3)));
    assert_eq!(apply_op(Op::Divide, &n(1), &n(0)), Err(ValueError::DivisionByZero));
    assert_eq!(apply_op(Op::Multiply, &n(i64::MAX), &n(2)), Err(ValueError::Overflow));
    assert_eq!(apply_op(Op::Power, &n(2), &n(10)), Ok(n(1024)));
    assert_eq!(apply_op(Op::LessThan, &n(2), &n(3)), Ok(Value::Bool(true)));
    assert_eq!(apply_op(Op::GreaterThanOrEqualTo, &n(2), &n(3)), Ok(Value::Bool(false)));
    // `==` compares the values, `!=` their truth
    assert_eq!(apply_op(Op::EqualTo, &n(1), &n(2)), Ok(Value::Bool(false)));
    assert_eq!(apply_op(Op::NotEqualTo, &n(1), &n(2)), Ok(Value::Bool(false)));
    assert_eq!(apply_op(Op::NotEqualTo, &n(1), &n(0)), Ok(Value::Bool(true)));
    assert_eq!(apply_op(Op::Not, &n(1), &n(0)), Ok(Value::Bool(true)));
    assert_eq!(apply_op(Op::And, &n(1), &n(0)), Ok(Value::Bool(false)));
    assert_eq!(apply_op(Op::Or, &n(1), &n(0)), Ok(Value::Bool(true)));
    assert_eq!(checked_pow(3, 4), Some(81));
    assert_eq!(checked_pow(2, 63), None);
    assert!(values_equal(&Value::String("a".to_string()), &Value::String("a".to_string())));
    assert!(!values_equal(&Value::Number(1), &Value::Bool(true)));
}

#[test]
fn expressions_fold_left_to_right() {
    let vals = vec![
        ExpressionVal::Value(Value::Number(1)),
        ExpressionVal::Op(Op::Plus),
        ExpressionVal::Value(Value::Number(2)),
        ExpressionVal::Op(Op::Multiply),
        ExpressionVal::Value(Value::Number(3)),
    ];
    assert_eq!(evaluate_values(vals), Ok(Value::Number(9)));
    let vals = vec![
        ExpressionVal::Value(Value::Number(1)),
        ExpressionVal::Op(Op::Divide),
        ExpressionVal::Value(Value::Number(0)),
        ExpressionVal::Op(Op::Plus),
        ExpressionVal::Value(Value::Number(3)),
    ];
    assert_eq!(evaluate_values(vals), Err(ValueError::DivisionByZero));
}

#[test]
fn interpreter_exception_reports() {
    let src = "a = 1\nb = x\n".to_string();
    let r = exception(&src, 10, "NameError", "no x");
    assert_eq!(r.position.line, 1);
    assert_eq!(r.position.column, 5);
    assert_eq!(r.source_line, "b = x");
    assert_eq!(r.errtype, "NameError");
    assert_eq!(r.message, "no x");
    let r = rtexception(&src, 12, "E", "m");
    assert_eq!(r.message, "RUNTIME EXCEPTION: m");
    // split('\n') gives the empty line after the final break
    assert_eq!(r.position.line, 2);
    assert_eq!(r.source_line, "");
    assert_eq!(rule_width(5, "NameError"), 23);
}

#[test]
fn numbers_survive_text() {
    for n in [0i64, 7, -42, i64::MAX, i64::MIN] {
        let text = Value::Number(n).to_string();
        assert_eq!(Value::String(text).to_number(), n);
    }
}
