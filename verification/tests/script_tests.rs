use zsp::script::{
    consume_std, evaluate_expression, interpret, split_bool, split_expression, split_string,
    ScriptError, Variable,
};

fn run(program: &str) -> (Vec<String>, Result<(), ScriptError>) {
    let mut out = Vec::new();
    let r = interpret(program, &mut out);
    (out, r)
}

#[test]
fn split_string_first_occurrence() {
    assert_eq!(split_string("add 1,2", " "), ("add".to_string(), "1,2".to_string()));
    assert_eq!(split_string("a\nb\nc", "\n"), ("a".to_string(), "b\nc".to_string()));
    assert_eq!(split_string("abc", "\n"), ("abc".to_string(), String::new()));
    assert_eq!(split_string("", "\n"), (String::new(), String::new()));
}

#[test]
fn split_string_counts_bytes_as_characters() {
    // "é" is two bytes: the cut lands one character late.
    assert_eq!(split_string("é x", " "), ("é ".to_string(), "".to_string()));
}

#[test]
fn split_expression_respects_quotes() {
    assert_eq!(
        split_expression("\"a,b\",c".to_string(), ','),
        vec!["\"a,b\"".to_string(), "c".to_string()]
    );
    assert_eq!(split_expression(String::new(), ','), vec![String::new()]);
    assert_eq!(
        split_expression("1 + 2".to_string(), ' '),
        vec!["1".to_string(), "+".to_string(), "2".to_string()]
    );
}

#[test]
fn split_bool_parts() {
    let (t, f, rem) = split_bool("print 1\nelse\nprint 2\nfi\nprint 3");
    assert_eq!(t, "print 1\n");
    assert_eq!(f, "\nprint 2\n");
    assert_eq!(rem, "fi\nprint 3");
}

#[test]
fn evaluate_arithmetic_left_to_right() {
    let mut out = Vec::new();
    match evaluate_expression("1 + 2 * 3", &mut out) {
        Ok(Variable::Int(n)) => assert_eq!(n, 9),
        other => panic!("unexpected {:?}", other),
    }
    assert_eq!(out, vec!["evaluating the expression 1 + 2 * 3".to_string()]);
}

#[test]
fn evaluate_string_concatenation() {
    let mut out = Vec::new();
    match evaluate_expression("\"ab\" + 3 + true", &mut out) {
        Ok(Variable::Str(s)) => assert_eq!(s, "ab3true"),
        other => panic!("unexpected {:?}", other),
    }
}

#[test]
fn evaluate_errors() {
    let mut out = Vec::new();
    assert_eq!(evaluate_expression("1 2", &mut out).unwrap_err(), ScriptError::MissingOperator);
    assert_eq!(evaluate_expression("1 / 0", &mut out).unwrap_err(), ScriptError::DivisionByZero);
    assert_eq!(evaluate_expression("true - 1", &mut out).unwrap_err(), ScriptError::CannotSubtract);
    assert_eq!(evaluate_expression("1 == 1", &mut out).unwrap_err(), ScriptError::NotABool);
    assert_eq!(evaluate_expression("2147483647 + 1", &mut out).unwrap_err(), ScriptError::IntegerOverflow);
    assert_eq!(evaluate_expression("1  + 1", &mut out).unwrap_err(), ScriptError::EmptyWord);
    assert_eq!(evaluate_expression("+", &mut out).unwrap_err(), ScriptError::EmptyExpression);
}

#[test]
fn unknown_words_are_reported() {
    let mut out = Vec::new();
    match evaluate_expression("x 5", &mut out) {
        Ok(Variable::Int(n)) => assert_eq!(n, 5),
        other => panic!("unexpected {:?}", other),
    }
    assert_eq!(out[1], "error occured when parsing couldn't find expression x");
}

#[test]
fn program_prints() {
    let (out, r) = run("print 1 + 2\nprint \"hi\"");
    assert_eq!(r, Ok(()));
    assert_eq!(
        out,
        vec![
            "evaluating the expression 1 + 2".to_string(),
            "from code: 3".to_string(),
            "evaluating the expression \"hi\"".to_string(),
            "from code: hi".to_string(),
        ]
    );
}

#[test]
fn program_if_true() {
    let mut out = Vec::new();
    let rem = consume_std("if true\nprint 1\nfi\nprint 2", &mut out).unwrap();
    assert_eq!(rem, "");
    assert_eq!(out.last().unwrap(), "from code: 1");
}

#[test]
fn program_unknown_keyword() {
    let (out, r) = run("hello world");
    assert_eq!(r, Ok(()));
    assert_eq!(out, vec!["keyword hello is not defined at line hello world".to_string()]);
}

#[test]
fn program_condition_must_be_bool() {
    let (_, r) = run("if 1\nprint 1\nfi");
    assert_eq!(r, Err(ScriptError::ConditionNotBool));
}

