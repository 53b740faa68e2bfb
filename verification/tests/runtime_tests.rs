use zsp::parser::program::parse;
use zsp::parser::tokens::{Constant, Symbol, Token};
use zsp::parser::tree::{ExpressionFragment, Root};
use zsp::runtime::{get_var, set_var, Action, Input, Machine, Phase, ScopeType};

fn toks(syms: Vec<Symbol>) -> Vec<Token> {
    syms.into_iter()
        .enumerate()
        .map(|(i, symbol)| Token { symbol, index: 2 * i })
        .collect()
}

fn name(s: &str) -> Symbol {
    Symbol::Name(s.to_string())
}

fn num(n: u32) -> Symbol {
    Symbol::Constant(Constant::Number(n))
}

fn program(syms: Vec<Symbol>) -> Root {
    parse(toks(syms), &vec![]).unwrap()
}

fn is_continue(a: &Action) -> bool {
    matches!(a, Action::Continue)
}

#[test]
fn variables_read_back_what_was_set() {
    let mut v: Vec<(String, usize)> = vec![];
    set_var(&mut v, &"x".to_string(), 3);
    set_var(&mut v, &"y".to_string(), 4);
    assert_eq!(get_var(&v, &"x".to_string()), Some(3));
    set_var(&mut v, &"x".to_string(), 7);
    assert_eq!(get_var(&v, &"x".to_string()), Some(7));
    assert_eq!(get_var(&v, &"y".to_string()), Some(4));
    assert_eq!(get_var(&v, &"z".to_string()), None);
    assert_eq!(v.len(), 2);
}

#[test]
fn walk_with_loop_and_break() {
    // x = 1  loop { break }  put (x)
    let root = program(vec![
        name("x"),
        Symbol::Assign,
        num(1),
        Symbol::Loop,
        Symbol::BlockStart,
        Symbol::Break,
        Symbol::BlockEnd,
        name("put"),
        Symbol::ParenStart,
        name("x"),
        Symbol::ParenEnd,
    ]);
    let mut m = Machine::new(&root.root, ScopeType::Function, vec![]);
    assert!(is_continue(&m.step(Input::Continue)));
    match m.step(Input::Continue) {
        Action::Initialize { variable, value } => {
            assert_eq!(variable, "x");
            assert_eq!(value, &vec![ExpressionFragment::Constant(Constant::Number(1))]);
        }
        _ => panic!("expected an initialization"),
    }
    assert_eq!(m.phase, Phase::AwaitInit);
    assert!(is_continue(&m.step(Input::Cell(0))));
    assert_eq!(get_var(m.top_variables(), &"x".to_string()), Some(0));
    // the loop opens a scope that sees x
    assert!(is_continue(&m.step(Input::Continue)));
    assert_eq!(m.stack.len(), 2);
    assert_eq!(get_var(m.top_variables(), &"x".to_string()), Some(0));
    assert!(is_continue(&m.step(Input::Continue)));
    // break leaves the loop scope
    assert!(is_continue(&m.step(Input::Continue)));
    assert_eq!(m.stack.len(), 1);
    assert!(is_continue(&m.step(Input::Continue)));
    assert!(matches!(m.step(Input::Continue), Action::Call(_)));
    assert!(is_continue(&m.step(Input::Continue)));
    assert_eq!(m.stack.len(), 0);
    assert!(matches!(m.step(Input::Continue), Action::Done));
}

#[test]
fn break_outside_a_loop_is_an_error() {
    let root = program(vec![name("put"), num(1), Symbol::Break]);
    let mut m = Machine::new(&root.root, ScopeType::Function, vec![]);
    assert!(is_continue(&m.step(Input::Continue)));
    assert!(matches!(m.step(Input::Continue), Action::Call(_)));
    assert!(matches!(m.step(Input::Continue), Action::InvalidBreak(4)));
    assert_eq!(m.phase, Phase::Finished);
    assert!(matches!(m.step(Input::Continue), Action::Done));
}

#[test]
fn for_loop_checks_runs_and_increments() {
    // for i 0 i < 2 i = i + 1 { put i }
    let root = program(vec![
        Symbol::For,
        name("i"),
        num(0),
        name("i"),
        Symbol::Op(zsp::interpreter::lexer::Op::LessThan),
        num(2),
        name("i"),
        Symbol::Assign,
        name("i"),
        Symbol::Op(zsp::interpreter::lexer::Op::Plus),
        num(1),
        Symbol::BlockStart,
        name("put"),
        name("i"),
        Symbol::BlockEnd,
    ]);
    let mut m = Machine::new(&root.root, ScopeType::Function, vec![]);
    assert!(is_continue(&m.step(Input::Continue)));
    assert!(matches!(m.step(Input::Continue), Action::StartFor { .. }));
    assert!(is_continue(&m.step(Input::Cell(5))));
    assert_eq!(get_var(m.top_variables(), &"i".to_string()), Some(5));
    assert!(matches!(m.step(Input::Continue), Action::CheckFor(_)));
    assert!(is_continue(&m.step(Input::Bool(true))));
    assert!(matches!(m.step(Input::Continue), Action::Call(_)));
    match m.step(Input::Continue) {
        Action::Increment(b) => assert_eq!(b.children.len(), 1),
        _ => panic!("expected the incrementing block"),
    }
    assert!(is_continue(&m.step(Input::Continue)));
    assert!(matches!(m.step(Input::Continue), Action::CheckFor(_)));
    assert!(is_continue(&m.step(Input::Bool(false))));
    assert_eq!(m.stack.len(), 1);
    assert!(is_continue(&m.step(Input::Continue)));
    assert!(is_continue(&m.step(Input::Continue)));
    assert!(matches!(m.step(Input::Continue), Action::Done));
}

#[test]
fn if_takes_the_false_block() {
    let root = program(vec![
        Symbol::If,
        num(0),
        Symbol::BlockStart,
        name("put"),
        num(1),
        Symbol::BlockEnd,
        Symbol::Else,
        Symbol::BlockStart,
        name("put"),
        num(2),
        Symbol::BlockEnd,
    ]);
    let mut m = Machine::new(&root.root, ScopeType::Function, vec![]);
    assert!(is_continue(&m.step(Input::Continue)));
    assert!(matches!(m.step(Input::Continue), Action::Branch(_)));
    assert!(is_continue(&m.step(Input::Bool(false))));
    assert_eq!(m.stack.len(), 2);
    assert!(is_continue(&m.step(Input::Continue)));
    match m.step(Input::Continue) {
        Action::Call(v) => match &v.root {
            zsp::parser::tree::VarRefRoot::Call(c) => {
                assert_eq!(c.args, vec![vec![ExpressionFragment::Constant(Constant::Number(2))]])
            }
            _ => panic!("expected a call"),
        },
        _ => panic!("expected a call"),
    }
}

#[test]
fn return_finishes_the_walk() {
    let root = program(vec![Symbol::Return, num(5), Symbol::Break]);
    let mut m = Machine::new(&root.root, ScopeType::Function, vec![]);
    assert!(is_continue(&m.step(Input::Continue)));
    assert!(matches!(m.step(Input::Continue), Action::Return(_)));
    assert_eq!(m.phase, Phase::Finished);
    assert!(matches!(m.step(Input::Continue), Action::Done));
}
