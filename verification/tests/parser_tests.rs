use zsp::interpreter::lexer::{Constant as C, Op, Symbol as S};
use zsp::parser::parse::parse_block;
use zsp::parser::program::{find_loads, initial_funsyms, make_funsyms, parse};
use zsp::parser::rules::ParseError;
use zsp::parser::scan::{next_symbol, next_symbol_block};
use zsp::parser::tokens::{Constant, Symbol, SymbolKind, Token};
use zsp::parser::tree::{
    Block, Call, ExpressionFragment, Frag, Fragment, Function, VarRef, VarRefFragment, VarRefRoot,
};

/// Tokens at positions 0, 2, 4, ... of the source.
fn toks(syms: Vec<Symbol>) -> Vec<Token> {
    syms.into_iter()
        .enumerate()
        .map(|(i, symbol)| Token { symbol, index: 2 * i })
        .collect()
}

fn name(s: &str) -> Symbol {
    Symbol::Name(s.to_string())
}

fn num(n: u32) -> Symbol {
    Symbol::Constant(Constant::Number(n))
}

fn cnum(n: u32) -> ExpressionFragment {
    ExpressionFragment::Constant(Constant::Number(n))
}

fn var(s: &str) -> ExpressionFragment {
    ExpressionFragment::VarRef(VarRef {
        root: VarRefRoot::Variable(s.to_string()),
        operations: vec![],
    })
}

fn call(n: &str, args: Vec<Vec<ExpressionFragment>>) -> VarRef {
    VarRef { root: VarRefRoot::Call(Call { name: n.to_string(), args }), operations: vec![] }
}

fn strings(v: &[&str]) -> Vec<String> {
    v.iter().map(|s| s.to_string()).collect()
}

fn no_lib() -> Vec<(String, Vec<String>)> {
    vec![]
}

#[test]
fn parse_initializes_a_variable() {
    let t = toks(vec![name("x"), Symbol::Assign, num(5)]);
    let root = parse(t, &no_lib()).unwrap();
    assert_eq!(root.root.variables, strings(&["x"]));
    assert_eq!(
        root.root.children,
        vec![Fragment {
            frag: Frag::Initialize { variable: "x".to_string(), value: vec![cnum(5)] },
            index: 4
        }]
    );
    assert!(root.functions.is_empty());
}

#[test]
fn parse_builtin_call_and_assignment() {
    // x = 1 ; x = x + 2 ; put (x)
    let t = toks(vec![
        name("x"),
        Symbol::Assign,
        num(1),
        name("x"),
        Symbol::Assign,
        name("x"),
        Symbol::Op(Op::Plus),
        num(2),
        name("put"),
        Symbol::ParenStart,
        name("x"),
        Symbol::ParenEnd,
    ]);
    let root = parse(t, &no_lib()).unwrap();
    assert_eq!(root.root.variables, strings(&["x"]));
    assert_eq!(root.root.children.len(), 3);
    assert_eq!(
        root.root.children[1].frag,
        Frag::Assignment {
            variable: VarRef { root: VarRefRoot::Variable("x".to_string()), operations: vec![] },
            value: vec![var("x"), ExpressionFragment::Op(Op::Plus), cnum(2)],
        }
    );
    assert_eq!(root.root.children[2].frag, Frag::Call(call("put", vec![vec![ExpressionFragment::Expression(vec![var("x")])]])));
    assert_eq!(root.root.children[2].index, 16);
}

#[test]
fn parse_defines_functions() {
    // mod a b { return a }  put (mod 7 3)
    let t = toks(vec![
        name("mod"),
        name("a"),
        name("b"),
        Symbol::BlockStart,
        Symbol::Return,
        name("a"),
        Symbol::BlockEnd,
        name("put"),
        Symbol::ParenStart,
        name("mod"),
        num(7),
        num(3),
        Symbol::ParenEnd,
    ]);
    let root = parse(t, &no_lib()).unwrap();
    assert_eq!(root.functions.len(), 1);
    let (fname, f) = &root.functions[0];
    assert_eq!(fname, "mod");
    assert_eq!(f.args, strings(&["a", "b"]));
    assert_eq!(f.source.variables, strings(&["a", "b"]));
    assert_eq!(
        f.source.children,
        vec![Fragment { frag: Frag::Return(vec![var("a")]), index: 8 }]
    );
    let inner = call("mod", vec![vec![cnum(7)], vec![cnum(3)]]);
    assert_eq!(
        root.root.children[0].frag,
        Frag::Call(call(
            "put",
            vec![vec![ExpressionFragment::Expression(vec![ExpressionFragment::VarRef(inner)])]]
        ))
    );
}

#[test]
fn parse_library_functions_are_known() {
    let lib = vec![("twice".to_string(), strings(&["n"]))];
    let t = toks(vec![name("twice"), num(4)]);
    let root = parse(t, &lib).unwrap();
    assert_eq!(root.root.children[0].frag, Frag::Call(call("twice", vec![vec![cnum(4)]])));
    // without the library the name is unknown
    let t = toks(vec![name("twice"), num(4)]);
    assert_eq!(parse(t, &no_lib()).unwrap_err(), ParseError::UnexpectedName(0, "twice".to_string()));
}

#[test]
fn builtins_replace_library_functions() {
    let lib = vec![("put".to_string(), strings(&["a", "b"]))];
    let fs = initial_funsyms(&lib);
    assert_eq!(fs.len(), 9);
    assert_eq!(fs[0].name, "put");
    assert_eq!(fs[0].args.len(), 1);
    let names: Vec<&str> = fs.iter().map(|f| f.name.as_str()).collect();
    assert_eq!(names, vec!["put", "get", "exit", "assert", "array", "object", "len", "null", "panic"]);
}

#[test]
fn parse_if_else() {
    // if 1 { put 1 } else { put 2 }
    let t = toks(vec![
        Symbol::If,
        num(1),
        Symbol::BlockStart,
        name("put"),
        num(1),
        Symbol::BlockEnd,
        Symbol::Else,
        Symbol::BlockStart,
        name("put"),
        num(2),
        Symbol::BlockEnd,
    ]);
    let root = parse(t, &no_lib()).unwrap();
    assert_eq!(root.root.children.len(), 1);
    let expected = Frag::If {
        condition: vec![cnum(1)],
        trueblock: Block {
            children: vec![Fragment { frag: Frag::Call(call("put", vec![vec![cnum(1)]])), index: 6 }],
            variables: vec![],
        },
        falseblock: Some(Block {
            children: vec![Fragment {
                frag: Frag::Call(call("put", vec![vec![cnum(2)]])),
                index: 16,
            }],
            variables: vec![],
        }),
    };
    assert_eq!(root.root.children[0].frag, expected);
    assert_eq!(root.root.children[0].index, 18);
}

#[test]
fn parse_if_without_else_at_end() {
    let t = toks(vec![Symbol::If, num(1), Symbol::BlockStart, Symbol::Break, Symbol::BlockEnd]);
    let root = parse(t, &no_lib()).unwrap();
    match &root.root.children[0].frag {
        Frag::If { falseblock, trueblock, .. } => {
            assert!(falseblock.is_none());
            assert_eq!(trueblock.children, vec![Fragment { frag: Frag::Break, index: 6 }]);
        }
        other => panic!("unexpected {:?}", other),
    }
}

#[test]
fn parse_loop_and_block() {
    // loop { break } { x = 1 }
    let t = toks(vec![
        Symbol::Loop,
        Symbol::BlockStart,
        Symbol::Break,
        Symbol::BlockEnd,
        Symbol::BlockStart,
        name("x"),
        Symbol::Assign,
        num(1),
        Symbol::BlockEnd,
    ]);
    let root = parse(t, &no_lib()).unwrap();
    assert_eq!(root.root.children.len(), 2);
    assert_eq!(
        root.root.children[0],
        Fragment {
            frag: Frag::Loop(Block {
                children: vec![Fragment { frag: Frag::Break, index: 4 }],
                variables: vec![]
            }),
            index: 0
        }
    );
    match &root.root.children[1].frag {
        Frag::Block(b) => assert_eq!(b.variables, strings(&["x"])),
        other => panic!("unexpected {:?}", other),
    }
    // the inner variable does not leak out
    assert!(root.root.variables.is_empty());
}

#[test]
fn parse_for_statement() {
    // for i 0 i < 3 i = i + 1 { put i }
    let t = toks(vec![
        Symbol::For,
        name("i"),
        num(0),
        name("i"),
        Symbol::Op(Op::LessThan),
        num(3),
        name("i"),
        Symbol::Assign,
        name("i"),
        Symbol::Op(Op::Plus),
        num(1),
        Symbol::BlockStart,
        name("put"),
        name("i"),
        Symbol::BlockEnd,
    ]);
    let root = parse(t, &no_lib()).unwrap();
    match &root.root.children[0].frag {
        Frag::For { name, initial, condition, incrementor, block } => {
            assert_eq!(name, "i");
            assert_eq!(initial, &vec![cnum(0)]);
            assert_eq!(condition, &vec![var("i"), ExpressionFragment::Op(Op::LessThan), cnum(3)]);
            assert_eq!(incrementor.children.len(), 1);
            assert_eq!(block.children[0].frag, Frag::Call(call("put", vec![vec![var("i")]])));
        }
        other => panic!("unexpected {:?}", other),
    }
    assert_eq!(root.root.children[0].index, 28);
}

#[test]
fn parse_lambda_and_operations() {
    // f = |a| { return a }  o = object  o.k = f  o.k(1)  x = o[0]  put (x)
    // (the token after an index expression closes it and is skipped)
    let t = toks(vec![
        name("f"),
        Symbol::Assign,
        Symbol::Lambda,
        name("a"),
        Symbol::Lambda,
        Symbol::BlockStart,
        Symbol::Return,
        name("a"),
        Symbol::BlockEnd,
        name("o"),
        Symbol::Assign,
        name("object"),
        name("o"),
        Symbol::IndexObject,
        name("k"),
        Symbol::Assign,
        name("f"),
        name("o"),
        Symbol::IndexObject,
        name("k"),
        Symbol::ParenStart,
        num(1),
        Symbol::ParenEnd,
        name("x"),
        Symbol::Assign,
        name("o"),
        Symbol::IndexStart,
        num(0),
        Symbol::ParenEnd,
        name("put"),
        Symbol::ParenStart,
        name("x"),
        Symbol::ParenEnd,
    ]);
    let root = parse(t, &no_lib()).unwrap();
    assert_eq!(root.root.variables, strings(&["f", "o", "x"]));
    assert_eq!(root.root.children.len(), 6);
    // the lambda's body is parsed from its opening brace, so it holds one
    // nested block, which sees the parameter twice
    let lambda_body = Block {
        children: vec![Fragment { frag: Frag::Return(vec![var("a")]), index: 12 }],
        variables: strings(&["a", "a"]),
    };
    assert_eq!(
        root.root.children[0].frag,
        Frag::Initialize {
            variable: "f".to_string(),
            value: vec![ExpressionFragment::Lambda(Function {
                args: strings(&["a"]),
                source: Block {
                    children: vec![Fragment { frag: Frag::Block(lambda_body), index: 10 }],
                    variables: strings(&["a"]),
                },
            })],
        }
    );
    assert_eq!(
        root.root.children[2].frag,
        Frag::Assignment {
            variable: VarRef {
                root: VarRefRoot::Variable("o".to_string()),
                operations: vec![VarRefFragment::ObjectProperty("k".to_string())],
            },
            value: vec![var("f")],
        }
    );
    assert_eq!(
        root.root.children[3].frag,
        Frag::Call(VarRef {
            root: VarRefRoot::Variable("o".to_string()),
            operations: vec![VarRefFragment::ObjectCall {
                name: "k".to_string(),
                args: vec![vec![cnum(1)]],
            }],
        })
    );
    assert_eq!(
        root.root.children[4].frag,
        Frag::Initialize {
            variable: "x".to_string(),
            value: vec![ExpressionFragment::VarRef(VarRef {
                root: VarRefRoot::Variable("o".to_string()),
                operations: vec![VarRefFragment::IndexInto(vec![cnum(0)])],
            })],
        }
    );
    assert_eq!(root.root.children[4].index, 54);
    assert_eq!(root.root.children[5].frag, Frag::Call(call("put", vec![vec![ExpressionFragment::Expression(vec![var("x")])]])));
}

#[test]
fn parse_errors() {
    // an undefined name in an argument
    let t = toks(vec![name("put"), name("y"), num(1)]);
    assert_eq!(parse(t, &no_lib()).unwrap_err(), ParseError::UnexpectedName(2, "y".to_string()));
    // a call whose last argument is a bare name at the very end: the scan
    // for definitions reads that name as the start of one and runs off the
    // end of the tokens
    let t = toks(vec![name("x"), Symbol::Assign, num(1), name("put"), name("x")]);
    assert_eq!(parse(t, &no_lib()).unwrap_err(), ParseError::OutOfRange);
    // too few arguments: reported at the called name
    let t = toks(vec![name("assert"), num(1)]);
    assert_eq!(parse(t, &no_lib()).unwrap_err(), ParseError::NotEnoughArguments(0));
    // an unclosed block
    let t = toks(vec![Symbol::Loop, Symbol::BlockStart, Symbol::Break]);
    assert_eq!(parse(t, &no_lib()).unwrap_err(), ParseError::EndOfInput(3));
    // a symbol that cannot start a statement
    let t = toks(vec![Symbol::ParenEnd]);
    assert_eq!(parse(t, &no_lib()).unwrap_err(), ParseError::UnexpectedSymbol(0, Symbol::ParenEnd));
    // else if
    let t = toks(vec![
        Symbol::If,
        num(1),
        Symbol::BlockStart,
        name("put"),
        num(1),
        Symbol::BlockEnd,
        Symbol::Else,
        Symbol::If,
        num(2),
        Symbol::BlockStart,
        name("put"),
        num(2),
        Symbol::BlockEnd,
    ]);
    assert_eq!(parse(t, &no_lib()).unwrap_err(), ParseError::Unsupported);
    // an empty `if` block: the scan for its end starts past the brace
    let t = toks(vec![Symbol::If, num(1), Symbol::BlockStart, Symbol::BlockEnd, name("put"), num(1)]);
    assert_eq!(parse(t, &no_lib()).unwrap_err(), ParseError::EndOfInput(6));
    // a new name at the very end
    let t = toks(vec![name("y")]);
    assert_eq!(parse(t, &no_lib()).unwrap_err(), ParseError::OutOfRange);
    // an operator where an operand belongs
    let t = toks(vec![name("put"), Symbol::Op(Op::Plus)]);
    assert_eq!(parse(t, &no_lib()).unwrap_err(), ParseError::UnexpectedSymbol(2, Symbol::Op(Op::Plus)));
}

#[test]
fn find_loads_removes_pairs() {
    let mut t = toks(vec![Symbol::Load, name("fs"), name("x"), Symbol::Assign, Symbol::Load, name("http"), num(1)]);
    let loads = find_loads(&mut t).unwrap();
    assert_eq!(loads, strings(&["fs", "http"]));
    let syms: Vec<Symbol> = t.iter().map(|t| t.symbol.clone()).collect();
    assert_eq!(syms, vec![name("x"), Symbol::Assign, num(1)]);
    // the law: no load left, two tokens per loaded name
    assert!(t.iter().all(|t| t.symbol != Symbol::Load));
    assert_eq!(t.len() + 2 * loads.len(), 7);
}

#[test]
fn find_loads_without_loads_keeps_tokens() {
    let orig = toks(vec![name("x"), Symbol::Assign, num(1)]);
    let mut t = orig.clone();
    assert_eq!(find_loads(&mut t).unwrap(), Vec::<String>::new());
    assert_eq!(t, orig);
}

#[test]
fn find_loads_errors() {
    let mut t = toks(vec![Symbol::Load, num(3)]);
    assert_eq!(find_loads(&mut t).unwrap_err(), ParseError::UnexpectedSymbol(2, num(3)));
    let mut t = toks(vec![name("x"), Symbol::Load]);
    assert_eq!(find_loads(&mut t).unwrap_err(), ParseError::OutOfRange);
}

#[test]
fn make_funsyms_steps_over_known_functions() {
    // put "hi"  f { put "x" } : the call of `put` does not hide `f`
    let s = |x: &str| Symbol::Constant(Constant::String(x.to_string()));
    let mut t = toks(vec![
        name("put"),
        s("hi"),
        name("f"),
        Symbol::BlockStart,
        name("put"),
        s("x"),
        Symbol::BlockEnd,
    ]);
    let mut fs = initial_funsyms(&no_lib());
    make_funsyms(&mut t, &mut fs).unwrap();
    let syms: Vec<Symbol> = t.iter().map(|k| k.symbol.clone()).collect();
    assert_eq!(syms, vec![name("put"), s("hi")]);
    assert_eq!(fs.len(), 10);
    assert_eq!(fs[9].name, "f");
    assert_eq!(fs[9].args, Vec::<String>::new());
    let body: Vec<Symbol> = fs[9].source.as_ref().unwrap().iter().map(|k| k.symbol.clone()).collect();
    assert_eq!(body, vec![name("put"), s("x")]);
    // f { } put 1 : `f` is defined first
    let mut t = toks(vec![name("f"), Symbol::BlockStart, Symbol::BlockEnd, name("put"), num(1)]);
    let mut fs = initial_funsyms(&no_lib());
    let before: Vec<String> = fs.iter().map(|f| f.name.clone()).collect();
    make_funsyms(&mut t, &mut fs).unwrap();
    assert_eq!(t.len(), 2);
    assert_eq!(fs.len(), 10);
    // the functions known before keep their places
    let after: Vec<String> = fs.iter().take(9).map(|f| f.name.clone()).collect();
    assert_eq!(after, before);
    assert_eq!(fs[9].name, "f");
    assert_eq!(fs[9].source, Some(vec![]));
}

#[test]
fn block_variables_law_example() {
    // a block with arguments and two new variables, inside a scope
    let t = toks(vec![name("x"), Symbol::Assign, num(1), name("y"), Symbol::Assign, name("p")]);
    let fs = initial_funsyms(&no_lib());
    let b = parse_block(&t, &fs, &strings(&["outer"]), &strings(&["p"]), 0, t.len()).unwrap();
    assert_eq!(b.variables, strings(&["outer", "p", "x", "y"]));
}

#[test]
fn closing_symbols() {
    let t = toks(vec![
        Symbol::ParenStart,
        Symbol::ParenStart,
        Symbol::ParenEnd,
        Symbol::ParenEnd,
        Symbol::BlockEnd,
    ]);
    assert_eq!(next_symbol_block(&t, 0, SymbolKind::ParenStart, SymbolKind::ParenEnd), Ok(3));
    assert_eq!(next_symbol_block(&t, 1, SymbolKind::ParenStart, SymbolKind::ParenEnd), Ok(2));
    assert_eq!(
        next_symbol_block(&t, 4, SymbolKind::ParenStart, SymbolKind::ParenEnd),
        Err(ParseError::EndOfInput(5))
    );
    assert_eq!(
        next_symbol_block(&t, 5, SymbolKind::ParenStart, SymbolKind::ParenEnd),
        Err(ParseError::OutOfRange)
    );
    assert_eq!(next_symbol(&t, 1, SymbolKind::BlockEnd), Ok(4));
    assert_eq!(next_symbol(&t, 0, SymbolKind::Name), Err(ParseError::EndOfInput(5)));
    assert_eq!(next_symbol(&t, 9, SymbolKind::Name), Err(ParseError::OutOfRange));
}

/// The block parser's tokens for the tokenizer's, numbers as float bits.
fn from_words(t: Vec<zsp::interpreter::lexer::Token>) -> Vec<Token> {
    t.into_iter()
        .map(|w| {
            let symbol = match w.symbol {
                S::Assign => Symbol::Assign,
                S::If => Symbol::If,
                S::BlockStart => Symbol::BlockStart,
                S::BlockEnd => Symbol::BlockEnd,
                S::ParenStart => Symbol::ParenStart,
                S::ParenEnd => Symbol::ParenEnd,
                S::Name(n) => Symbol::Name(n),
                S::Constant(C::String(s)) => Symbol::Constant(Constant::String(s)),
                S::Constant(C::Number(n)) => Symbol::Constant(Constant::Number((n as f32).to_bits())),
                S::Constant(C::Bool(b)) => Symbol::Constant(Constant::Bool(b)),
                S::Op(o) => Symbol::Op(o),
                S::Return => Symbol::Return,
                S::Loop => Symbol::Loop,
                S::Break => Symbol::Break,
                S::Else => Symbol::Else,
                S::Load => Symbol::Load,
                S::For => Symbol::For,
            };
            Token { symbol, index: w.index }
        })
        .collect()
}

#[test]
fn fizzbuzz_parses() {
    let src = "mod a b{
    r = a
    loop{
        r = r - b
        if r < b{
            return r
        }
    }
}
for counter 0 counter < 100 counter = counter + 1{
    by3 = (mod counter 3) == 0
    by5 = (mod counter 5) == 0

    if by3 && by5 {
        put \"FizzBuzz\"
    }else{
        if by3 && (by5 == false){
            put \"Fizz\"
        }
        if by5 && (by3 == false){
            put \"Buzz\"
        }
        if (by5 == false) && (by3 == false){
            put counter
        }
    }
}
";
    let tokens = from_words(zsp::interpreter::lexer::lex(src.to_string()));
    let root = parse(tokens, &no_lib()).unwrap();
    assert_eq!(root.functions.len(), 1);
    assert_eq!(root.functions[0].0, "mod");
    assert_eq!(root.functions[0].1.args, strings(&["a", "b"]));
    assert_eq!(root.root.children.len(), 1);
    match &root.root.children[0].frag {
        Frag::For { name, block, .. } => {
            assert_eq!(name, "counter");
            assert_eq!(block.variables, strings(&["counter", "by3", "by5"]));
            assert_eq!(block.children.len(), 3);
            match &block.children[2].frag {
                Frag::If { falseblock: Some(fb), .. } => assert_eq!(fb.children.len(), 3),
                other => panic!("unexpected {:?}", other),
            }
        }
        other => panic!("unexpected {:?}", other),
    }
}

#[test]
fn a_defined_name_is_defined_once() {
    // f { return 1 }  f { return 2 }: the second `f` is a call of the first
    let t = toks(vec![
        name("f"),
        Symbol::BlockStart,
        Symbol::Return,
        num(1),
        Symbol::BlockEnd,
        name("f"),
    ]);
    let root = parse(t, &no_lib()).unwrap();
    assert_eq!(root.functions.len(), 1);
    assert_eq!(root.functions[0].0, "f");
    assert_eq!(root.root.children[0].frag, Frag::Call(call("f", vec![])));
}

#[test]
fn an_expression_cannot_start_with_an_operator() {
    let t = toks(vec![name("x"), Symbol::Assign, Symbol::Op(Op::Plus), num(1)]);
    assert_eq!(parse(t, &no_lib()).unwrap_err(), ParseError::UnexpectedSymbol(4, Symbol::Op(Op::Plus)));
    let t = toks(vec![name("x"), Symbol::Assign, num(1), Symbol::Op(Op::Plus), num(2)]);
    let root = parse(t, &no_lib()).unwrap();
    assert_eq!(
        root.root.children[0].frag,
        Frag::Initialize {
            variable: "x".to_string(),
            value: vec![cnum(1), ExpressionFragment::Op(Op::Plus), cnum(2)]
        }
    );
}
