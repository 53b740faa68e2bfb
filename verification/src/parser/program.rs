//! A whole program: library loads, function definitions, the top-level block
//! and the bodies of the functions it defines.
use crate::parser::parse::{ctx_of, parse_block};
use crate::parser::rules::{
    is_first_sym, known, m, sp_block, sp_next_symbol, sp_next_symbol_block, Ctx, ParseError,
};
use crate::parser::scan::{
    find_sym, lemma_first_sym_unique, next_symbol, next_symbol_block, MAX_TOKENS,
};
use crate::parser::tokens::{
    copy_names, copy_symbol, lemma_names_view_push, names_view, Symbol, SymbolKind, Token,
};
use crate::parser::tree::{
    block_view, function_view, funsym_view, funsyms_view, BlockV, FunSym, FunSymV, Function,
    FunctionV, Root,
};
use vstd::prelude::*;

verus! {

/// The model of a parsed program.
pub struct RootV {
    pub root: BlockV,
    pub functions: Seq<(Seq<char>, FunctionV)>,
}

pub open spec fn functions_view(s: Seq<(String, Function)>) -> Seq<(Seq<char>, FunctionV)> {
    s.map_values(|p: (String, Function)| (p.0@, function_view(p.1)))
}

pub open spec fn root_res(r: Result<Root, ParseError>) -> Result<RootV, ParseError> {
    match r {
        Ok(x) => Ok(RootV { root: block_view(x.root), functions: functions_view(x.functions@) }),
        Err(e) => Err(e),
    }
}

// ---------------------------------------------------------------------------
// Library loads

/// The tokens without their `load NAME` pairs, and the loaded names in order.
pub open spec fn sp_strip_loads(t: Seq<Token>) -> Result<(Seq<Token>, Seq<Seq<char>>), ParseError>
    decreases t.len(),
{
    if t.len() == 0 {
        Ok((Seq::empty(), Seq::empty()))
    } else if t[0].symbol is Load {
        if t.len() < 2 {
            Err(ParseError::OutOfRange)
        } else {
            match t[1].symbol {
                Symbol::Name(l) => match sp_strip_loads(t.skip(2)) {
                    Ok((rest, ls)) => Ok((rest, seq![l@] + ls)),
                    Err(e) => Err(e),
                },
                _ => Err(ParseError::UnexpectedSymbol(t[1].index, t[1].symbol)),
            }
        }
    } else {
        match sp_strip_loads(t.skip(1)) {
            Ok((rest, ls)) => Ok((seq![t[0]] + rest, ls)),
            Err(e) => Err(e),
        }
    }
}

pub proof fn lemma_prepend_load(
    p: Seq<Token>,
    ls: Seq<Seq<char>>,
    l: Seq<char>,
    x: Result<(Seq<Token>, Seq<Seq<char>>), ParseError>,
)
    ensures
        prepend(
            p,
            ls,
            match x {
                Ok((rest, l2)) => Ok((rest, seq![l] + l2)),
                Err(e) => Err(e),
            },
        ) == prepend(p, ls.push(l), x),
{
    match x {
        Ok((rest, l2)) => {
            assert(ls + (seq![l] + l2) =~= ls.push(l) + l2);
        },
        Err(e) => {},
    }
}

pub proof fn lemma_prepend_keep(
    p: Seq<Token>,
    ls: Seq<Seq<char>>,
    tk: Token,
    x: Result<(Seq<Token>, Seq<Seq<char>>), ParseError>,
)
    ensures
        prepend(
            p,
            ls,
            match x {
                Ok((rest, l2)) => Ok((seq![tk] + rest, l2)),
                Err(e) => Err(e),
            },
        ) == prepend(p.push(tk), ls, x),
{
    match x {
        Ok((rest, l2)) => {
            assert(p + (seq![tk] + rest) =~= p.push(tk) + rest);
        },
        Err(e) => {},
    }
}

pub open spec fn prepend(
    p: Seq<Token>,
    ls: Seq<Seq<char>>,
    r: Result<(Seq<Token>, Seq<Seq<char>>), ParseError>,
) -> Result<(Seq<Token>, Seq<Seq<char>>), ParseError> {
    match r {
        Ok((rest, l2)) => Ok((p + rest, ls + l2)),
        Err(e) => Err(e),
    }
}

/// Removes each `load NAME` pair from the tokens and returns the names, in
/// the order in which they stand.
pub fn find_loads(tokens: &mut Vec<Token>) -> (r: Result<Vec<String>, ParseError>)
    ensures
        match r {
            Ok(ls) => sp_strip_loads(old(tokens)@) == Ok::<
                (Seq<Token>, Seq<Seq<char>>),
                ParseError,
            >((final(tokens)@, names_view(ls@))),
            Err(e) => sp_strip_loads(old(tokens)@) == Err::<
                (Seq<Token>, Seq<Seq<char>>),
                ParseError,
            >(e),
        },
{
    let ghost orig = tokens@;
    let mut loads: Vec<String> = Vec::new();
    let mut idx: usize = 0;
    assert(orig.skip(0) =~= orig);
    assert(orig.take(0) =~= Seq::<Token>::empty());
    assert(names_view(loads@) =~= Seq::<Seq<char>>::empty());
    while idx < tokens.len()
        invariant
            orig == old(tokens)@,
            idx <= tokens.len(),
            sp_strip_loads(orig) == prepend(
                tokens@.take(idx as int),
                names_view(loads@),
                sp_strip_loads(tokens@.skip(idx as int)),
            ),
        decreases tokens.len() - idx,
    {
        let ghost cur = tokens@;
        let ghost rest = cur.skip(idx as int);
        assert(rest.len() == cur.len() - idx && rest[0] == cur[idx as int]);
        if matches!(tokens[idx].symbol, Symbol::Load) {
            if idx + 1 >= tokens.len() {
                return Err(ParseError::OutOfRange);
            }
            assert(rest[1] == cur[idx + 1]);
            let name = match &tokens[idx + 1].symbol {
                Symbol::Name(l) => l.clone(),
                _ => {
                    return Err(ParseError::UnexpectedSymbol(tokens[idx + 1].index, copy_symbol(&tokens[idx + 1].symbol)));
                },
            };
            proof {
                lemma_names_view_push(loads@, name);
                assert(rest.skip(2) =~= cur.skip(idx + 2));
                lemma_prepend_load(
                    cur.take(idx as int),
                    names_view(loads@),
                    name@,
                    sp_strip_loads(cur.skip(idx + 2)),
                );
            }
            loads.push(name);
            tokens.remove(idx);
            tokens.remove(idx);
            proof {
                assert(tokens@.take(idx as int) =~= cur.take(idx as int));
                assert(tokens@.skip(idx as int) =~= cur.skip(idx + 2));
                assert(names_view(loads@) =~= names_view(loads@).drop_last() + seq![name@]);
            }
        } else {
            proof {
                assert(rest.skip(1) =~= cur.skip(idx + 1));
                assert(cur.take(idx + 1) =~= cur.take(idx as int).push(cur[idx as int]));
                lemma_prepend_keep(
                    cur.take(idx as int),
                    names_view(loads@),
                    cur[idx as int],
                    sp_strip_loads(cur.skip(idx + 1)),
                );
            }
            idx += 1;
        }
    }
    proof {
        assert(tokens@.take(idx as int) =~= tokens@);
        assert(tokens@.skip(idx as int) =~= Seq::<Token>::empty());
        assert(names_view(loads@) + Seq::<Seq<char>>::empty() =~= names_view(loads@));
    }
    Ok(loads)
}

// ---------------------------------------------------------------------------
// Function definitions

/// What follows a name that is not a known function: its parameter names up
/// to a block (a definition), or the position where the scan stopped.
pub enum Header {
    Stop(int),
    Body(Seq<Seq<char>>, int),
}

pub open spec fn sp_header(t: Seq<Token>, fname: Seq<char>, j: int, args: Seq<Seq<char>>) -> Result<
    Header,
    ParseError,
>
    decreases t.len() - j,
{
    if j < 0 || j >= t.len() {
        Err(ParseError::OutOfRange)
    } else {
        match t[j].symbol {
            Symbol::BlockStart => Ok(Header::Body(args, j)),
            Symbol::Name(a) => if a@ == fname {
                Ok(Header::Stop(j))
            } else {
                sp_header(t, fname, j + 1, args.push(a@))
            },
            _ => Ok(Header::Stop(j)),
        }
    }
}

/// The tokens and known functions after taking out the function definitions
/// from position `idx` on. A definition is a new name, its parameter names
/// and a block; it leaves the tokens and becomes a known function whose
/// source is the block's inside. A use of a known function is stepped over,
/// so calls do not keep later definitions from being found.
pub open spec fn sp_make_funsyms(t: Seq<Token>, fs: Seq<FunSymV>, idx: int) -> Result<
    (Seq<Token>, Seq<FunSymV>),
    ParseError,
>
    decreases m(t.len() as int, idx),
{
    if idx < 0 || idx >= t.len() {
        Ok((t, fs))
    } else {
        match t[idx].symbol {
            Symbol::Name(fname) => if known(fs, fname@) {
                sp_make_funsyms(t, fs, idx + 1)
            } else {
                match sp_header(t, fname@, idx + 1, Seq::empty()) {
                    Err(e) => Err(e),
                    Ok(Header::Stop(j)) => if j > idx {
                        sp_make_funsyms(t, fs, j)
                    } else {
                        Err(ParseError::OutOfRange)
                    },
                    Ok(Header::Body(args, j)) => match sp_next_symbol_block(
                        t,
                        j,
                        SymbolKind::BlockStart,
                        SymbolKind::BlockEnd,
                    ) {
                        Err(e) => Err(e),
                        Ok(e) => if idx < j < e < t.len() {
                            sp_make_funsyms(
                                t.take(idx) + t.skip(e + 1),
                                fs.push(
                                    FunSymV {
                                        name: fname@,
                                        source: Some(t.subrange(j + 1, e)),
                                        args,
                                    },
                                ),
                                idx,
                            )
                        } else {
                            Err(ParseError::OutOfRange)
                        },
                    },
                }
            },
            Symbol::If => match sp_next_symbol(t, idx + 1, SymbolKind::BlockEnd) {
                Err(e) => Err(e),
                Ok(x) => if x > idx {
                    sp_make_funsyms(t, fs, x)
                } else {
                    Err(ParseError::OutOfRange)
                },
            },
            Symbol::Load => sp_make_funsyms(t, fs, idx + 2),
            _ => sp_make_funsyms(t, fs, idx + 1),
        }
    }
}

/// Every function source fits the parser's limit.
pub open spec fn sources_fit(fs: Seq<FunSym>) -> bool {
    forall|i: int|
        0 <= i < fs.len() ==> ((#[trigger] fs[i]).source matches Some(s) ==> s.len() < MAX_TOKENS)
}

pub proof fn lemma_funsyms_view_push(fs: Seq<FunSym>, x: FunSym)
    ensures
        funsyms_view(fs.push(x)) == funsyms_view(fs).push(funsym_view(x)),
{
    assert(funsyms_view(fs.push(x)) =~= funsyms_view(fs).push(funsym_view(x)));
}

/// The parameter names after a name, up to a block or to where the scan
/// stops.
fn scan_header(t: &Vec<Token>, fname: &String, j: usize) -> (r: Result<
    (bool, Vec<String>, usize),
    ParseError,
>)
    ensures
        match r {
            Ok((true, args, k)) => sp_header(t@, fname@, j as int, Seq::empty()) == Ok::<
                Header,
                ParseError,
            >(Header::Body(names_view(args@), k as int)) && j <= k < t.len(),
            Ok((false, _, k)) => sp_header(t@, fname@, j as int, Seq::empty()) == Ok::<
                Header,
                ParseError,
            >(Header::Stop(k as int)) && j <= k < t.len(),
            Err(e) => sp_header(t@, fname@, j as int, Seq::empty()) == Err::<Header, ParseError>(
                e,
            ),
        },
{
    let mut args: Vec<String> = Vec::new();
    let mut k = j;
    assert(names_view(args@) =~= Seq::<Seq<char>>::empty());
    loop
        invariant
            j <= k,
            sp_header(t@, fname@, k as int, names_view(args@)) == sp_header(
                t@,
                fname@,
                j as int,
                Seq::empty(),
            ),
        decreases t.len() - k,
    {
        if k >= t.len() {
            return Err(ParseError::OutOfRange);
        }
        match &t[k].symbol {
            Symbol::BlockStart => {
                return Ok((true, args, k));
            },
            Symbol::Name(a) => {
                if *a == *fname {
                    return Ok((false, args, k));
                }
                proof {
                    lemma_names_view_push(args@, *a);
                }
                args.push(a.clone());
            },
            _ => {
                return Ok((false, args, k));
            },
        }
        k += 1;
    }
}

/// Takes the function definitions out of the tokens and adds them to the
/// known functions, scanning from the start (see `sp_make_funsyms`).
pub fn make_funsyms(tokens: &mut Vec<Token>, fs: &mut Vec<FunSym>) -> (r: Result<(), ParseError>)
    requires
        old(tokens).len() < MAX_TOKENS,
        sources_fit(old(fs)@),
    ensures
        match r {
            Ok(()) => sp_make_funsyms(old(tokens)@, funsyms_view(old(fs)@), 0) == Ok::<
                (Seq<Token>, Seq<FunSymV>),
                ParseError,
            >((final(tokens)@, funsyms_view(final(fs)@))),
            Err(e) => sp_make_funsyms(old(tokens)@, funsyms_view(old(fs)@), 0) == Err::<
                (Seq<Token>, Seq<FunSymV>),
                ParseError,
            >(e),
        },
        final(tokens).len() <= old(tokens).len(),
        sources_fit(final(fs)@),
{
    let ghost orig_t = tokens@;
    let ghost orig_fs = funsyms_view(fs@);
    let mut idx: usize = 0;
    loop
        invariant
            orig_t == old(tokens)@,
            orig_fs == funsyms_view(old(fs)@),
            tokens.len() <= orig_t.len(),
            orig_t.len() < MAX_TOKENS,
            sources_fit(fs@),
            sp_make_funsyms(tokens@, funsyms_view(fs@), idx as int) == sp_make_funsyms(
                orig_t,
                orig_fs,
                0,
            ),
        decreases m(tokens.len() as int, idx as int),
    {
        if idx >= tokens.len() {
            return Ok(());
        }
        let sym = copy_symbol(&tokens[idx].symbol);
        match sym {
            Symbol::Name(fname) => {
                if find_sym(fs, &fname).is_some() {
                    idx = idx + 1;
                    continue;
                }
                let (is_body, args, j) = match scan_header(tokens, &fname, idx + 1) {
                    Ok(x) => x,
                    Err(e) => {
                        return Err(e);
                    },
                };
                if !is_body {
                    idx = j;
                } else {
                    let e = match next_symbol_block(
                        tokens,
                        j,
                        SymbolKind::BlockStart,
                        SymbolKind::BlockEnd,
                    ) {
                        Ok(x) => x,
                        Err(err) => {
                            return Err(err);
                        },
                    };
                    let ghost t0 = tokens@;
                    let mut tail = tokens.split_off(e + 1);
                    let mut mid = tokens.split_off(idx);
                    tokens.append(&mut tail);
                    let mut body = mid.split_off(j + 1 - idx);
                    body.pop();
                    proof {
                        assert(tokens@ =~= t0.take(idx as int) + t0.skip(e + 1));
                        assert(body@ =~= t0.subrange(j + 1, e as int));
                    }
                    let f = FunSym { name: fname, source: Some(body), args };
                    proof {
                        lemma_funsyms_view_push(fs@, f);
                    }
                    fs.push(f);
                }
            },
            Symbol::If => {
                let x = match next_symbol(tokens, idx + 1, SymbolKind::BlockEnd) {
                    Ok(x) => x,
                    Err(e) => {
                        return Err(e);
                    },
                };
                idx = x;
            },
            Symbol::Load => {
                idx = idx + 2;
            },
            _ => {
                idx = idx + 1;
            },
        }
    }
}

// ---------------------------------------------------------------------------
// Function bodies and the whole program

/// The functions that the first `k` known functions define: each one with a
/// source becomes its parameters and its parsed body, in the scope `vars`.
pub open spec fn sp_make_functions(fs: Seq<FunSymV>, vars: Seq<Seq<char>>, k: int) -> Result<
    Seq<(Seq<char>, FunctionV)>,
    ParseError,
>
    decreases k,
{
    if k <= 0 {
        Ok(Seq::empty())
    } else {
        match sp_make_functions(fs, vars, k - 1) {
            Err(e) => Err(e),
            Ok(acc) => match fs[k - 1].source {
                None => Ok(acc),
                Some(src) => match sp_block(
                    Ctx { t: src, fs },
                    vars,
                    fs[k - 1].args,
                    0,
                    src.len() as int,
                ) {
                    Err(e) => Err(e),
                    Ok(b) => Ok(
                        acc.push((fs[k - 1].name, FunctionV { args: fs[k - 1].args, source: b })),
                    ),
                },
            },
        }
    }
}

/// An error in the first `k` functions is the error of all of them.
pub proof fn lemma_make_functions_err(fs: Seq<FunSymV>, vars: Seq<Seq<char>>, k: int, k2: int)
    requires
        k <= k2,
        sp_make_functions(fs, vars, k) is Err,
    ensures
        sp_make_functions(fs, vars, k2) == sp_make_functions(fs, vars, k),
    decreases k2 - k,
{
    if k < k2 {
        lemma_make_functions_err(fs, vars, k, k2 - 1);
    }
}

/// Parses the body of each function that the program defines.
pub fn make_functions(fs: &Vec<FunSym>, vars: &Vec<String>) -> (r: Result<
    Vec<(String, Function)>,
    ParseError,
>)
    requires
        sources_fit(fs@),
    ensures
        match r {
            Ok(v) => sp_make_functions(funsyms_view(fs@), names_view(vars@), fs.len() as int)
                == Ok::<Seq<(Seq<char>, FunctionV)>, ParseError>(functions_view(v@)),
            Err(e) => sp_make_functions(funsyms_view(fs@), names_view(vars@), fs.len() as int)
                == Err::<Seq<(Seq<char>, FunctionV)>, ParseError>(e),
        },
{
    let ghost fsv = funsyms_view(fs@);
    let mut out: Vec<(String, Function)> = Vec::new();
    let mut i: usize = 0;
    assert(functions_view(out@) =~= Seq::<(Seq<char>, FunctionV)>::empty());
    while i < fs.len()
        invariant
            i <= fs.len(),
            fsv == funsyms_view(fs@),
            sources_fit(fs@),
            sp_make_functions(fsv, names_view(vars@), i as int) == Ok::<
                Seq<(Seq<char>, FunctionV)>,
                ParseError,
            >(functions_view(out@)),
        decreases fs.len() - i,
    {
        assert(fsv[i as int] == funsym_view(fs@[i as int]));
        match &fs[i].source {
            Some(src) => {
                assert(fs@[i as int].source matches Some(s) ==> s.len() < MAX_TOKENS);
                let b = match parse_block(src, fs, vars, &fs[i].args, 0, src.len()) {
                    Ok(x) => x,
                    Err(e) => {
                        proof {
                            lemma_make_functions_err(fsv, names_view(vars@), i + 1, fs.len() as int);
                        }
                        return Err(e);
                    },
                };
                let p = (fs[i].name.clone(), Function { args: copy_names(&fs[i].args), source: b });
                proof {
                    assert(functions_view(out@.push(p)) =~= functions_view(out@).push(
                        (p.0@, function_view(p.1)),
                    ));
                }
                out.push(p);
            },
            None => {},
        }
        i += 1;
    }
    Ok(out)
}

/// A known function without source, with the given name and parameter
/// names.
pub open spec fn plain_sym(name: Seq<char>, args: Seq<Seq<char>>) -> FunSymV {
    FunSymV { name, source: None, args }
}

/// The known functions after adding `s`: it takes the place of the function
/// of the same name, or comes last.
pub open spec fn insert_sym(fs: Seq<FunSymV>, s: FunSymV) -> Seq<FunSymV> {
    if known(fs, s.name) {
        fs.update(choose|i: int| is_first_sym(fs, s.name, i), s)
    } else {
        fs.push(s)
    }
}

/// The library functions added in order to `fs`.
pub open spec fn insert_lib(fs: Seq<FunSymV>, lib: Seq<(String, Vec<String>)>) -> Seq<FunSymV>
    decreases lib.len(),
{
    if lib.len() == 0 {
        fs
    } else {
        insert_sym(
            insert_lib(fs, lib.drop_last()),
            plain_sym(lib.last().0@, names_view(lib.last().1@)),
        )
    }
}

/// `n` empty parameter names: the builtins' parameters are only counted.
pub open spec fn blank_args(n: nat) -> Seq<Seq<char>> {
    Seq::new(n, |i: int| Seq::<char>::empty())
}

/// The functions known before a program is read: the library's, then the
/// builtins, which take the place of library functions of the same name.
pub open spec fn initial_syms(lib: Seq<(String, Vec<String>)>) -> Seq<FunSymV> {
    let fs = insert_lib(Seq::empty(), lib);
    let fs = insert_sym(fs, plain_sym("put"@, blank_args(1)));
    let fs = insert_sym(fs, plain_sym("get"@, blank_args(0)));
    let fs = insert_sym(fs, plain_sym("exit"@, blank_args(0)));
    let fs = insert_sym(fs, plain_sym("assert"@, blank_args(2)));
    let fs = insert_sym(fs, plain_sym("array"@, blank_args(0)));
    let fs = insert_sym(fs, plain_sym("object"@, blank_args(0)));
    let fs = insert_sym(fs, plain_sym("len"@, blank_args(1)));
    let fs = insert_sym(fs, plain_sym("null"@, blank_args(0)));
    insert_sym(fs, plain_sym("panic"@, blank_args(0)))
}

/// Adds a function without source, replacing one of the same name.
fn add_sym(fs: &mut Vec<FunSym>, name: String, args: Vec<String>)
    requires
        sources_fit(old(fs)@),
    ensures
        funsyms_view(final(fs)@) == insert_sym(
            funsyms_view(old(fs)@),
            plain_sym(name@, names_view(args@)),
        ),
        sources_fit(final(fs)@),
{
    let ghost v = funsyms_view(fs@);
    let f = FunSym { name, source: None, args };
    match find_sym(fs, &f.name) {
        Some(i) => {
            proof {
                lemma_first_sym_unique(v, f.name@, i as int);
            }
            let ghost k = choose|k: int| is_first_sym(v, f.name@, k);
            proof {
                assert(is_first_sym(v, f.name@, k));
                if k < i {
                    assert(v[k].name != f.name@);
                } else if k > i {
                    assert(v[i as int].name != f.name@);
                }
            }
            fs[i] = f;
            proof {
                assert(funsyms_view(fs@) =~= v.update(i as int, funsym_view(f)));
            }
        },
        None => {
            proof {
                lemma_funsyms_view_push(fs@, f);
            }
            fs.push(f);
        },
    }
}

/// `n` empty parameter names.
fn blank_names(n: usize) -> (v: Vec<String>)
    ensures
        names_view(v@) == blank_args(n as nat),
{
    let mut v: Vec<String> = Vec::new();
    let mut i: usize = 0;
    while i < n
        invariant
            i <= n,
            names_view(v@) =~= blank_args(i as nat),
        decreases n - i,
    {
        let e = String::new();
        proof {
            lemma_names_view_push(v@, e);
        }
        v.push(e);
        i += 1;
    }
    v
}

/// The functions known before a program is read: the library functions
/// `lib` (name and parameter names), then the builtins.
pub fn initial_funsyms(lib: &Vec<(String, Vec<String>)>) -> (fs: Vec<FunSym>)
    ensures
        funsyms_view(fs@) == initial_syms(lib@),
        sources_fit(fs@),
{
    let mut fs: Vec<FunSym> = Vec::new();
    let mut i: usize = 0;
    assert(funsyms_view(fs@) =~= Seq::<FunSymV>::empty());
    while i < lib.len()
        invariant
            i <= lib.len(),
            sources_fit(fs@),
            funsyms_view(fs@) == insert_lib(Seq::empty(), lib@.take(i as int)),
        decreases lib.len() - i,
    {
        let name = lib[i].0.clone();
        let args = copy_names(&lib[i].1);
        add_sym(&mut fs, name, args);
        proof {
            assert(lib@.take(i + 1).drop_last() =~= lib@.take(i as int));
        }
        i += 1;
    }
    assert(lib@.take(lib.len() as int) =~= lib@);
    add_sym(&mut fs, "put".to_owned(), blank_names(1));
    add_sym(&mut fs, "get".to_owned(), blank_names(0));
    add_sym(&mut fs, "exit".to_owned(), blank_names(0));
    add_sym(&mut fs, "assert".to_owned(), blank_names(2));
    add_sym(&mut fs, "array".to_owned(), blank_names(0));
    add_sym(&mut fs, "object".to_owned(), blank_names(0));
    add_sym(&mut fs, "len".to_owned(), blank_names(1));
    add_sym(&mut fs, "null".to_owned(), blank_names(0));
    add_sym(&mut fs, "panic".to_owned(), blank_names(0));
    fs
}

/// What `parse` computes: the definitions taken out of the tokens, the
/// remaining tokens parsed as the top-level block, and each definition's body
/// parsed in the scope of that block's variables.
pub open spec fn sp_parse(t: Seq<Token>, lib: Seq<(String, Vec<String>)>) -> Result<RootV, ParseError> {
    match sp_make_funsyms(t, initial_syms(lib), 0) {
        Err(e) => Err(e),
        Ok((t2, fs)) => match sp_block(
            Ctx { t: t2, fs },
            Seq::empty(),
            Seq::empty(),
            0,
            t2.len() as int,
        ) {
            Err(e) => Err(e),
            Ok(root) => match sp_make_functions(fs, root.variables, fs.len() as int) {
                Err(e) => Err(e),
                Ok(fns) => Ok(RootV { root, functions: fns }),
            },
        },
    }
}

/// Parses a program's tokens, with `lib` the library functions that it may
/// call (name and parameter names).
pub fn parse(tkns: Vec<Token>, lib: &Vec<(String, Vec<String>)>) -> (r: Result<Root, ParseError>)
    requires
        tkns.len() < MAX_TOKENS,
    ensures
        root_res(r) == sp_parse(tkns@, lib@),
{
    let mut tokens = tkns;
    let mut fs = initial_funsyms(lib);
    match make_funsyms(&mut tokens, &mut fs) {
        Ok(()) => {},
        Err(e) => {
            return Err(e);
        },
    }
    let none: Vec<String> = Vec::new();
    assert(names_view(none@) =~= Seq::<Seq<char>>::empty());
    let root = match parse_block(&tokens, &fs, &none, &none, 0, tokens.len()) {
        Ok(b) => b,
        Err(e) => {
            return Err(e);
        },
    };
    assert(ctx_of(tokens@, fs@) == (Ctx { t: tokens@, fs: funsyms_view(fs@) }));
    let functions = match make_functions(&fs, &root.variables) {
        Ok(f) => f,
        Err(e) => {
            return Err(e);
        },
    };
    Ok(Root { root, functions })
}

} // verus!
