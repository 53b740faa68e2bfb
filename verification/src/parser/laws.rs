//! Properties of the block parser that hold for every input.
use crate::parser::program::{
    initial_syms, insert_lib, insert_sym, plain_sym, blank_args, sp_header, sp_make_funsyms,
    sp_make_functions, sp_parse,
    sp_strip_loads, Header,
};
use crate::parser::rules::{
    is_first_sym, known, m, sp_block, sp_block_loop, sp_block_stmt, sp_for, sp_if, sp_loop_stmt, sp_name_stmt,
    sp_next_symbol, sp_next_symbol_block, sp_return_stmt, sp_expr, sp_args, sp_args_outer, sp_fncall,
    Ctx,
};
use crate::parser::tokens::{Symbol, Token};
use crate::parser::tree::{ExprFragV, FragV, FragmentV, FunSymV};
use vstd::prelude::*;

verus! {

/// The names of the variables that a list of statements introduces, in
/// order.
pub open spec fn introduced(kids: Seq<FragmentV>) -> Seq<Seq<char>>
    decreases kids.len(),
{
    if kids.len() == 0 {
        Seq::empty()
    } else {
        introduced(kids.drop_last()) + new_name(kids.last())
    }
}

/// The variable that one statement introduces, if any.
pub open spec fn new_name(f: FragmentV) -> Seq<Seq<char>> {
    match f.frag {
        FragV::Initialize { variable, .. } => seq![variable],
        _ => Seq::empty(),
    }
}

/// A statement's variables are those before it and the one it introduces.
proof fn lemma_statement_vars(c: Ctx, args: Seq<Seq<char>>, idx: int, vars: Seq<Seq<char>>)
    requires
        0 <= idx < c.t.len(),
    ensures
        match c.t[idx].symbol {
            Symbol::If => sp_if(c, args, idx, vars) matches Ok((f, v2, _)) ==> v2 == vars + new_name(f),
            Symbol::Name(nm) => sp_name_stmt(c, args, idx, vars, nm) matches Ok((f, v2, _)) ==> v2
                == vars + new_name(f),
            Symbol::BlockStart => sp_block_stmt(c, args, idx, vars) matches Ok((f, v2, _)) ==> v2
                == vars + new_name(f),
            Symbol::Loop => sp_loop_stmt(c, args, idx, vars) matches Ok((f, v2, _)) ==> v2 == vars
                + new_name(f),
            Symbol::Return => sp_return_stmt(c, args, idx, vars) matches Ok((f, v2, _)) ==> v2
                == vars + new_name(f),
            Symbol::For => sp_for(c, args, idx, vars) matches Ok((f, v2, _)) ==> v2 == vars
                + new_name(f),
            _ => true,
        },
{
    assert(vars + Seq::<Seq<char>>::empty() =~= vars);
    match c.t[idx].symbol {
        Symbol::Name(nm) => {
            if let Ok((f, v2, _)) = sp_name_stmt(c, args, idx, vars, nm) {
                if f.frag is Initialize {
                    assert(v2 =~= vars + new_name(f));
                }
            }
        },
        _ => {},
    }
}

/// The variables after the statements from `idx` on, where those before
/// them are `base` and the ones that `kids` introduced.
proof fn lemma_block_loop_vars(
    c: Ctx,
    args: Seq<Seq<char>>,
    idx: int,
    end: int,
    vars: Seq<Seq<char>>,
    kids: Seq<FragmentV>,
    base: Seq<Seq<char>>,
)
    requires
        vars == base + introduced(kids),
        sp_block_loop(c, args, idx, end, vars, kids) is Ok,
    ensures
        sp_block_loop(c, args, idx, end, vars, kids)->Ok_0.variables == base + introduced(
            sp_block_loop(c, args, idx, end, vars, kids)->Ok_0.children,
        ),
    decreases m(c.t.len() as int, idx),
{
    if idx < end && 0 <= idx < c.t.len() {
        lemma_statement_vars(c, args, idx, vars);
        let st = match c.t[idx].symbol {
            Symbol::If => sp_if(c, args, idx, vars),
            Symbol::Name(nm) => sp_name_stmt(c, args, idx, vars, nm),
            Symbol::BlockStart => sp_block_stmt(c, args, idx, vars),
            Symbol::Loop => sp_loop_stmt(c, args, idx, vars),
            Symbol::Break => Ok(
                (FragmentV { frag: FragV::Break, index: c.t[idx].index as int }, vars, idx),
            ),
            Symbol::Return => sp_return_stmt(c, args, idx, vars),
            Symbol::For => sp_for(c, args, idx, vars),
            _ => Err(crate::parser::rules::ParseError::UnexpectedSymbol(c.t[idx].index, c.t[idx].symbol)),
        };
        if let Ok((f, v2, fin)) = st {
            if fin + 1 > idx {
                assert(v2 == vars + new_name(f)) by {
                    if c.t[idx].symbol is Break {
                        assert(vars + Seq::<Seq<char>>::empty() =~= vars);
                    }
                }
                assert(kids.push(f).drop_last() =~= kids);
                assert(v2 =~= base + introduced(kids.push(f)));
                lemma_block_loop_vars(c, args, fin + 1, end, v2, kids.push(f), base);
            }
        }
    }
}

/// A block's variables are the enclosing block's, then the block's own
/// arguments, then the variables that its statements introduce, in the order
/// of the statements; variables of nested blocks stay inside them.
pub proof fn law_block_variables(
    c: Ctx,
    pvars: Seq<Seq<char>>,
    args: Seq<Seq<char>>,
    start: int,
    end: int,
)
    requires
        sp_block(c, pvars, args, start, end) is Ok,
    ensures
        sp_block(c, pvars, args, start, end)->Ok_0.variables == pvars + args + introduced(
            sp_block(c, pvars, args, start, end)->Ok_0.children,
        ),
{
    assert(pvars + args + introduced(Seq::<FragmentV>::empty()) =~= pvars + args);
    lemma_block_loop_vars(c, args, start, end, pvars + args, Seq::empty(), pvars + args);
}

/// Taking out the library loads leaves no `load` symbol, removes two tokens
/// per loaded name, and keeps every other token in order.
pub proof fn law_strip_loads(t: Seq<Token>)
    requires
        sp_strip_loads(t) is Ok,
    ensures
        forall|i: int|
            0 <= i < sp_strip_loads(t)->Ok_0.0.len() ==> !((
            #[trigger] sp_strip_loads(t)->Ok_0.0[i]).symbol is Load),
        sp_strip_loads(t)->Ok_0.0.len() + 2 * sp_strip_loads(t)->Ok_0.1.len() == t.len(),
    decreases t.len(),
{
    if t.len() > 0 {
        if t[0].symbol is Load {
            law_strip_loads(t.skip(2));
        } else {
            law_strip_loads(t.skip(1));
            let rest = sp_strip_loads(t.skip(1))->Ok_0.0;
            assert forall|i: int| 0 <= i < (seq![t[0]] + rest).len() implies !((
            #[trigger] (seq![t[0]] + rest)[i]).symbol is Load) by {
                if i > 0 {
                    assert((seq![t[0]] + rest)[i] == rest[i - 1]);
                }
            }
        }
    }
}

/// Tokens without a `load` symbol load nothing and are kept as they are.
pub proof fn law_no_loads(t: Seq<Token>)
    requires
        forall|i: int| 0 <= i < t.len() ==> !((#[trigger] t[i]).symbol is Load),
    ensures
        sp_strip_loads(t) == Ok::<(Seq<Token>, Seq<Seq<char>>), crate::parser::rules::ParseError>(
            (t, Seq::empty()),
        ),
    decreases t.len(),
{
    if t.len() > 0 {
        assert(!(t[0].symbol is Load));
        let r = t.skip(1);
        assert forall|i: int| 0 <= i < r.len() implies !((#[trigger] r[i]).symbol is Load) by {
            assert(r[i] == t[i + 1]);
        }
        law_no_loads(r);
        assert(seq![t[0]] + r =~= t);
    } else {
        assert(t =~= Seq::<Token>::empty());
    }
}

/// Reading the function definitions keeps the functions known before, in
/// their order, adds the new ones after them, and never adds tokens.
pub proof fn law_definitions_extend(t: Seq<Token>, fs: Seq<FunSymV>, idx: int)
    requires
        sp_make_funsyms(t, fs, idx) is Ok,
    ensures
        sp_make_funsyms(t, fs, idx)->Ok_0.1.len() >= fs.len(),
        sp_make_funsyms(t, fs, idx)->Ok_0.1.take(fs.len() as int) == fs,
        sp_make_funsyms(t, fs, idx)->Ok_0.0.len() <= t.len(),
    decreases m(t.len() as int, idx),
{
    if 0 <= idx < t.len() {
        match t[idx].symbol {
            Symbol::Name(fname) => {
                if !known(fs, fname@) {
                    match sp_header(t, fname@, idx + 1, Seq::empty()) {
                        Ok(Header::Stop(j)) => {
                            if j > idx {
                                law_definitions_extend(t, fs, j);
                            }
                        },
                        Ok(Header::Body(args, j)) => {
                            if let Ok(e) = sp_next_symbol_block(
                                t,
                                j,
                                crate::parser::tokens::SymbolKind::BlockStart,
                                crate::parser::tokens::SymbolKind::BlockEnd,
                            ) {
                                if idx < j < e < t.len() {
                                    let t2 = t.take(idx) + t.skip(e + 1);
                                    let f = FunSymV {
                                        name: fname@,
                                        source: Some(t.subrange(j + 1, e)),
                                        args,
                                    };
                                    law_definitions_extend(t2, fs.push(f), idx);
                                    let r = sp_make_funsyms(t2, fs.push(f), idx)->Ok_0.1;
                                    assert(r.take(fs.len() as int) =~= r.take((fs.len() + 1) as int).take(
                                        fs.len() as int,
                                    ));
                                    assert(fs.push(f).take(fs.len() as int) =~= fs);
                                }
                            }
                        },
                        Err(_) => {},
                    }
                } else {
                    law_definitions_extend(t, fs, idx + 1);
                }
            },
            Symbol::If => {
                if let Ok(x) = sp_next_symbol(
                    t,
                    idx + 1,
                    crate::parser::tokens::SymbolKind::BlockEnd,
                ) {
                    if x > idx {
                        law_definitions_extend(t, fs, x);
                    }
                }
            },
            Symbol::Load => {
                law_definitions_extend(t, fs, idx + 2);
            },
            _ => {
                law_definitions_extend(t, fs, idx + 1);
            },
        }
    } else {
        assert(fs.take(fs.len() as int) =~= fs);
    }
}

/// No two known functions share a name.
pub open spec fn distinct_syms(fs: Seq<FunSymV>) -> bool {
    forall|i: int, j: int| 0 <= i < j < fs.len() ==> #[trigger] fs[i].name != #[trigger] fs[j].name
}

/// Adding a function to the known ones never makes a name occur twice: a
/// function of the same name is replaced, a new one comes last.
pub proof fn law_insert_sym_distinct(fs: Seq<FunSymV>, s: FunSymV)
    requires
        distinct_syms(fs),
    ensures
        distinct_syms(insert_sym(fs, s)),
{
    if known(fs, s.name) {
        let k = choose|i: int| is_first_sym(fs, s.name, i);
        let w = choose|i: int| 0 <= i < fs.len() && (#[trigger] fs[i]).name == s.name;
        assert(is_first_sym(fs, s.name, w)) by {
            assert forall|j: int| 0 <= j < w implies (#[trigger] fs[j]).name != s.name by {
                assert(fs[j].name != fs[w].name);
            }
        }
        assert(is_first_sym(fs, s.name, k));
        let r = fs.update(k, s);
        assert forall|i: int, j: int| 0 <= i < j < r.len() implies #[trigger] r[i].name != #[trigger] r[j].name by {
            if i == k {
                assert(fs[j].name != fs[k].name);
            } else if j == k {
                assert(fs[i].name != fs[k].name);
            } else {
                assert(fs[i].name != fs[j].name);
            }
        }
    } else {
        let r = fs.push(s);
        assert forall|i: int, j: int| 0 <= i < j < r.len() implies #[trigger] r[i].name != #[trigger] r[j].name by {
            if j == fs.len() {
                assert(r[i] == fs[i]);
            } else {
                assert(fs[i].name != fs[j].name);
            }
        }
    }
}

proof fn lemma_insert_lib_distinct(fs: Seq<FunSymV>, lib: Seq<(String, Vec<String>)>)
    requires
        distinct_syms(fs),
    ensures
        distinct_syms(insert_lib(fs, lib)),
    decreases lib.len(),
{
    if lib.len() > 0 {
        lemma_insert_lib_distinct(fs, lib.drop_last());
        law_insert_sym_distinct(
            insert_lib(fs, lib.drop_last()),
            plain_sym(lib.last().0@, crate::parser::tokens::names_view(lib.last().1@)),
        );
    }
}

/// The functions known before a program is read (the library's, then the
/// builtins) name each function once.
pub proof fn law_initial_syms_distinct(lib: Seq<(String, Vec<String>)>)
    ensures
        distinct_syms(initial_syms(lib)),
{
    lemma_insert_lib_distinct(Seq::empty(), lib);
    let fs0 = insert_lib(Seq::empty(), lib);
    law_insert_sym_distinct(fs0, plain_sym("put"@, blank_args(1)));
    let fs1 = insert_sym(fs0, plain_sym("put"@, blank_args(1)));
    law_insert_sym_distinct(fs1, plain_sym("get"@, blank_args(0)));
    let fs2 = insert_sym(fs1, plain_sym("get"@, blank_args(0)));
    law_insert_sym_distinct(fs2, plain_sym("exit"@, blank_args(0)));
    let fs3 = insert_sym(fs2, plain_sym("exit"@, blank_args(0)));
    law_insert_sym_distinct(fs3, plain_sym("assert"@, blank_args(2)));
    let fs4 = insert_sym(fs3, plain_sym("assert"@, blank_args(2)));
    law_insert_sym_distinct(fs4, plain_sym("array"@, blank_args(0)));
    let fs5 = insert_sym(fs4, plain_sym("array"@, blank_args(0)));
    law_insert_sym_distinct(fs5, plain_sym("object"@, blank_args(0)));
    let fs6 = insert_sym(fs5, plain_sym("object"@, blank_args(0)));
    law_insert_sym_distinct(fs6, plain_sym("len"@, blank_args(1)));
    let fs7 = insert_sym(fs6, plain_sym("len"@, blank_args(1)));
    law_insert_sym_distinct(fs7, plain_sym("null"@, blank_args(0)));
    let fs8 = insert_sym(fs7, plain_sym("null"@, blank_args(0)));
    law_insert_sym_distinct(fs8, plain_sym("panic"@, blank_args(0)));
}

/// Reading the function definitions never gives two known functions the
/// same name: a definition whose name is already known is not taken.
pub proof fn law_definitions_distinct(t: Seq<Token>, fs: Seq<FunSymV>, idx: int)
    requires
        distinct_syms(fs),
        sp_make_funsyms(t, fs, idx) is Ok,
    ensures
        distinct_syms(sp_make_funsyms(t, fs, idx)->Ok_0.1),
    decreases m(t.len() as int, idx),
{
    if 0 <= idx < t.len() {
        match t[idx].symbol {
            Symbol::Name(fname) => {
                if !known(fs, fname@) {
                    match sp_header(t, fname@, idx + 1, Seq::empty()) {
                        Ok(Header::Stop(j)) => {
                            if j > idx {
                                law_definitions_distinct(t, fs, j);
                            }
                        },
                        Ok(Header::Body(args, j)) => {
                            if let Ok(e) = sp_next_symbol_block(
                                t,
                                j,
                                crate::parser::tokens::SymbolKind::BlockStart,
                                crate::parser::tokens::SymbolKind::BlockEnd,
                            ) {
                                if idx < j < e < t.len() {
                                    let t2 = t.take(idx) + t.skip(e + 1);
                                    let f = FunSymV {
                                        name: fname@,
                                        source: Some(t.subrange(j + 1, e)),
                                        args,
                                    };
                                    assert(!known(fs, f.name));
                                    let r = fs.push(f);
                                    assert forall|a: int, b: int| 0 <= a < b < r.len() implies #[trigger] r[a].name != #[trigger] r[b].name by {
                                        if b == fs.len() {
                                            assert(r[a] == fs[a]);
                                        } else {
                                            assert(fs[a].name != fs[b].name);
                                        }
                                    }
                                    law_definitions_distinct(t2, r, idx);
                                }
                            }
                        },
                        Err(_) => {},
                    }
                } else {
                    law_definitions_distinct(t, fs, idx + 1);
                }
            },
            Symbol::If => {
                if let Ok(x) = sp_next_symbol(
                    t,
                    idx + 1,
                    crate::parser::tokens::SymbolKind::BlockEnd,
                ) {
                    if x > idx {
                        law_definitions_distinct(t, fs, x);
                    }
                }
            },
            Symbol::Load => {
                law_definitions_distinct(t, fs, idx + 2);
            },
            _ => {
                law_definitions_distinct(t, fs, idx + 1);
            },
        }
    }
}

/// The positions, in order, of the first `k` known functions that have a
/// body.
pub open spec fn with_body(fs: Seq<FunSymV>, k: int) -> Seq<int>
    decreases k,
{
    if k <= 0 {
        Seq::empty()
    } else if fs[k - 1].source is Some {
        with_body(fs, k - 1).push(k - 1)
    } else {
        with_body(fs, k - 1)
    }
}

proof fn lemma_with_body(fs: Seq<FunSymV>, k: int)
    requires
        0 <= k <= fs.len(),
    ensures
        forall|j: int| 0 <= j < with_body(fs, k).len() ==> 0 <= #[trigger] with_body(fs, k)[j] < k
            && fs[with_body(fs, k)[j]].source is Some,
        forall|a: int, b: int| 0 <= a < b < with_body(fs, k).len() ==> #[trigger] with_body(fs, k)[a]
            < #[trigger] with_body(fs, k)[b],
        forall|i: int| 0 <= i < k && (#[trigger] fs[i]).source is Some ==> exists|j: int|
            0 <= j < with_body(fs, k).len() && #[trigger] with_body(fs, k)[j] == i,
    decreases k,
{
    if k > 0 {
        lemma_with_body(fs, k - 1);
        let w = with_body(fs, k - 1);
        if fs[k - 1].source is Some {
            let w2 = w.push(k - 1);
            assert forall|i: int| 0 <= i < k && (#[trigger] fs[i]).source is Some implies exists|j: int|
                0 <= j < w2.len() && #[trigger] w2[j] == i by {
                if i == k - 1 {
                    assert(w2[w.len() as int] == i);
                } else {
                    let j = choose|j: int| 0 <= j < w.len() && #[trigger] w[j] == i;
                    assert(w2[j] == i);
                }
            }
        }
    }
}

/// The functions made from the first `k` known functions are, in order,
/// those with a body: the same name and parameters, and the body parsed.
proof fn lemma_make_functions_shape(fs: Seq<FunSymV>, vars: Seq<Seq<char>>, k: int)
    requires
        0 <= k <= fs.len(),
        sp_make_functions(fs, vars, k) is Ok,
    ensures
        ({
            let r = sp_make_functions(fs, vars, k)->Ok_0;
            let w = with_body(fs, k);
            &&& r.len() == w.len()
            &&& forall|j: int| 0 <= j < r.len() ==> {
                let i = w[j];
                &&& (#[trigger] r[j]).0 == fs[i].name
                &&& r[j].1.args == fs[i].args
                &&& fs[i].source matches Some(src) && sp_block(
                    Ctx { t: src, fs },
                    vars,
                    fs[i].args,
                    0,
                    src.len() as int,
                ) == Ok::<_, crate::parser::rules::ParseError>(r[j].1.source)
            }
        }),
    decreases k,
{
    if k > 0 {
        lemma_make_functions_shape(fs, vars, k - 1);
    }
}

/// The functions of a program are, in order, the known functions that have
/// a body: each keeps its name and parameters and gets its body parsed in
/// the scope `vars` of the top-level block; every known function with a body
/// is among them, and where known names are distinct so are theirs.
pub proof fn law_make_functions(fs: Seq<FunSymV>, vars: Seq<Seq<char>>)
    requires
        sp_make_functions(fs, vars, fs.len() as int) is Ok,
    ensures
        ({
            let r = sp_make_functions(fs, vars, fs.len() as int)->Ok_0;
            let w = with_body(fs, fs.len() as int);
            &&& r.len() == w.len()
            &&& forall|j: int| 0 <= j < r.len() ==> {
                let i = w[j];
                &&& 0 <= i < fs.len()
                &&& (#[trigger] r[j]).0 == fs[i].name
                &&& r[j].1.args == fs[i].args
                &&& fs[i].source matches Some(src) && sp_block(
                    Ctx { t: src, fs },
                    vars,
                    fs[i].args,
                    0,
                    src.len() as int,
                ) == Ok::<_, crate::parser::rules::ParseError>(r[j].1.source)
            }
            &&& forall|i: int| 0 <= i < fs.len() && (#[trigger] fs[i]).source is Some ==> exists|j: int|
                0 <= j < r.len() && #[trigger] r[j].0 == fs[i].name
            &&& distinct_syms(fs) ==> forall|a: int, b: int| 0 <= a < b < r.len() ==> #[trigger] r[a].0
                != #[trigger] r[b].0
        }),
{
    let k = fs.len() as int;
    lemma_make_functions_shape(fs, vars, k);
    lemma_with_body(fs, k);
    let r = sp_make_functions(fs, vars, k)->Ok_0;
    let w = with_body(fs, k);
    assert forall|j: int| 0 <= j < r.len() implies 0 <= #[trigger] w[j] < fs.len() by {}
    assert forall|i: int| 0 <= i < fs.len() && (#[trigger] fs[i]).source is Some implies exists|j: int|
        0 <= j < r.len() && #[trigger] r[j].0 == fs[i].name by {
        let j = choose|j: int| 0 <= j < w.len() && #[trigger] w[j] == i;
        assert(r[j].0 == fs[w[j]].name);
    }
    if distinct_syms(fs) {
        assert forall|a: int, b: int| 0 <= a < b < r.len() implies #[trigger] r[a].0 != #[trigger] r[b].0 by {
            assert(w[a] < w[b]);
            assert(r[a].0 == fs[w[a]].name);
            assert(r[b].0 == fs[w[b]].name);
            assert(fs[w[a]].name != fs[w[b]].name);
        }
    }
}

/// A parsed program defines each function name at most once.
pub proof fn law_program_functions_distinct(t: Seq<Token>, lib: Seq<(String, Vec<String>)>)
    requires
        sp_parse(t, lib) is Ok,
    ensures
        forall|a: int, b: int| 0 <= a < b < sp_parse(t, lib)->Ok_0.functions.len() ==> #[trigger] sp_parse(
            t,
            lib,
        )->Ok_0.functions[a].0 != #[trigger] sp_parse(t, lib)->Ok_0.functions[b].0,
{
    law_initial_syms_distinct(lib);
    law_definitions_distinct(t, initial_syms(lib), 0);
    let (t2, fs) = sp_make_funsyms(t, initial_syms(lib), 0)->Ok_0;
    let root = sp_block(Ctx { t: t2, fs }, Seq::empty(), Seq::empty(), 0, t2.len() as int)->Ok_0;
    law_make_functions(fs, root.variables);
}

/// Operators stand between operands: none comes first and none follows
/// another operator.
pub open spec fn ops_between(e: Seq<ExprFragV>) -> bool {
    forall|i: int| 0 <= i < e.len() && (#[trigger] e[i]) is Op ==> i > 0 && !(e[i - 1] is Op)
}

proof fn lemma_expr_shape(
    c: Ctx,
    vars: Seq<Seq<char>>,
    ex: Seq<Seq<char>>,
    idx: int,
    exp: Seq<ExprFragV>,
    cv: bool,
)
    requires
        ops_between(exp),
        cv <==> (exp.len() == 0 || exp.last() is Op),
    ensures
        sp_expr(c, vars, ex, idx, exp, cv) matches Ok((e, _)) ==> ops_between(e),
    decreases m(c.t.len() as int, idx),
{
    let n = c.t.len() as int;
    if 0 <= idx < n {
        match c.t[idx].symbol {
            Symbol::Op(o) => {
                if !cv {
                    let e2 = exp.push(ExprFragV::Op(o));
                    assert forall|i: int| 0 <= i < e2.len() && (#[trigger] e2[i]) is Op implies i > 0
                        && !(e2[i - 1] is Op) by {
                        if i < exp.len() {
                            assert(e2[i] == exp[i]);
                            assert(exp[i] is Op);
                        }
                    }
                    lemma_expr_shape(c, vars, ex, idx + 1, e2, true);
                }
            },
            _ => {
                assert forall|x: ExprFragV| !(x is Op) implies ops_between(#[trigger] exp.push(x)) by {
                    let e2 = exp.push(x);
                    assert forall|i: int| 0 <= i < e2.len() && (#[trigger] e2[i]) is Op implies i > 0
                        && !(e2[i - 1] is Op) by {
                        assert(i < exp.len());
                        assert(e2[i] == exp[i]);
                        assert(exp[i] is Op);
                    }
                }
                match c.t[idx].symbol {
                    Symbol::Constant(k) => {
                        if cv {
                            lemma_expr_shape(c, vars, ex, idx + 1, exp.push(ExprFragV::Constant(k)), false);
                        }
                    },
                    Symbol::Name(nm) => {
                        if cv {
                            if let Ok((v, r)) = crate::parser::rules::sp_name(c, vars, ex, idx, nm) {
                                if r > idx {
                                    lemma_expr_shape(c, vars, ex, r, exp.push(ExprFragV::VarRef(v)), false);
                                }
                            }
                        }
                    },
                    Symbol::Lambda => {
                        if cv {
                            if let Ok((params, jc)) = crate::parser::rules::sp_lambda_params(
                                c.t,
                                idx + 1,
                                Seq::empty(),
                            ) {
                                let j2 = jc + 1;
                                if !(j2 >= n || j2 <= idx) {
                                    if let Ok(e) = sp_next_symbol_block(
                                        c.t,
                                        j2,
                                        crate::parser::tokens::SymbolKind::BlockStart,
                                        crate::parser::tokens::SymbolKind::BlockEnd,
                                    ) {
                                        if let Ok(b) = sp_block(c, Seq::empty(), params, j2, e) {
                                            if e + 1 > idx {
                                                lemma_expr_shape(
                                                    c,
                                                    vars,
                                                    ex,
                                                    e + 1,
                                                    exp.push(
                                                        ExprFragV::Lambda(
                                                            crate::parser::tree::FunctionV {
                                                                args: params,
                                                                source: b,
                                                            },
                                                        ),
                                                    ),
                                                    false,
                                                );
                                            }
                                        }
                                    }
                                }
                            }
                        }
                    },
                    Symbol::ParenStart => {
                        if let Ok(e) = sp_next_symbol_block(
                            c.t,
                            idx + 1,
                            crate::parser::tokens::SymbolKind::ParenStart,
                            crate::parser::tokens::SymbolKind::ParenEnd,
                        ) {
                            if let Ok((a, _r)) = sp_args(c, vars, ex, 1, idx + 1) {
                                if e + 1 > idx {
                                    lemma_expr_shape(
                                        c,
                                        vars,
                                        ex,
                                        e + 1,
                                        exp.push(ExprFragV::Expression(a[0])),
                                        false,
                                    );
                                }
                            }
                        }
                    },
                    _ => {},
                }
            },
        }
    }
}

/// An expression that the parser reads never starts with an operator and
/// never has two operators in a row.
pub proof fn law_expression_shape(c: Ctx, vars: Seq<Seq<char>>, ex: Seq<Seq<char>>, idx: int)
    ensures
        sp_expr(c, vars, ex, idx, Seq::empty(), true) matches Ok((e, _)) ==> ops_between(e),
{
    lemma_expr_shape(c, vars, ex, idx, Seq::empty(), true);
}

proof fn lemma_args_count(
    c: Ctx,
    vars: Seq<Seq<char>>,
    ex: Seq<Seq<char>>,
    argslen: int,
    s: int,
    idx: int,
    acc: Seq<Seq<ExprFragV>>,
)
    requires
        acc.len() <= argslen,
        forall|i: int| 0 <= i < acc.len() ==> (#[trigger] acc[i]).len() > 0,
    ensures
        sp_args_outer(c, vars, ex, argslen, s, idx, acc) matches Ok((a, _)) ==> a.len() == argslen
            && forall|i: int| 0 <= i < a.len() ==> (#[trigger] a[i]).len() > 0,
    decreases m(c.t.len() as int, idx),
{
    if acc.len() < argslen {
        if let Ok((exp, j)) = sp_expr(c, vars, ex, idx, Seq::empty(), true) {
            if exp.len() > 0 && j + 1 > idx && idx <= c.t.len() {
                let a2 = acc.push(exp);
                assert forall|i: int| 0 <= i < a2.len() implies (#[trigger] a2[i]).len() > 0 by {
                    if i < acc.len() {
                        assert(a2[i] == acc[i]);
                    }
                }
                lemma_args_count(c, vars, ex, argslen, s, j + 1, a2);
            }
        }
    }
}

/// A call of a known function has exactly as many argument expressions as
/// the function has parameters, none of them empty, and names the function.
pub proof fn law_call_arity(c: Ctx, vars: Seq<Seq<char>>, ex: Seq<Seq<char>>, idx: int, sym: FunSymV)
    ensures
        sp_fncall(c, vars, ex, idx, sym) matches Ok((call, _)) ==> call.name == sym.name
            && call.args.len() == sym.args.len() && forall|i: int|
            0 <= i < call.args.len() ==> (#[trigger] call.args[i]).len() > 0,
{
    lemma_args_count(c, vars, ex, sym.args.len() as int, idx + 1, idx + 1, Seq::empty());
}

/// The error that parsing the body of the `i`-th known function gives, if
/// it has a body and that body does not parse.
pub open spec fn body_error(fs: Seq<FunSymV>, vars: Seq<Seq<char>>, i: int) -> Option<
    crate::parser::rules::ParseError,
> {
    match fs[i].source {
        Some(src) => match sp_block(Ctx { t: src, fs }, vars, fs[i].args, 0, src.len() as int) {
            Err(e) => Some(e),
            Ok(_) => None,
        },
        None => None,
    }
}

proof fn lemma_make_functions_error(fs: Seq<FunSymV>, vars: Seq<Seq<char>>, k: int)
    requires
        0 <= k <= fs.len(),
        sp_make_functions(fs, vars, k) is Err,
    ensures
        exists|i: int|
            0 <= i < k && #[trigger] body_error(fs, vars, i) == Some(
                sp_make_functions(fs, vars, k)->Err_0,
            ),
    decreases k,
{
    if sp_make_functions(fs, vars, k - 1) is Err {
        lemma_make_functions_error(fs, vars, k - 1);
        let i = choose|i: int|
            0 <= i < k - 1 && #[trigger] body_error(fs, vars, i) == Some(
                sp_make_functions(fs, vars, k - 1)->Err_0,
            );
        assert(0 <= i < k && body_error(fs, vars, i) == Some(sp_make_functions(fs, vars, k)->Err_0));
    } else {
        assert(body_error(fs, vars, k - 1) == Some(sp_make_functions(fs, vars, k)->Err_0));
    }
}

/// Where the functions of a program cannot all be made, the error is the
/// one that parsing the body of one of the known functions gives: a body
/// that does not parse stops the program with its own error.
pub proof fn law_make_functions_error(fs: Seq<FunSymV>, vars: Seq<Seq<char>>)
    requires
        sp_make_functions(fs, vars, fs.len() as int) is Err,
    ensures
        exists|i: int|
            0 <= i < fs.len() && #[trigger] body_error(fs, vars, i) == Some(
                sp_make_functions(fs, vars, fs.len() as int)->Err_0,
            ),
{
    lemma_make_functions_error(fs, vars, fs.len() as int);
}

/// A use of a known function does not keep later definitions from being
/// found: the scan for definitions steps over its name and goes on.
pub proof fn law_calls_do_not_hide_definitions(t: Seq<Token>, fs: Seq<FunSymV>, idx: int)
    requires
        0 <= idx < t.len(),
        t[idx].symbol matches Symbol::Name(n) && known(fs, n@),
    ensures
        sp_make_funsyms(t, fs, idx) == sp_make_funsyms(t, fs, idx + 1),
{
}

} // verus!
