//! The recursive routines of the block parser. Each one starts at a token
//! position and returns what it built with the position where it stopped,
//! exactly as the function of the same role in `rules` states.
use crate::parser::rules::{
    is_call, m, sp_args, sp_args_outer, sp_block, sp_block_loop, sp_else, sp_expr, sp_fncall,
    sp_for, sp_if, sp_block_stmt, sp_loop_stmt, sp_name, sp_name_stmt, sp_ops, sp_pawp,
    sp_pawp_loop, sp_return_stmt, ArgsR, Ctx, ExprR, ParseError, StmtR,
};
use crate::parser::scan::{
    find_sym, lambda_params, lemma_children_view_push, lemma_expr_view_push, lemma_exprs_view,
    lemma_exprs_view_push, lemma_ops_view_push, next_symbol, next_symbol_block, MAX_TOKENS,
};
use crate::parser::tokens::{
    copy_symbol, contains_name, copy_constant, copy_names, lemma_names_view_push, names_view, Symbol, SymbolKind,
    Token,
};
use crate::parser::tree::{
    block_view, call_view, children_view, exprs_view, expr_view, fragment_view, funsym_view, funsyms_view,
    ops_view, root_view, varref_view, Block, BlockV, Call, CallV, ExpressionFragment, Frag, Fragment, FunSym,
    Function, VarRef, VarRefFragV, VarRefFragment, VarRefRoot, VarRefRootV, VarRefV,
};
use vstd::prelude::*;

verus! {

pub open spec fn ctx_of(t: Seq<Token>, fs: Seq<FunSym>) -> Ctx {
    Ctx { t, fs: funsyms_view(fs) }
}

pub open spec fn args_res(r: Result<(Vec<Vec<ExpressionFragment>>, usize), ParseError>) -> ArgsR {
    match r {
        Ok((a, u)) => Ok((exprs_view(a@), u as int)),
        Err(e) => Err(e),
    }
}

pub open spec fn expr_res(r: Result<(Vec<ExpressionFragment>, usize), ParseError>) -> ExprR {
    match r {
        Ok((e, u)) => Ok((expr_view(e@), u as int)),
        Err(e) => Err(e),
    }
}

pub open spec fn name_res(r: Result<(VarRef, usize), ParseError>) -> Result<(VarRefV, int), ParseError> {
    match r {
        Ok((v, u)) => Ok((varref_view(v), u as int)),
        Err(e) => Err(e),
    }
}

/// The reference with root `rt` and the operations that `o` read.
pub open spec fn with_ops(rt: VarRefRootV, o: Result<(Seq<VarRefFragV>, int), ParseError>) -> Result<
    (VarRefV, int),
    ParseError,
> {
    match o {
        Ok((ops, r)) => Ok((VarRefV { root: rt, operations: ops }, r)),
        Err(e) => Err(e),
    }
}

pub open spec fn call_res(r: Result<(Call, usize), ParseError>) -> Result<(CallV, int), ParseError> {
    match r {
        Ok((c, u)) => Ok((call_view(c), u as int)),
        Err(e) => Err(e),
    }
}

pub open spec fn block_res(r: Result<Block, ParseError>) -> Result<BlockV, ParseError> {
    match r {
        Ok(b) => Ok(block_view(b)),
        Err(e) => Err(e),
    }
}

pub open spec fn stmt_res(r: Result<(Fragment, usize), ParseError>, vars: Seq<Seq<char>>) -> StmtR {
    match r {
        Ok((f, u)) => Ok((fragment_view(f), vars, u as int)),
        Err(e) => Err(e),
    }
}

pub open spec fn else_res(r: Result<(Option<Block>, usize), ParseError>) -> Result<
    (Option<BlockV>, int),
    ParseError,
> {
    match r {
        Ok((Some(b), u)) => Ok((Some(block_view(b)), u as int)),
        Ok((None, u)) => Ok((None, u as int)),
        Err(e) => Err(e),
    }
}

/// The first of a one-element list of expressions.
fn first_expr(a: Vec<Vec<ExpressionFragment>>) -> (x: Vec<ExpressionFragment>)
    requires
        a.len() >= 1,
    ensures
        expr_view(x@) == exprs_view(a@)[0],
{
    proof {
        lemma_exprs_view(a@);
    }
    let mut a = a;
    a.remove(0)
}

/// A variable reference ends in a call.
fn varref_is_call(v: &VarRef) -> (b: bool)
    ensures
        b == is_call(varref_view(*v)),
{
    if v.operations.len() > 0 {
        match &v.operations[v.operations.len() - 1] {
            VarRefFragment::ObjectCall { .. } => true,
            VarRefFragment::LambdaCall(_) => true,
            _ => false,
        }
    } else {
        matches!(v.root, VarRefRoot::Call(_))
    }
}

/// The block of the tokens from `start` up to `end`, inside a block with the
/// variables `pvars`, with `args` as extra names.
pub fn parse_block(
    t: &Vec<Token>,
    fs: &Vec<FunSym>,
    pvars: &Vec<String>,
    args: &Vec<String>,
    start: usize,
    end: usize,
) -> (r: Result<Block, ParseError>)
    requires
        t.len() < MAX_TOKENS,
        start <= t.len(),
        end <= t.len(),
    ensures
        block_res(r) == sp_block(ctx_of(t@, fs@), names_view(pvars@), names_view(args@), start as int, end as int),
    decreases m(t.len() as int, start as int), 12int,
{
    let ghost c = ctx_of(t@, fs@);
    let mut vars = copy_names(pvars);
    let mut i: usize = 0;
    while i < args.len()
        invariant
            i <= args.len(),
            names_view(vars@) == names_view(pvars@) + names_view(args@).take(i as int),
        decreases args.len() - i,
    {
        proof {
            lemma_names_view_push(vars@, args@[i as int]);
        }
        vars.push(args[i].clone());
        i += 1;
        assert(names_view(vars@) =~= names_view(pvars@) + names_view(args@).take(i as int));
    }
    assert(names_view(args@).take(args.len() as int) =~= names_view(args@));
    let mut kids: Vec<Fragment> = Vec::new();
    let mut idx = start;
    while idx < end
        invariant
            t.len() < MAX_TOKENS,
            start <= idx,
            start <= t.len(),
            end <= t.len(),
            c == ctx_of(t@, fs@),
            sp_block_loop(c, names_view(args@), idx as int, end as int, names_view(vars@), children_view(kids@))
                == sp_block(c, names_view(pvars@), names_view(args@), start as int, end as int),
        decreases m(t.len() as int, idx as int),
    {
        let res: Result<(Fragment, usize), ParseError> = match &t[idx].symbol {
            Symbol::If => parse_if(t, fs, args, idx, &vars),
            Symbol::Name(nm) => parse_name_stmt(t, fs, args, idx, &mut vars, nm),
            Symbol::BlockStart => parse_block_stmt(t, fs, args, idx, &vars),
            Symbol::Loop => parse_loop_stmt(t, fs, args, idx, &vars),
            Symbol::Break => Ok((Fragment { frag: Frag::Break, index: t[idx].index }, idx)),
            Symbol::Return => parse_return_stmt(t, fs, args, idx, &vars),
            Symbol::For => parse_for(t, fs, args, idx, &vars),
            _ => Err(ParseError::UnexpectedSymbol(t[idx].index, copy_symbol(&t[idx].symbol))),
        };
        match res {
            Err(e) => {
                return Err(e);
            },
            Ok((f, fin)) => {
                proof {
                    lemma_children_view_push(kids@, f);
                }
                kids.push(f);
                idx = fin + 1;
            },
        }
    }
    Ok(Block { children: kids, variables: vars })
}

/// An `if` statement at `idx`, with its optional `else` block.
fn parse_if(t: &Vec<Token>, fs: &Vec<FunSym>, args: &Vec<String>, idx: usize, vars: &Vec<String>) -> (r:
    Result<(Fragment, usize), ParseError>)
    requires
        t.len() < MAX_TOKENS,
        idx < t.len(),
    ensures
        stmt_res(r, names_view(vars@)) == sp_if(ctx_of(t@, fs@), names_view(args@), idx as int, names_view(vars@)),
        r matches Ok((_, fin)) ==> idx <= fin <= 3 * t.len() + 3,
    decreases m(t.len() as int, idx as int), 10int,
{
    let (ca, r) = match parse_args(t, fs, vars, args, 1, idx + 1) {
        Ok(x) => x,
        Err(e) => {
            return Err(e);
        },
    };
    let i1 = r + 1;
    let ie = match next_symbol_block(t, i1, SymbolKind::BlockStart, SymbolKind::BlockEnd) {
        Ok(x) => x,
        Err(e) => {
            return Err(e);
        },
    };
    let tb = match parse_block(t, fs, vars, args, i1, ie) {
        Ok(x) => x,
        Err(e) => {
            return Err(e);
        },
    };
    let (fb, fin) = match parse_else(t, fs, args, idx, vars, ie) {
        Ok(x) => x,
        Err(e) => {
            return Err(e);
        },
    };
    if fin < 1 || fin - 1 >= t.len() {
        return Err(ParseError::OutOfRange);
    }
    let cond = first_expr(ca);
    Ok(
        (
            Fragment {
                frag: Frag::If { condition: cond, trueblock: tb, falseblock: fb },
                index: t[fin - 1].index,
            },
            fin,
        ),
    )
}

/// The `else` part after an `if` whose true block closed at `ie`.
fn parse_else(
    t: &Vec<Token>,
    fs: &Vec<FunSym>,
    args: &Vec<String>,
    idx: usize,
    vars: &Vec<String>,
    ie: usize,
) -> (r: Result<(Option<Block>, usize), ParseError>)
    requires
        t.len() < MAX_TOKENS,
        idx < ie < t.len(),
    ensures
        else_res(r) == sp_else(ctx_of(t@, fs@), names_view(args@), idx as int, names_view(vars@), ie as int),
        r matches Ok((_, fin)) ==> ie <= fin <= t.len() + 1,
    decreases m(t.len() as int, idx as int), 9int,
{
    let i2 = ie + 1;
    if i2 >= t.len() {
        return Ok((None, i2));
    }
    match &t[i2].symbol {
        Symbol::Else => {
            let i3 = i2 + 1;
            if i3 >= t.len() {
                return Ok((None, i3));
            }
            match &t[i3].symbol {
                Symbol::BlockStart => {
                    let ee = match next_symbol_block(
                        t,
                        i3,
                        SymbolKind::BlockStart,
                        SymbolKind::BlockEnd,
                    ) {
                        Ok(x) => x,
                        Err(e) => {
                            return Err(e);
                        },
                    };
                    match parse_block(t, fs, vars, args, i3 + 1, ee) {
                        Ok(fb) => Ok((Some(fb), ee)),
                        Err(e) => Err(e),
                    }
                },
                Symbol::If => Err(ParseError::Unsupported),
                _ => Err(ParseError::UnexpectedSymbol(t[idx].index, copy_symbol(&t[idx].symbol))),
            }
        },
        _ => Ok((None, i2 - 1)),
    }
}

/// A statement that starts with the name `nm` at `idx`: a new variable, a
/// call, or an assignment.
fn parse_name_stmt(
    t: &Vec<Token>,
    fs: &Vec<FunSym>,
    args: &Vec<String>,
    idx: usize,
    vars: &mut Vec<String>,
    nm: &String,
) -> (r: Result<(Fragment, usize), ParseError>)
    requires
        t.len() < MAX_TOKENS,
        idx < t.len(),
    ensures
        stmt_res(r, names_view(final(vars)@)) == sp_name_stmt(
            ctx_of(t@, fs@),
            names_view(args@),
            idx as int,
            names_view(old(vars)@),
            *nm,
        ),
        r matches Ok((_, fin)) ==> idx <= fin <= 3 * t.len() + 3,
    decreases m(t.len() as int, idx as int), 10int,
{
    let n = t.len();
    let fresh = !contains_name(vars, nm) && !contains_name(args, nm) && find_sym(fs, nm).is_none();
    if fresh && idx + 1 >= n {
        return Err(ParseError::OutOfRange);
    }
    if fresh && matches!(t[idx + 1].symbol, Symbol::Assign) {
        let (a, r) = match parse_args(t, fs, vars, args, 1, idx + 2) {
            Ok(x) => x,
            Err(e) => {
                return Err(e);
            },
        };
        let fin = r - 1;
        if fin < 1 || fin - 1 >= n {
            return Err(ParseError::OutOfRange);
        }
        let value = first_expr(a);
        proof {
            lemma_names_view_push(vars@, *nm);
        }
        vars.push(nm.clone());
        return Ok(
            (
                Fragment {
                    frag: Frag::Initialize { variable: nm.clone(), value },
                    index: t[fin - 1].index,
                },
                fin,
            ),
        );
    }
    let (v, r) = match parse_name(t, fs, vars, args, idx, nm) {
        Ok(x) => x,
        Err(e) => {
            return Err(e);
        },
    };
    if varref_is_call(&v) {
        return Ok((Fragment { frag: Frag::Call(v), index: t[idx].index }, r - 1));
    }
    if r >= n {
        return Err(ParseError::OutOfRange);
    }
    match &t[r].symbol {
        Symbol::Assign => {
            let (a, r2) = match parse_args(t, fs, vars, args, 1, r + 1) {
                Ok(x) => x,
                Err(e) => {
                    return Err(e);
                },
            };
            let fin = r2 - 1;
            if fin < 1 || fin - 1 >= n {
                return Err(ParseError::OutOfRange);
            }
            let value = first_expr(a);
            Ok(
                (
                    Fragment {
                        frag: Frag::Assignment { variable: v, value },
                        index: t[fin - 1].index,
                    },
                    fin,
                ),
            )
        },
        _ => Err(ParseError::Unsupported),
    }
}

/// A bare block opening at `idx`.
fn parse_block_stmt(
    t: &Vec<Token>,
    fs: &Vec<FunSym>,
    args: &Vec<String>,
    idx: usize,
    vars: &Vec<String>,
) -> (r: Result<(Fragment, usize), ParseError>)
    requires
        t.len() < MAX_TOKENS,
        idx < t.len(),
    ensures
        stmt_res(r, names_view(vars@)) == sp_block_stmt(ctx_of(t@, fs@), names_view(args@), idx as int, names_view(vars@)),
        r matches Ok((_, fin)) ==> idx <= fin <= 3 * t.len() + 3,
    decreases m(t.len() as int, idx as int), 10int,
{
    let e = match next_symbol_block(t, idx, SymbolKind::BlockStart, SymbolKind::BlockEnd) {
        Ok(x) => x,
        Err(e) => {
            return Err(e);
        },
    };
    match parse_block(t, fs, vars, args, idx + 1, e) {
        Ok(b) => Ok((Fragment { frag: Frag::Block(b), index: t[idx].index }, e)),
        Err(err) => Err(err),
    }
}

/// A `loop` statement at `idx`.
fn parse_loop_stmt(
    t: &Vec<Token>,
    fs: &Vec<FunSym>,
    args: &Vec<String>,
    idx: usize,
    vars: &Vec<String>,
) -> (r: Result<(Fragment, usize), ParseError>)
    requires
        t.len() < MAX_TOKENS,
        idx < t.len(),
    ensures
        stmt_res(r, names_view(vars@)) == sp_loop_stmt(ctx_of(t@, fs@), names_view(args@), idx as int, names_view(vars@)),
        r matches Ok((_, fin)) ==> idx <= fin <= 3 * t.len() + 3,
    decreases m(t.len() as int, idx as int), 10int,
{
    let e = match next_symbol_block(t, idx + 1, SymbolKind::BlockStart, SymbolKind::BlockEnd) {
        Ok(x) => x,
        Err(e) => {
            return Err(e);
        },
    };
    match parse_block(t, fs, vars, args, idx + 2, e) {
        Ok(b) => Ok((Fragment { frag: Frag::Loop(b), index: t[idx].index }, e)),
        Err(err) => Err(err),
    }
}

/// A `return` statement at `idx`.
fn parse_return_stmt(
    t: &Vec<Token>,
    fs: &Vec<FunSym>,
    args: &Vec<String>,
    idx: usize,
    vars: &Vec<String>,
) -> (r: Result<(Fragment, usize), ParseError>)
    requires
        t.len() < MAX_TOKENS,
        idx < t.len(),
    ensures
        stmt_res(r, names_view(vars@)) == sp_return_stmt(ctx_of(t@, fs@), names_view(args@), idx as int, names_view(vars@)),
        r matches Ok((_, fin)) ==> idx <= fin <= 3 * t.len() + 3,
    decreases m(t.len() as int, idx as int), 10int,
{
    match parse_args(t, fs, vars, args, 1, idx + 1) {
        Ok((a, r)) => {
            let value = first_expr(a);
            Ok((Fragment { frag: Frag::Return(value), index: t[idx].index }, r))
        },
        Err(e) => Err(e),
    }
}

/// A `for` statement at `idx`.
fn parse_for(t: &Vec<Token>, fs: &Vec<FunSym>, args: &Vec<String>, idx: usize, vars: &Vec<String>) -> (r:
    Result<(Fragment, usize), ParseError>)
    requires
        t.len() < MAX_TOKENS,
        idx < t.len(),
    ensures
        stmt_res(r, names_view(vars@)) == sp_for(ctx_of(t@, fs@), names_view(args@), idx as int, names_view(vars@)),
        r matches Ok((_, fin)) ==> idx <= fin <= 3 * t.len() + 3,
    decreases m(t.len() as int, idx as int), 10int,
{
    let j = idx + 1;
    if j >= t.len() {
        return Err(ParseError::OutOfRange);
    }
    match &t[j].symbol {
        Symbol::Name(nm) => {
            let mut inner = copy_names(args);
            proof {
                lemma_names_view_push(inner@, *nm);
            }
            inner.push(nm.clone());
            let (fa, r) = match parse_args(t, fs, vars, &inner, 2, j + 1) {
                Ok(x) => x,
                Err(e) => {
                    return Err(e);
                },
            };
            let si = match next_symbol(t, r, SymbolKind::BlockStart) {
                Ok(x) => x,
                Err(e) => {
                    return Err(e);
                },
            };
            let inc = match parse_block(t, fs, vars, &inner, r, si) {
                Ok(x) => x,
                Err(e) => {
                    return Err(e);
                },
            };
            let k = si + 1;
            let e = match next_symbol_block(t, k, SymbolKind::BlockStart, SymbolKind::BlockEnd) {
                Ok(x) => x,
                Err(e) => {
                    return Err(e);
                },
            };
            let b = match parse_block(t, fs, vars, &inner, k, e) {
                Ok(x) => x,
                Err(err) => {
                    return Err(err);
                },
            };
            proof {
                lemma_exprs_view(fa@);
            }
            let mut fa = fa;
            let initial = fa.remove(0);
            let condition = fa.remove(0);
            Ok(
                (
                    Fragment {
                        frag: Frag::For {
                            name: nm.clone(),
                            initial,
                            condition,
                            incrementor: inc,
                            block: b,
                        },
                        index: t[e].index,
                    },
                    e,
                ),
            )
        },
        _ => Err(ParseError::Unsupported),
    }
}

/// A parenthesised list of expressions whose first token is at `q`.
fn parse_pawp(t: &Vec<Token>, fs: &Vec<FunSym>, vars: &Vec<String>, ex: &Vec<String>, q: usize) -> (r:
    Result<(Vec<Vec<ExpressionFragment>>, usize), ParseError>)
    requires
        t.len() < MAX_TOKENS,
        q <= t.len(),
    ensures
        args_res(r) == sp_pawp(ctx_of(t@, fs@), names_view(vars@), names_view(ex@), q as int),
        r matches Ok((_, u)) ==> q <= u <= 3 * t.len() + 3 - 2 * q,
    decreases m(t.len() as int, q as int), 7int,
{
    let ghost c = ctx_of(t@, fs@);
    let n = t.len();
    if q >= n {
        return Err(ParseError::OutOfRange);
    }
    let end = if matches!(t[q].symbol, Symbol::ParenEnd) {
        q
    } else {
        match next_symbol_block(t, q, SymbolKind::ParenStart, SymbolKind::ParenEnd) {
            Ok(x) => x,
            Err(e) => {
                return Err(e);
            },
        }
    };
    let mut acc: Vec<Vec<ExpressionFragment>> = Vec::new();
    let mut idx = q;
    while idx < end
        invariant
            n == t.len(),
            n < MAX_TOKENS,
            q < n,
            end < n,
            q <= idx <= 3 * n + 3 - 2 * q,
            c == ctx_of(t@, fs@),
            sp_pawp_loop(c, names_view(vars@), names_view(ex@), idx as int, end as int, exprs_view(acc@)) == sp_pawp(
                c,
                names_view(vars@),
                names_view(ex@),
                q as int,
            ),
        decreases m(n as int, idx as int),
    {
        let (a, r) = match parse_args(t, fs, vars, ex, 1, idx) {
            Ok(x) => x,
            Err(e) => {
                return Err(e);
            },
        };
        let x = first_expr(a);
        proof {
            lemma_exprs_view_push(acc@, x);
        }
        acc.push(x);
        idx = r;
    }
    Ok((acc, idx))
}

/// `argslen` expressions, the first starting at `s`. Too few of them give
/// `Err(NotEnoughArguments)`: the ArgumentException "Not enough arguments!"
/// that stops the program (see `ParseError`).
fn parse_args(
    t: &Vec<Token>,
    fs: &Vec<FunSym>,
    vars: &Vec<String>,
    ex: &Vec<String>,
    argslen: usize,
    s: usize,
) -> (r: Result<(Vec<Vec<ExpressionFragment>>, usize), ParseError>)
    requires
        t.len() < MAX_TOKENS,
        s <= t.len(),
        argslen >= 1,
    ensures
        args_res(r) == sp_args(ctx_of(t@, fs@), names_view(vars@), names_view(ex@), argslen as int, s as int),
        r matches Ok((a, u)) ==> a.len() == argslen && s < u <= 3 * t.len() + 3 - 2 * s,
    decreases m(t.len() as int, s as int), 5int,
{
    let ghost c = ctx_of(t@, fs@);
    let n = t.len();
    let mut acc: Vec<Vec<ExpressionFragment>> = Vec::new();
    let mut idx = s;
    while acc.len() < argslen
        invariant
            n == t.len(),
            n < MAX_TOKENS,
            s <= n,
            s <= idx <= 3 * n + 2 - 2 * s,
            acc.len() <= argslen,
            acc.len() > 0 ==> idx > s,
            c == ctx_of(t@, fs@),
            sp_args_outer(c, names_view(vars@), names_view(ex@), argslen as int, s as int, idx as int, exprs_view(acc@))
                == sp_args(c, names_view(vars@), names_view(ex@), argslen as int, s as int),
        decreases argslen - acc.len(),
    {
        proof {
            lemma_exprs_view(acc@);
        }
        let (exp, j) = match parse_expr(t, fs, vars, ex, idx) {
            Ok(x) => x,
            Err(e) => {
                return Err(e);
            },
        };
        if exp.len() > 0 {
            proof {
                lemma_exprs_view_push(acc@, exp);
            }
            acc.push(exp);
            idx = j + 1;
        } else {
            if j < 1 {
                return Err(ParseError::OutOfRange);
            }
            if s < 1 || s - 1 >= n {
                return Err(ParseError::OutOfRange);
            }
            return Err(ParseError::NotEnoughArguments(t[s - 1].index));
        }
    }
    proof {
        lemma_exprs_view(acc@);
    }
    Ok((acc, idx))
}

/// One expression from `i0` on: operands and operators in turn, up to the
/// first symbol that cannot continue it.
fn parse_expr(t: &Vec<Token>, fs: &Vec<FunSym>, vars: &Vec<String>, ex: &Vec<String>, i0: usize) -> (r:
    Result<(Vec<ExpressionFragment>, usize), ParseError>)
    requires
        t.len() < MAX_TOKENS,
        i0 <= 3 * t.len() + 3,
    ensures
        expr_res(r) == sp_expr(ctx_of(t@, fs@), names_view(vars@), names_view(ex@), i0 as int, Seq::empty(), true),
        r matches Ok((e, j)) ==> j + 1 >= i0 && (e.len() > 0 ==> i0 <= j && i0 < t.len()) && (j
            <= i0 || j <= 3 * t.len() + 1 - 2 * i0),
    decreases m(t.len() as int, i0 as int), 3int,
{
    let ghost c = ctx_of(t@, fs@);
    let n = t.len();
    let mut exp: Vec<ExpressionFragment> = Vec::new();
    let mut cv = true;
    let mut idx = i0;
    loop
        invariant
            n == t.len(),
            n < MAX_TOKENS,
            i0 <= idx,
            i0 <= 3 * n + 3,
            c == ctx_of(t@, fs@),
            sp_expr(c, names_view(vars@), names_view(ex@), idx as int, expr_view(exp@), cv) == sp_expr(
                c,
                names_view(vars@),
                names_view(ex@),
                i0 as int,
                Seq::empty(),
                true,
            ),
            exp.len() == 0 ==> idx == i0 && cv,
            exp.len() > 0 ==> i0 < n && i0 < idx && idx <= 3 * n + 1 - 2 * i0,
        decreases m(n as int, idx as int),
    {
        if idx >= n {
            return Ok((exp, idx));
        }
        match &t[idx].symbol {
            Symbol::Constant(k) => {
                if cv {
                    let x = ExpressionFragment::Constant(copy_constant(k));
                    proof {
                        lemma_expr_view_push(exp@, x);
                    }
                    exp.push(x);
                    idx = idx + 1;
                    cv = false;
                } else {
                    if idx < 1 {
                        return Err(ParseError::OutOfRange);
                    }
                    return Ok((exp, idx - 1));
                }
            },
            Symbol::Name(nm) => {
                if cv {
                    let (v, r) = match parse_name(t, fs, vars, ex, idx, nm) {
                        Ok(x) => x,
                        Err(e) => {
                            return Err(e);
                        },
                    };
                    let x = ExpressionFragment::VarRef(v);
                    proof {
                        lemma_expr_view_push(exp@, x);
                    }
                    exp.push(x);
                    idx = r;
                    cv = false;
                } else {
                    if idx < 1 {
                        return Err(ParseError::OutOfRange);
                    }
                    return Ok((exp, idx - 1));
                }
            },
            Symbol::Lambda => {
                if cv {
                    let (params, jc) = match lambda_params(t, idx + 1) {
                        Ok(x) => x,
                        Err(e) => {
                            return Err(e);
                        },
                    };
                    let j2 = jc + 1;
                    if j2 >= n {
                        return Err(ParseError::OutOfRange);
                    }
                    let e = match next_symbol_block(
                        t,
                        j2,
                        SymbolKind::BlockStart,
                        SymbolKind::BlockEnd,
                    ) {
                        Ok(x) => x,
                        Err(err) => {
                            return Err(err);
                        },
                    };
                    let none: Vec<String> = Vec::new();
                    assert(names_view(none@) =~= Seq::<Seq<char>>::empty());
                    let b = match parse_block(t, fs, &none, &params, j2, e) {
                        Ok(x) => x,
                        Err(err) => {
                            return Err(err);
                        },
                    };
                    let x = ExpressionFragment::Lambda(Function { args: params, source: b });
                    proof {
                        lemma_expr_view_push(exp@, x);
                    }
                    exp.push(x);
                    idx = e + 1;
                    cv = false;
                } else {
                    if idx < 1 {
                        return Err(ParseError::OutOfRange);
                    }
                    return Ok((exp, idx - 1));
                }
            },
            Symbol::Op(o) => {
                if !cv {
                    let x = ExpressionFragment::Op(*o);
                    proof {
                        lemma_expr_view_push(exp@, x);
                    }
                    exp.push(x);
                    idx = idx + 1;
                    cv = true;
                } else {
                    return Err(ParseError::UnexpectedSymbol(t[idx].index, copy_symbol(&t[idx].symbol)));
                }
            },
            Symbol::ParenStart => {
                let e = match next_symbol_block(
                    t,
                    idx + 1,
                    SymbolKind::ParenStart,
                    SymbolKind::ParenEnd,
                ) {
                    Ok(x) => x,
                    Err(err) => {
                        return Err(err);
                    },
                };
                let (a, _r) = match parse_args(t, fs, vars, ex, 1, idx + 1) {
                    Ok(x) => x,
                    Err(err) => {
                        return Err(err);
                    },
                };
                let x = ExpressionFragment::Expression(first_expr(a));
                proof {
                    lemma_expr_view_push(exp@, x);
                }
                exp.push(x);
                idx = e + 1;
                cv = false;
            },
            _ => {
                if idx < 1 {
                    return Err(ParseError::OutOfRange);
                }
                return Ok((exp, idx - 1));
            },
        }
    }
}

/// A variable reference or call that starts with the name `nm` at `p`, with
/// the indexing, property and call operations that follow it. A name that
/// is neither a variable nor a known function gives `Err(UnexpectedName)`:
/// the UnexpectedNameException that stops the program (see `ParseError`).
#[verifier::rlimit(40)]
fn parse_name(
    t: &Vec<Token>,
    fs: &Vec<FunSym>,
    vars: &Vec<String>,
    ex: &Vec<String>,
    p: usize,
    nm: &String,
) -> (r: Result<(VarRef, usize), ParseError>)
    requires
        t.len() < MAX_TOKENS,
        p < t.len(),
    ensures
        name_res(r) == sp_name(ctx_of(t@, fs@), names_view(vars@), names_view(ex@), p as int, *nm),
        r matches Ok((_, u)) ==> p < u <= 3 * t.len() + 1 - 2 * p,
    decreases m(t.len() as int, p as int), 2int,
{
    let ghost c = ctx_of(t@, fs@);
    let n = t.len();
    let (root, r0): (VarRefRoot, usize) = if contains_name(vars, nm) || contains_name(ex, nm) {
        (VarRefRoot::Variable(nm.clone()), p)
    } else {
        match find_sym(fs, nm) {
            Some(i) => {
                let (call, rc) = match parse_fncall(t, fs, vars, ex, p, &fs[i]) {
                    Ok(x) => x,
                    Err(e) => {
                        return Err(e);
                    },
                };
                (VarRefRoot::Call(call), rc)
            },
            None => {
                return Err(ParseError::UnexpectedName(t[p].index, nm.clone()));
            },
        }
    };
    let mut ops: Vec<VarRefFragment> = Vec::new();
    let mut idx = r0 + 1;
    assert(sp_name(c, names_view(vars@), names_view(ex@), p as int, *nm) == with_ops(
        root_view(root),
        sp_ops(c, names_view(vars@), names_view(ex@), r0 + 1, Seq::empty()),
    ));
    loop
        invariant
            n == t.len(),
            n < MAX_TOKENS,
            p < n,
            p < idx <= 3 * n + 1 - 2 * p,
            c == ctx_of(t@, fs@),
            sp_name(c, names_view(vars@), names_view(ex@), p as int, *nm) == with_ops(
                root_view(root),
                sp_ops(c, names_view(vars@), names_view(ex@), r0 + 1, Seq::empty()),
            ),
            sp_ops(c, names_view(vars@), names_view(ex@), idx as int, ops_view(ops@)) == sp_ops(
                c,
                names_view(vars@),
                names_view(ex@),
                r0 + 1,
                Seq::empty(),
            ),
        decreases m(n as int, idx as int),
    {
        if idx >= n {
            return Ok((VarRef { root, operations: ops }, idx));
        }
        match &t[idx].symbol {
            Symbol::IndexObject => {
                let j = idx + 1;
                if j >= n {
                    return Err(ParseError::OutOfRange);
                }
                match &t[j].symbol {
                    Symbol::Name(f) => {
                        if j + 1 < n && matches!(t[j + 1].symbol, Symbol::ParenStart) {
                            let (a, r) = match parse_pawp(t, fs, vars, ex, j + 2) {
                                Ok(x) => x,
                                Err(e) => {
                                    return Err(e);
                                },
                            };
                            let x = VarRefFragment::ObjectCall { name: f.clone(), args: a };
                            proof {
                                lemma_ops_view_push(ops@, x);
                            }
                            ops.push(x);
                            idx = r + 1;
                        } else {
                            let x = VarRefFragment::ObjectProperty(f.clone());
                            proof {
                                lemma_ops_view_push(ops@, x);
                            }
                            ops.push(x);
                            idx = j + 1;
                        }
                    },
                    _ => {
                        return Err(ParseError::UnexpectedSymbol(j, copy_symbol(&t[j].symbol)));
                    },
                }
            },
            Symbol::IndexStart => {
                let (a, r) = match parse_args(t, fs, vars, ex, 1, idx + 1) {
                    Ok(x) => x,
                    Err(e) => {
                        return Err(e);
                    },
                };
                let x = VarRefFragment::IndexInto(first_expr(a));
                proof {
                    lemma_ops_view_push(ops@, x);
                }
                ops.push(x);
                idx = r + 1;
            },
            Symbol::ParenStart => {
                let (a, r) = match parse_pawp(t, fs, vars, ex, idx + 1) {
                    Ok(x) => x,
                    Err(e) => {
                        return Err(e);
                    },
                };
                let x = VarRefFragment::LambdaCall(a);
                proof {
                    lemma_ops_view_push(ops@, x);
                }
                ops.push(x);
                idx = r + 1;
            },
            _ => {
                return Ok((VarRef { root, operations: ops }, idx));
            },
        }
    }
}

/// A call of the known function `sym` named at `p`, with as many argument
/// expressions as it has parameters.
fn parse_fncall(
    t: &Vec<Token>,
    fs: &Vec<FunSym>,
    vars: &Vec<String>,
    ex: &Vec<String>,
    p: usize,
    sym: &FunSym,
) -> (r: Result<(Call, usize), ParseError>)
    requires
        t.len() < MAX_TOKENS,
        p < t.len(),
    ensures
        call_res(r) == sp_fncall(ctx_of(t@, fs@), names_view(vars@), names_view(ex@), p as int, funsym_view(*sym)),
        r matches Ok((_, u)) ==> p <= u <= 3 * t.len() - 2 * p,
    decreases m(t.len() as int, p as int), 1int,
{
    if sym.args.len() != 0 {
        match parse_args(t, fs, vars, ex, sym.args.len(), p + 1) {
            Ok((a, r)) => Ok((Call { name: sym.name.clone(), args: a }, r - 1)),
            Err(e) => Err(e),
        }
    } else {
        Ok((Call { name: sym.name.clone(), args: Vec::new() }, p))
    }
}

} // verus!
