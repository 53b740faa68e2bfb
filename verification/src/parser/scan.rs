//! Scanning helpers of the block parser: finding closing symbols, known
//! functions and lambda parameters, and how the tree's model grows.
use crate::parser::rules::{
    is_first_sym, known, sp_close_from, sp_lambda_params, sp_next_symbol, sp_next_symbol_block,
    sym_of, ParseError,
};
use crate::parser::tokens::{kind, lemma_names_view_push, names_view, symbol_kind, Symbol, SymbolKind, Token};
use crate::parser::tree::{
    children_view, expr_view, exprs_view, ops_view, ef_view, fragment_view, funsym_view,
    funsyms_view, op_view, ExpressionFragment, Fragment, FunSym, FunSymV, VarRefFragment,
};
use vstd::prelude::*;

verus! {

/// The most tokens the parser takes: positions up to three times this count
/// must fit in a `usize`.
pub const MAX_TOKENS: usize = 0x4000_0000;

pub open spec fn idx_res(r: Result<usize, ParseError>) -> Result<int, ParseError> {
    match r {
        Ok(u) => Ok(u as int),
        Err(e) => Err(e),
    }
}

/// The position of the first symbol of kind `k` at or after `start`. Where
/// there is none, `Err(EndOfInput)` is the EOF exception that stops the
/// program (see `ParseError`).
pub fn next_symbol(t: &Vec<Token>, start: usize, k: SymbolKind) -> (r: Result<usize, ParseError>)
    ensures
        idx_res(r) == sp_next_symbol(t@, start as int, k),
        r matches Ok(i) ==> start <= i < t.len(),
{
    let mut idx = start;
    loop
        invariant
            start <= idx,
            sp_next_symbol(t@, idx as int, k) == sp_next_symbol(t@, start as int, k),
        decreases t.len() - idx,
    {
        if idx >= t.len() {
            return Err(ParseError::OutOfRange);
        }
        if symbol_kind(&t[idx].symbol) == k {
            return Ok(idx);
        }
        idx += 1;
        if idx == t.len() {
            return Err(ParseError::EndOfInput(idx));
        }
    }
}

/// The position of the symbol that closes the group opened at `start`, where
/// `open` symbols nest and `close` symbols unnest. Where the group is never
/// closed, `Err(EndOfInput)` is the EOF exception that stops the program
/// (see `ParseError`).
pub fn next_symbol_block(t: &Vec<Token>, start: usize, open: SymbolKind, close: SymbolKind) -> (r:
    Result<usize, ParseError>)
    requires
        start < usize::MAX,
    ensures
        idx_res(r) == sp_next_symbol_block(t@, start as int, open, close),
        r matches Ok(i) ==> start < i < t.len(),
{
    let mut idx = start;
    let mut depth: usize = 1;
    loop
        invariant
            start <= idx < usize::MAX,
            1 <= depth <= idx - start + 1,
            sp_close_from(t@, idx + 1, depth as int, open, close) == sp_next_symbol_block(
                t@,
                start as int,
                open,
                close,
            ),
        decreases t.len() - idx,
    {
        idx += 1;
        if idx == t.len() {
            return Err(ParseError::EndOfInput(idx));
        }
        if idx > t.len() {
            return Err(ParseError::OutOfRange);
        }
        let k = symbol_kind(&t[idx].symbol);
        if k == open {
            depth += 1;
        } else if k == close {
            depth -= 1;
            if depth == 0 {
                return Ok(idx);
            }
        }
    }
}

/// The parameter names of a lambda, read from `j` to the closing bar, and
/// the position of that bar.
pub fn lambda_params(t: &Vec<Token>, j: usize) -> (r: Result<(Vec<String>, usize), ParseError>)
    ensures
        match r {
            Ok((p, jc)) => sp_lambda_params(t@, j as int, Seq::empty()) == Ok::<
                (Seq<Seq<char>>, int),
                ParseError,
            >((names_view(p@), jc as int)) && j <= jc < t.len(),
            Err(e) => sp_lambda_params(t@, j as int, Seq::empty()) == Err::<
                (Seq<Seq<char>>, int),
                ParseError,
            >(e),
        },
{
    let mut params: Vec<String> = Vec::new();
    assert(names_view(params@) =~= Seq::<Seq<char>>::empty());
    let mut idx = j;
    loop
        invariant
            j <= idx,
            sp_lambda_params(t@, idx as int, names_view(params@)) == sp_lambda_params(
                t@,
                j as int,
                Seq::empty(),
            ),
        decreases t.len() - idx,
    {
        if idx >= t.len() {
            return Err(ParseError::OutOfRange);
        }
        match &t[idx].symbol {
            Symbol::Name(s) => {
                proof {
                    lemma_names_view_push(params@, *s);
                }
                params.push(s.clone());
            },
            Symbol::Lambda => {
                return Ok((params, idx));
            },
            _ => {
                return Err(ParseError::Unsupported);
            },
        }
        idx += 1;
    }
}

/// The position of the first known function named `name`, if any.
pub fn find_sym(fs: &Vec<FunSym>, name: &String) -> (r: Option<usize>)
    ensures
        match r {
            Some(i) => is_first_sym(funsyms_view(fs@), name@, i as int) && sym_of(
                funsyms_view(fs@),
                name@,
            ) == funsym_view(fs@[i as int]),
            None => !known(funsyms_view(fs@), name@),
        },
{
    let ghost v = funsyms_view(fs@);
    let mut i: usize = 0;
    while i < fs.len()
        invariant
            i <= fs.len(),
            v == funsyms_view(fs@),
            forall|j: int| 0 <= j < i ==> (#[trigger] v[j]).name != name@,
        decreases fs.len() - i,
    {
        if fs[i].name == *name {
            proof {
                assert(is_first_sym(v, name@, i as int));
                lemma_first_sym_unique(v, name@, i as int);
            }
            return Some(i);
        }
        i += 1;
    }
    None
}

/// There is one first position of a name.
pub proof fn lemma_first_sym_unique(fs: Seq<FunSymV>, name: Seq<char>, i: int)
    requires
        is_first_sym(fs, name, i),
    ensures
        sym_of(fs, name) == fs[i],
{
    let k = choose|k: int| is_first_sym(fs, name, k);
    assert(is_first_sym(fs, name, k));
    if k < i {
        assert(fs[k].name != name);
    } else if k > i {
        assert(fs[i].name != name);
    }
}

pub proof fn lemma_expr_view_push(s: Seq<ExpressionFragment>, x: ExpressionFragment)
    ensures
        expr_view(s.push(x)) == expr_view(s).push(ef_view(x)),
{
    assert(s.push(x).drop_last() =~= s);
}

pub proof fn lemma_exprs_view_push(s: Seq<Vec<ExpressionFragment>>, x: Vec<ExpressionFragment>)
    ensures
        exprs_view(s.push(x)) == exprs_view(s).push(expr_view(x@)),
{
    assert(s.push(x).drop_last() =~= s);
}

pub proof fn lemma_ops_view_push(s: Seq<VarRefFragment>, x: VarRefFragment)
    ensures
        ops_view(s.push(x)) == ops_view(s).push(op_view(x)),
{
    assert(s.push(x).drop_last() =~= s);
}

pub proof fn lemma_children_view_push(s: Seq<Fragment>, x: Fragment)
    ensures
        children_view(s.push(x)) == children_view(s).push(fragment_view(x)),
{
    assert(s.push(x).drop_last() =~= s);
}

/// The model of a list of expressions is the list of their models.
pub proof fn lemma_exprs_view(s: Seq<Vec<ExpressionFragment>>)
    ensures
        exprs_view(s).len() == s.len(),
        forall|i: int| 0 <= i < s.len() ==> exprs_view(s)[i] == expr_view((#[trigger] s[i])@),
    decreases s.len(),
{
    if s.len() > 0 {
        lemma_exprs_view(s.drop_last());
        assert forall|i: int| 0 <= i < s.len() implies exprs_view(s)[i] == expr_view(
            (#[trigger] s[i])@,
        ) by {
            if i < s.len() - 1 {
                assert(s.drop_last()[i] == s[i]);
            }
        }
    }
}

} // verus!
