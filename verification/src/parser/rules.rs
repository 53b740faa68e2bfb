//! What the block parser computes, stated over token sequences.
//!
//! Each function here gives, for a position in the tokens, the outcome of one
//! parsing routine started there: the tree it builds and the position it stops
//! at, or the error it reports. Positions are integers; a routine may stop past
//! the last token.
use crate::parser::tokens::{kind, has_name, Constant, Symbol, SymbolKind, Token};
use crate::parser::tree::{BlockV, CallV, ExprFragV, FragV, FragmentV, FunSymV, FunctionV, VarRefFragV, VarRefRootV, VarRefV};
use vstd::prelude::*;

verus! {

/// Why parsing stopped. The number is the position that the report names:
/// a source position for most reports, a token position for an end of input
/// and for a property name that is missing.
///
/// Each variant is an exception of the language. Raising one prints the
/// report and stops the program: nothing is parsed or run after it. The
/// parser hands the variant back instead of stopping itself, every routine
/// passes it up unchanged, and the driver prints its report and stops. So an
/// `Err` result of a parsing function is the point where the program halts
/// with that exception: `UnexpectedSymbol` is UnexpectedSymbolException,
/// `UnexpectedName` UnexpectedNameException, `NotEnoughArguments`
/// ArgumentException ("Not enough arguments!"), `EndOfInput` the EOF
/// exception, and `Unsupported` and `OutOfRange` the parser's plain panics.
#[derive(Debug, Clone, PartialEq)]
pub enum ParseError {
    /// A symbol that cannot stand where it was found, and that symbol.
    UnexpectedSymbol(usize, Symbol),
    /// A name that is neither a variable nor a known function, and that
    /// name.
    UnexpectedName(usize, String),
    /// A call or statement that has fewer argument expressions than it needs.
    NotEnoughArguments(usize),
    /// The tokens ended before a closing symbol.
    EndOfInput(usize),
    /// A construct that the parser does not handle (`else if`, a `for` or a
    /// lambda parameter that is not a name, a name statement that is neither
    /// a call nor an assignment).
    Unsupported,
    /// A position before the first token or past the last one was read.
    OutOfRange,
}

/// The tokens and the functions known while parsing them.
pub struct Ctx {
    pub t: Seq<Token>,
    pub fs: Seq<FunSymV>,
}

pub type ArgsR = Result<(Seq<Seq<ExprFragV>>, int), ParseError>;

pub type ExprR = Result<(Seq<ExprFragV>, int), ParseError>;

pub type StmtR = Result<(FragmentV, Seq<Seq<char>>, int), ParseError>;

/// The termination measure of a routine started at `i` in `n` tokens.
pub open spec fn m(n: int, i: int) -> int {
    if i <= n {
        n - i + 1
    } else {
        0
    }
}

/// The first position at or after `i` whose symbol is of kind `k`.
pub open spec fn sp_next_symbol(t: Seq<Token>, i: int, k: SymbolKind) -> Result<int, ParseError>
    decreases t.len() - i,
{
    if i < 0 || i >= t.len() {
        Err(ParseError::OutOfRange)
    } else if kind(t[i].symbol) == k {
        Ok(i)
    } else if i + 1 == t.len() {
        Err(ParseError::EndOfInput(t.len() as usize))
    } else {
        sp_next_symbol(t, i + 1, k)
    }
}

/// The position that closes a group of nesting `depth`, scanning from `i`.
pub open spec fn sp_close_from(
    t: Seq<Token>,
    i: int,
    depth: int,
    open: SymbolKind,
    close: SymbolKind,
) -> Result<int, ParseError>
    decreases t.len() - i,
{
    if i == t.len() {
        Err(ParseError::EndOfInput(t.len() as usize))
    } else if i < 0 || i > t.len() {
        Err(ParseError::OutOfRange)
    } else if kind(t[i].symbol) == open {
        sp_close_from(t, i + 1, depth + 1, open, close)
    } else if kind(t[i].symbol) == close {
        if depth - 1 == 0 {
            Ok(i)
        } else {
            sp_close_from(t, i + 1, depth - 1, open, close)
        }
    } else {
        sp_close_from(t, i + 1, depth, open, close)
    }
}

/// The position of the symbol that closes the group opened at `start`.
pub open spec fn sp_next_symbol_block(
    t: Seq<Token>,
    start: int,
    open: SymbolKind,
    close: SymbolKind,
) -> Result<int, ParseError> {
    sp_close_from(t, start + 1, 1, open, close)
}

/// `i` is the first position of a function named `name`.
pub open spec fn is_first_sym(fs: Seq<FunSymV>, name: Seq<char>, i: int) -> bool {
    &&& 0 <= i < fs.len()
    &&& fs[i].name == name
    &&& forall|j: int| 0 <= j < i ==> (#[trigger] fs[j]).name != name
}

/// Some known function is named `name`.
pub open spec fn known(fs: Seq<FunSymV>, name: Seq<char>) -> bool {
    exists|i: int| 0 <= i < fs.len() && (#[trigger] fs[i]).name == name
}

/// The known function named `name` (the first one, where several are).
pub open spec fn sym_of(fs: Seq<FunSymV>, name: Seq<char>) -> FunSymV {
    fs[choose|i: int| is_first_sym(fs, name, i)]
}

/// The error for too few arguments in a list that started at `s`.
pub open spec fn missing_args(t: Seq<Token>, s: int) -> ParseError {
    if s < 1 || s - 1 >= t.len() {
        ParseError::OutOfRange
    } else {
        ParseError::NotEnoughArguments(t[s - 1].index)
    }
}

/// The stop position one before `i`, as an expression ends at a symbol
/// that does not belong to it.
pub open spec fn step_back(exp: Seq<ExprFragV>, i: int) -> ExprR {
    if i < 1 {
        Err(ParseError::OutOfRange)
    } else {
        Ok((exp, i - 1))
    }
}

/// The names of a lambda's parameters, read from `j` up to the closing bar.
pub open spec fn sp_lambda_params(t: Seq<Token>, j: int, acc: Seq<Seq<char>>) -> Result<
    (Seq<Seq<char>>, int),
    ParseError,
>
    decreases t.len() - j,
{
    if j < 0 || j >= t.len() {
        Err(ParseError::OutOfRange)
    } else {
        match t[j].symbol {
            Symbol::Name(s) => sp_lambda_params(t, j + 1, acc.push(s@)),
            Symbol::Lambda => Ok((acc, j)),
            _ => Err(ParseError::Unsupported),
        }
    }
}

/// A variable reference ends in a call.
pub open spec fn is_call(v: VarRefV) -> bool {
    if v.operations.len() > 0 {
        match v.operations.last() {
            VarRefFragV::ObjectCall { .. } => true,
            VarRefFragV::LambdaCall(_) => true,
            _ => false,
        }
    } else {
        v.root is Call
    }
}

/// A block of the tokens from `start` to `end`, inside a block whose
/// variables are `pvars`, with `args` as extra names.
pub open spec fn sp_block(c: Ctx, pvars: Seq<Seq<char>>, args: Seq<Seq<char>>, start: int, end: int) -> Result<
    BlockV,
    ParseError,
>
    decreases m(c.t.len() as int, start), 12int,
{
    sp_block_loop(c, args, start, end, pvars + args, Seq::empty())
}

/// The statements of a block from `idx` on.
pub open spec fn sp_block_loop(
    c: Ctx,
    args: Seq<Seq<char>>,
    idx: int,
    end: int,
    vars: Seq<Seq<char>>,
    kids: Seq<FragmentV>,
) -> Result<BlockV, ParseError>
    decreases m(c.t.len() as int, idx), 11int,
{
    if idx >= end {
        Ok(BlockV { children: kids, variables: vars })
    } else if idx < 0 || idx >= c.t.len() {
        Err(ParseError::OutOfRange)
    } else {
        let st = match c.t[idx].symbol {
            Symbol::If => sp_if(c, args, idx, vars),
            Symbol::Name(nm) => sp_name_stmt(c, args, idx, vars, nm),
            Symbol::BlockStart => sp_block_stmt(c, args, idx, vars),
            Symbol::Loop => sp_loop_stmt(c, args, idx, vars),
            Symbol::Break => Ok(
                (FragmentV { frag: FragV::Break, index: c.t[idx].index as int }, vars, idx),
            ),
            Symbol::Return => sp_return_stmt(c, args, idx, vars),
            Symbol::For => sp_for(c, args, idx, vars),
            _ => Err(ParseError::UnexpectedSymbol(c.t[idx].index, c.t[idx].symbol)),
        };
        match st {
            Err(e) => Err(e),
            Ok((f, vars2, fin)) => if fin + 1 > idx {
                sp_block_loop(c, args, fin + 1, end, vars2, kids.push(f))
            } else {
                Err(ParseError::OutOfRange)
            },
        }
    }
}

/// The fragment reported at the token before `fin`.
pub open spec fn frag_before(t: Seq<Token>, frag: FragV, vars: Seq<Seq<char>>, fin: int) -> StmtR {
    if fin < 1 || fin - 1 >= t.len() {
        Err(ParseError::OutOfRange)
    } else {
        Ok((FragmentV { frag, index: t[fin - 1].index as int }, vars, fin))
    }
}

/// The `else` part after an `if` whose true block closed at `ie`.
pub open spec fn sp_else(c: Ctx, args: Seq<Seq<char>>, idx: int, vars: Seq<Seq<char>>, ie: int) -> Result<
    (Option<BlockV>, int),
    ParseError,
>
    decreases m(c.t.len() as int, idx), 9int,
{
    let n = c.t.len() as int;
    let i2 = ie + 1;
    if i2 < 0 || i2 >= n {
        Ok((None, i2))
    } else if !(c.t[i2].symbol is Else) {
        Ok((None, i2 - 1))
    } else {
        let i3 = i2 + 1;
        if i3 >= n {
            Ok((None, i3))
        } else {
            match c.t[i3].symbol {
                Symbol::BlockStart => match sp_next_symbol_block(
                    c.t,
                    i3,
                    SymbolKind::BlockStart,
                    SymbolKind::BlockEnd,
                ) {
                    Err(e) => Err(e),
                    Ok(ee) => if i3 + 1 > idx && idx < n {
                        match sp_block(c, vars, args, i3 + 1, ee) {
                            Err(e) => Err(e),
                            Ok(fb) => Ok((Some(fb), ee)),
                        }
                    } else {
                        Err(ParseError::OutOfRange)
                    },
                },
                Symbol::If => Err(ParseError::Unsupported),
                _ => Err(ParseError::UnexpectedSymbol(c.t[idx].index, c.t[idx].symbol)),
            }
        }
    }
}

/// An `if` statement at `idx`.
pub open spec fn sp_if(c: Ctx, args: Seq<Seq<char>>, idx: int, vars: Seq<Seq<char>>) -> StmtR
    decreases m(c.t.len() as int, idx), 10int,
{
    let n = c.t.len() as int;
    if idx < 0 || idx >= n {
        Err(ParseError::OutOfRange)
    } else {
        match sp_args(c, vars, args, 1, idx + 1) {
            Err(e) => Err(e),
            Ok((ca, r)) => {
                let i1 = r + 1;
                match sp_next_symbol_block(c.t, i1, SymbolKind::BlockStart, SymbolKind::BlockEnd) {
                    Err(e) => Err(e),
                    Ok(ie) => if i1 > idx {
                        match sp_block(c, vars, args, i1, ie) {
                            Err(e) => Err(e),
                            Ok(tb) => match sp_else(c, args, idx, vars, ie) {
                                Err(e) => Err(e),
                                Ok((fb, fin)) => frag_before(
                                    c.t,
                                    FragV::If { condition: ca[0], trueblock: tb, falseblock: fb },
                                    vars,
                                    fin,
                                ),
                            },
                        }
                    } else {
                        Err(ParseError::OutOfRange)
                    },
                }
            },
        }
    }
}

/// A statement that starts with the name `nm` at `idx`: a new variable, a
/// call, or an assignment.
pub open spec fn sp_name_stmt(
    c: Ctx,
    args: Seq<Seq<char>>,
    idx: int,
    vars: Seq<Seq<char>>,
    nm: String,
) -> StmtR
    decreases m(c.t.len() as int, idx), 10int,
{
    let n = c.t.len() as int;
    if idx < 0 || idx >= n {
        Err(ParseError::OutOfRange)
    } else if !has_name(vars, nm@) && !has_name(args, nm@) && !known(c.fs, nm@) && idx + 1 >= n {
        Err(ParseError::OutOfRange)
    } else if !has_name(vars, nm@) && !has_name(args, nm@) && !known(c.fs, nm@) && c.t[idx
        + 1].symbol is Assign {
        match sp_args(c, vars, args, 1, idx + 2) {
            Err(e) => Err(e),
            Ok((a, r)) => frag_before(
                c.t,
                FragV::Initialize { variable: nm@, value: a[0] },
                vars.push(nm@),
                r - 1,
            ),
        }
    } else {
        match sp_name(c, vars, args, idx, nm) {
            Err(e) => Err(e),
            Ok((v, r)) => if is_call(v) {
                if r < 1 {
                    Err(ParseError::OutOfRange)
                } else {
                    Ok((FragmentV { frag: FragV::Call(v), index: c.t[idx].index as int }, vars, r - 1))
                }
            } else if r >= n || r <= idx {
                Err(ParseError::OutOfRange)
            } else if c.t[r].symbol is Assign {
                match sp_args(c, vars, args, 1, r + 1) {
                    Err(e) => Err(e),
                    Ok((a, r2)) => frag_before(
                        c.t,
                        FragV::Assignment { variable: v, value: a[0] },
                        vars,
                        r2 - 1,
                    ),
                }
            } else {
                Err(ParseError::Unsupported)
            },
        }
    }
}

/// A bare block statement opening at `idx`.
pub open spec fn sp_block_stmt(c: Ctx, args: Seq<Seq<char>>, idx: int, vars: Seq<Seq<char>>) -> StmtR
    decreases m(c.t.len() as int, idx), 10int,
{
    if idx < 0 || idx >= c.t.len() {
        Err(ParseError::OutOfRange)
    } else {
        match sp_next_symbol_block(c.t, idx, SymbolKind::BlockStart, SymbolKind::BlockEnd) {
            Err(e) => Err(e),
            Ok(e) => match sp_block(c, vars, args, idx + 1, e) {
                Err(err) => Err(err),
                Ok(b) => Ok(
                    (FragmentV { frag: FragV::Block(b), index: c.t[idx].index as int }, vars, e),
                ),
            },
        }
    }
}

/// A `loop` statement at `idx`.
pub open spec fn sp_loop_stmt(c: Ctx, args: Seq<Seq<char>>, idx: int, vars: Seq<Seq<char>>) -> StmtR
    decreases m(c.t.len() as int, idx), 10int,
{
    if idx < 0 || idx >= c.t.len() {
        Err(ParseError::OutOfRange)
    } else {
        match sp_next_symbol_block(c.t, idx + 1, SymbolKind::BlockStart, SymbolKind::BlockEnd) {
            Err(e) => Err(e),
            Ok(e) => match sp_block(c, vars, args, idx + 2, e) {
                Err(err) => Err(err),
                Ok(b) => Ok(
                    (FragmentV { frag: FragV::Loop(b), index: c.t[idx].index as int }, vars, e),
                ),
            },
        }
    }
}

/// A `return` statement at `idx`.
pub open spec fn sp_return_stmt(c: Ctx, args: Seq<Seq<char>>, idx: int, vars: Seq<Seq<char>>) -> StmtR
    decreases m(c.t.len() as int, idx), 10int,
{
    if idx < 0 || idx >= c.t.len() {
        Err(ParseError::OutOfRange)
    } else {
        match sp_args(c, vars, args, 1, idx + 1) {
            Err(e) => Err(e),
            Ok((a, r)) => Ok(
                (FragmentV { frag: FragV::Return(a[0]), index: c.t[idx].index as int }, vars, r),
            ),
        }
    }
}

/// A `for` statement at `idx`: a name, two expressions, an incrementing
/// part up to the block, and the block.
pub open spec fn sp_for(c: Ctx, args: Seq<Seq<char>>, idx: int, vars: Seq<Seq<char>>) -> StmtR
    decreases m(c.t.len() as int, idx), 10int,
{
    let n = c.t.len() as int;
    let j = idx + 1;
    if idx < 0 || j >= n {
        Err(ParseError::OutOfRange)
    } else {
        match c.t[j].symbol {
            Symbol::Name(nm) => {
                let inner = args.push(nm@);
                match sp_args(c, vars, inner, 2, j + 1) {
                    Err(e) => Err(e),
                    Ok((fa, r)) => match sp_next_symbol(c.t, r, SymbolKind::BlockStart) {
                        Err(e) => Err(e),
                        Ok(si) => if r > idx {
                            match sp_block(c, vars, inner, r, si) {
                                Err(e) => Err(e),
                                Ok(inc) => {
                                    let k = si + 1;
                                    match sp_next_symbol_block(
                                        c.t,
                                        k,
                                        SymbolKind::BlockStart,
                                        SymbolKind::BlockEnd,
                                    ) {
                                        Err(e) => Err(e),
                                        Ok(e) => if k > idx {
                                            match sp_block(c, vars, inner, k, e) {
                                                Err(err) => Err(err),
                                                Ok(b) => if e < 0 || e >= n {
                                                    Err(ParseError::OutOfRange)
                                                } else {
                                                    Ok(
                                                        (
                                                            FragmentV {
                                                                frag: FragV::For {
                                                                    name: nm@,
                                                                    initial: fa[0],
                                                                    condition: fa[1],
                                                                    incrementor: inc,
                                                                    block: b,
                                                                },
                                                                index: c.t[e].index as int,
                                                            },
                                                            vars,
                                                            e,
                                                        ),
                                                    )
                                                },
                                            }
                                        } else {
                                            Err(ParseError::OutOfRange)
                                        },
                                    }
                                },
                            }
                        } else {
                            Err(ParseError::OutOfRange)
                        },
                    },
                }
            },
            _ => Err(ParseError::Unsupported),
        }
    }
}

/// A list of expressions in parentheses, the first token at `idx`.
pub open spec fn sp_pawp(c: Ctx, vars: Seq<Seq<char>>, ex: Seq<Seq<char>>, idx: int) -> ArgsR
    decreases m(c.t.len() as int, idx), 7int,
{
    if idx < 0 || idx >= c.t.len() {
        Err(ParseError::OutOfRange)
    } else {
        let e = if c.t[idx].symbol is ParenEnd {
            Ok(idx)
        } else {
            sp_next_symbol_block(c.t, idx, SymbolKind::ParenStart, SymbolKind::ParenEnd)
        };
        match e {
            Err(err) => Err(err),
            Ok(e) => sp_pawp_loop(c, vars, ex, idx, e, Seq::empty()),
        }
    }
}

/// The expressions of a parenthesised list from `idx` up to `end`.
pub open spec fn sp_pawp_loop(
    c: Ctx,
    vars: Seq<Seq<char>>,
    ex: Seq<Seq<char>>,
    idx: int,
    end: int,
    acc: Seq<Seq<ExprFragV>>,
) -> ArgsR
    decreases m(c.t.len() as int, idx), 6int,
{
    if idx >= end {
        Ok((acc, idx))
    } else if idx < 0 || idx >= c.t.len() {
        Err(ParseError::OutOfRange)
    } else {
        match sp_args(c, vars, ex, 1, idx) {
            Err(e) => Err(e),
            Ok((a, r)) => if r > idx {
                sp_pawp_loop(c, vars, ex, r, end, acc.push(a[0]))
            } else {
                Err(ParseError::OutOfRange)
            },
        }
    }
}

/// `argslen` expressions, the first starting at `s`.
pub open spec fn sp_args(c: Ctx, vars: Seq<Seq<char>>, ex: Seq<Seq<char>>, argslen: int, s: int) -> ArgsR
    decreases m(c.t.len() as int, s), 5int,
{
    sp_args_outer(c, vars, ex, argslen, s, s, Seq::empty())
}

/// The rest of an argument list, the next expression starting at `idx`.
pub open spec fn sp_args_outer(
    c: Ctx,
    vars: Seq<Seq<char>>,
    ex: Seq<Seq<char>>,
    argslen: int,
    s: int,
    idx: int,
    acc: Seq<Seq<ExprFragV>>,
) -> ArgsR
    decreases m(c.t.len() as int, idx), 4int,
{
    if acc.len() >= argslen {
        Ok((acc, idx))
    } else {
        match sp_expr(c, vars, ex, idx, Seq::empty(), true) {
            Err(e) => Err(e),
            Ok((exp, j)) => if exp.len() > 0 {
                if j + 1 > idx && idx <= c.t.len() {
                    sp_args_outer(c, vars, ex, argslen, s, j + 1, acc.push(exp))
                } else {
                    Err(ParseError::OutOfRange)
                }
            } else if j < 1 {
                Err(ParseError::OutOfRange)
            } else {
                Err(missing_args(c.t, s))
            },
        }
    }
}

/// One expression from `idx` on, with `exp` read so far; `cv` says that an
/// operand may come next.
pub open spec fn sp_expr(
    c: Ctx,
    vars: Seq<Seq<char>>,
    ex: Seq<Seq<char>>,
    idx: int,
    exp: Seq<ExprFragV>,
    cv: bool,
) -> ExprR
    decreases m(c.t.len() as int, idx), 3int,
{
    let n = c.t.len() as int;
    if idx < 0 || idx >= n {
        Ok((exp, idx))
    } else {
        match c.t[idx].symbol {
            Symbol::Constant(k) => if cv {
                sp_expr(c, vars, ex, idx + 1, exp.push(ExprFragV::Constant(k)), false)
            } else {
                step_back(exp, idx)
            },
            Symbol::Name(nm) => if cv {
                match sp_name(c, vars, ex, idx, nm) {
                    Err(e) => Err(e),
                    Ok((v, r)) => if r > idx {
                        sp_expr(c, vars, ex, r, exp.push(ExprFragV::VarRef(v)), false)
                    } else {
                        Err(ParseError::OutOfRange)
                    },
                }
            } else {
                step_back(exp, idx)
            },
            Symbol::Lambda => if cv {
                match sp_lambda_params(c.t, idx + 1, Seq::empty()) {
                    Err(e) => Err(e),
                    Ok((params, jc)) => {
                        let j2 = jc + 1;
                        if j2 >= n || j2 <= idx {
                            Err(ParseError::OutOfRange)
                        } else {
                            match sp_next_symbol_block(
                                c.t,
                                j2,
                                SymbolKind::BlockStart,
                                SymbolKind::BlockEnd,
                            ) {
                                Err(e) => Err(e),
                                Ok(e) => match sp_block(c, Seq::empty(), params, j2, e) {
                                    Err(err) => Err(err),
                                    Ok(b) => if e + 1 > idx {
                                        sp_expr(
                                            c,
                                            vars,
                                            ex,
                                            e + 1,
                                            exp.push(
                                                ExprFragV::Lambda(FunctionV { args: params, source: b }),
                                            ),
                                            false,
                                        )
                                    } else {
                                        Err(ParseError::OutOfRange)
                                    },
                                },
                            }
                        }
                    },
                }
            } else {
                step_back(exp, idx)
            },
            Symbol::Op(o) => if !cv {
                sp_expr(c, vars, ex, idx + 1, exp.push(ExprFragV::Op(o)), true)
            } else {
                Err(ParseError::UnexpectedSymbol(c.t[idx].index, c.t[idx].symbol))
            },
            Symbol::ParenStart => match sp_next_symbol_block(
                c.t,
                idx + 1,
                SymbolKind::ParenStart,
                SymbolKind::ParenEnd,
            ) {
                Err(e) => Err(e),
                Ok(e) => match sp_args(c, vars, ex, 1, idx + 1) {
                    Err(err) => Err(err),
                    Ok((a, _r)) => if e + 1 > idx {
                        sp_expr(c, vars, ex, e + 1, exp.push(ExprFragV::Expression(a[0])), false)
                    } else {
                        Err(ParseError::OutOfRange)
                    },
                },
            },
            _ => step_back(exp, idx),
        }
    }
}

/// A variable reference or call that starts with the name `nm` at `idx`.
pub open spec fn sp_name(c: Ctx, vars: Seq<Seq<char>>, ex: Seq<Seq<char>>, idx: int, nm: String) -> Result<
    (VarRefV, int),
    ParseError,
>
    decreases m(c.t.len() as int, idx), 2int,
{
    if idx < 0 || idx >= c.t.len() {
        Err(ParseError::OutOfRange)
    } else {
        let root: Result<(VarRefRootV, int), ParseError> = if has_name(vars, nm@) || has_name(
            ex,
            nm@,
        ) {
            Ok((VarRefRootV::Variable(nm@), idx))
        } else if known(c.fs, nm@) {
            match sp_fncall(c, vars, ex, idx, sym_of(c.fs, nm@)) {
                Err(e) => Err(e),
                Ok((call, r)) => Ok((VarRefRootV::Call(call), r)),
            }
        } else {
            Err(ParseError::UnexpectedName(c.t[idx].index, nm))
        };
        match root {
            Err(e) => Err(e),
            Ok((rt, r)) => if r + 1 > idx {
                match sp_ops(c, vars, ex, r + 1, Seq::empty()) {
                    Err(e) => Err(e),
                    Ok((ops, r2)) => Ok((VarRefV { root: rt, operations: ops }, r2)),
                }
            } else {
                Err(ParseError::OutOfRange)
            },
        }
    }
}

/// A call of the known function `sym` named at `idx`.
pub open spec fn sp_fncall(c: Ctx, vars: Seq<Seq<char>>, ex: Seq<Seq<char>>, idx: int, sym: FunSymV) -> Result<
    (CallV, int),
    ParseError,
>
    decreases m(c.t.len() as int, idx), 1int,
{
    if idx < 0 || idx >= c.t.len() {
        Err(ParseError::OutOfRange)
    } else if sym.args.len() != 0 {
        match sp_args(c, vars, ex, sym.args.len() as int, idx + 1) {
            Err(e) => Err(e),
            Ok((a, r)) => if r < 1 {
                Err(ParseError::OutOfRange)
            } else {
                Ok((CallV { name: sym.name, args: a }, r - 1))
            },
        }
    } else {
        Ok((CallV { name: sym.name, args: Seq::empty() }, idx))
    }
}

/// The indexing, property and call operations after a variable reference's
/// root, from `idx` on.
pub open spec fn sp_ops(
    c: Ctx,
    vars: Seq<Seq<char>>,
    ex: Seq<Seq<char>>,
    idx: int,
    acc: Seq<VarRefFragV>,
) -> Result<(Seq<VarRefFragV>, int), ParseError>
    decreases m(c.t.len() as int, idx), 0int,
{
    let n = c.t.len() as int;
    if idx < 0 || idx >= n {
        Ok((acc, idx))
    } else {
        match c.t[idx].symbol {
            Symbol::IndexObject => {
                let j = idx + 1;
                if j >= n {
                    Err(ParseError::OutOfRange)
                } else {
                    match c.t[j].symbol {
                        Symbol::Name(f) => if j + 1 < n && c.t[j + 1].symbol is ParenStart {
                            match sp_pawp(c, vars, ex, j + 2) {
                                Err(e) => Err(e),
                                Ok((a, r)) => if r + 1 > idx {
                                    sp_ops(
                                        c,
                                        vars,
                                        ex,
                                        r + 1,
                                        acc.push(VarRefFragV::ObjectCall { name: f@, args: a }),
                                    )
                                } else {
                                    Err(ParseError::OutOfRange)
                                },
                            }
                        } else {
                            sp_ops(c, vars, ex, j + 1, acc.push(VarRefFragV::ObjectProperty(f@)))
                        },
                        _ => Err(ParseError::UnexpectedSymbol(j as usize, c.t[j].symbol)),
                    }
                }
            },
            Symbol::IndexStart => match sp_args(c, vars, ex, 1, idx + 1) {
                Err(e) => Err(e),
                Ok((a, r)) => if r + 1 > idx {
                    sp_ops(c, vars, ex, r + 1, acc.push(VarRefFragV::IndexInto(a[0])))
                } else {
                    Err(ParseError::OutOfRange)
                },
            },
            Symbol::ParenStart => match sp_pawp(c, vars, ex, idx + 1) {
                Err(e) => Err(e),
                Ok((a, r)) => if r + 1 > idx {
                    sp_ops(c, vars, ex, r + 1, acc.push(VarRefFragV::LambdaCall(a)))
                } else {
                    Err(ParseError::OutOfRange)
                },
            },
            _ => Ok((acc, idx)),
        }
    }
}

} // verus!
