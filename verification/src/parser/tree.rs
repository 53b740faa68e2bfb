//! The syntax tree that the block parser builds, and its mathematical model.
use crate::interpreter::lexer::Op;
use crate::parser::tokens::{names_view, Constant, Token};
use vstd::prelude::*;

verus! {

/// A parsed program: its top-level block and the functions it defines.
#[derive(Debug, PartialEq)]
pub struct Root {
    pub root: Block,
    pub functions: Vec<(String, Function)>,
}

/// A sequence of statements and the variables visible in it.
#[derive(Debug, PartialEq)]
pub struct Block {
    pub children: Vec<Fragment>,
    pub variables: Vec<String>,
}

/// A function known to the parser: a library or builtin one (no source) or
/// one that the program defines (its body's tokens).
#[derive(Debug, PartialEq)]
pub struct FunSym {
    pub name: String,
    pub source: Option<Vec<Token>>,
    pub args: Vec<String>,
}

/// A statement and the source position it is reported at.
#[derive(Debug, PartialEq)]
pub struct Fragment {
    pub frag: Frag,
    pub index: usize,
}

/// A statement.
#[derive(Debug, PartialEq)]
pub enum Frag {
    If { condition: Vec<ExpressionFragment>, trueblock: Block, falseblock: Option<Block> },
    For {
        name: String,
        initial: Vec<ExpressionFragment>,
        condition: Vec<ExpressionFragment>,
        incrementor: Block,
        block: Block,
    },
    Call(VarRef),
    Block(Block),
    Loop(Block),
    Break,
    Initialize { variable: String, value: Vec<ExpressionFragment> },
    Assignment { variable: VarRef, value: Vec<ExpressionFragment> },
    Return(Vec<ExpressionFragment>),
}

/// A function value: its parameter names and its body.
#[derive(Debug, PartialEq)]
pub struct Function {
    pub args: Vec<String>,
    pub source: Block,
}

/// One piece of an expression: operands and operators alternate.
#[derive(Debug, PartialEq)]
pub enum ExpressionFragment {
    Op(Op),
    Constant(Constant),
    Call(Call),
    Expression(Vec<ExpressionFragment>),
    VarRef(VarRef),
    Lambda(Function),
}

/// A variable or a call, followed by indexing, property access and calls.
#[derive(Debug, PartialEq)]
pub struct VarRef {
    pub root: VarRefRoot,
    pub operations: Vec<VarRefFragment>,
}

#[derive(Debug, PartialEq)]
pub enum VarRefRoot {
    Variable(String),
    Call(Call),
}

#[derive(Debug, PartialEq)]
pub enum VarRefFragment {
    IndexInto(Vec<ExpressionFragment>),
    ObjectProperty(String),
    ObjectCall { name: String, args: Vec<Vec<ExpressionFragment>> },
    LambdaCall(Vec<Vec<ExpressionFragment>>),
}

/// A call of a named function with its argument expressions.
#[derive(Debug, PartialEq)]
pub struct Call {
    pub name: String,
    pub args: Vec<Vec<ExpressionFragment>>,
}

// The model: the same tree with sequences in place of vectors.

pub enum ExprFragV {
    Op(Op),
    Constant(Constant),
    Call(CallV),
    Expression(Seq<ExprFragV>),
    VarRef(VarRefV),
    Lambda(FunctionV),
}

pub struct CallV {
    pub name: Seq<char>,
    pub args: Seq<Seq<ExprFragV>>,
}

pub struct VarRefV {
    pub root: VarRefRootV,
    pub operations: Seq<VarRefFragV>,
}

pub enum VarRefRootV {
    Variable(Seq<char>),
    Call(CallV),
}

pub enum VarRefFragV {
    IndexInto(Seq<ExprFragV>),
    ObjectProperty(Seq<char>),
    ObjectCall { name: Seq<char>, args: Seq<Seq<ExprFragV>> },
    LambdaCall(Seq<Seq<ExprFragV>>),
}

pub struct FunctionV {
    pub args: Seq<Seq<char>>,
    pub source: BlockV,
}

pub struct BlockV {
    pub children: Seq<FragmentV>,
    pub variables: Seq<Seq<char>>,
}

pub struct FragmentV {
    pub frag: FragV,
    pub index: int,
}

pub enum FragV {
    If { condition: Seq<ExprFragV>, trueblock: BlockV, falseblock: Option<BlockV> },
    For {
        name: Seq<char>,
        initial: Seq<ExprFragV>,
        condition: Seq<ExprFragV>,
        incrementor: BlockV,
        block: BlockV,
    },
    Call(VarRefV),
    Block(BlockV),
    Loop(BlockV),
    Break,
    Initialize { variable: Seq<char>, value: Seq<ExprFragV> },
    Assignment { variable: VarRefV, value: Seq<ExprFragV> },
    Return(Seq<ExprFragV>),
}

pub struct FunSymV {
    pub name: Seq<char>,
    pub source: Option<Seq<Token>>,
    pub args: Seq<Seq<char>>,
}

pub open spec fn ef_view(f: ExpressionFragment) -> ExprFragV
    decreases f,
{
    match f {
        ExpressionFragment::Op(o) => ExprFragV::Op(o),
        ExpressionFragment::Constant(c) => ExprFragV::Constant(c),
        ExpressionFragment::Call(c) => ExprFragV::Call(call_view(c)),
        ExpressionFragment::Expression(e) => ExprFragV::Expression(expr_view(e@)),
        ExpressionFragment::VarRef(v) => ExprFragV::VarRef(varref_view(v)),
        ExpressionFragment::Lambda(l) => ExprFragV::Lambda(function_view(l)),
    }
}

pub open spec fn expr_view(e: Seq<ExpressionFragment>) -> Seq<ExprFragV>
    decreases e,
{
    if e.len() == 0 {
        Seq::empty()
    } else {
        expr_view(e.drop_last()).push(ef_view(e.last()))
    }
}

pub open spec fn exprs_view(a: Seq<Vec<ExpressionFragment>>) -> Seq<Seq<ExprFragV>>
    decreases a,
{
    if a.len() == 0 {
        Seq::empty()
    } else {
        exprs_view(a.drop_last()).push(expr_view(a.last()@))
    }
}

pub open spec fn call_view(c: Call) -> CallV
    decreases c,
{
    CallV { name: c.name@, args: exprs_view(c.args@) }
}

pub open spec fn varref_view(v: VarRef) -> VarRefV
    decreases v,
{
    VarRefV { root: root_view(v.root), operations: ops_view(v.operations@) }
}

pub open spec fn root_view(r: VarRefRoot) -> VarRefRootV
    decreases r,
{
    match r {
        VarRefRoot::Variable(n) => VarRefRootV::Variable(n@),
        VarRefRoot::Call(c) => VarRefRootV::Call(call_view(c)),
    }
}

pub open spec fn ops_view(s: Seq<VarRefFragment>) -> Seq<VarRefFragV>
    decreases s,
{
    if s.len() == 0 {
        Seq::empty()
    } else {
        ops_view(s.drop_last()).push(op_view(s.last()))
    }
}

pub open spec fn op_view(f: VarRefFragment) -> VarRefFragV
    decreases f,
{
    match f {
        VarRefFragment::IndexInto(e) => VarRefFragV::IndexInto(expr_view(e@)),
        VarRefFragment::ObjectProperty(n) => VarRefFragV::ObjectProperty(n@),
        VarRefFragment::ObjectCall { name, args } => VarRefFragV::ObjectCall {
            name: name@,
            args: exprs_view(args@),
        },
        VarRefFragment::LambdaCall(a) => VarRefFragV::LambdaCall(exprs_view(a@)),
    }
}

pub open spec fn function_view(f: Function) -> FunctionV
    decreases f,
{
    FunctionV { args: names_view(f.args@), source: block_view(f.source) }
}

pub open spec fn block_view(b: Block) -> BlockV
    decreases b,
{
    BlockV { children: children_view(b.children@), variables: names_view(b.variables@) }
}

pub open spec fn children_view(s: Seq<Fragment>) -> Seq<FragmentV>
    decreases s,
{
    if s.len() == 0 {
        Seq::empty()
    } else {
        children_view(s.drop_last()).push(fragment_view(s.last()))
    }
}

pub open spec fn fragment_view(f: Fragment) -> FragmentV
    decreases f,
{
    FragmentV { frag: frag_view(f.frag), index: f.index as int }
}

pub open spec fn frag_view(f: Frag) -> FragV
    decreases f,
{
    match f {
        Frag::If { condition, trueblock, falseblock } => FragV::If {
            condition: expr_view(condition@),
            trueblock: block_view(trueblock),
            falseblock: match falseblock {
                Some(b) => Some(block_view(b)),
                None => None,
            },
        },
        Frag::For { name, initial, condition, incrementor, block } => FragV::For {
            name: name@,
            initial: expr_view(initial@),
            condition: expr_view(condition@),
            incrementor: block_view(incrementor),
            block: block_view(block),
        },
        Frag::Call(v) => FragV::Call(varref_view(v)),
        Frag::Block(b) => FragV::Block(block_view(b)),
        Frag::Loop(b) => FragV::Loop(block_view(b)),
        Frag::Break => FragV::Break,
        Frag::Initialize { variable, value } => FragV::Initialize {
            variable: variable@,
            value: expr_view(value@),
        },
        Frag::Assignment { variable, value } => FragV::Assignment {
            variable: varref_view(variable),
            value: expr_view(value@),
        },
        Frag::Return(e) => FragV::Return(expr_view(e@)),
    }
}

pub open spec fn funsym_view(f: FunSym) -> FunSymV {
    FunSymV {
        name: f.name@,
        source: match f.source {
            Some(s) => Some(s@),
            None => None,
        },
        args: names_view(f.args@),
    }
}

pub open spec fn funsyms_view(s: Seq<FunSym>) -> Seq<FunSymV> {
    s.map_values(|f: FunSym| funsym_view(f))
}

} // verus!
