//! The tokens that the block parser reads.
use crate::interpreter::lexer::Op;
use vstd::prelude::*;

verus! {

/// A literal value. A number is kept as the bit pattern of the
/// single-precision float that the tokenizer read; the parser only carries it.
#[derive(Debug, Clone, PartialEq, Eq)]
pub enum Constant {
    String(String),
    Number(u32),
    Bool(bool),
}

/// What a token is.
#[derive(Debug, Clone, PartialEq)]
pub enum Symbol {
    Assign,
    If,
    Else,
    BlockStart,
    BlockEnd,
    ParenStart,
    ParenEnd,
    Name(String),
    Constant(Constant),
    Op(Op),
    Return,
    Loop,
    Break,
    Load,
    For,
    Lambda,
    IndexObject,
    IndexStart,
}

/// A token and the position in the source at which it was read.
#[derive(Debug, Clone, PartialEq)]
pub struct Token {
    pub symbol: Symbol,
    pub index: usize,
}

/// The variant of a symbol, without what it carries.
#[derive(Debug, Clone, Copy, PartialEq, Eq, Structural)]
pub enum SymbolKind {
    Assign,
    If,
    Else,
    BlockStart,
    BlockEnd,
    ParenStart,
    ParenEnd,
    Name,
    Constant,
    Op,
    Return,
    Loop,
    Break,
    Load,
    For,
    Lambda,
    IndexObject,
    IndexStart,
}

pub open spec fn kind(s: Symbol) -> SymbolKind {
    match s {
        Symbol::Assign => SymbolKind::Assign,
        Symbol::If => SymbolKind::If,
        Symbol::Else => SymbolKind::Else,
        Symbol::BlockStart => SymbolKind::BlockStart,
        Symbol::BlockEnd => SymbolKind::BlockEnd,
        Symbol::ParenStart => SymbolKind::ParenStart,
        Symbol::ParenEnd => SymbolKind::ParenEnd,
        Symbol::Name(_) => SymbolKind::Name,
        Symbol::Constant(_) => SymbolKind::Constant,
        Symbol::Op(_) => SymbolKind::Op,
        Symbol::Return => SymbolKind::Return,
        Symbol::Loop => SymbolKind::Loop,
        Symbol::Break => SymbolKind::Break,
        Symbol::Load => SymbolKind::Load,
        Symbol::For => SymbolKind::For,
        Symbol::Lambda => SymbolKind::Lambda,
        Symbol::IndexObject => SymbolKind::IndexObject,
        Symbol::IndexStart => SymbolKind::IndexStart,
    }
}

/// The variant of a symbol.
pub fn symbol_kind(s: &Symbol) -> (k: SymbolKind)
    ensures
        k == kind(*s),
{
    match s {
        Symbol::Assign => SymbolKind::Assign,
        Symbol::If => SymbolKind::If,
        Symbol::Else => SymbolKind::Else,
        Symbol::BlockStart => SymbolKind::BlockStart,
        Symbol::BlockEnd => SymbolKind::BlockEnd,
        Symbol::ParenStart => SymbolKind::ParenStart,
        Symbol::ParenEnd => SymbolKind::ParenEnd,
        Symbol::Name(_) => SymbolKind::Name,
        Symbol::Constant(_) => SymbolKind::Constant,
        Symbol::Op(_) => SymbolKind::Op,
        Symbol::Return => SymbolKind::Return,
        Symbol::Loop => SymbolKind::Loop,
        Symbol::Break => SymbolKind::Break,
        Symbol::Load => SymbolKind::Load,
        Symbol::For => SymbolKind::For,
        Symbol::Lambda => SymbolKind::Lambda,
        Symbol::IndexObject => SymbolKind::IndexObject,
        Symbol::IndexStart => SymbolKind::IndexStart,
    }
}

/// A copy of a constant.
pub fn copy_constant(c: &Constant) -> (r: Constant)
    ensures
        r == *c,
{
    match c {
        Constant::String(s) => Constant::String(s.clone()),
        Constant::Number(n) => Constant::Number(*n),
        Constant::Bool(b) => Constant::Bool(*b),
    }
}

/// A copy of a symbol.
pub fn copy_symbol(s: &Symbol) -> (r: Symbol)
    ensures
        r == *s,
{
    match s {
        Symbol::Assign => Symbol::Assign,
        Symbol::If => Symbol::If,
        Symbol::Else => Symbol::Else,
        Symbol::BlockStart => Symbol::BlockStart,
        Symbol::BlockEnd => Symbol::BlockEnd,
        Symbol::ParenStart => Symbol::ParenStart,
        Symbol::ParenEnd => Symbol::ParenEnd,
        Symbol::Name(n) => Symbol::Name(n.clone()),
        Symbol::Constant(c) => Symbol::Constant(copy_constant(c)),
        Symbol::Op(o) => Symbol::Op(*o),
        Symbol::Return => Symbol::Return,
        Symbol::Loop => Symbol::Loop,
        Symbol::Break => Symbol::Break,
        Symbol::Load => Symbol::Load,
        Symbol::For => Symbol::For,
        Symbol::Lambda => Symbol::Lambda,
        Symbol::IndexObject => Symbol::IndexObject,
        Symbol::IndexStart => Symbol::IndexStart,
    }
}

/// A copy of a token.
pub fn copy_token(t: &Token) -> (r: Token)
    ensures
        r == *t,
{
    Token { symbol: copy_symbol(&t.symbol), index: t.index }
}

/// The characters of each name of a list.
pub open spec fn names_view(v: Seq<String>) -> Seq<Seq<char>> {
    v.map_values(|s: String| s@)
}

pub proof fn lemma_names_view_push(v: Seq<String>, x: String)
    ensures
        names_view(v.push(x)) == names_view(v).push(x@),
{
    assert(names_view(v.push(x)) =~= names_view(v).push(x@));
}

/// Whether `name` is one of the names.
pub open spec fn has_name(names: Seq<Seq<char>>, name: Seq<char>) -> bool {
    exists|i: int| 0 <= i < names.len() && #[trigger] names[i] == name
}

/// Whether `name` is in `names`.
pub fn contains_name(names: &Vec<String>, name: &String) -> (b: bool)
    ensures
        b == has_name(names_view(names@), name@),
{
    let mut i: usize = 0;
    while i < names.len()
        invariant
            i <= names.len(),
            forall|j: int| 0 <= j < i ==> names@[j]@ != name@,
        decreases names.len() - i,
    {
        if names[i] == *name {
            assert(names_view(names@)[i as int] == name@);
            return true;
        }
        i += 1;
    }
    assert forall|j: int| 0 <= j < names.len() implies #[trigger] names_view(names@)[j] != name@ by {
        assert(names@[j]@ != name@);
    }
    false
}

/// A copy of a list of names.
pub fn copy_names(names: &Vec<String>) -> (r: Vec<String>)
    ensures
        r@ == names@,
{
    let mut r: Vec<String> = Vec::new();
    let mut i: usize = 0;
    while i < names.len()
        invariant
            i <= names.len(),
            r@ == names@.take(i as int),
        decreases names.len() - i,
    {
        r.push(names[i].clone());
        i += 1;
        assert(r@ =~= names@.take(i as int));
    }
    assert(names@.take(names.len() as int) =~= names@);
    r
}

} // verus!
