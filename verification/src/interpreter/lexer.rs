//! The tokenizer: source text to tokens, each with the character position at
//! which it was recognised.
use crate::numbers::{parse_i64, parse_i64_spec};
use crate::text::{chars_of, is_literal, string_of};
use vstd::prelude::*;

verus! {

/// A literal value in the source.
#[derive(Debug, Clone, PartialEq, Eq)]
pub enum Constant {
    String(String),
    Number(i64),
    Bool(bool),
}

/// An operator.
#[derive(Debug, Clone, Copy, PartialEq, Eq, Structural)]
pub enum Op {
    Plus,
    Minus,
    Multiply,
    Divide,
    Power,
    LessThan,
    LessThanOrEqualTo,
    GreaterThan,
    GreaterThanOrEqualTo,
    EqualTo,
    NotEqualTo,
    Not,
    And,
    Or,
}

/// What a token is.
#[derive(Debug, Clone, PartialEq)]
pub enum Symbol {
    Assign,
    If,
    BlockStart,
    BlockEnd,
    ParenStart,
    ParenEnd,
    Name(String),
    Constant(Constant),
    Op(Op),
    Return,
    Loop,
    Break,
    Else,
    Load,
    For,
}

/// A token and the position of the character that ended it.
#[derive(Debug, Clone, PartialEq)]
pub struct Token {
    pub symbol: Symbol,
    pub index: usize,
}

pub enum ConstantV {
    String(Seq<char>),
    Number(i64),
    Bool(bool),
}

pub enum SymbolV {
    Assign,
    If,
    BlockStart,
    BlockEnd,
    ParenStart,
    ParenEnd,
    Name(Seq<char>),
    Constant(ConstantV),
    Op(Op),
    Return,
    Loop,
    Break,
    Else,
    Load,
    For,
}

pub struct TokenV {
    pub symbol: SymbolV,
    pub index: int,
}

impl View for Constant {
    type V = ConstantV;

    open spec fn view(&self) -> ConstantV {
        match self {
            Constant::String(s) => ConstantV::String(s@),
            Constant::Number(n) => ConstantV::Number(*n),
            Constant::Bool(b) => ConstantV::Bool(*b),
        }
    }
}

impl View for Symbol {
    type V = SymbolV;

    open spec fn view(&self) -> SymbolV {
        match self {
            Symbol::Assign => SymbolV::Assign,
            Symbol::If => SymbolV::If,
            Symbol::BlockStart => SymbolV::BlockStart,
            Symbol::BlockEnd => SymbolV::BlockEnd,
            Symbol::ParenStart => SymbolV::ParenStart,
            Symbol::ParenEnd => SymbolV::ParenEnd,
            Symbol::Name(s) => SymbolV::Name(s@),
            Symbol::Constant(c) => SymbolV::Constant(c@),
            Symbol::Op(o) => SymbolV::Op(*o),
            Symbol::Return => SymbolV::Return,
            Symbol::Loop => SymbolV::Loop,
            Symbol::Break => SymbolV::Break,
            Symbol::Else => SymbolV::Else,
            Symbol::Load => SymbolV::Load,
            Symbol::For => SymbolV::For,
        }
    }
}

impl View for Token {
    type V = TokenV;

    open spec fn view(&self) -> TokenV {
        TokenV { symbol: self.symbol@, index: self.index as int }
    }
}

/// The character appended to the source to end its last word.
pub const END_MARK: char = '\u{0017}';

/// Characters that end a word, and the symbol that each stands for itself.
pub open spec fn interrupt(ch: char) -> Option<Option<SymbolV>> {
    if ch == '\n' || ch == ';' || ch == ' ' || ch == '\u{0017}' {
        Some(None)
    } else if ch == '(' {
        Some(Some(SymbolV::ParenStart))
    } else if ch == ')' {
        Some(Some(SymbolV::ParenEnd))
    } else if ch == '{' {
        Some(Some(SymbolV::BlockStart))
    } else if ch == '}' {
        Some(Some(SymbolV::BlockEnd))
    } else if ch == '!' {
        Some(Some(SymbolV::Op(Op::Not)))
    } else if ch == '+' {
        Some(Some(SymbolV::Op(Op::Plus)))
    } else if ch == '-' {
        Some(Some(SymbolV::Op(Op::Minus)))
    } else if ch == '*' {
        Some(Some(SymbolV::Op(Op::Multiply)))
    } else if ch == '/' {
        Some(Some(SymbolV::Op(Op::Divide)))
    } else if ch == '^' {
        Some(Some(SymbolV::Op(Op::Power)))
    } else {
        None
    }
}

/// The character that stands for each single-character symbol.
pub open spec fn symbol_char(s: SymbolV) -> Option<char> {
    match s {
        SymbolV::ParenStart => Some('('),
        SymbolV::ParenEnd => Some(')'),
        SymbolV::BlockStart => Some('{'),
        SymbolV::BlockEnd => Some('}'),
        SymbolV::Op(Op::Not) => Some('!'),
        SymbolV::Op(Op::Plus) => Some('+'),
        SymbolV::Op(Op::Minus) => Some('-'),
        SymbolV::Op(Op::Multiply) => Some('*'),
        SymbolV::Op(Op::Divide) => Some('/'),
        SymbolV::Op(Op::Power) => Some('^'),
        _ => None,
    }
}

/// Law: a character ends a word and becomes a symbol of its own exactly when
/// it is that symbol's character (`-` is Minus, `+` Plus, `{` opens a
/// block, ...); it ends a word and becomes nothing exactly when it is a line
/// break, `;`, a space or the end mark.
pub proof fn law_single_characters(ch: char, s: SymbolV)
    ensures
        interrupt(ch) == Some(Some(s)) <==> symbol_char(s) == Some(ch),
        interrupt(ch) == Some(None::<SymbolV>) <==> (ch == '\n' || ch == ';' || ch == ' ' || ch
            == '\u{0017}'),
{
}

/// The keyword that a word spells, if any.
pub open spec fn keyword(w: Seq<char>) -> Option<SymbolV> {
    if w == "if"@ {
        Some(SymbolV::If)
    } else if w == "loop"@ {
        Some(SymbolV::Loop)
    } else if w == "break"@ {
        Some(SymbolV::Break)
    } else if w == "return"@ {
        Some(SymbolV::Return)
    } else if w == "for"@ {
        Some(SymbolV::For)
    } else if w == "load"@ {
        Some(SymbolV::Load)
    } else if w == "true"@ {
        Some(SymbolV::Constant(ConstantV::Bool(true)))
    } else if w == "false"@ {
        Some(SymbolV::Constant(ConstantV::Bool(false)))
    } else if w == "="@ {
        Some(SymbolV::Assign)
    } else if w == "else"@ {
        Some(SymbolV::Else)
    } else if w == "<"@ {
        Some(SymbolV::Op(Op::LessThan))
    } else if w == "<="@ {
        Some(SymbolV::Op(Op::LessThanOrEqualTo))
    } else if w == ">"@ {
        Some(SymbolV::Op(Op::GreaterThan))
    } else if w == ">="@ {
        Some(SymbolV::Op(Op::GreaterThanOrEqualTo))
    } else if w == "=="@ {
        Some(SymbolV::Op(Op::EqualTo))
    } else if w == "!="@ {
        Some(SymbolV::Op(Op::NotEqualTo))
    } else if w == "&&"@ {
        Some(SymbolV::Op(Op::And))
    } else if w == "||"@ {
        Some(SymbolV::Op(Op::Or))
    } else {
        None
    }
}

/// The word that stands for each keyword symbol: the table of the language's
/// keywords and word operators, read from the symbol's side.
pub open spec fn keyword_text(s: SymbolV) -> Option<Seq<char>> {
    match s {
        SymbolV::If => Some("if"@),
        SymbolV::Loop => Some("loop"@),
        SymbolV::Break => Some("break"@),
        SymbolV::Return => Some("return"@),
        SymbolV::For => Some("for"@),
        SymbolV::Load => Some("load"@),
        SymbolV::Constant(ConstantV::Bool(true)) => Some("true"@),
        SymbolV::Constant(ConstantV::Bool(false)) => Some("false"@),
        SymbolV::Assign => Some("="@),
        SymbolV::Else => Some("else"@),
        SymbolV::Op(Op::LessThan) => Some("<"@),
        SymbolV::Op(Op::LessThanOrEqualTo) => Some("<="@),
        SymbolV::Op(Op::GreaterThan) => Some(">"@),
        SymbolV::Op(Op::GreaterThanOrEqualTo) => Some(">="@),
        SymbolV::Op(Op::EqualTo) => Some("=="@),
        SymbolV::Op(Op::NotEqualTo) => Some("!="@),
        SymbolV::Op(Op::And) => Some("&&"@),
        SymbolV::Op(Op::Or) => Some("||"@),
        _ => None,
    }
}

/// Law: a word is a keyword exactly when it is the word of that keyword's
/// symbol: `||` is the operator Or and `&&` the operator And, `<` is
/// less-than and `>` greater-than, and so on; no other word is a keyword,
/// and the arithmetic operators are never words.
pub proof fn law_keywords(w: Seq<char>, s: SymbolV)
    ensures
        keyword(w) == Some(s) <==> keyword_text(s) == Some(w),
        keyword(w) != Some(SymbolV::Op(Op::Plus)),
        keyword(w) != Some(SymbolV::Op(Op::Minus)),
        keyword(w) != Some(SymbolV::Op(Op::Multiply)),
        keyword(w) != Some(SymbolV::Op(Op::Divide)),
{
    reveal_strlit("if");
    reveal_strlit("loop");
    reveal_strlit("break");
    reveal_strlit("return");
    reveal_strlit("for");
    reveal_strlit("load");
    reveal_strlit("true");
    reveal_strlit("false");
    reveal_strlit("=");
    reveal_strlit("else");
    reveal_strlit("<");
    reveal_strlit("<=");
    reveal_strlit(">");
    reveal_strlit(">=");
    reveal_strlit("==");
    reveal_strlit("!=");
    reveal_strlit("&&");
    reveal_strlit("||");
    assert("if"@.len() == 2 && "if"@[0] == 'i' && "if"@[1] == 'f');
    assert("loop"@.len() == 4 && "loop"@[0] == 'l' && "loop"@[1] == 'o' && "loop"@[2] == 'o' && "loop"@[3] == 'p');
    assert("break"@.len() == 5 && "break"@[0] == 'b' && "break"@[1] == 'r' && "break"@[2] == 'e' && "break"@[3] == 'a' && "break"@[4] == 'k');
    assert("return"@.len() == 6 && "return"@[0] == 'r' && "return"@[1] == 'e' && "return"@[2] == 't' && "return"@[3] == 'u' && "return"@[4] == 'r' && "return"@[5] == 'n');
    assert("for"@.len() == 3 && "for"@[0] == 'f' && "for"@[1] == 'o' && "for"@[2] == 'r');
    assert("load"@.len() == 4 && "load"@[0] == 'l' && "load"@[1] == 'o' && "load"@[2] == 'a' && "load"@[3] == 'd');
    assert("true"@.len() == 4 && "true"@[0] == 't' && "true"@[1] == 'r' && "true"@[2] == 'u' && "true"@[3] == 'e');
    assert("false"@.len() == 5 && "false"@[0] == 'f' && "false"@[1] == 'a' && "false"@[2] == 'l' && "false"@[3] == 's' && "false"@[4] == 'e');
    assert("="@.len() == 1 && "="@[0] == '=');
    assert("else"@.len() == 4 && "else"@[0] == 'e' && "else"@[1] == 'l' && "else"@[2] == 's' && "else"@[3] == 'e');
    assert("<"@.len() == 1 && "<"@[0] == '<');
    assert("<="@.len() == 2 && "<="@[0] == '<' && "<="@[1] == '=');
    assert(">"@.len() == 1 && ">"@[0] == '>');
    assert(">="@.len() == 2 && ">="@[0] == '>' && ">="@[1] == '=');
    assert("=="@.len() == 2 && "=="@[0] == '=' && "=="@[1] == '=');
    assert("!="@.len() == 2 && "!="@[0] == '!' && "!="@[1] == '=');
    assert("&&"@.len() == 2 && "&&"@[0] == '&' && "&&"@[1] == '&');
    assert("||"@.len() == 2 && "||"@[0] == '|' && "||"@[1] == '|');
    assert(keyword("if"@) == Some(SymbolV::If));
    assert(keyword("loop"@) == Some(SymbolV::Loop));
    assert(keyword("break"@) == Some(SymbolV::Break));
    assert(keyword("return"@) == Some(SymbolV::Return));
    assert(keyword("for"@) == Some(SymbolV::For));
    assert(keyword("load"@) == Some(SymbolV::Load));
    assert(keyword("true"@) == Some(SymbolV::Constant(ConstantV::Bool(true))));
    assert(keyword("false"@) == Some(SymbolV::Constant(ConstantV::Bool(false))));
    assert(keyword("="@) == Some(SymbolV::Assign));
    assert(keyword("else"@) == Some(SymbolV::Else));
    assert(keyword("<"@) == Some(SymbolV::Op(Op::LessThan)));
    assert(keyword("<="@) == Some(SymbolV::Op(Op::LessThanOrEqualTo)));
    assert(keyword(">"@) == Some(SymbolV::Op(Op::GreaterThan)));
    assert(keyword(">="@) == Some(SymbolV::Op(Op::GreaterThanOrEqualTo)));
    assert(keyword("=="@) == Some(SymbolV::Op(Op::EqualTo)));
    assert(keyword("!="@) == Some(SymbolV::Op(Op::NotEqualTo)));
    assert(keyword("&&"@) == Some(SymbolV::Op(Op::And)));
    assert(keyword("||"@) == Some(SymbolV::Op(Op::Or)));
}

/// The symbol of a finished word: a keyword, else a whole number, else a name.
pub open spec fn word_symbol(w: Seq<char>) -> SymbolV {
    match keyword(w) {
        Some(k) => k,
        None => match parse_i64_spec(w) {
            Some(n) => SymbolV::Constant(ConstantV::Number(n)),
            None => SymbolV::Name(w),
        },
    }
}

/// Every keyword's word starts with a character that no number starts
/// with.
proof fn lemma_keyword_first_char(k: SymbolV)
    ensures
        keyword_text(k) matches Some(t) ==> t.len() > 0 && !crate::numbers::is_digit(t[0]) && t[0]
            != '-' && t[0] != '+',
{
    reveal_strlit("if");
    reveal_strlit("loop");
    reveal_strlit("break");
    reveal_strlit("return");
    reveal_strlit("for");
    reveal_strlit("load");
    reveal_strlit("true");
    reveal_strlit("false");
    reveal_strlit("=");
    reveal_strlit("else");
    reveal_strlit("<");
    reveal_strlit("<=");
    reveal_strlit(">");
    reveal_strlit(">=");
    reveal_strlit("==");
    reveal_strlit("!=");
    reveal_strlit("&&");
    reveal_strlit("||");
    assert("if"@.len() == 2 && "if"@[0] == 'i');
    assert("loop"@.len() == 4 && "loop"@[0] == 'l');
    assert("break"@.len() == 5 && "break"@[0] == 'b');
    assert("return"@.len() == 6 && "return"@[0] == 'r');
    assert("for"@.len() == 3 && "for"@[0] == 'f');
    assert("load"@.len() == 4 && "load"@[0] == 'l');
    assert("true"@.len() == 4 && "true"@[0] == 't');
    assert("false"@.len() == 5 && "false"@[0] == 'f');
    assert("="@.len() == 1 && "="@[0] == '=');
    assert("else"@.len() == 4 && "else"@[0] == 'e');
    assert("<"@.len() == 1 && "<"@[0] == '<');
    assert("<="@.len() == 2 && "<="@[0] == '<');
    assert(">"@.len() == 1 && ">"@[0] == '>');
    assert(">="@.len() == 2 && ">="@[0] == '>');
    assert("=="@.len() == 2 && "=="@[0] == '=');
    assert("!="@.len() == 2 && "!="@[0] == '!');
    assert("&&"@.len() == 2 && "&&"@[0] == '&');
    assert("||"@.len() == 2 && "||"@[0] == '|');
}

/// Law: a word that is written as a whole number is that number (no keyword
/// looks like a number): the decimal text of every `i64` is read back as
/// that number.
pub proof fn law_number_words(n: i64)
    ensures
        word_symbol(crate::numbers::int_decimal(n as int)) == SymbolV::Constant(ConstantV::Number(n)),
{
    let w = crate::numbers::int_decimal(n as int);
    crate::numbers::law_decimal_round_trip(n);
    if let Some(k) = keyword(w) {
        law_keywords(w, k);
        lemma_keyword_first_char(k);
        assert(crate::numbers::integer_literal(w) is Some);
        assert(w.len() > 0);
        assert(!crate::numbers::is_digit(w[0]) && w[0] != '-' && w[0] != '+');
        assert(false);
    }
}

/// The tokenizer's state: tokens so far, the word being read, and the text
/// of an open string literal.
pub struct LexState {
    pub tokens: Seq<TokenV>,
    pub buf: Seq<char>,
    pub literal: Option<Seq<char>>,
}

pub open spec fn lex_step(st: LexState, ch: char, i: int) -> LexState {
    match st.literal {
        Some(sbf) => if ch == '"' {
            LexState {
                tokens: st.tokens.push(
                    TokenV { symbol: SymbolV::Constant(ConstantV::String(sbf)), index: i },
                ),
                buf: Seq::empty(),
                literal: None,
            }
        } else {
            LexState { literal: Some(sbf.push(ch)), ..st }
        },
        None => if ch == '"' {
            LexState { literal: Some(Seq::empty()), ..st }
        } else {
            match interrupt(ch) {
                Some(opt) => {
                    let t1 = if st.buf.len() > 0 {
                        st.tokens.push(TokenV { symbol: word_symbol(st.buf), index: i })
                    } else {
                        st.tokens
                    };
                    let t2 = match opt {
                        Some(sym) => t1.push(TokenV { symbol: sym, index: i }),
                        None => t1,
                    };
                    LexState { tokens: t2, buf: Seq::empty(), literal: None }
                },
                None => LexState { buf: st.buf.push(ch), ..st },
            }
        },
    }
}

/// The state after the first `i` characters of `cs`.
pub open spec fn lex_state(cs: Seq<char>, i: int) -> LexState
    decreases i,
{
    if i <= 0 {
        LexState { tokens: Seq::empty(), buf: Seq::empty(), literal: None }
    } else {
        lex_step(lex_state(cs, i - 1), cs[i - 1], i - 1)
    }
}

/// The tokens of a source text.
pub open spec fn lex_spec(inp: Seq<char>) -> Seq<TokenV> {
    let cs = inp.push(END_MARK);
    lex_state(cs, cs.len() as int).tokens
}

/// Number of double quotes in `s`.
pub open spec fn count_quotes(s: Seq<char>) -> nat
    decreases s.len(),
{
    if s.len() == 0 {
        0
    } else {
        count_quotes(s.drop_last()) + if s.last() == '"' {
            1nat
        } else {
            0nat
        }
    }
}

fn interrupt_of(ch: char) -> (r: Option<Option<Symbol>>)
    ensures
        match r {
            Some(Some(s)) => interrupt(ch) == Some(Some(s@)),
            Some(None) => interrupt(ch) == Some(None::<SymbolV>),
            None => interrupt(ch) is None,
        },
{
    if ch == '\n' || ch == ';' || ch == ' ' || ch == '\u{0017}' {
        Some(None)
    } else if ch == '(' {
        Some(Some(Symbol::ParenStart))
    } else if ch == ')' {
        Some(Some(Symbol::ParenEnd))
    } else if ch == '{' {
        Some(Some(Symbol::BlockStart))
    } else if ch == '}' {
        Some(Some(Symbol::BlockEnd))
    } else if ch == '!' {
        Some(Some(Symbol::Op(Op::Not)))
    } else if ch == '+' {
        Some(Some(Symbol::Op(Op::Plus)))
    } else if ch == '-' {
        Some(Some(Symbol::Op(Op::Minus)))
    } else if ch == '*' {
        Some(Some(Symbol::Op(Op::Multiply)))
    } else if ch == '/' {
        Some(Some(Symbol::Op(Op::Divide)))
    } else if ch == '^' {
        Some(Some(Symbol::Op(Op::Power)))
    } else {
        None
    }
}

/// The keyword that a word spells, if any.
pub fn keyword_of(w: &[char]) -> (r: Option<Symbol>)
    ensures
        match r {
            Some(s) => keyword(w@) == Some(s@),
            None => keyword(w@) is None,
        },
{
    if is_literal(w, "if") {
        Some(Symbol::If)
    } else if is_literal(w, "loop") {
        Some(Symbol::Loop)
    } else if is_literal(w, "break") {
        Some(Symbol::Break)
    } else if is_literal(w, "return") {
        Some(Symbol::Return)
    } else if is_literal(w, "for") {
        Some(Symbol::For)
    } else if is_literal(w, "load") {
        Some(Symbol::Load)
    } else if is_literal(w, "true") {
        Some(Symbol::Constant(Constant::Bool(true)))
    } else if is_literal(w, "false") {
        Some(Symbol::Constant(Constant::Bool(false)))
    } else if is_literal(w, "=") {
        Some(Symbol::Assign)
    } else if is_literal(w, "else") {
        Some(Symbol::Else)
    } else if is_literal(w, "<") {
        Some(Symbol::Op(Op::LessThan))
    } else if is_literal(w, "<=") {
        Some(Symbol::Op(Op::LessThanOrEqualTo))
    } else if is_literal(w, ">") {
        Some(Symbol::Op(Op::GreaterThan))
    } else if is_literal(w, ">=") {
        Some(Symbol::Op(Op::GreaterThanOrEqualTo))
    } else if is_literal(w, "==") {
        Some(Symbol::Op(Op::EqualTo))
    } else if is_literal(w, "!=") {
        Some(Symbol::Op(Op::NotEqualTo))
    } else if is_literal(w, "&&") {
        Some(Symbol::Op(Op::And))
    } else if is_literal(w, "||") {
        Some(Symbol::Op(Op::Or))
    } else {
        None
    }
}

/// The symbol of a finished word.
pub fn word_symbol_of(w: &[char]) -> (r: Symbol)
    ensures
        r@ == word_symbol(w@),
{
    match keyword_of(w) {
        Some(k) => k,
        None => match parse_i64(w) {
            Some(n) => Symbol::Constant(Constant::Number(n)),
            None => Symbol::Name(string_of(w)),
        },
    }
}

pub open spec fn token_views(v: Seq<Token>) -> Seq<TokenV> {
    v.map_values(|t: Token| t@)
}

/// Splits source text into tokens. A string literal that is never closed
/// would be read past the end of the text, so the text must hold an even
/// number of double quotes.
pub fn lex(inp: String) -> (tokens: Vec<Token>)
    requires
        count_quotes(inp@) % 2 == 0,
    ensures
        token_views(tokens@) == lex_spec(inp@),
{
    let mut chars: Vec<char> = chars_of(inp.as_str());
    chars.push(END_MARK);
    let ghost cs = inp@.push(END_MARK);
    assert(chars@ =~= cs);
    let mut tokens: Vec<Token> = Vec::new();
    let mut buf: Vec<char> = Vec::new();
    let mut literal: Option<Vec<char>> = None;
    let mut idx: usize = 0;
    while idx < chars.len()
        invariant
            chars@ == cs,
            idx <= cs.len(),
            ({
                let st = lex_state(cs, idx as int);
                &&& st.tokens == token_views(tokens@)
                &&& st.buf == buf@
                &&& st.literal == match literal {
                    Some(v) => Some(v@),
                    None => None::<Seq<char>>,
                }
            }),
        decreases cs.len() - idx,
    {
        let ch = chars[idx];
        let ghost before = token_views(tokens@);
        match literal {
            Some(mut sbf) => {
                if ch == '"' {
                    let text = string_of(&sbf);
                    tokens.push(Token { symbol: Symbol::Constant(Constant::String(text)), index: idx });
                    buf = Vec::new();
                    literal = None;
                } else {
                    sbf.push(ch);
                    literal = Some(sbf);
                }
            },
            None => {
                if ch == '"' {
                    literal = Some(Vec::new());
                } else {
                    match interrupt_of(ch) {
                        Some(opt) => {
                            if buf.len() > 0 {
                                let sym = word_symbol_of(&buf);
                                tokens.push(Token { symbol: sym, index: idx });
                            }
                            match opt {
                                Some(sym) => {
                                    tokens.push(Token { symbol: sym, index: idx });
                                },
                                None => {},
                            }
                            buf = Vec::new();
                        },
                        None => {
                            buf.push(ch);
                        },
                    }
                }
            },
        }
        idx = idx + 1;
        assert(token_views(tokens@) =~= lex_state(cs, idx as int).tokens);
    }
    tokens
}

} // verus!
