//! The line-oriented ZSP script interpreter: a program is consumed one line
//! at a time; `print <expr>` and `if <expr>` ... `else` ... `fi` are the
//! keywords it knows.
use crate::numbers::{all_digits, int_decimal, integer_literal, is_digit, parse_i32, parse_i32_spec, i64_decimal};
use crate::text::{
    byte_len, chars_of, is_literal, lemma_byte_len_concat, str_len, string_of, substring,
    substring_spec, width_of,
};
use vstd::prelude::*;

verus! {

// ---------------------------------------------------------------------------
// Searching for a pattern
// ---------------------------------------------------------------------------
/// `p` occurs in `s` at character position `k`.
pub open spec fn occurs_at(s: Seq<char>, p: Seq<char>, k: int) -> bool {
    0 <= k && k + p.len() <= s.len() && s.subrange(k, k + p.len()) == p
}

/// The first position at or after `from` where `p` occurs in `s`.
pub open spec fn first_match_from(s: Seq<char>, p: Seq<char>, from: int) -> Option<int>
    decreases s.len() + 1 - from,
{
    if from < 0 || from + p.len() > s.len() {
        None
    } else if occurs_at(s, p, from) {
        Some(from)
    } else {
        first_match_from(s, p, from + 1)
    }
}

pub proof fn lemma_first_match_from(s: Seq<char>, p: Seq<char>, from: int)
    requires
        0 <= from,
    ensures
        first_match_from(s, p, from) matches Some(k) ==> from <= k && occurs_at(s, p, k) && (
        forall|j: int| from <= j < k ==> !occurs_at(s, p, j)),
        first_match_from(s, p, from) is None ==> forall|j: int|
            from <= j ==> !occurs_at(s, p, j),
    decreases s.len() + 1 - from,
{
    if from + p.len() <= s.len() && !occurs_at(s, p, from) {
        lemma_first_match_from(s, p, from + 1);
    }
}

fn matches_at(s: &[char], p: &[char], k: usize) -> (r: bool)
    requires
        k + p@.len() <= s@.len(),
    ensures
        r == occurs_at(s@, p@, k as int),
{
    let n = s.len();
    let mut j: usize = 0;
    while j < p.len()
        invariant
            n == s@.len(),
            k + p@.len() <= s@.len(),
            j <= p@.len(),
            forall|t: int| 0 <= t < j ==> s@[k + t] == p@[t],
        decreases p@.len() - j,
    {
        if s[k + j] != p[j] {
            assert(s@.subrange(k as int, k + p@.len())[j as int] != p@[j as int]);
            return false;
        }
        j = j + 1;
    }
    assert(s@.subrange(k as int, k + p@.len()) =~= p@);
    true
}

/// Position of the first occurrence of `p` in `s`, as `str::find` scans.
pub fn find_first(s: &[char], p: &[char]) -> (r: Option<usize>)
    ensures
        r matches Some(k) ==> first_match_from(s@, p@, 0) == Some(k as int),
        r is None ==> first_match_from(s@, p@, 0) is None,
{
    if p.len() > s.len() {
        return None;
    }
    if p.len() == 0 {
        assert(s@.subrange(0, 0) =~= p@);
        return Some(0);
    }
    let n = s.len();
    let last = n - p.len();
    let mut k: usize = 0;
    while k <= last
        invariant
            n == s@.len(),
            p@.len() >= 1,
            last == s@.len() - p@.len(),
            k <= last + 1,
            first_match_from(s@, p@, 0) == first_match_from(s@, p@, k as int),
        decreases last + 1 - k,
    {
        if matches_at(s, p, k) {
            return Some(k);
        }
        k = k + 1;
    }
    None
}

pub proof fn lemma_byte_len_take_mono(s: Seq<char>, i: int, j: int)
    requires
        0 <= i <= j <= s.len(),
    ensures
        byte_len(s.take(i)) <= byte_len(s.take(j)),
        byte_len(s.take(j)) <= byte_len(s),
{
    assert(s.take(j) =~= s.take(i) + s.subrange(i, j));
    lemma_byte_len_concat(s.take(i), s.subrange(i, j));
    assert(s =~= s.take(j) + s.subrange(j, s.len() as int));
    lemma_byte_len_concat(s.take(j), s.subrange(j, s.len() as int));
}

/// UTF-8 byte length of the first `k` characters of `s`.
pub fn prefix_byte_len(s: &[char], k: usize) -> (r: usize)
    requires
        k <= s@.len(),
        byte_len(s@) <= usize::MAX,
    ensures
        r == byte_len(s@.take(k as int)),
{
    let mut acc: usize = 0;
    let mut i: usize = 0;
    while i < k
        invariant
            k <= s@.len(),
            byte_len(s@) <= usize::MAX,
            i <= k,
            acc == byte_len(s@.take(i as int)),
        decreases k - i,
    {
        proof {
            lemma_byte_len_take_mono(s@, i + 1, i + 1);
            assert(s@.take(i + 1).drop_last() =~= s@.take(i as int));
        }
        acc = acc + width_of(s[i]);
        i = i + 1;
    }
    acc
}

// ---------------------------------------------------------------------------
// split_string
// ---------------------------------------------------------------------------
/// The two halves that `split_string(input, pat)` returns: the text before
/// the first occurrence of `pat` and the text after it. The cut is made at
/// byte offsets that the `substring` crate reads as character counts, which
/// `byte_len` makes explicit; on ASCII text the two agree.
pub open spec fn split_string_spec(input: Seq<char>, pat: Seq<char>) -> (Seq<char>, Seq<char>) {
    match first_match_from(input, pat, 0) {
        Some(k) => {
            let b = byte_len(input.take(k)) as int;
            (
                substring_spec(input, 0, b),
                substring_spec(input, b + byte_len(pat), byte_len(input) as int),
            )
        },
        None => (input, Seq::empty()),
    }
}

/// Splits `input` at the first occurrence of `character`.
pub fn split_string(input: &str, character: &str) -> (r: (String, String))
    ensures
        (r.0@, r.1@) == split_string_spec(input@, character@),
{
    let chars = chars_of(input);
    let pat = chars_of(character);
    proof {
        lemma_first_match_from(input@, character@, 0);
    }
    match find_first(&chars, &pat) {
        Some(k) => {
            let total = str_len(input);
            let index = prefix_byte_len(&chars, k);
            let plen = str_len(character);
            proof {
                let s = input@;
                assert(s.take(k + pat@.len()) =~= s.take(k as int) + s.subrange(
                    k as int,
                    k + pat@.len(),
                ));
                lemma_byte_len_concat(s.take(k as int), pat@);
                lemma_byte_len_take_mono(s, k + pat@.len(), k + pat@.len());
            }
            let a = substring(input, 0, index);
            let b = substring(input, index + plen, total);
            (a, b)
        },
        None => (string_of(&chars), String::new()),
    }
}

proof fn lemma_ascii_byte_len(s: Seq<char>)
    requires
        is_ascii_text(s),
    ensures
        byte_len(s) == s.len(),
    decreases s.len(),
{
    if s.len() > 0 {
        assert((s[s.len() - 1] as u32) < 128);
        assert(is_ascii_text(s.drop_last()) ) by {
            assert forall|i: int| 0 <= i < s.drop_last().len() implies (#[trigger] s.drop_last()[i] as u32) < 128 by {
                assert(s.drop_last()[i] == s[i]);
            }
        }
        lemma_ascii_byte_len(s.drop_last());
    }
}

proof fn lemma_ascii_subrange(s: Seq<char>, i: int, j: int)
    requires
        is_ascii_text(s),
        0 <= i <= j <= s.len(),
    ensures
        is_ascii_text(s.subrange(i, j)),
{
    assert forall|t: int| 0 <= t < s.subrange(i, j).len() implies (#[trigger] s.subrange(i, j)[t] as u32) < 128 by {
        assert(s.subrange(i, j)[t] == s[i + t]);
    }
}

/// Law: on ASCII text, `split_string` cuts at the first occurrence of the
/// pattern and loses nothing: the part before, the pattern and the part
/// after make up the input again. Without an occurrence the input is kept
/// whole.
pub proof fn law_split_string_ascii(input: Seq<char>, pat: Seq<char>)
    requires
        is_ascii_text(input),
    ensures
        first_match_from(input, pat, 0) matches Some(k) ==> split_string_spec(input, pat).0
            == input.take(k) && split_string_spec(input, pat).0 + pat + split_string_spec(
            input,
            pat,
        ).1 == input,
        first_match_from(input, pat, 0) is None ==> split_string_spec(input, pat) == (
            input,
            Seq::<char>::empty(),
        ),
{
    lemma_first_match_from(input, pat, 0);
    if let Some(k) = first_match_from(input, pat, 0) {
        let n = pat.len() as int;
        lemma_ascii_subrange(input, 0, k);
        lemma_ascii_subrange(input, k, k + n);
        assert(input.take(k) =~= input.subrange(0, k));
        lemma_ascii_byte_len(input.take(k));
        lemma_ascii_byte_len(input.subrange(k, k + n));
        lemma_ascii_byte_len(input);
        let (a, b) = split_string_spec(input, pat);
        assert(a =~= input.take(k));
        assert(b =~= input.subrange(k + n, input.len() as int));
        assert(a + pat + b =~= input);
    }
}

// ---------------------------------------------------------------------------
// split_expression
// ---------------------------------------------------------------------------
/// The views of a sequence of strings.
pub open spec fn views(v: Seq<String>) -> Seq<Seq<char>> {
    v.map_values(|x: String| x@)
}

/// State of `split_expression` after reading the first `i` characters:
/// whether a string literal is open, the piece being built, the pieces done.
pub open spec fn split_expr_state(s: Seq<char>, c: char, i: int) -> (
    bool,
    Seq<char>,
    Seq<Seq<char>>,
)
    decreases i,
{
    if i <= 0 {
        (false, Seq::empty(), Seq::empty())
    } else {
        let (instr, buf, args) = split_expr_state(s, c, i - 1);
        let ch = s[i - 1];
        if ch == '"' {
            (!instr, buf.push(ch), args)
        } else if ch == c && !instr {
            (instr, Seq::empty(), args.push(buf))
        } else {
            (instr, buf.push(ch), args)
        }
    }
}

/// The pieces of `s` between the occurrences of `c` that stand outside
/// double quotes.
pub open spec fn split_expression_spec(s: Seq<char>, c: char) -> Seq<Seq<char>> {
    let st = split_expr_state(s, c, s.len() as int);
    st.2.push(st.1)
}

/// Splits `kargs` at every `splitchar` outside a string literal.
pub fn split_expression(kargs: String, splitchar: char) -> (r: Vec<String>)
    ensures
        views(r@) == split_expression_spec(kargs@, splitchar),
{
    let chars = chars_of(kargs.as_str());
    let n = chars.len();
    let mut args: Vec<String> = Vec::new();
    let mut instr = false;
    let mut buffer: Vec<char> = Vec::new();
    let mut i: usize = 0;
    while i < n
        invariant
            n == chars@.len(),
            chars@ == kargs@,
            i <= n,
            split_expr_state(kargs@, splitchar, i as int) == (instr, buffer@, views(args@)),
        decreases n - i,
    {
        let chr = chars[i];
        if chr == '"' {
            instr = !instr;
            buffer.push(chr);
        } else if chr == splitchar {
            if !instr {
                let piece = string_of(&buffer);
                args.push(piece);
                buffer = Vec::new();
            } else {
                buffer.push(chr);
            }
        } else {
            buffer.push(chr);
        }
        i = i + 1;
        assert(views(args@) =~= split_expr_state(kargs@, splitchar, i as int).2);
        assert(buffer@ =~= split_expr_state(kargs@, splitchar, i as int).1);
    }
    let last = string_of(&buffer);
    args.push(last);
    assert(views(args@) =~= split_expression_spec(kargs@, splitchar));
    args
}

/// The pieces joined back together with `c` between neighbours.
pub open spec fn join_with(parts: Seq<Seq<char>>, c: char) -> Seq<char>
    decreases parts.len(),
{
    if parts.len() == 0 {
        Seq::empty()
    } else if parts.len() == 1 {
        parts[0]
    } else {
        join_with(parts.drop_last(), c).push(c) + parts.last()
    }
}

proof fn lemma_split_expr_state_join(s: Seq<char>, c: char, i: int)
    requires
        0 <= i <= s.len(),
    ensures
        ({
            let st = split_expr_state(s, c, i);
            join_with(st.2.push(st.1), c) == s.take(i)
        }),
    decreases i,
{
    let st = split_expr_state(s, c, i);
    if i == 0 {
        assert(st.2.push(st.1) =~= seq![Seq::<char>::empty()]);
        assert(s.take(0) =~= Seq::<char>::empty());
    } else {
        lemma_split_expr_state_join(s, c, i - 1);
        let pr = split_expr_state(s, c, i - 1);
        let ch = s[i - 1];
        assert(s.take(i) =~= s.take(i - 1).push(ch));
        let prev_parts = pr.2.push(pr.1);
        if ch == '"' || !(ch == c && !pr.0) {
            assert(st.2 == pr.2);
            assert(st.1 == pr.1.push(ch));
            if pr.2.len() == 0 {
                assert(st.2.push(st.1) =~= seq![st.1]);
                assert(prev_parts =~= seq![pr.1]);
            } else {
                assert(st.2.push(st.1).drop_last() =~= pr.2);
                assert(prev_parts.drop_last() =~= pr.2);
                assert(join_with(pr.2, c).push(c) + pr.1.push(ch) =~= (join_with(pr.2, c).push(c)
                    + pr.1).push(ch));
            }
        } else {
            assert(st.2 == pr.2.push(pr.1));
            assert(st.1 =~= Seq::<char>::empty());
            assert(st.2.push(st.1).drop_last() =~= prev_parts);
            assert(join_with(prev_parts, c).push(c) + Seq::<char>::empty() =~= join_with(
                prev_parts,
                c,
            ).push(c));
        }
    }
}

/// Law: `split_expression` loses no character; joining its pieces with the
/// split character gives back its input.
pub proof fn split_expression_rejoins(s: Seq<char>, c: char)
    ensures
        join_with(split_expression_spec(s, c), c) == s,
{
    lemma_split_expr_state_join(s, c, s.len() as int);
    assert(s.take(s.len() as int) =~= s);
}

/// How many of the first `i` characters of `s` split it at `c`: those equal
/// to `c` that stand outside double quotes (a double quote never splits, it
/// opens or closes a string literal).
pub open spec fn split_points(s: Seq<char>, c: char, i: int) -> nat
    decreases i,
{
    if i <= 0 {
        0
    } else {
        split_points(s, c, i - 1) + if s[i - 1] == c && c != '"' && !split_expr_state(
            s,
            c,
            i - 1,
        ).0 {
            1nat
        } else {
            0nat
        }
    }
}

proof fn lemma_split_points(s: Seq<char>, c: char, i: int)
    ensures
        split_expr_state(s, c, i).2.len() == split_points(s, c, i),
    decreases i,
{
    if i > 0 {
        lemma_split_points(s, c, i - 1);
    }
}

proof fn lemma_quote_never_splits(s: Seq<char>, i: int)
    ensures
        split_points(s, '"', i) == 0,
    decreases i,
{
    if i > 0 {
        lemma_quote_never_splits(s, i - 1);
    }
}

/// Law: `split_expression` gives one piece more than there are split
/// characters outside string literals. With the double quote as the split
/// character nothing is split: the one piece is the whole input.
pub proof fn law_split_expression_pieces(s: Seq<char>, c: char)
    ensures
        split_expression_spec(s, c).len() == split_points(s, c, s.len() as int) + 1,
        c == '"' ==> split_expression_spec(s, c) == seq![s],
{
    lemma_split_points(s, c, s.len() as int);
    if c == '"' {
        lemma_quote_never_splits(s, s.len() as int);
        let parts = split_expression_spec(s, c);
        split_expression_rejoins(s, c);
        assert(parts.len() == 1);
        assert(join_with(parts, c) == parts[0]);
        assert(parts =~= seq![s]);
    }
}

// ---------------------------------------------------------------------------
// split_bool
// ---------------------------------------------------------------------------
pub open spec fn is_ascii_text(s: Seq<char>) -> bool {
    forall|i: int| 0 <= i < s.len() ==> (#[trigger] s[i] as u32) < 128
}

/// Where `match_indices(p)` resumes its search once it has looked at the
/// positions before `i` (it reports matches left to right, never overlapping).
pub open spec fn scan_resume(s: Seq<char>, p: Seq<char>, i: int) -> int
    decreases i,
{
    if i <= 0 {
        0
    } else {
        let r = scan_resume(s, p, i - 1);
        if i - 1 >= r && occurs_at(s, p, i - 1) {
            i - 1 + p.len()
        } else {
            r
        }
    }
}

/// `s.match_indices(p)` reports a match at position `i`.
pub open spec fn reported_at(s: Seq<char>, p: Seq<char>, i: int) -> bool {
    i >= scan_resume(s, p, i) && occurs_at(s, p, i)
}

/// The positions that `match_indices` reports, as a mask.
fn match_marks(s: &[char], p: &[char]) -> (r: Vec<bool>)
    ensures
        r@.len() == s@.len(),
        forall|i: int| 0 <= i < s@.len() ==> r@[i] == reported_at(s@, p@, i),
{
    let n = s.len();
    let mut marks: Vec<bool> = Vec::new();
    let mut resume: usize = 0;
    let mut i: usize = 0;
    while i < n
        invariant
            n == s@.len(),
            i <= n,
            marks@.len() == i,
            resume as int == scan_resume(s@, p@, i as int),
            resume <= n,
            forall|j: int| 0 <= j < i ==> marks@[j] == reported_at(s@, p@, j),
        decreases n - i,
    {
        let hit = i >= resume && p.len() <= n - i && matches_at(s, p, i);
        marks.push(hit);
        if hit {
            resume = i + p.len();
        }
        i = i + 1;
    }
    marks
}

/// State of `split_bool` after the positions before `i`: inside a string
/// literal, nesting depth of `if`, inside the `else` part, where the `else`
/// stood, and the three texts found so far.
pub struct SplitBoolState {
    pub instring: bool,
    pub depth: int,
    pub inelse: bool,
    pub elseindx: int,
    pub ifc: Seq<char>,
    pub elsec: Seq<char>,
    pub remc: Seq<char>,
}

pub open spec fn split_bool_state(s: Seq<char>, i: int) -> SplitBoolState
    decreases i,
{
    if i <= 0 {
        SplitBoolState {
            instring: false,
            depth: 0,
            inelse: false,
            elseindx: 0,
            ifc: Seq::empty(),
            elsec: Seq::empty(),
            remc: Seq::empty(),
        }
    } else {
        let st = split_bool_state(s, i - 1);
        let k = i - 1;
        let instring = if s[k] == '"' {
            !st.instring
        } else {
            st.instring
        };
        let depth = if reported_at(s, "if"@, k) && !instring {
            st.depth + 1
        } else {
            st.depth
        };
        let at_else = reported_at(s, "else"@, k) && !instring && depth == 0;
        let elseindx = if at_else {
            k
        } else {
            st.elseindx
        };
        let inelse = at_else || st.inelse;
        let ifc = if at_else {
            substring_spec(s, 0, k)
        } else {
            st.ifc
        };
        if reported_at(s, "fi"@, k) && !instring {
            if depth == 0 {
                SplitBoolState {
                    instring,
                    depth,
                    inelse,
                    elseindx,
                    ifc: if inelse {
                        ifc
                    } else {
                        substring_spec(s, 0, k)
                    },
                    elsec: if inelse {
                        substring_spec(s, elseindx + 4, k)
                    } else {
                        st.elsec
                    },
                    remc: substring_spec(s, k, s.len() as int),
                }
            } else {
                SplitBoolState {
                    instring,
                    depth: depth - 1,
                    inelse,
                    elseindx,
                    ifc,
                    elsec: st.elsec,
                    remc: st.remc,
                }
            }
        } else {
            SplitBoolState {
                instring,
                depth,
                inelse,
                elseindx,
                ifc,
                elsec: st.elsec,
                remc: st.remc,
            }
        }
    }
}

/// The `if` part, the `else` part and the rest from the closing `fi` on.
pub open spec fn split_bool_spec(s: Seq<char>) -> (Seq<char>, Seq<char>, Seq<char>) {
    let st = split_bool_state(s, s.len() as int);
    (st.ifc, st.elsec, st.remc)
}

/// Splits the text after an `if` line into its true part, its false part and
/// the rest starting at its `fi`. Characters are indexed by byte positions,
/// so the text must be ASCII.
pub fn split_bool(input: &str) -> (r: (String, String, String))
    requires
        is_ascii_text(input@),
    ensures
        (r.0@, r.1@, r.2@) == split_bool_spec(input@),
{
    let chars = chars_of(input);
    let n = chars.len();
    let ifs = match_marks(&chars, &chars_of("if"));
    let elses = match_marks(&chars, &chars_of("else"));
    let fis = match_marks(&chars, &chars_of("fi"));
    let mut ifc = String::new();
    let mut elsec = String::new();
    let mut remc = String::new();
    let mut innerifindex: usize = 0;
    let mut inelse = false;
    let mut elseindx: usize = 0;
    let mut instring = false;
    let mut i: usize = 0;
    proof {
        reveal_strlit("else");
    }
    while i < n
        invariant
            n == chars@.len(),
            chars@ == input@,
            "else"@.len() == 4,
            i <= n,
            ifs@.len() == n && elses@.len() == n && fis@.len() == n,
            forall|j: int| 0 <= j < n ==> ifs@[j] == reported_at(input@, "if"@, j),
            forall|j: int| 0 <= j < n ==> elses@[j] == reported_at(input@, "else"@, j),
            forall|j: int| 0 <= j < n ==> fis@[j] == reported_at(input@, "fi"@, j),
            innerifindex <= i,
            elseindx <= i,
            inelse ==> elseindx + 4 <= n,
            ({
                let st = split_bool_state(input@, i as int);
                &&& st.instring == instring
                &&& st.depth == innerifindex as int
                &&& st.inelse == inelse
                &&& st.elseindx == elseindx as int
                &&& st.ifc == ifc@
                &&& st.elsec == elsec@
                &&& st.remc == remc@
            }),
        decreases n - i,
    {
        if chars[i] == '"' {
            instring = !instring;
        }
        if ifs[i] && !instring {
            innerifindex = innerifindex + 1;
        }
        if elses[i] && !instring {
            if innerifindex == 0 {
                elseindx = i;
                inelse = true;
                ifc = substring(input, 0, i);
            }
        }
        if fis[i] && !instring {
            if innerifindex == 0 {
                if inelse {
                    elsec = substring(input, elseindx + 4, i);
                } else {
                    ifc = substring(input, 0, i);
                }
                remc = substring(input, i, n);
            } else {
                innerifindex = innerifindex - 1;
            }
        }
        i = i + 1;
    }
    (ifc, elsec, remc)
}

// ---------------------------------------------------------------------------
// Values and expressions
// ---------------------------------------------------------------------------
/// A value of the line interpreter.
#[derive(Debug)]
pub enum Variable {
    Str(String),
    Int(i32),
    Bool(bool),
    Empty,
}

/// The mathematical content of a `Variable`.
pub enum VarValue {
    Str(Seq<char>),
    Int(i32),
    Bool(bool),
    Empty,
}

impl View for Variable {
    type V = VarValue;

    open spec fn view(&self) -> VarValue {
        match self {
            Variable::Str(s) => VarValue::Str(s@),
            Variable::Int(i) => VarValue::Int(*i),
            Variable::Bool(b) => VarValue::Bool(*b),
            Variable::Empty => VarValue::Empty,
        }
    }
}

/// An item of an expression: a value or an operator.
#[derive(Debug)]
pub enum PreExpression {
    Variable(Variable),
    PLUS,
    MINUS,
    MULTIPLY,
    DIVIDE,
    EQUALS,
}

pub enum OpKind {
    Plus,
    Minus,
    Multiply,
    Divide,
    Equals,
}

pub enum PreItem {
    Value(VarValue),
    Op(OpKind),
}

impl View for PreExpression {
    type V = PreItem;

    open spec fn view(&self) -> PreItem {
        match self {
            PreExpression::Variable(v) => PreItem::Value(v@),
            PreExpression::PLUS => PreItem::Op(OpKind::Plus),
            PreExpression::MINUS => PreItem::Op(OpKind::Minus),
            PreExpression::MULTIPLY => PreItem::Op(OpKind::Multiply),
            PreExpression::DIVIDE => PreItem::Op(OpKind::Divide),
            PreExpression::EQUALS => PreItem::Op(OpKind::Equals),
        }
    }
}

/// What stops the line interpreter, one variant for each cause. Each
/// variant is a point where the interpreter panics and the program ends
/// (`NotABool` is the panic "thats not a bool", `CannotSubtract` "cant
/// subtract that", and so on). The library hands the variant back instead
/// of panicking, stops evaluating at once, and the driver panics with its
/// message; an `Err` result therefore marks the input on which the program
/// halts.
#[derive(Debug, PartialEq, Eq, Structural)]
pub enum ScriptError {
    /// A word of an expression is empty (two spaces in a row).
    EmptyWord,
    /// Two values follow each other without an operator.
    MissingOperator,
    /// `-` on anything but two integers.
    CannotSubtract,
    /// `*` on anything but two integers.
    CannotMultiply,
    /// `/` on anything but two integers.
    CannotDivide,
    /// `==` on anything but two booleans.
    NotABool,
    /// Integer arithmetic left the range of `i32`.
    IntegerOverflow,
    /// Integer division by zero.
    DivisionByZero,
    /// An expression without any value.
    EmptyExpression,
    /// An `if` whose condition is not a boolean.
    ConditionNotBool,
    /// The body of an `if` holds text that is not ASCII.
    NonAsciiBlock,
}

/// How `Display` writes a value.
pub open spec fn display(v: VarValue) -> Seq<char> {
    match v {
        VarValue::Str(s) => s,
        VarValue::Int(i) => int_decimal(i as int),
        VarValue::Bool(b) => if b {
            "true"@
        } else {
            "false"@
        },
        VarValue::Empty => Seq::empty(),
    }
}

/// Quotient of `c / i` rounded toward zero, as Rust integer division does.
pub open spec fn trunc_div(c: int, i: int) -> int {
    let q = (if c < 0 {
        -c
    } else {
        c
    }) / (if i < 0 {
        -i
    } else {
        i
    });
    if (c < 0) != (i < 0) {
        -q
    } else {
        q
    }
}

pub open spec fn in_i32(v: int) -> bool {
    i32::MIN <= v && v <= i32::MAX
}

/// Applies an operator to the value held so far and the next value.
pub open spec fn combine(op: OpKind, held: VarValue, var: VarValue) -> Result<VarValue, ScriptError> {
    match op {
        OpKind::Plus => match var {
            VarValue::Str(s) => Ok(VarValue::Str(display(held) + s)),
            VarValue::Int(i) => match held {
                VarValue::Int(c) => if in_i32(c + i) {
                    Ok(VarValue::Int((c + i) as i32))
                } else {
                    Err(ScriptError::IntegerOverflow)
                },
                _ => Ok(VarValue::Str(display(held) + int_decimal(i as int))),
            },
            VarValue::Bool(b) => Ok(VarValue::Str(display(held) + display(VarValue::Bool(b)))),
            VarValue::Empty => Ok(held),
        },
        OpKind::Minus => match (held, var) {
            (VarValue::Int(c), VarValue::Int(i)) => if in_i32(c - i) {
                Ok(VarValue::Int((c - i) as i32))
            } else {
                Err(ScriptError::IntegerOverflow)
            },
            _ => Err(ScriptError::CannotSubtract),
        },
        OpKind::Multiply => match (held, var) {
            (VarValue::Int(c), VarValue::Int(i)) => if in_i32(c * i) {
                Ok(VarValue::Int((c * i) as i32))
            } else {
                Err(ScriptError::IntegerOverflow)
            },
            _ => Err(ScriptError::CannotMultiply),
        },
        OpKind::Divide => match (held, var) {
            (VarValue::Int(c), VarValue::Int(i)) => if i == 0 {
                Err(ScriptError::DivisionByZero)
            } else if in_i32(trunc_div(c as int, i as int)) {
                Ok(VarValue::Int(trunc_div(c as int, i as int) as i32))
            } else {
                Err(ScriptError::IntegerOverflow)
            },
            _ => Err(ScriptError::CannotDivide),
        },
        OpKind::Equals => match (held, var) {
            (VarValue::Bool(c), VarValue::Bool(b)) => Ok(VarValue::Bool(c == b)),
            _ => Err(ScriptError::NotABool),
        },
    }
}

/// Law: integer arithmetic of the line interpreter is the arithmetic of the
/// integers, with the value held so far on the left and the next value on
/// the right, for every pair whose result fits in `i32`: `c + i`, `c - i`
/// (the difference added back to `i` gives `c`), `c * i`, and a quotient
/// that rounds towards zero. Results outside `i32` are overflow errors.
pub proof fn law_integer_arithmetic(c: i32, i: i32)
    ensures
        in_i32(c + i) ==> combine(OpKind::Plus, VarValue::Int(c), VarValue::Int(i)) == Ok::<
            VarValue,
            ScriptError,
        >(VarValue::Int((c + i) as i32)),
        in_i32(c - i) ==> combine(OpKind::Minus, VarValue::Int(c), VarValue::Int(i)) == Ok::<
            VarValue,
            ScriptError,
        >(VarValue::Int((c - i) as i32)),
        combine(OpKind::Minus, VarValue::Int(c), VarValue::Int(i)) matches Ok(VarValue::Int(d))
            ==> d + i == c,
        in_i32(c * i) ==> combine(OpKind::Multiply, VarValue::Int(c), VarValue::Int(i)) == Ok::<
            VarValue,
            ScriptError,
        >(VarValue::Int((c * i) as i32)),
        combine(OpKind::Multiply, VarValue::Int(c), VarValue::Int(i)) matches Ok(VarValue::Int(d))
            ==> d == c * i,
        combine(OpKind::Plus, VarValue::Int(c), VarValue::Int(i)) matches Ok(VarValue::Int(d))
            ==> d == c + i,
        !in_i32(c - i) ==> combine(OpKind::Minus, VarValue::Int(c), VarValue::Int(i)) == Err::<
            VarValue,
            ScriptError,
        >(ScriptError::IntegerOverflow),
        i == 0 ==> combine(OpKind::Divide, VarValue::Int(c), VarValue::Int(i)) == Err::<
            VarValue,
            ScriptError,
        >(ScriptError::DivisionByZero),
        i != 0 && c % i == 0 && in_i32(c / i) ==> combine(
            OpKind::Divide,
            VarValue::Int(c),
            VarValue::Int(i),
        ) == Ok::<VarValue, ScriptError>(VarValue::Int((c / i) as i32)),
        combine(OpKind::Divide, VarValue::Int(c), VarValue::Int(i)) matches Ok(VarValue::Int(q))
            ==> abs_int(q * i) <= abs_int(c as int) && abs_int(c - q * i) < abs_int(i as int) && (
            q * i == 0 || (q * i < 0) == (c < 0)),
{
    if i != 0 {
        lemma_trunc_div(c as int, i as int);
    }
}

pub open spec fn abs_int(x: int) -> int {
    if x < 0 {
        -x
    } else {
        x
    }
}

/// The quotient rounded towards zero of an exact division is the exact
/// quotient.
pub proof fn law_integer_division(c: int, i: int)
    requires
        i != 0,
        c % i == 0,
    ensures
        trunc_div(c, i) == c / i,
{
    lemma_trunc_div(c, i);
}

/// `trunc_div` is the quotient rounded towards zero.
proof fn lemma_trunc_div(c: int, i: int)
    requires
        i != 0,
    ensures
        ({
            let q = trunc_div(c, i);
            &&& abs_int(q * i) <= abs_int(c)
            &&& abs_int(c - q * i) < abs_int(i)
            &&& (q * i == 0 || (q * i < 0) == (c < 0))
            &&& (c % i == 0 ==> q == c / i)
        }),
{
    let ac = abs_int(c);
    let ai = abs_int(i);
    let q0 = ac / ai;
    assert(ac == ai * q0 + ac % ai && 0 <= ac % ai < ai) by (nonlinear_arith)
        requires
            ai > 0,
            ac >= 0,
            q0 == ac / ai,
    ;
    assert(q0 >= 0) by (nonlinear_arith)
        requires
            ai > 0,
            ac >= 0,
            q0 == ac / ai,
    ;
    let q = trunc_div(c, i);
    assert(q == if (c < 0) != (i < 0) { -q0 } else { q0 });
    assert(abs_int(q * i) == q0 * ai) by (nonlinear_arith)
        requires
            q == (if (c < 0) != (i < 0) { -q0 } else { q0 }),
            ai == abs_int(i),
            q0 >= 0,
            ai > 0,
    ;
    assert(c - q * i == if c < 0 { -(ac - q0 * ai) } else { ac - q0 * ai }) by (nonlinear_arith)
        requires
            q == (if (c < 0) != (i < 0) { -q0 } else { q0 }),
            ai == abs_int(i),
            ac == abs_int(c),
            i != 0,
    ;
    assert((q * i < 0) == (c < 0) || q * i == 0) by (nonlinear_arith)
        requires
            q == (if (c < 0) != (i < 0) { -q0 } else { q0 }),
            q0 >= 0,
            i != 0,
    ;
    if c % i == 0 {
        assert(ac % ai == 0 && q * i == c) by (nonlinear_arith)
            requires
                c % i == 0,
                i != 0,
                ai == abs_int(i),
                ac == abs_int(c),
                ac == ai * q0 + ac % ai,
                0 <= ac % ai < ai,
                q == (if (c < 0) != (i < 0) { -q0 } else { q0 }),
        ;
        assert(q == c / i) by (nonlinear_arith)
            requires
                q * i == c,
                c % i == 0,
                i != 0,
        ;
    }
}

/// Law: `+` with a string on the right joins texts: the text of the value
/// held so far followed by the string, whatever the held value is; an
/// integer held and an integer added are summed instead, and a string held
/// with an integer added gets the integer's decimal digits appended.
pub proof fn law_plus_joins_text(held: VarValue, s: Seq<char>, i: i32, t: Seq<char>)
    ensures
        combine(OpKind::Plus, held, VarValue::Str(s)) == Ok::<VarValue, ScriptError>(VarValue::Str(
            display(held) + s,
        )),
        combine(OpKind::Plus, VarValue::Str(t), VarValue::Int(i)) == Ok::<VarValue, ScriptError>(
            VarValue::Str(t + int_decimal(i as int)),
        ),
        combine(OpKind::Plus, VarValue::Str(t), VarValue::Str(s)) == Ok::<VarValue, ScriptError>(
            VarValue::Str(t + s),
        ),
{
}

/// Law: a `print` line evaluates its expression and prints the value's
/// text after `from code: `, then leaves the lines after it to run.
pub proof fn law_print(code: Seq<char>)
    ensures
        ({
            let (line, rest) = split_string_spec(code, "\n"@);
            let (kw, argtext) = split_string_spec(line, " "@);
            let (lines, r) = evaluate_expression_spec(split_expression_spec(argtext, ',')[0]);
            kw == "print"@ ==> match r {
                Ok(v) => consume_spec(code) == (
                    lines.push("from code: "@ + display(v)),
                    Ok::<Seq<char>, ScriptError>(rest),
                ),
                Err(e) => consume_spec(code) == (lines, Err::<Seq<char>, ScriptError>(e)),
            }
        }),
{
    reveal_strlit("if");
    reveal_strlit("print");
}

/// Law: `==` compares two booleans and gives their equality, whichever order
/// they come in; on anything else it is an error.
pub proof fn law_equals(held: VarValue, var: VarValue)
    ensures
        (held matches VarValue::Bool(c) && var matches VarValue::Bool(b)) ==> combine(
            OpKind::Equals,
            held,
            var,
        ) == Ok::<VarValue, ScriptError>(VarValue::Bool(held == var)),
        combine(OpKind::Equals, held, var) == combine(OpKind::Equals, var, held),
        !(held is Bool && var is Bool) ==> combine(OpKind::Equals, held, var) == Err::<
            VarValue,
            ScriptError,
        >(ScriptError::NotABool),
{
}

/// The value held and the pending operator after reading `items` left to right.
pub open spec fn eval_items(items: Seq<PreItem>) -> Result<(Option<VarValue>, Option<OpKind>), ScriptError>
    decreases items.len(),
{
    if items.len() == 0 {
        Ok((None, None))
    } else {
        match eval_items(items.drop_last()) {
            Err(e) => Err(e),
            Ok((held, op)) => match items.last() {
                PreItem::Value(v) => match held {
                    Some(h) => match op {
                        Some(o) => match combine(o, h, v) {
                            Ok(r) => Ok((Some(r), None)),
                            Err(e) => Err(e),
                        },
                        None => Err(ScriptError::MissingOperator),
                    },
                    None => Ok((Some(v), op)),
                },
                PreItem::Op(o) => Ok((held, Some(o))),
            },
        }
    }
}

/// How one word of an expression is read.
pub enum Classified {
    Item(PreItem),
    Unknown,
    EmptyWord,
}

pub open spec fn classify(arg: Seq<char>) -> Classified {
    if arg == "true"@ {
        Classified::Item(PreItem::Value(VarValue::Bool(true)))
    } else if arg == "false"@ {
        Classified::Item(PreItem::Value(VarValue::Bool(false)))
    } else if parse_i32_spec(arg) is Some {
        Classified::Item(PreItem::Value(VarValue::Int(parse_i32_spec(arg)->0)))
    } else if arg == "+"@ {
        Classified::Item(PreItem::Op(OpKind::Plus))
    } else if arg == "-"@ {
        Classified::Item(PreItem::Op(OpKind::Minus))
    } else if arg == "*"@ {
        Classified::Item(PreItem::Op(OpKind::Multiply))
    } else if arg == "/"@ {
        Classified::Item(PreItem::Op(OpKind::Divide))
    } else if arg == "=="@ {
        Classified::Item(PreItem::Op(OpKind::Equals))
    } else if arg.len() == 0 {
        Classified::EmptyWord
    } else if arg[0] == '"' {
        Classified::Item(
            PreItem::Value(VarValue::Str(substring_spec(arg, 1, byte_len(arg) - 1))),
        )
    } else {
        Classified::Unknown
    }
}

/// The word that stands for each operator of the line interpreter.
pub open spec fn operator_word(o: OpKind) -> Seq<char> {
    match o {
        OpKind::Plus => "+"@,
        OpKind::Minus => "-"@,
        OpKind::Multiply => "*"@,
        OpKind::Divide => "/"@,
        OpKind::Equals => "=="@,
    }
}

/// Law: a word is read as an operator exactly when it is that operator's
/// word: `-` is subtraction, `+` addition, and so on.
pub proof fn law_operator_words(w: Seq<char>, o: OpKind)
    ensures
        classify(w) == Classified::Item(PreItem::Op(o)) <==> w == operator_word(o),
{
    reveal_strlit("true");
    reveal_strlit("false");
    reveal_strlit("+");
    reveal_strlit("-");
    reveal_strlit("*");
    reveal_strlit("/");
    reveal_strlit("==");
    assert("true"@.len() == 4 && "true"@[0] == 't' && "true"@[1] == 'r' && "true"@[2] == 'u' && "true"@[3] == 'e');
    assert("false"@.len() == 5 && "false"@[0] == 'f' && "false"@[1] == 'a' && "false"@[2] == 'l' && "false"@[3] == 's' && "false"@[4] == 'e');
    assert("+"@.len() == 1 && "+"@[0] == '+');
    assert("-"@.len() == 1 && "-"@[0] == '-');
    assert("*"@.len() == 1 && "*"@[0] == '*');
    assert("/"@.len() == 1 && "/"@[0] == '/');
    assert("=="@.len() == 2 && "=="@[0] == '=' && "=="@[1] == '=');
    assert(integer_literal("+"@) is None);
    assert(integer_literal("-"@) is None);
    assert(!all_digits("*"@) && !all_digits("/"@) && !all_digits("=="@)) by {
        assert(!is_digit("*"@[0]));
        assert(!is_digit("/"@[0]));
        assert(!is_digit("=="@[0]));
    }
    assert(classify("+"@) == Classified::Item(PreItem::Op(OpKind::Plus)));
    assert(classify("-"@) == Classified::Item(PreItem::Op(OpKind::Minus)));
    assert(classify("*"@) == Classified::Item(PreItem::Op(OpKind::Multiply)));
    assert(classify("/"@) == Classified::Item(PreItem::Op(OpKind::Divide)));
    assert(classify("=="@) == Classified::Item(PreItem::Op(OpKind::Equals)));
}

/// Law: an expression is read strictly left to right. When the words so far
/// hold a value and no pending operator, one more operator and value combine
/// that value with the new one: `a - b - c` is `(a - b) - c`.
pub proof fn law_left_to_right(items: Seq<PreItem>, h: VarValue, o: OpKind, v: VarValue)
    requires
        eval_items(items) == Ok::<(Option<VarValue>, Option<OpKind>), ScriptError>((Some(h), None)),
    ensures
        eval_items(items + seq![PreItem::Op(o), PreItem::Value(v)]) == match combine(o, h, v) {
            Ok(r) => Ok::<(Option<VarValue>, Option<OpKind>), ScriptError>((Some(r), None)),
            Err(e) => Err(e),
        },
{
    let all = items + seq![PreItem::Op(o), PreItem::Value(v)];
    assert(all.drop_last().drop_last() =~= items);
    assert(all.drop_last().last() == PreItem::Op(o));
    assert(eval_items(all.drop_last()) == Ok::<(Option<VarValue>, Option<OpKind>), ScriptError>(
        (Some(h), Some(o)),
    ));
}

/// The line printed for a word that is neither a value nor an operator.
pub open spec fn unknown_word_line(arg: Seq<char>) -> Seq<char> {
    "error occured when parsing "@ + "couldn't find expression "@ + arg
}

/// The items read from `args`, the lines printed on the way, and whether
/// every word could be read.
pub open spec fn classify_all(args: Seq<Seq<char>>) -> (Seq<PreItem>, Seq<Seq<char>>, bool)
    decreases args.len(),
{
    if args.len() == 0 {
        (Seq::empty(), Seq::empty(), true)
    } else {
        let (items, lines, ok) = classify_all(args.drop_last());
        if !ok {
            (items, lines, false)
        } else {
            match classify(args.last()) {
                Classified::Item(it) => (items.push(it), lines, true),
                Classified::Unknown => (items, lines.push(unknown_word_line(args.last())), true),
                Classified::EmptyWord => (items, lines, false),
            }
        }
    }
}

/// Lines printed by `evaluate_expression` and what it yields.
pub open spec fn evaluate_expression_spec(expr: Seq<char>) -> (Seq<Seq<char>>, Result<VarValue, ScriptError>) {
    let header = "evaluating the expression "@ + expr;
    let (items, lines, ok) = classify_all(split_expression_spec(expr, ' '));
    let printed = seq![header] + lines;
    if !ok {
        (printed, Err(ScriptError::EmptyWord))
    } else {
        match eval_items(items) {
            Err(e) => (printed, Err(e)),
            Ok((Some(v), _)) => (printed, Ok(v)),
            Ok((None, _)) => (printed, Err(ScriptError::EmptyExpression)),
        }
    }
}

/// A copy of a value.
pub fn copy_variable(v: &Variable) -> (r: Variable)
    ensures
        r@ == v@,
{
    match v {
        Variable::Str(s) => Variable::Str(s.clone()),
        Variable::Int(i) => Variable::Int(*i),
        Variable::Bool(b) => Variable::Bool(*b),
        Variable::Empty => Variable::Empty,
    }
}

/// The text that `Display` writes for a value.
pub fn display_variable(v: &Variable) -> (r: String)
    ensures
        r@ == display(v@),
{
    match v {
        Variable::Str(s) => s.clone(),
        Variable::Int(i) => {
            let d = i64_decimal(*i as i64);
            string_of(&d)
        },
        Variable::Bool(b) => if *b {
            String::from_str("true")
        } else {
            String::from_str("false")
        },
        Variable::Empty => String::new(),
    }
}

fn concat_display(held: &Variable, tail: &str) -> (r: String)
    ensures
        r@ == display(held@) + tail@,
{
    let mut s = display_variable(held);
    s.append(tail);
    s
}

/// One step of an expression: `held <op> var`.
pub fn combine_values(op: &PreExpression, held: &Variable, var: &Variable) -> (r: Result<
    Variable,
    ScriptError,
>)
    requires
        op@ is Op,
    ensures
        match r {
            Ok(v) => combine(op@->Op_0, held@, var@) == Ok::<VarValue, ScriptError>(v@),
            Err(e) => combine(op@->Op_0, held@, var@) == Err::<VarValue, ScriptError>(e),
        },
{
    match op {
        PreExpression::PLUS => match var {
            Variable::Str(s) => Ok(Variable::Str(concat_display(held, s.as_str()))),
            Variable::Int(i) => match held {
                Variable::Int(c) => {
                    let r: i64 = *c as i64 + *i as i64;
                    if r < -2147483648 || r > 2147483647 {
                        Err(ScriptError::IntegerOverflow)
                    } else {
                        Ok(Variable::Int(r as i32))
                    }
                },
                _ => {
                    let d = i64_decimal(*i as i64);
                    let ds = string_of(&d);
                    Ok(Variable::Str(concat_display(held, ds.as_str())))
                },
            },
            Variable::Bool(b) => {
                let bs = display_variable(var);
                Ok(Variable::Str(concat_display(held, bs.as_str())))
            },
            Variable::Empty => Ok(copy_variable(held)),
        },
        PreExpression::MINUS => match (held, var) {
            (Variable::Int(c), Variable::Int(i)) => {
                let r: i64 = *c as i64 - *i as i64;
                if r < -2147483648 || r > 2147483647 {
                    Err(ScriptError::IntegerOverflow)
                } else {
                    Ok(Variable::Int(r as i32))
                }
            },
            _ => Err(ScriptError::CannotSubtract),
        },
        PreExpression::MULTIPLY => match (held, var) {
            (Variable::Int(c), Variable::Int(i)) => {
                let a: i64 = *c as i64;
                let b: i64 = *i as i64;
                assert(-2147483648 * 2147483648 <= a * b <= 2147483648 * 2147483648)
                    by (nonlinear_arith)
                    requires
                        -2147483648 <= a <= 2147483647,
                        -2147483648 <= b <= 2147483647,
                ;
                let r: i64 = a * b;
                if r < -2147483648 || r > 2147483647 {
                    Err(ScriptError::IntegerOverflow)
                } else {
                    Ok(Variable::Int(r as i32))
                }
            },
            _ => Err(ScriptError::CannotMultiply),
        },
        PreExpression::DIVIDE => match (held, var) {
            (Variable::Int(c), Variable::Int(i)) => {
                if *i == 0 {
                    Err(ScriptError::DivisionByZero)
                } else {
                    let a: i64 = if *c < 0 {
                        -(*c as i64)
                    } else {
                        *c as i64
                    };
                    let b: i64 = if *i < 0 {
                        -(*i as i64)
                    } else {
                        *i as i64
                    };
                    let q: i64 = a / b;
                    assert(q <= a) by (nonlinear_arith)
                        requires
                            a >= 0,
                            b >= 1,
                            q == a / b,
                    ;
                    let r: i64 = if (*c < 0) != (*i < 0) {
                        -q
                    } else {
                        q
                    };
                    if r < -2147483648 || r > 2147483647 {
                        Err(ScriptError::IntegerOverflow)
                    } else {
                        Ok(Variable::Int(r as i32))
                    }
                }
            },
            _ => Err(ScriptError::CannotDivide),
        },
        PreExpression::EQUALS => match (held, var) {
            (Variable::Bool(c), Variable::Bool(b)) => Ok(Variable::Bool(*c == *b)),
            _ => Err(ScriptError::NotABool),
        },
        PreExpression::Variable(_) => {
            assert(false);
            Err(ScriptError::MissingOperator)
        },
    }
}

/// How one word of an expression is read, as an executable value.
pub enum ClassifiedWord {
    Item(PreExpression),
    Unknown,
    EmptyWord,
}

/// Reads one word of an expression.
pub fn classify_word(arg: &String) -> (r: ClassifiedWord)
    ensures
        match r {
            ClassifiedWord::Item(p) => classify(arg@) == Classified::Item(p@),
            ClassifiedWord::Unknown => classify(arg@) is Unknown,
            ClassifiedWord::EmptyWord => classify(arg@) is EmptyWord,
        },
{
    let a = chars_of(arg.as_str());
    if is_literal(&a, "true") {
        return ClassifiedWord::Item(PreExpression::Variable(Variable::Bool(true)));
    }
    if is_literal(&a, "false") {
        return ClassifiedWord::Item(PreExpression::Variable(Variable::Bool(false)));
    }
    match parse_i32(&a) {
        Some(n) => {
            return ClassifiedWord::Item(PreExpression::Variable(Variable::Int(n)));
        },
        None => {},
    }
    if is_literal(&a, "+") {
        return ClassifiedWord::Item(PreExpression::PLUS);
    }
    if is_literal(&a, "-") {
        return ClassifiedWord::Item(PreExpression::MINUS);
    }
    if is_literal(&a, "*") {
        return ClassifiedWord::Item(PreExpression::MULTIPLY);
    }
    if is_literal(&a, "/") {
        return ClassifiedWord::Item(PreExpression::DIVIDE);
    }
    if is_literal(&a, "==") {
        return ClassifiedWord::Item(PreExpression::EQUALS);
    }
    if a.len() == 0 {
        return ClassifiedWord::EmptyWord;
    }
    if a[0] == '"' {
        let blen = str_len(arg.as_str());
        proof {
            crate::text::lemma_byte_len_bounds(arg@);
        }
        let inner = substring(arg.as_str(), 1, blen - 1);
        return ClassifiedWord::Item(PreExpression::Variable(Variable::Str(inner)));
    }
    ClassifiedWord::Unknown
}

proof fn lemma_views_push(v: Seq<String>, x: String)
    ensures
        views(v.push(x)) == views(v).push(x@),
{
    assert(views(v.push(x)) =~= views(v).push(x@));
}

/// Evaluates one expression of the line interpreter, appending to `out` the
/// lines that it prints on the way. An `Err` result is the panic that ends
/// the program at that point (for example `1 == 1` gives `NotABool`, the
/// panic "thats not a bool"); see `ScriptError`.
pub fn evaluate_expression(expression: &str, out: &mut Vec<String>) -> (r: Result<
    Variable,
    ScriptError,
>)
    ensures
        views(final(out)@) == views(old(out)@) + evaluate_expression_spec(expression@).0,
        match r {
            Ok(v) => evaluate_expression_spec(expression@).1 == Ok::<VarValue, ScriptError>(v@),
            Err(e) => evaluate_expression_spec(expression@).1 == Err::<VarValue, ScriptError>(e),
        },
{
    let ghost start = views(out@);
    let mut header = String::from_str("evaluating the expression ");
    header.append(expression);
    proof {
        lemma_views_push(out@, header);
    }
    out.push(header);
    let args = split_expression(String::from_str(expression), ' ');
    let ghost words = split_expression_spec(expression@, ' ');
    let mut varbuffer: Vec<PreExpression> = Vec::new();
    let mut i: usize = 0;
    while i < args.len()
        invariant
            views(args@) == words,
            words == split_expression_spec(expression@, ' '),
            start == views(old(out)@),
            i <= args@.len(),
            ({
                let (items, lines, ok) = classify_all(words.take(i as int));
                &&& ok
                &&& items == varbuffer@.map_values(|p: PreExpression| p@)
                &&& views(out@) == start + seq!["evaluating the expression "@ + expression@] + lines
            }),
        decreases args@.len() - i,
    {
        assert(words.take(i + 1).drop_last() =~= words.take(i as int));
        assert(words.take(i + 1).last() == args@[i as int]@);
        match classify_word(&args[i]) {
            ClassifiedWord::Item(p) => {
                varbuffer.push(p);
            },
            ClassifiedWord::Unknown => {
                let mut msg = String::from_str("couldn't find expression ");
                msg.append(args[i].as_str());
                let line = throw(msg.as_str());
                assert(line@ =~= "error occured when parsing "@ + "couldn't find expression "@ + args@[i as int]@);
                proof {
                    lemma_views_push(out@, line);
                }
                out.push(line);
            },
            ClassifiedWord::EmptyWord => {
                proof {
                    let pre = classify_all(words.take(i as int));
                    assert(classify_all(words.take(i + 1)) == (pre.0, pre.1, false));
                    lemma_classify_all_stops(words, i + 1);
                    assert(views(out@) =~= start + evaluate_expression_spec(expression@).0);
                }
                return Err(ScriptError::EmptyWord);
            },
        }
        i = i + 1;
        assert(varbuffer@.map_values(|p: PreExpression| p@) =~= classify_all(
            words.take(i as int),
        ).0);
        assert(views(out@) =~= start + seq!["evaluating the expression "@ + expression@]
            + classify_all(words.take(i as int)).1);
    }
    assert(words.take(args@.len() as int) =~= words);
    let ghost items = varbuffer@.map_values(|p: PreExpression| p@);
    assert(views(out@) =~= start + evaluate_expression_spec(expression@).0);
    let mut held: Option<Variable> = None;
    let mut operation: Option<PreExpression> = None;
    let mut k: usize = 0;
    assert(items.take(0) =~= Seq::<PreItem>::empty());
    while k < varbuffer.len()
        invariant
            items == varbuffer@.map_values(|p: PreExpression| p@),
            items == classify_all(words).0,
            classify_all(words).2,
            start == views(old(out)@),
            words == split_expression_spec(expression@, ' '),
            views(out@) == start + evaluate_expression_spec(expression@).0,
            k <= varbuffer@.len(),
            operation matches Some(o) ==> o@ is Op,
            eval_items(items.take(k as int)) == Ok::<(Option<VarValue>, Option<OpKind>), ScriptError>(
                (
                    match held {
                        Some(h) => Some(h@),
                        None => None,
                    },
                    match operation {
                        Some(o) => Some(o@->Op_0),
                        None => None,
                    },
                ),
            ),
        decreases varbuffer@.len() - k,
    {
        assert(items.take(k + 1).drop_last() =~= items.take(k as int));
        assert(items.take(k + 1).last() == varbuffer@[k as int]@);
        match &varbuffer[k] {
            PreExpression::Variable(var) => {
                match &held {
                    Some(heldvar) => {
                        match &operation {
                            Some(op) => {
                                match combine_values(op, heldvar, var) {
                                    Ok(v) => {
                                        held = Some(v);
                                        operation = None;
                                    },
                                    Err(e) => {
                                        proof {
                                            lemma_eval_items_stops(items, k + 1);
                                        }
                                        return Err(e);
                                    },
                                }
                            },
                            None => {
                                proof {
                                    lemma_eval_items_stops(items, k + 1);
                                }
                                return Err(ScriptError::MissingOperator);
                            },
                        }
                    },
                    None => {
                        held = Some(copy_variable(var));
                    },
                }
            },
            PreExpression::PLUS => {
                operation = Some(PreExpression::PLUS);
            },
            PreExpression::MINUS => {
                operation = Some(PreExpression::MINUS);
            },
            PreExpression::MULTIPLY => {
                operation = Some(PreExpression::MULTIPLY);
            },
            PreExpression::DIVIDE => {
                operation = Some(PreExpression::DIVIDE);
            },
            PreExpression::EQUALS => {
                operation = Some(PreExpression::EQUALS);
            },
        }
        k = k + 1;
    }
    assert(items.take(varbuffer@.len() as int) =~= items);
    match held {
        Some(v) => Ok(v),
        None => Err(ScriptError::EmptyExpression),
    }
}

proof fn lemma_classify_all_stops(words: Seq<Seq<char>>, j: int)
    requires
        0 <= j <= words.len(),
        !classify_all(words.take(j)).2,
    ensures
        classify_all(words) == classify_all(words.take(j)),
    decreases words.len(),
{
    if j < words.len() {
        assert(words.drop_last().take(j) =~= words.take(j));
        lemma_classify_all_stops(words.drop_last(), j);
    } else {
        assert(words.take(j) =~= words);
    }
}

proof fn lemma_eval_items_stops(items: Seq<PreItem>, j: int)
    requires
        0 <= j <= items.len(),
        eval_items(items.take(j)) is Err,
    ensures
        eval_items(items) == eval_items(items.take(j)),
    decreases items.len(),
{
    if j < items.len() {
        assert(items.drop_last().take(j) =~= items.take(j));
        lemma_eval_items_stops(items.drop_last(), j);
    } else {
        assert(items.take(j) =~= items);
    }
}

// ---------------------------------------------------------------------------
// Consuming a program
// ---------------------------------------------------------------------------
pub proof fn lemma_substring_len(s: Seq<char>, a: int, b: int)
    requires
        0 <= a,
    ensures
        substring_spec(s, a, b).len() <= s.len(),
        a >= 1 && s.len() >= 1 ==> substring_spec(s, a, b).len() < s.len(),
{
}

pub proof fn lemma_split_string_lens(input: Seq<char>, pat: Seq<char>)
    ensures
        split_string_spec(input, pat).0.len() <= input.len(),
        split_string_spec(input, pat).1.len() <= input.len(),
        pat.len() >= 1 && input.len() >= 1 ==> split_string_spec(input, pat).1.len()
            < input.len(),
{
    lemma_first_match_from(input, pat, 0);
    crate::text::lemma_byte_len_bounds(pat);
    crate::text::lemma_byte_len_bounds(input);
    match first_match_from(input, pat, 0) {
        Some(k) => {
            let b = byte_len(input.take(k)) as int;
            crate::text::lemma_byte_len_bounds(input.take(k));
            lemma_substring_len(input, 0, b);
            lemma_substring_len(input, b + byte_len(pat), byte_len(input) as int);
        },
        None => {},
    }
}

proof fn lemma_split_bool_state_lens(s: Seq<char>, i: int)
    ensures
        split_bool_state(s, i).ifc.len() <= s.len(),
        split_bool_state(s, i).elsec.len() <= s.len(),
        split_bool_state(s, i).remc.len() <= s.len(),
    decreases i,
{
    if i > 0 {
        lemma_split_bool_state_lens(s, i - 1);
        let k = i - 1;
        lemma_substring_len(s, 0, k);
        let st = split_bool_state(s, i - 1);
        lemma_split_bool_elseindx(s, i - 1);
        lemma_substring_len(s, st.elseindx + 4, k);
        lemma_substring_len(s, k + 4, k);
        lemma_substring_len(s, k, s.len() as int);
    }
}

proof fn lemma_split_bool_elseindx(s: Seq<char>, i: int)
    ensures
        split_bool_state(s, i).elseindx >= 0,
    decreases i,
{
    if i > 0 {
        lemma_split_bool_elseindx(s, i - 1);
    }
}

pub proof fn lemma_split_bool_lens(s: Seq<char>)
    ensures
        split_bool_spec(s).0.len() <= s.len(),
        split_bool_spec(s).1.len() <= s.len(),
        split_bool_spec(s).2.len() <= s.len(),
{
    lemma_split_bool_state_lens(s, s.len() as int);
}

/// Lines printed by `consume_std(code)` and the text left to run after it.
pub open spec fn consume_spec(code: Seq<char>) -> (Seq<Seq<char>>, Result<Seq<char>, ScriptError>)
    decreases code.len(),
{
    let (line, rest) = split_string_spec(code, "\n"@);
    let (kw, argtext) = split_string_spec(line, " "@);
    let arg0 = split_expression_spec(argtext, ',')[0];
    if kw == "print"@ {
        let (lines, r) = evaluate_expression_spec(arg0);
        match r {
            Ok(v) => (lines.push("from code: "@ + display(v)), Ok(rest)),
            Err(e) => (lines, Err(e)),
        }
    } else if kw == "if"@ {
        if !is_ascii_text(rest) {
            (Seq::empty(), Err(ScriptError::NonAsciiBlock))
        } else {
            let (t, f, rem) = split_bool_spec(rest);
            let (lines, r) = evaluate_expression_spec(arg0);
            proof {
                reveal_strlit("if");
                reveal_strlit("\n");
                lemma_split_string_lens(code, "\n"@);
                lemma_split_string_lens(line, " "@);
                lemma_split_bool_lens(rest);
            }
            match r {
                Ok(VarValue::Bool(b)) => if b {
                    let (l2, r2) = consume_spec(t);
                    (lines + l2, r2)
                } else {
                    let l1 = lines.push("\n"@ + f + "\n"@);
                    if f.len() > 0 {
                        let (l2, r2) = consume_spec(f);
                        (l1 + l2, r2)
                    } else {
                        (l1, Ok(rem))
                    }
                },
                Ok(_) => (lines, Err(ScriptError::ConditionNotBool)),
                Err(e) => (lines, Err(e)),
            }
        }
    } else {
        (seq!["keyword "@ + kw + " is not defined at line "@ + line], Ok(rest))
    }
}

/// Law: an `if` step runs one of its two parts. With the text after the
/// `if` line split into its true part `t`, its false part `f` and the rest:
/// a true condition prints the condition's lines and then exactly what
/// running `t` prints, and leaves what running `t` leaves; a false condition
/// prints the condition's lines, then `f` between line breaks, then exactly
/// what running `f` prints, and leaves what running `f` leaves; only with an
/// empty false part does it go on after the `fi`.
pub proof fn law_if_runs_one_part(code: Seq<char>)
    ensures
        ({
            let (line, rest) = split_string_spec(code, "\n"@);
            let (kw, argtext) = split_string_spec(line, " "@);
            let cond = split_expression_spec(argtext, ',')[0];
            let (t, f, rem) = split_bool_spec(rest);
            let (lines, r) = evaluate_expression_spec(cond);
            kw == "if"@ && is_ascii_text(rest) ==> {
                &&& r == Ok::<VarValue, ScriptError>(VarValue::Bool(true)) ==> consume_spec(code) == (
                    lines + consume_spec(t).0,
                    consume_spec(t).1,
                )
                &&& r == Ok::<VarValue, ScriptError>(VarValue::Bool(false)) && f.len() > 0
                    ==> consume_spec(code) == (
                    lines.push("\n"@ + f + "\n"@) + consume_spec(f).0,
                    consume_spec(f).1,
                )
                &&& r == Ok::<VarValue, ScriptError>(VarValue::Bool(false)) && f.len() == 0
                    ==> consume_spec(code) == (
                    lines.push("\n"@ + f + "\n"@),
                    Ok::<Seq<char>, ScriptError>(rem),
                )
            }
        }),
{
    reveal_strlit("if");
    reveal_strlit("print");
}

/// Whether every character is ASCII.
pub fn all_ascii(s: &[char]) -> (r: bool)
    ensures
        r == is_ascii_text(s@),
{
    let mut i: usize = 0;
    while i < s.len()
        invariant
            i <= s@.len(),
            forall|j: int| 0 <= j < i ==> (#[trigger] s@[j] as u32) < 128,
        decreases s@.len() - i,
    {
        if (s[i] as u32) >= 128 {
            return false;
        }
        i = i + 1;
    }
    true
}

proof fn lemma_split_expression_nonempty(s: Seq<char>, c: char)
    ensures
        split_expression_spec(s, c).len() >= 1,
{
}

/// Runs the first line of `code` (and, for an `if`, the block it opens),
/// appending what it prints to `out`, and returns the text that is left to
/// run, or the error that stops the program.
pub fn consume_std(code: &str, out: &mut Vec<String>) -> (r: Result<String, ScriptError>)
    ensures
        views(final(out)@) == views(old(out)@) + consume_spec(code@).0,
        match r {
            Ok(s) => consume_spec(code@).1 == Ok::<Seq<char>, ScriptError>(s@),
            Err(e) => consume_spec(code@).1 == Err::<Seq<char>, ScriptError>(e),
        },
    decreases code@.len(),
{
    let code_parts = split_string(code, "\n");
    let kargs = split_string(code_parts.0.as_str(), " ");
    let kw = chars_of(kargs.0.as_str());
    let args = split_expression(kargs.1, ',');
    proof {
        lemma_split_expression_nonempty(kargs.1@, ',');
        reveal_strlit("if");
        reveal_strlit("\n");
        lemma_split_string_lens(code@, "\n"@);
        lemma_split_string_lens(code_parts.0@, " "@);
    }
    let ghost start = views(out@);
    if is_literal(&kw, "print") {
        match evaluate_expression(args[0].as_str(), out) {
            Ok(v) => {
                let mut line = String::from_str("from code: ");
                let d = display_variable(&v);
                line.append(d.as_str());
                proof {
                    lemma_views_push(out@, line);
                }
                out.push(line);
                assert(views(out@) =~= start + consume_spec(code@).0);
                return Ok(code_parts.1);
            },
            Err(e) => {
                return Err(e);
            },
        }
    } else if is_literal(&kw, "if") {
        let rest_chars = chars_of(code_parts.1.as_str());
        if !all_ascii(&rest_chars) {
            assert(views(out@) =~= start + consume_spec(code@).0);
            return Err(ScriptError::NonAsciiBlock);
        }
        let block = split_bool(code_parts.1.as_str());
        proof {
            lemma_split_bool_lens(code_parts.1@);
        }
        match evaluate_expression(args[0].as_str(), out) {
            Ok(Variable::Bool(res)) => {
                if res {
                    let ghost mid = views(out@);
                    let r = consume_std(block.0.as_str(), out);
                    assert(views(out@) =~= start + consume_spec(code@).0);
                    return r;
                } else {
                    let mut l = String::from_str("\n");
                    l.append(block.1.as_str());
                    l.append("\n");
                    proof {
                        lemma_views_push(out@, l);
                    }
                    out.push(l);
                    if block.1.as_str().unicode_len() != 0 {
                        let r = consume_std(block.1.as_str(), out);
                        assert(views(out@) =~= start + consume_spec(code@).0);
                        return r;
                    }
                    assert(views(out@) =~= start + consume_spec(code@).0);
                    return Ok(block.2);
                }
            },
            Ok(_) => {
                return Err(ScriptError::ConditionNotBool);
            },
            Err(e) => {
                return Err(e);
            },
        }
    } else {
        let mut l = String::from_str("keyword ");
        l.append(kargs.0.as_str());
        l.append(" is not defined at line ");
        l.append(code_parts.0.as_str());
        proof {
            lemma_views_push(out@, l);
        }
        out.push(l);
        assert(views(out@) =~= start + consume_spec(code@).0);
    }
    Ok(code_parts.1)
}

/// The entry point of one step of the interpreter: the same as `consume_std`.
pub fn consume(line: &str, out: &mut Vec<String>) -> (r: Result<String, ScriptError>)
    ensures
        views(final(out)@) == views(old(out)@) + consume_spec(line@).0,
        match r {
            Ok(s) => consume_spec(line@).1 == Ok::<Seq<char>, ScriptError>(s@),
            Err(e) => consume_spec(line@).1 == Err::<Seq<char>, ScriptError>(e),
        },
{
    consume_std(line, out)
}

/// Law: every step of the interpreter consumes text. What `consume_std`
/// leaves to run is never longer than its input, and strictly shorter when
/// the input is not empty, so running a program always ends.
pub proof fn consume_makes_progress(code: Seq<char>)
    ensures
        consume_spec(code).1 matches Ok(rem) ==> rem.len() <= code.len() && (code.len() > 0
            ==> rem.len() < code.len()),
    decreases code.len(),
{
    reveal_strlit("if");
    reveal_strlit("\n");
    reveal_strlit("print");
    lemma_split_string_lens(code, "\n"@);
    let (line, rest) = split_string_spec(code, "\n"@);
    lemma_split_string_lens(line, " "@);
    let (kw, argtext) = split_string_spec(line, " "@);
    if kw == "if"@ && is_ascii_text(rest) {
        lemma_split_bool_lens(rest);
        let (t, f, rem) = split_bool_spec(rest);
        consume_makes_progress(t);
        consume_makes_progress(f);
    }
}

/// `p` is a contiguous piece of `s`.
pub open spec fn is_piece(p: Seq<char>, s: Seq<char>) -> bool {
    exists|i: int, j: int| 0 <= i <= j <= s.len() && p == #[trigger] s.subrange(i, j)
}

proof fn lemma_piece_at(p: Seq<char>, s: Seq<char>, i: int, j: int)
    requires
        0 <= i <= j <= s.len(),
        p =~= s.subrange(i, j),
    ensures
        is_piece(p, s),
{
}

proof fn lemma_piece_trans(a: Seq<char>, b: Seq<char>, c: Seq<char>)
    requires
        is_piece(a, b),
        is_piece(b, c),
    ensures
        is_piece(a, c),
{
    let (i, j) = choose|i: int, j: int| 0 <= i <= j <= b.len() && a == #[trigger] b.subrange(i, j);
    let (k, l) = choose|k: int, l: int| 0 <= k <= l <= c.len() && b == #[trigger] c.subrange(k, l);
    assert(a =~= c.subrange(k + i, k + j));
    lemma_piece_at(a, c, k + i, k + j);
}

proof fn lemma_substring_piece(s: Seq<char>, a: int, b: int)
    requires
        0 <= a,
    ensures
        is_piece(substring_spec(s, a, b), s),
{
    if b <= a {
        lemma_piece_at(substring_spec(s, a, b), s, 0, 0);
    } else {
        let lo = if a < s.len() { a } else { s.len() as int };
        let hi = if b < s.len() { b } else { s.len() as int };
        lemma_piece_at(substring_spec(s, a, b), s, lo, hi);
    }
}

proof fn lemma_split_string_pieces(input: Seq<char>, pat: Seq<char>)
    ensures
        is_piece(split_string_spec(input, pat).0, input),
        is_piece(split_string_spec(input, pat).1, input),
{
    match first_match_from(input, pat, 0) {
        Some(k) => {
            let b = byte_len(input.take(k)) as int;
            lemma_substring_piece(input, 0, b);
            lemma_substring_piece(input, b + byte_len(pat), byte_len(input) as int);
        },
        None => {
            lemma_piece_at(input, input, 0, input.len() as int);
            lemma_piece_at(Seq::empty(), input, 0, 0);
        },
    }
}

proof fn lemma_split_bool_state_pieces(s: Seq<char>, i: int)
    ensures
        is_piece(split_bool_state(s, i).ifc, s),
        is_piece(split_bool_state(s, i).elsec, s),
        is_piece(split_bool_state(s, i).remc, s),
    decreases i,
{
    if i <= 0 {
        lemma_piece_at(Seq::empty(), s, 0, 0);
    } else {
        lemma_split_bool_state_pieces(s, i - 1);
        lemma_split_bool_elseindx(s, i - 1);
        let k = i - 1;
        let st = split_bool_state(s, i - 1);
        lemma_substring_piece(s, 0, k);
        lemma_substring_piece(s, st.elseindx + 4, k);
        lemma_substring_piece(s, k + 4, k);
        lemma_substring_piece(s, k, s.len() as int);
    }
}

/// Law: what a step of the interpreter leaves to run is one contiguous piece
/// of the text it was given.
#[verifier::spinoff_prover]
#[verifier::rlimit(40)]
pub proof fn law_consume_leaves_piece(code: Seq<char>)
    ensures
        consume_spec(code).1 matches Ok(rem) ==> is_piece(rem, code),
    decreases code.len(),
{
    reveal_strlit("if");
    reveal_strlit("\n");
    reveal_strlit("print");
    lemma_split_string_lens(code, "\n"@);
    lemma_split_string_pieces(code, "\n"@);
    let (line, rest) = split_string_spec(code, "\n"@);
    lemma_split_string_lens(line, " "@);
    let (kw, argtext) = split_string_spec(line, " "@);
    if kw == "if"@ && is_ascii_text(rest) {
        lemma_split_bool_lens(rest);
        lemma_split_bool_state_pieces(rest, rest.len() as int);
        let (t, f, rem) = split_bool_spec(rest);
        law_consume_leaves_piece(t);
        law_consume_leaves_piece(f);
        if let Ok(r) = consume_spec(t).1 {
            lemma_piece_trans(t, rest, code);
            lemma_piece_trans(r, t, code);
        }
        if let Ok(r) = consume_spec(f).1 {
            lemma_piece_trans(f, rest, code);
            lemma_piece_trans(r, f, code);
        }
        lemma_piece_trans(rem, rest, code);
    }
}

/// Lines printed by `interpret(input)` and whether it runs to the end.
pub open spec fn interpret_spec(input: Seq<char>) -> (Seq<Seq<char>>, Result<(), ScriptError>)
    decreases input.len(),
{
    if input.len() == 0 {
        (Seq::empty(), Ok(()))
    } else {
        let (lines, r) = consume_spec(input);
        match r {
            Err(e) => (lines, Err(e)),
            Ok(rem) => {
                proof {
                    consume_makes_progress(input);
                }
                let (l2, r2) = interpret_spec(rem);
                (lines + l2, r2)
            },
        }
    }
}

/// Runs a whole program, appending to `out` the lines that it prints.
pub fn interpret(file: &str, out: &mut Vec<String>) -> (r: Result<(), ScriptError>)
    ensures
        views(final(out)@) == views(old(out)@) + interpret_spec(file@).0,
        r == interpret_spec(file@).1,
{
    let mut input = String::from_str(file);
    let ghost start = views(out@);
    while input.as_str().unicode_len() > 0
        invariant
            start == views(old(out)@),
            start + interpret_spec(file@).0 == views(out@) + interpret_spec(input@).0,
            interpret_spec(file@).1 == interpret_spec(input@).1,
        decreases input@.len(),
    {
        let ghost before = views(out@);
        let ghost cur = input@;
        proof {
            consume_makes_progress(input@);
        }
        match consume(input.as_str(), out) {
            Ok(remainder) => {
                assert(views(out@) + interpret_spec(remainder@).0 =~= before + interpret_spec(
                    cur,
                ).0);
                input = remainder;
            },
            Err(e) => {
                assert(views(out@) =~= before + interpret_spec(cur).0);
                assert(interpret_spec(cur).0 + Seq::<Seq<char>>::empty() =~= interpret_spec(cur).0);
                return Err(e);
            },
        }
    }
    assert(views(out@) + Seq::<Seq<char>>::empty() =~= views(out@));
    Ok(())
}

/// The line that the interpreter prints for a parse error.
pub fn throw(err: &str) -> (line: String)
    ensures
        line@ == "error occured when parsing "@ + err@,
{
    let mut line = String::from_str("error occured when parsing ");
    line.append(err);
    line
}

} // verus!
