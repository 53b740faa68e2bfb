//! Where an error stands in the source text, and the report that the
//! interpreter prints for it before it stops.
use crate::parser::tokens::{names_view, Symbol};
use crate::text::{chars_of, string_of};
use vstd::prelude::*;

verus! {

/// Number of line breaks in `s`.
pub open spec fn count_newlines(s: Seq<char>) -> nat
    decreases s.len(),
{
    if s.len() == 0 {
        0
    } else {
        count_newlines(s.drop_last()) + if s.last() == '\n' {
            1nat
        } else {
            0nat
        }
    }
}

/// The column counter of the report after reading `s`: reset to one by a
/// line break, increased by one for every other character.
pub open spec fn column_after(s: Seq<char>) -> nat
    decreases s.len(),
{
    if s.len() == 0 {
        0
    } else if s.last() == '\n' {
        1
    } else {
        column_after(s.drop_last()) + 1
    }
}

pub proof fn lemma_column_bounds(s: Seq<char>)
    ensures
        column_after(s) <= s.len(),
        s.len() > 0 ==> column_after(s) >= 1,
        count_newlines(s) <= s.len(),
    decreases s.len(),
{
    if s.len() > 0 {
        lemma_column_bounds(s.drop_last());
    }
}

/// Law: the line of a position is the number of line breaks before it; its
/// column is one more than the number of characters between the last line
/// break and it, and on the first line the number of characters before it.
pub proof fn law_line_and_column(s: Seq<char>, t: Seq<char>)
    requires
        forall|i: int| 0 <= i < t.len() ==> t[i] != '\n',
    ensures
        count_newlines(s.push('\n') + t) == count_newlines(s) + 1,
        column_after(s.push('\n') + t) == t.len() + 1,
        count_newlines(t) == 0,
        column_after(t) == t.len(),
        count_newlines(s) == s.filter(|c: char| c == '\n').len(),
    decreases t.len(),
{
    lemma_count_filter(s);
    if t.len() > 0 {
        let t0 = t.drop_last();
        assert forall|i: int| 0 <= i < t0.len() implies t0[i] != '\n' by {
            assert(t0[i] == t[i]);
        }
        law_line_and_column(s, t0);
        assert((s.push('\n') + t).drop_last() =~= s.push('\n') + t0);
        assert((s.push('\n') + t).last() == t.last());
        assert(t.last() == t[t.len() - 1]);
    } else {
        assert(s.push('\n') + t =~= s.push('\n'));
        assert(s.push('\n').drop_last() =~= s);
    }
}

proof fn lemma_count_filter(s: Seq<char>)
    ensures
        count_newlines(s) == s.filter(|c: char| c == '\n').len(),
    decreases s.len(),
{
    reveal(Seq::filter);
    if s.len() > 0 {
        lemma_count_filter(s.drop_last());
    }
}

/// Line (counted from zero) and column of character `idx` of a source text.
#[derive(Debug, Clone, Copy, PartialEq, Eq, Structural)]
pub struct SourcePosition {
    pub line: usize,
    pub column: usize,
}

/// The line and column that the error report prints for position `idx`.
pub fn position_of(input: &[char], idx: usize) -> (p: SourcePosition)
    requires
        idx <= input@.len(),
    ensures
        p.line == count_newlines(input@.take(idx as int)),
        p.column == column_after(input@.take(idx as int)),
{
    let mut i: usize = 0;
    let mut lines: usize = 0;
    let mut offset: usize = 0;
    while i < idx
        invariant
            idx <= input@.len(),
            i <= idx,
            lines == count_newlines(input@.take(i as int)),
            offset == column_after(input@.take(i as int)),
        decreases idx - i,
    {
        proof {
            lemma_column_bounds(input@.take(i as int));
            assert(input@.take(i + 1).drop_last() =~= input@.take(i as int));
        }
        if input[i] == '\n' {
            lines = lines + 1;
            offset = 0;
        }
        offset = offset + 1;
        i = i + 1;
    }
    SourcePosition { line: lines, column: offset }
}

/// `s` without one trailing carriage return.
pub open spec fn strip_cr(s: Seq<char>) -> Seq<char> {
    if s.len() > 0 && s.last() == '\r' {
        s.drop_last()
    } else {
        s
    }
}

/// State of `str::lines` after the first `i` characters: the line being
/// read and the lines finished.
pub open spec fn lines_state(s: Seq<char>, i: int) -> (Seq<char>, Seq<Seq<char>>)
    decreases i,
{
    if i <= 0 {
        (Seq::empty(), Seq::empty())
    } else {
        let (buf, done) = lines_state(s, i - 1);
        if s[i - 1] == '\n' {
            (Seq::empty(), done.push(strip_cr(buf)))
        } else {
            (buf.push(s[i - 1]), done)
        }
    }
}

/// The lines that `str::lines` yields: split at `\n`, a `\r` before the
/// `\n` removed, and no empty line after a final line break.
pub open spec fn lines_spec(s: Seq<char>) -> Seq<Seq<char>> {
    let (buf, done) = lines_state(s, s.len() as int);
    if buf.len() > 0 {
        done.push(buf)
    } else {
        done
    }
}

/// The pieces of `s` between line breaks, as `str::split('\n')` yields them.
pub open spec fn split_lines_spec(s: Seq<char>) -> Seq<Seq<char>> {
    let (buf, done) = split_lines_state(s, s.len() as int);
    done.push(buf)
}

pub open spec fn split_lines_state(s: Seq<char>, i: int) -> (Seq<char>, Seq<Seq<char>>)
    decreases i,
{
    if i <= 0 {
        (Seq::empty(), Seq::empty())
    } else {
        let (buf, done) = split_lines_state(s, i - 1);
        if s[i - 1] == '\n' {
            (Seq::empty(), done.push(buf))
        } else {
            (buf.push(s[i - 1]), done)
        }
    }
}

pub open spec fn string_views(v: Seq<String>) -> Seq<Seq<char>> {
    v.map_values(|x: String| x@)
}

/// `str::lines`, collected.
pub fn text_lines(input: &[char]) -> (r: Vec<String>)
    ensures
        string_views(r@) == lines_spec(input@),
{
    let mut done: Vec<String> = Vec::new();
    let mut buf: Vec<char> = Vec::new();
    let mut i: usize = 0;
    while i < input.len()
        invariant
            i <= input@.len(),
            lines_state(input@, i as int) == (buf@, string_views(done@)),
        decreases input@.len() - i,
    {
        if input[i] == '\n' {
            let n = buf.len();
            let piece = if n > 0 && buf[n - 1] == '\r' {
                string_of(buf.as_slice().split_at(n - 1).0)
            } else {
                string_of(&buf)
            };
            assert(n > 0 && buf@[n - 1] == '\r' ==> buf@.subrange(0, n - 1) =~= buf@.drop_last());
            done.push(piece);
            buf = Vec::new();
        } else {
            buf.push(input[i]);
        }
        i = i + 1;
        assert(string_views(done@) =~= lines_state(input@, i as int).1);
    }
    if buf.len() > 0 {
        let last = string_of(&buf);
        done.push(last);
    }
    assert(string_views(done@) =~= lines_spec(input@));
    done
}

/// `str::split('\n')`, collected.
pub fn split_lines(input: &[char]) -> (r: Vec<String>)
    ensures
        string_views(r@) == split_lines_spec(input@),
{
    let mut done: Vec<String> = Vec::new();
    let mut buf: Vec<char> = Vec::new();
    let mut i: usize = 0;
    while i < input.len()
        invariant
            i <= input@.len(),
            split_lines_state(input@, i as int) == (buf@, string_views(done@)),
        decreases input@.len() - i,
    {
        if input[i] == '\n' {
            let piece = string_of(&buf);
            done.push(piece);
            buf = Vec::new();
        } else {
            buf.push(input[i]);
        }
        i = i + 1;
        assert(string_views(done@) =~= split_lines_state(input@, i as int).1);
    }
    let last = string_of(&buf);
    done.push(last);
    assert(string_views(done@) =~= split_lines_spec(input@));
    done
}

/// What the error report shows: the kind of error, its message, the source
/// line it points into, and where in that line.
///
/// Raising an exception builds this report, prints it and stops the
/// program: the call never returns. The functions here are the first half of
/// that: they build the report and hand it back; the driver prints it and
/// panics at once, so a caller of the library never goes on after a report.
#[derive(Debug)]
pub struct ExceptionReport {
    pub errtype: String,
    pub message: String,
    pub source_line: String,
    pub position: SourcePosition,
}

/// What a report holds, as text and numbers.
pub struct ReportV {
    pub errtype: Seq<char>,
    pub message: Seq<char>,
    pub source_line: Seq<char>,
    pub line: int,
    pub column: int,
}

pub open spec fn report_view(r: ExceptionReport) -> ReportV {
    ReportV {
        errtype: r.errtype@,
        message: r.message@,
        source_line: r.source_line@,
        line: r.position.line as int,
        column: r.position.column as int,
    }
}

/// The report of an error of type `errtype` with `message` at character
/// `idx` of `input`: the line and column of that character (lines counted
/// from zero, columns from one) and the line of `str::lines` it falls in.
pub open spec fn report_spec(input: Seq<char>, idx: int, errtype: Seq<char>, message: Seq<char>) -> ReportV {
    let line = count_newlines(input.take(idx)) as int;
    ReportV {
        errtype,
        message,
        source_line: lines_spec(input)[line],
        line,
        column: column_after(input.take(idx)) as int,
    }
}

/// Law: a runtime error's report is the report of the same error whose
/// message carries the prefix `RUNTIME EXCEPTION: `; its type, line, column
/// and source line are those of the plain report.
pub proof fn law_runtime_report(input: Seq<char>, idx: int, errtype: Seq<char>, message: Seq<char>)
    ensures
        report_spec(input, idx, errtype, "RUNTIME EXCEPTION: "@ + message) == (ReportV {
            message: "RUNTIME EXCEPTION: "@ + message,
            ..report_spec(input, idx, errtype, message)
        }),
{
}

/// The report for an error at character `idx` of `input`, the source line
/// taken from `str::lines`. Building the report reads the characters up to
/// the position, pads with `column - 1` spaces and looks the line up, so
/// `idx` lies inside the text, is not zero and points into a line that
/// `lines` yields.
/// Raising the exception ends the program once the report is printed; see
/// `ExceptionReport`.
pub fn exception(input: &String, idx: usize, errtype: &str, message: &str) -> (r: ExceptionReport)
    requires
        1 <= idx <= input@.len(),
        count_newlines(input@.take(idx as int)) < lines_spec(input@).len(),
    ensures
        report_view(r) == report_spec(input@, idx as int, errtype@, message@),
{
    exceptionbuilder(input, idx, errtype, message)
}

/// Builds the report of `exception`: both give `report_spec` of their
/// arguments, so `exception` is exactly `exceptionbuilder`.
/// Raising the exception ends the program once the report is printed; see
/// `ExceptionReport`.
pub fn exceptionbuilder(input: &String, idx: usize, errtype: &str, message: &str) -> (r:
    ExceptionReport)
    requires
        1 <= idx <= input@.len(),
        count_newlines(input@.take(idx as int)) < lines_spec(input@).len(),
    ensures
        report_view(r) == report_spec(input@, idx as int, errtype@, message@),
{
    let chars = chars_of(input.as_str());
    let position = position_of(&chars, idx);
    let allines = text_lines(&chars);
    let source_line = allines[position.line].clone();
    ExceptionReport {
        errtype: String::from_str(errtype),
        message: String::from_str(message),
        source_line,
        position,
    }
}

/// The report of a runtime error: the message gets the prefix
/// `RUNTIME EXCEPTION: `.
/// Raising the exception ends the program once the report is printed; see
/// `ExceptionReport`.
pub fn rtexception(input: &String, idx: usize, errtype: &str, message: &str) -> (r:
    ExceptionReport)
    requires
        1 <= idx <= input@.len(),
        count_newlines(input@.take(idx as int)) < lines_spec(input@).len(),
    ensures
        report_view(r) == report_spec(input@, idx as int, errtype@, "RUNTIME EXCEPTION: "@ + message@),
{
    let mut full = String::from_str("RUNTIME EXCEPTION: ");
    full.append(message);
    exception(input, idx, errtype, full.as_str())
}

/// The names joined as `, a, b`: each one after a comma and a space.
pub open spec fn joined_names(names: Seq<Seq<char>>) -> Seq<char>
    decreases names.len(),
{
    if names.len() == 0 {
        Seq::empty()
    } else {
        joined_names(names.drop_last()) + ", "@ + names.last()
    }
}

/// The message of an unexpected symbol: which symbols were expected.
pub open spec fn expected_message(names: Seq<Seq<char>>) -> Seq<char> {
    "Expected "@ + (if names.len() > 1 {
        "one of the following symbols"@
    } else {
        "the symbol"@
    }) + ": "@ + joined_names(names)
}

/// The report of a symbol that cannot stand where it was found, given the
/// display names of the symbols that could: "Expected the symbol: , x" or
/// "Expected one of the following symbols: , x, y".
pub fn unexpected_symbol_exception(
    input: &String,
    idx: usize,
    symbol: &Symbol,
    allowed: &Vec<String>,
) -> (r: ExceptionReport)
    requires
        1 <= idx <= input@.len(),
        count_newlines(input@.take(idx as int)) < lines_spec(input@).len(),
    ensures
        report_view(r) == report_spec(
            input@,
            idx as int,
            "UnexpectedSymbolException"@,
            expected_message(names_view(allowed@)),
        ),
{
    let mut m = String::from_str("Expected ");
    if allowed.len() > 1 {
        m.append("one of the following symbols");
    } else {
        m.append("the symbol");
    }
    m.append(": ");
    let ghost head = m@;
    let mut i: usize = 0;
    while i < allowed.len()
        invariant
            i <= allowed.len(),
            m@ == head + joined_names(names_view(allowed@).take(i as int)),
        decreases allowed.len() - i,
    {
        proof {
            assert(names_view(allowed@).take(i + 1).drop_last() =~= names_view(allowed@).take(i as int));
            assert(names_view(allowed@).take(i + 1).last() == allowed@[i as int]@);
        }
        m.append(", ");
        m.append(allowed[i].as_str());
        i += 1;
    }
    assert(names_view(allowed@).take(allowed.len() as int) =~= names_view(allowed@));
    assert(m@ =~= expected_message(names_view(allowed@)));
    exception(input, idx, "UnexpectedSymbolException", m.as_str())
}

} // verus!
