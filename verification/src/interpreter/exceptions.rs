//! The tree-walking interpreter's error reports. They differ from the block
//! parser's in how the source is cut into lines (`split('\n')`, so every line
//! break starts a line) and in the width of the rule printed around them.
use crate::exceptions::{
    column_after, count_newlines, position_of, split_lines, split_lines_spec, split_lines_state,
    string_views, ExceptionReport,
};
use crate::text::{byte_len, chars_of, str_len};
use vstd::prelude::*;

verus! {

/// The pieces finished after `i` characters are the line breaks among them.
pub proof fn lemma_split_count(s: Seq<char>, i: int)
    requires
        0 <= i <= s.len(),
    ensures
        split_lines_state(s, i).1.len() == count_newlines(s.take(i)),
    decreases i,
{
    if i > 0 {
        lemma_split_count(s, i - 1);
        assert(s.take(i).drop_last() =~= s.take(i - 1));
    }
}

/// A prefix holds no more line breaks than the whole.
pub proof fn lemma_newlines_prefix(s: Seq<char>, i: int)
    requires
        0 <= i <= s.len(),
    ensures
        count_newlines(s.take(i)) <= count_newlines(s),
    decreases s.len() - i,
{
    if i < s.len() {
        lemma_newlines_prefix(s, i + 1);
        assert(s.take(i + 1).drop_last() =~= s.take(i));
    } else {
        assert(s.take(i) =~= s);
    }
}

/// Raising an exception prints its report and stops the program, never
/// returning; these functions build the report and hand it back, and the
/// driver prints it and panics at once.
///
/// The report for an error at character `idx` of `input`: the line and
/// column of that character and the source line it falls in. The printed
/// report pads with `column - 1` spaces, so the position is at least one.
pub fn exception(input: &String, idx: usize, errtype: &str, message: &str) -> (r: ExceptionReport)
    requires
        1 <= idx <= input@.len(),
    ensures
        r.errtype@ == errtype@,
        r.message@ == message@,
        r.position.line == count_newlines(input@.take(idx as int)),
        r.position.column == column_after(input@.take(idx as int)),
        r.source_line@ == split_lines_spec(input@)[r.position.line as int],
{
    let chars = chars_of(input.as_str());
    let position = position_of(&chars, idx);
    let allines = split_lines(&chars);
    proof {
        lemma_split_count(input@, input@.len() as int);
        lemma_newlines_prefix(input@, idx as int);
        assert(input@.take(input@.len() as int) =~= input@);
        assert(string_views(allines@).len() == allines@.len());
    }
    let source_line = allines[position.line].clone();
    ExceptionReport {
        errtype: String::from_str(errtype),
        message: String::from_str(message),
        source_line,
        position,
    }
}

/// The report of a runtime error: the message gets the prefix
/// `RUNTIME EXCEPTION: `.
pub fn rtexception(input: &String, idx: usize, errtype: &str, message: &str) -> (r:
    ExceptionReport)
    requires
        1 <= idx <= input@.len(),
    ensures
        r.errtype@ == errtype@,
        r.message@ == "RUNTIME EXCEPTION: "@ + message@,
        r.position.line == count_newlines(input@.take(idx as int)),
        r.position.column == column_after(input@.take(idx as int)),
        r.source_line@ == split_lines_spec(input@)[r.position.line as int],
{
    let mut full = String::from_str("RUNTIME EXCEPTION: ");
    full.append(message);
    exception(input, idx, errtype, full.as_str())
}

/// The number of dashes in the rules printed above and below a report: the
/// column, nine, and the length in bytes of the error's kind.
pub fn rule_width(column: usize, errtype: &str) -> (w: usize)
    requires
        column + 9 + byte_len(errtype@) <= usize::MAX,
    ensures
        w == column + 9 + byte_len(errtype@),
{
    column + 9 + str_len(errtype)
}

} // verus!
