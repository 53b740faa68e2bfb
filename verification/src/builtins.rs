//! The string methods that the block interpreter offers on string values,
//! on the strings themselves.
use crate::parser::tokens::names_view;
use crate::text::{chars_of, push_char, string_of, substring, substring_spec};
use vstd::prelude::*;

verus! {

/// `s.substr(start, end)`: the characters from position `start` up to
/// `end`, both clamped to the length; nothing when `end <= start`.
pub fn string_substr(s: &str, start: usize, end: usize) -> (r: String)
    ensures
        r@ == substring_spec(s@, start as int, end as int),
{
    substring(s, start, end)
}

/// `s.at(i)`: the character at position `i`, as a string. The method
/// indexes the characters, so `i` must be a position of `s`.
pub fn string_at(s: &str, i: usize) -> (r: String)
    requires
        i < s@.len(),
    ensures
        r@ == seq![s@[i as int]],
{
    let c = chars_of(s);
    let mut r = String::new();
    push_char(&mut r, c[i]);
    r
}

/// The pieces of `s` between occurrences of `sep`, as `str::split` with a
/// character yields them: an empty string splits into one empty piece.
pub open spec fn split_on(s: Seq<char>, sep: char) -> Seq<Seq<char>>
    decreases s.len(),
{
    if s.len() == 0 {
        seq![Seq::empty()]
    } else {
        let before = split_on(s.drop_last(), sep);
        if s.last() == sep {
            before.push(Seq::empty())
        } else {
            before.update(before.len() - 1, before.last().push(s.last()))
        }
    }
}

proof fn lemma_split_on_len(s: Seq<char>, sep: char)
    ensures
        split_on(s, sep).len() >= 1,
    decreases s.len(),
{
    if s.len() > 0 {
        lemma_split_on_len(s.drop_last(), sep);
    }
}

/// Law: splitting loses nothing: the pieces joined back with the separator
/// give the text again, and no piece holds the separator.
pub proof fn law_split_rejoins(s: Seq<char>, sep: char)
    ensures
        crate::script::join_with(split_on(s, sep), sep) == s,
        forall|k: int, j: int| 0 <= k < split_on(s, sep).len() && 0 <= j < split_on(s, sep)[k].len()
            ==> #[trigger] split_on(s, sep)[k][j] != sep,
    decreases s.len(),
{
    if s.len() > 0 {
        law_split_rejoins(s.drop_last(), sep);
        lemma_split_on_len(s.drop_last(), sep);
        let before = split_on(s.drop_last(), sep);
        assert(s.drop_last().push(s.last()) =~= s);
        if s.last() == sep {
            let r = before.push(Seq::empty());
            assert(r.drop_last() =~= before);
            assert(crate::script::join_with(before, sep).push(sep) + Seq::<char>::empty() =~= s);
            assert forall|k: int, j: int| 0 <= k < r.len() && 0 <= j < r[k].len() implies #[trigger] r[k][j] != sep by {
                assert(k < before.len());
                assert(r[k] == before[k]);
            }
        } else {
            let lastp = before.last().push(s.last());
            let r = before.update(before.len() - 1, lastp);
            if before.len() == 1 {
                assert(r =~= seq![lastp]);
                assert(lastp =~= s);
            } else {
                assert(r.drop_last() =~= before.drop_last());
                assert(r.last() == lastp);
                assert(crate::script::join_with(before.drop_last(), sep).push(sep) + lastp =~= (
                crate::script::join_with(before.drop_last(), sep).push(sep) + before.last()).push(s.last()));
            }
            assert forall|k: int, j: int| 0 <= k < r.len() && 0 <= j < r[k].len() implies #[trigger] r[k][j] != sep by {
                if k == before.len() - 1 {
                    if j < before.last().len() {
                        assert(r[k][j] == before[k][j]);
                    }
                } else {
                    assert(r[k] == before[k]);
                }
            }
        }
    }
}

/// `s.split(sep)`: the pieces of `s` between occurrences of the first
/// character of `sep`. The method takes that character by indexing, so
/// `sep` must not be empty.
pub fn string_split(s: &str, sep: &str) -> (r: Vec<String>)
    requires
        sep@.len() > 0,
    ensures
        names_view(r@) == split_on(s@, sep@[0]),
{
    let sc = chars_of(sep);
    let c = sc[0];
    let cs = chars_of(s);
    let mut done: Vec<String> = Vec::new();
    let mut buf: Vec<char> = Vec::new();
    let mut i: usize = 0;
    assert(cs@.take(0) =~= Seq::<char>::empty());
    assert(names_view(done@).push(buf@) =~= split_on(cs@.take(0), c));
    while i < cs.len()
        invariant
            i <= cs@.len(),
            cs@ == s@,
            names_view(done@).push(buf@) == split_on(cs@.take(i as int), c),
        decreases cs@.len() - i,
    {
        let ghost before = cs@.take(i as int);
        assert(cs@.take(i + 1).drop_last() =~= before);
        if cs[i] == c {
            let piece = string_of(&buf);
            proof {
                crate::parser::tokens::lemma_names_view_push(done@, piece);
            }
            done.push(piece);
            buf = Vec::new();
            assert(names_view(done@).push(buf@) =~= split_on(before, c).push(Seq::empty()));
        } else {
            proof {
                lemma_split_on_len(before, c);
            }
            let ghost old_buf = buf@;
            buf.push(cs[i]);
            assert(names_view(done@).push(buf@) =~= split_on(before, c).update(
                split_on(before, c).len() - 1,
                old_buf.push(cs@[i as int]),
            ));
        }
        i += 1;
    }
    assert(cs@.take(cs@.len() as int) =~= cs@);
    let last = string_of(&buf);
    proof {
        crate::parser::tokens::lemma_names_view_push(done@, last);
    }
    done.push(last);
    done
}

/// `s` with every non-overlapping occurrence of `from`, taken from the left,
/// replaced by `to`; an empty `from` matches before every character and at
/// the end.
pub open spec fn replace_spec(s: Seq<char>, from: Seq<char>, to: Seq<char>) -> Seq<char>
    decreases s.len(),
{
    if from.len() == 0 {
        if s.len() == 0 {
            to
        } else {
            to + seq![s[0]] + replace_spec(s.skip(1), from, to)
        }
    } else if s.len() < from.len() {
        s
    } else if s.take(from.len() as int) == from {
        to + replace_spec(s.skip(from.len() as int), from, to)
    } else {
        seq![s[0]] + replace_spec(s.skip(1), from, to)
    }
}

/// Law: replacing a text by itself changes nothing.
pub proof fn law_replace_by_itself(s: Seq<char>, from: Seq<char>)
    ensures
        replace_spec(s, from, from) == s,
    decreases s.len(),
{
    if from.len() == 0 {
        if s.len() > 0 {
            law_replace_by_itself(s.skip(1), from);
            assert(from + seq![s[0]] + s.skip(1) =~= s);
        }
    } else if s.len() < from.len() {
    } else if s.take(from.len() as int) == from {
        law_replace_by_itself(s.skip(from.len() as int), from);
        assert(from + s.skip(from.len() as int) =~= s);
    } else {
        law_replace_by_itself(s.skip(1), from);
        assert(seq![s[0]] + s.skip(1) =~= s);
    }
}

/// `str::replace` of std: replaces all matches of `from` with `to`.
#[verifier::external_body]
fn str_replace(s: &str, from: &str, to: &str) -> (r: String)
    ensures
        r@ == replace_spec(s@, from@, to@),
{
    s.replace(from, to)
}

/// `s.replace(from, to)`.
pub fn string_replace(s: &str, from: &str, to: &str) -> (r: String)
    ensures
        r@ == replace_spec(s@, from@, to@),
{
    str_replace(s, from, to)
}

/// What `str::to_lowercase` returns: the text under Unicode's lowercase
/// mapping, where one character may become several and a capital sigma's
/// form depends on the letters around it. It depends on the text alone.
pub uninterp spec fn lowercase(s: Seq<char>) -> Seq<char>;

/// `str::to_lowercase` of std. The contract only names the result.
#[verifier::external_body]
fn str_to_lowercase(s: &str) -> (r: String)
    ensures
        r@ == lowercase(s@),
{
    s.to_lowercase()
}

/// `s.tolower()`.
pub fn string_to_lower(s: &str) -> (r: String)
    ensures
        r@ == lowercase(s@),
{
    str_to_lowercase(s)
}

} // verus!
