//! Questions and answers: how a level is named in a question, how the line
//! that comes back is trimmed, and which answers are taken.

use vstd::prelude::*;
use crate::config::texts;
use crate::text::{chars_of, same_chars, string_of};

verus! {

/// What `char::to_uppercase` yields for a character: one character or more,
/// by the mappings of the Unicode standard.
pub uninterp spec fn uppercase_of(c: char) -> Seq<char>;

/// `char::to_uppercase` gives the upper-case mapping of a character, and the
/// same for the same character wherever it is called; the characters it
/// yields are collected in order.
#[verifier::external_body]
fn to_uppercase(c: char) -> (out: Vec<char>)
    ensures
        out@ == uppercase_of(c),
{
    c.to_uppercase().collect()
}

/// The text behind the first character of `s`; nothing if `s` is empty.
pub open spec fn rest_of(s: Seq<char>) -> Seq<char> {
    if s.len() == 0 {
        s
    } else {
        s.skip(1)
    }
}

/// The text with its first character in upper case.
pub open spec fn capitalized(s: Seq<char>) -> Seq<char> {
    if s.len() == 0 {
        s
    } else {
        uppercase_of(s[0]) + rest_of(s)
    }
}

/// The text `s` with `initial` in place of its first character; `initial`
/// alone if `s` is empty.
pub fn with_initial(initial: &Vec<char>, s: &str) -> (out: String)
    ensures
        out@ == initial@ + rest_of(s@),
{
    let chars = chars_of(s);
    let mut out: Vec<char> = Vec::new();
    let mut i: usize = 0;
    while i < initial.len()
        invariant
            i <= initial.len(),
            out@ == initial@.take(i as int),
        decreases initial.len() - i,
    {
        out.push(initial[i]);
        proof {
            assert(initial@.take(i + 1) =~= initial@.take(i as int).push(initial@[i as int]));
        }
        i += 1;
    }
    proof {
        assert(initial@.take(initial.len() as int) =~= initial@);
    }
    let mut j: usize = 1;
    proof {
        if chars@.len() >= 1 {
            assert(chars@.subrange(1, 1) =~= Seq::<char>::empty());
        }
        assert(out@ + Seq::<char>::empty() =~= out@);
    }
    while j < chars.len()
        invariant
            1 <= j,
            j <= chars.len() || chars.len() == 0,
            chars.len() > 0 ==> out@ == initial@ + chars@.subrange(1, j as int),
            chars.len() == 0 ==> out@ == initial@,
        decreases chars.len() - j,
    {
        out.push(chars[j]);
        proof {
            assert(chars@.subrange(1, j + 1) =~= chars@.subrange(1, j as int).push(
                chars@[j as int],
            ));
        }
        j += 1;
    }
    proof {
        if chars.len() > 0 {
            assert(chars@.subrange(1, chars.len() as int) =~= chars@.skip(1));
        } else {
            assert(initial@ + Seq::<char>::empty() =~= initial@);
        }
    }
    string_of(&out)
}

/// The text with its first character in upper case, as a level is named in a
/// question.
pub fn capitalize(s: &String) -> (out: String)
    ensures
        out@ == capitalized(s@),
{
    let chars = chars_of(s.as_str());
    if chars.len() == 0 {
        return String::new();
    }
    let initial = to_uppercase(chars[0]);
    with_initial(&initial, s.as_str())
}

/// The line without the newline at its end, and without the carriage return
/// before that newline; the line itself if it does not end with a newline.
pub open spec fn trimmed(line: Seq<char>) -> Seq<char> {
    if line.len() > 0 && line.last() == '\n' {
        let rest = line.drop_last();
        if rest.len() > 0 && rest.last() == '\r' {
            rest.drop_last()
        } else {
            rest
        }
    } else {
        line
    }
}

/// The characters of a line without its line ending.
pub fn trimmed_chars(line: &str) -> (out: Vec<char>)
    ensures
        out@ == trimmed(line@),
{
    let mut chars = chars_of(line);
    if chars.len() > 0 && chars[chars.len() - 1] == '\n' {
        chars.pop();
        if chars.len() > 0 && chars[chars.len() - 1] == '\r' {
            chars.pop();
        }
    }
    chars
}

/// Takes the line ending off a line that was read.
pub fn trim_newline(s: &mut String)
    ensures
        final(s)@ == trimmed(old(s)@),
{
    let chars = trimmed_chars(s.as_str());
    *s = string_of(&chars);
}

/// Whether `answer` is taken for a level with the values `valid`: any answer
/// where no valid value is asked for, else only one of the values.
pub open spec fn acceptable(valid: Seq<Seq<char>>, answer: Seq<char>, require_valid: bool) -> bool {
    !require_valid || valid.contains(answer)
}

/// Whether `value` is one of `values`.
pub fn has_value(values: &Vec<String>, value: &Vec<char>) -> (r: bool)
    ensures
        r == texts(values@).contains(value@),
{
    let mut i: usize = 0;
    while i < values.len()
        invariant
            i <= values.len(),
            forall|k: int| 0 <= k < i ==> texts(values@)[k] != value@,
        decreases values.len() - i,
    {
        let candidate = chars_of(values[i].as_str());
        if same_chars(&candidate, value) {
            proof {
                assert(texts(values@)[i as int] == value@);
            }
            return true;
        }
        i += 1;
    }
    false
}

/// Judges the line that came back for a question. The line ending is taken
/// off; what is left is the answer if it is acceptable. `None` says that the
/// question is to be asked again: an answer that is not among the valid values
/// is never taken where a valid value is required.
pub fn ask_for(valid_values: &Vec<String>, require_valid_values: bool, line: &str) -> (out: Option<
    String,
>)
    ensures
        out is Some <==> acceptable(
            texts(valid_values@),
            trimmed(line@),
            require_valid_values,
        ),
        out is Some ==> out->0@ == trimmed(line@),
{
    let answer = trimmed_chars(line);
    if !require_valid_values || has_value(valid_values, &answer) {
        Some(string_of(&answer))
    } else {
        None
    }
}

} // verus!
