//! What a leaf file holds after an entry is appended, after cleaning and after
//! the removal of repeated entries.

use vstd::prelude::*;
use vstd::relations::*;
use crate::distinct::{
    distinct_lines, drop_blank, drop_repeats, lemma_distinct_lines, nonblank_lines,
};
use crate::lines::{
    file_of, join_chars, lemma_split_file_of, lemma_split_file_of_nothing,
    lemma_split_single, newline, single_line, single_lines, split_into_lines, split_lines,
};
use crate::order::{line_order, lemma_line_order_total};
use crate::sorting::{
    lemma_sorted_lines, lemma_sorted_lines_unique, sort_lines, sorted_lines, views,
};
use crate::config::texts;
use crate::text::{chars_of, is_blank, string_of};

verus! {

/// The text ends with a newline.
pub open spec fn ends_with_newline(text: Seq<char>) -> bool {
    text.len() > 0 && text.last() == newline()
}

/// What is written behind `content` to append `entry`: a newline first if the
/// content does not end with one, then the entry and a newline.
pub open spec fn append_tail(content: Seq<char>, entry: Seq<char>) -> Seq<char> {
    if ends_with_newline(content) {
        entry.push(newline())
    } else {
        seq![newline()] + entry.push(newline())
    }
}

/// The content after `entry` was appended to it.
pub open spec fn appended(content: Seq<char>, entry: Seq<char>) -> Seq<char> {
    content + append_tail(content, entry)
}

/// The content after cleaning: its lines that are not blank, sorted, each with
/// a newline behind it; a single newline if there is no such line.
pub open spec fn cleaned(text: Seq<char>) -> Seq<char> {
    file_of(sorted_lines(nonblank_lines(split_lines(text))))
}

/// The content after the removal of repeated lines: its lines sorted, each
/// once.
pub open spec fn deduped(text: Seq<char>) -> Seq<char> {
    file_of(distinct_lines(split_lines(text)))
}

/// The size of a text in a file: the number of bytes of its UTF-8 encoding.
pub open spec fn byte_len(text: Seq<char>) -> nat {
    vstd::utf8::encode_utf8(text).len()
}

/// Whether the text ends with a newline.
pub fn has_final_newline(text: &Vec<char>) -> (r: bool)
    ensures
        r == ends_with_newline(text@),
{
    text.len() > 0 && text[text.len() - 1] == '\n'
}

/// The text to write behind `content`, which is left as it is, so that `entry`
/// becomes its last line.
pub fn text_to_append(content: &str, entry: &str) -> (out: String)
    ensures
        out@ == append_tail(content@, entry@),
{
    let old_chars = chars_of(content);
    let entry_chars = chars_of(entry);
    let mut tail: Vec<char> = Vec::new();
    if !has_final_newline(&old_chars) {
        tail.push('\n');
    }
    let ghost start = tail@;
    let mut i: usize = 0;
    while i < entry_chars.len()
        invariant
            i <= entry_chars.len(),
            tail@ == start + entry_chars@.take(i as int),
        decreases entry_chars.len() - i,
    {
        tail.push(entry_chars[i]);
        proof {
            assert(entry_chars@.take(i + 1) =~= entry_chars@.take(i as int).push(
                entry_chars@[i as int],
            ));
        }
        i += 1;
    }
    tail.push('\n');
    proof {
        assert(entry_chars@.take(entry_chars.len() as int) =~= entry_chars@);
        assert(tail@ =~= append_tail(content@, entry@));
    }
    string_of(&tail)
}

/// The content of the file after `entry` was appended to `content`.
pub fn append_entry(content: &str, entry: &str) -> (out: String)
    ensures
        out@ == appended(content@, entry@),
        out@.len() >= content@.len(),
        out@.take(content@.len() as int) == content@,
{
    let mut all = chars_of(content);
    let tail = text_to_append(content, entry);
    let mut tail_chars = chars_of(tail.as_str());
    all.append(&mut tail_chars);
    proof {
        assert(all@.take(content@.len() as int) =~= content@);
    }
    string_of(&all)
}

/// Writes out the file that holds `lines`.
fn file_text(lines: &Vec<Vec<char>>) -> (out: String)
    ensures
        out@ == file_of(views(lines@)),
{
    let mut joined = join_chars(lines, '\n');
    joined.push('\n');
    string_of(&joined)
}

/// The content of the file after cleaning: blank lines are dropped and the
/// others sorted.
pub fn clean_text(text: &str) -> (out: String)
    ensures
        out@ == cleaned(text@),
{
    let chars = chars_of(text);
    let lines = split_into_lines(&chars);
    let kept = drop_blank(lines);
    let sorted = sort_lines(kept);
    file_text(&sorted)
}

/// The content of the file after the removal of repeated lines, if that makes
/// the file smaller; `None`, and nothing is to be written, if it does not.
pub fn dedupe_text(text: &str) -> (out: Option<String>)
    ensures
        out is Some <==> byte_len(deduped(text@)) < byte_len(text@),
        out is Some ==> out->0@ == deduped(text@),
        out is Some ==> byte_len(out->0@) < byte_len(text@),
{
    let chars = chars_of(text);
    let lines = split_into_lines(&chars);
    let sorted = sort_lines(lines);
    let unique = drop_repeats(sorted);
    let fresh = file_text(&unique);
    if fresh.as_str().as_bytes().len() < text.as_bytes().len() {
        Some(fresh)
    } else {
        None
    }
}

/// The number of lines of `text`.
pub fn count_lines(text: &str) -> (n: usize)
    ensures
        n == split_lines(text@).len(),
{
    let chars = chars_of(text);
    let lines = split_into_lines(&chars);
    lines.len()
}

/// The number of lines of all the texts together.
pub open spec fn total_lines(contents: Seq<Seq<char>>) -> nat
    decreases contents.len(),
{
    if contents.len() == 0 {
        0
    } else {
        total_lines(contents.drop_last()) + split_lines(contents.last()).len()
    }
}

/// The first texts hold no more lines than all of them.
pub proof fn lemma_total_lines_grows(contents: Seq<Seq<char>>, n: int)
    requires
        0 <= n <= contents.len(),
    ensures
        total_lines(contents.take(n)) <= total_lines(contents),
    decreases contents.len(),
{
    if n == contents.len() {
        assert(contents.take(n) =~= contents);
    } else {
        lemma_total_lines_grows(contents.drop_last(), n);
        assert(contents.drop_last().take(n) =~= contents.take(n));
    }
}

/// The number of entries in the files with these contents: the lines of all
/// of them, counted together. `None` if the number is too large for the
/// machine.
pub fn get_word_count(contents: &Vec<String>) -> (count: Option<usize>)
    ensures
        count is Some <==> total_lines(texts(contents@)) <= usize::MAX,
        count is Some ==> count->0 == total_lines(texts(contents@)),
{
    let ghost all = texts(contents@);
    let mut sum: usize = 0;
    let mut i: usize = 0;
    proof {
        assert(all.take(0) =~= Seq::<Seq<char>>::empty());
    }
    while i < contents.len()
        invariant
            i <= contents.len(),
            all == texts(contents@),
            sum == total_lines(all.take(i as int)),
        decreases contents.len() - i,
    {
        let n = count_lines(contents[i].as_str());
        proof {
            assert(all.take(i + 1).drop_last() =~= all.take(i as int));
            assert(all.take(i + 1).last() == contents@[i as int]@);
            lemma_total_lines_grows(all, i + 1);
        }
        match sum.checked_add(n) {
            Some(s) => {
                sum = s;
            },
            None => {
                return None;
            },
        }
        i += 1;
    }
    proof {
        assert(all.take(contents.len() as int) =~= all);
    }
    Some(sum)
}

/// The lines that cleaning keeps are lines of the text, none of them blank,
/// none with a newline in it, in ascending order, each as often as the text
/// has it.
pub proof fn lemma_clean_keeps(text: Seq<char>)
    ensures
        ({
            let kept = sorted_lines(nonblank_lines(split_lines(text)));
            &&& sorted_by(kept, line_order())
            &&& kept.to_multiset() == nonblank_lines(split_lines(text)).to_multiset()
            &&& single_lines(kept)
            &&& forall|i: int| 0 <= i < kept.len() ==> !is_blank(#[trigger] kept[i])
            &&& forall|i: int|
                0 <= i < kept.len() ==> split_lines(text).contains(#[trigger] kept[i])
            &&& forall|i: int|
                0 <= i < split_lines(text).len() && !is_blank(split_lines(text)[i])
                    ==> kept.contains(#[trigger] split_lines(text)[i])
        }),
{
    let lines = split_lines(text);
    let keep = |l: Seq<char>| !is_blank(l);
    let some = nonblank_lines(lines);
    let kept = sorted_lines(some);
    lemma_split_single(text);
    lemma_sorted_lines(some);
    lemma_line_order_total();
    some.lemma_sort_by_ensures(line_order());
    #[allow(deprecated)]
    lines.filter_lemma(keep);
    kept.to_multiset_ensures();
    some.to_multiset_ensures();
    assert forall|i: int| 0 <= i < kept.len() implies !is_blank(#[trigger] kept[i])
        && single_line(kept[i]) && lines.contains(kept[i]) by {
        assert(kept.contains(kept[i]));
        assert(some.contains(kept[i]));
        let k = choose|k: int| 0 <= k < some.len() && some[k] == kept[i];
        assert(keep(some[k]));
        lemma_filter_from(lines, keep, k);
        let m = choose|m: int| 0 <= m < lines.len() && lines[m] == some[k];
        assert(single_line(lines[m]));
    }
    assert forall|i: int| 0 <= i < lines.len() && !is_blank(lines[i]) implies kept.contains(
        #[trigger] lines[i],
    ) by {
        assert(keep(lines[i]));
        lines.lemma_filter_contains(keep, i);
        assert(some.contains(lines[i]));
        assert(some.to_multiset().count(lines[i]) > 0);
        assert(kept.to_multiset().count(lines[i]) > 0);
    }
}

/// Every line that a filter lets through is a line of what went in.
pub proof fn lemma_filter_from(
    lines: Seq<Seq<char>>,
    keep: spec_fn(Seq<char>) -> bool,
    k: int,
)
    requires
        0 <= k < lines.filter(keep).len(),
    ensures
        lines.contains(lines.filter(keep)[k]),
    decreases lines.len(),
{
    reveal(Seq::filter);
    if lines.len() > 0 {
        let front = lines.drop_last().filter(keep);
        if k < front.len() {
            lemma_filter_from(lines.drop_last(), keep, k);
            let m = choose|m: int|
                0 <= m < lines.drop_last().len() && lines.drop_last()[m] == front[k];
            assert(lines[m] == front[k]);
        } else {
            assert(lines[lines.len() - 1] == lines.filter(keep)[k]);
        }
    }
}

/// A filter lets through all of what passes it.
pub proof fn lemma_filter_all(lines: Seq<Seq<char>>, keep: spec_fn(Seq<char>) -> bool)
    requires
        forall|i: int| 0 <= i < lines.len() ==> keep(#[trigger] lines[i]),
    ensures
        lines.filter(keep) == lines,
    decreases lines.len(),
{
    reveal(Seq::filter);
    if lines.len() > 0 {
        lemma_filter_all(lines.drop_last(), keep);
        assert(lines.drop_last().push(lines.last()) =~= lines);
    }
}

/// If the text has a line that is not blank, the cleaned file holds exactly
/// the kept lines, so no blank line is left in it.
pub proof fn lemma_clean_leaves_no_blank(text: Seq<char>)
    requires
        exists|i: int| 0 <= i < split_lines(text).len() && !is_blank(split_lines(text)[i]),
    ensures
        split_lines(cleaned(text)) == sorted_lines(nonblank_lines(split_lines(text))),
        forall|i: int|
            0 <= i < split_lines(cleaned(text)).len() ==> !is_blank(
                #[trigger] split_lines(cleaned(text))[i],
            ),
{
    lemma_clean_keeps(text);
    let kept = sorted_lines(nonblank_lines(split_lines(text)));
    let i = choose|i: int| 0 <= i < split_lines(text).len() && !is_blank(split_lines(text)[i]);
    assert(kept.contains(split_lines(text)[i]));
    lemma_split_file_of(kept);
}

/// Cleaning a cleaned file changes nothing.
pub proof fn lemma_clean_idempotent(text: Seq<char>)
    ensures
        cleaned(cleaned(text)) == cleaned(text),
{
    let keep = |l: Seq<char>| !is_blank(l);
    let kept = sorted_lines(nonblank_lines(split_lines(text)));
    lemma_clean_keeps(text);
    if kept.len() > 0 {
        lemma_split_file_of(kept);
        assert(split_lines(cleaned(text)) == kept);
        assert forall|i: int| 0 <= i < kept.len() implies keep(#[trigger] kept[i]) by {}
        lemma_filter_all(kept, keep);
        assert(nonblank_lines(kept) == kept);
        lemma_sorted_lines_unique(kept, kept);
    } else {
        lemma_split_file_of_nothing();
        assert(kept =~= Seq::<Seq<char>>::empty());
        let one = seq![Seq::<char>::empty()];
        assert(split_lines(cleaned(text)) == one);
        assert(is_blank(Seq::<char>::empty()));
        assert(nonblank_lines(one) =~= Seq::<Seq<char>>::empty()) by {
            reveal_with_fuel(Seq::filter, 2);
            assert(one.drop_last() =~= Seq::<Seq<char>>::empty());
        }
        lemma_sorted_lines(Seq::<Seq<char>>::empty());
        assert(sorted_lines(Seq::<Seq<char>>::empty()) =~= Seq::<Seq<char>>::empty());
    }
}

/// The lines that the removal of repeats leaves are the lines of the text,
/// each once and in ascending order: of `N` lines among which `K` repeat an
/// earlier one, `K` are removed. Unless the text is empty, the file written
/// holds exactly these lines.
pub proof fn lemma_dedupe_lines(text: Seq<char>)
    ensures
        ({
            let lines = split_lines(text);
            let left = distinct_lines(lines);
            &&& left.no_duplicates()
            &&& left.to_set() == lines.to_set()
            &&& left.len() == lines.to_set().len()
            &&& left.len() <= lines.len()
            &&& lines.len() > 0 ==> split_lines(deduped(text)) == left
        }),
{
    let lines = split_lines(text);
    let left = distinct_lines(lines);
    lemma_distinct_lines(lines);
    lemma_split_single(text);
    if lines.len() > 0 {
        assert(lines.to_set().contains(lines[0]));
        assert(left.to_set().contains(lines[0]));
        assert forall|i: int| 0 <= i < left.len() implies single_line(#[trigger] left[i]) by {
            assert(left.to_set().contains(left[i]));
            assert(lines.to_set().contains(left[i]));
            let m = choose|m: int| 0 <= m < lines.len() && lines[m] == left[i];
            assert(single_line(lines[m]));
        }
        lemma_split_file_of(left);
    }
}


/// Every appended entry leaves a newline at the end of the file.
pub proof fn lemma_append_ends_with_newline(content: Seq<char>, entry: Seq<char>)
    ensures
        ends_with_newline(appended(content, entry)),
{
}

/// After an entry that is not empty and does not itself end with a newline, the
/// file ends with exactly one newline, whether or not it ended with one before.
pub proof fn lemma_append_one_final_newline(content: Seq<char>, entry: Seq<char>)
    requires
        entry.len() > 0,
        entry.last() != newline(),
    ensures
        ({
            let after = appended(content, entry);
            &&& after.len() >= 2
            &&& after[after.len() - 1] == newline()
            &&& after[after.len() - 2] != newline()
        }),
{
}

/// Appending twice appends two entries: the second goes right behind the
/// first, with nothing between them and a newline behind each.
pub proof fn lemma_append_twice(content: Seq<char>, first: Seq<char>, second: Seq<char>)
    ensures
        appended(appended(content, first), second) == appended(content, first) + second.push(
            newline(),
        ),
        appended(appended(content, first), second) == content + append_tail(content, first)
            + second.push(newline()),
{
}

} // verus!
