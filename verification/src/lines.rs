//! Cutting a text into lines and putting lines together again.

use vstd::prelude::*;
use crate::sorting::{lemma_views_push, views};

verus! {

/// The line feed that ends a line.
pub open spec fn newline() -> char {
    '\n'
}

/// What lies between the newlines of `text`: one piece more than it has
/// newlines, the last of them being what follows the last newline.
pub open spec fn pieces(text: Seq<char>) -> Seq<Seq<char>>
    decreases text.len(),
{
    if text.len() == 0 {
        seq![Seq::<char>::empty()]
    } else {
        let before = pieces(text.drop_last());
        if text.last() == newline() {
            before.push(Seq::<char>::empty())
        } else {
            before.update(before.len() - 1, before.last().push(text.last()))
        }
    }
}

/// The lines of `text`. A newline ends a line; what follows the last newline is
/// a line of its own unless nothing follows it.
pub open spec fn split_lines(text: Seq<char>) -> Seq<Seq<char>> {
    let p = pieces(text);
    if p.last().len() == 0 {
        p.drop_last()
    } else {
        p
    }
}

/// The parts in order, with `separator` between each two of them.
pub open spec fn join_with(parts: Seq<Seq<char>>, separator: char) -> Seq<char>
    decreases parts.len(),
{
    if parts.len() == 0 {
        Seq::<char>::empty()
    } else if parts.len() == 1 {
        parts[0]
    } else {
        join_with(parts.drop_last(), separator) + seq![separator] + parts.last()
    }
}

/// The lines with one newline between each two of them.
pub open spec fn join_lines(lines: Seq<Seq<char>>) -> Seq<char> {
    join_with(lines, newline())
}

/// The content of a file that holds `lines`: the lines joined, and one newline
/// at the end.
pub open spec fn file_of(lines: Seq<Seq<char>>) -> Seq<char> {
    join_lines(lines).push(newline())
}

/// The line holds no newline.
pub open spec fn single_line(line: Seq<char>) -> bool {
    forall|i: int| 0 <= i < line.len() ==> #[trigger] line[i] != newline()
}

/// Every line holds no newline.
pub open spec fn single_lines(lines: Seq<Seq<char>>) -> bool {
    forall|i: int| 0 <= i < lines.len() ==> single_line(#[trigger] lines[i])
}

/// A text has at least one piece.
pub proof fn lemma_pieces_nonempty(text: Seq<char>)
    ensures
        pieces(text).len() >= 1,
    decreases text.len(),
{
    if text.len() > 0 {
        lemma_pieces_nonempty(text.drop_last());
    }
}

/// No piece of a text holds a newline.
pub proof fn lemma_pieces_single(text: Seq<char>)
    ensures
        single_lines(pieces(text)),
    decreases text.len(),
{
    if text.len() > 0 {
        lemma_pieces_nonempty(text.drop_last());
        lemma_pieces_single(text.drop_last());
        let before = pieces(text.drop_last());
        let now = pieces(text);
        assert forall|i: int| 0 <= i < now.len() implies single_line(#[trigger] now[i]) by {
            if i < before.len() - 1 {
                assert(single_line(before[i]));
            } else if text.last() != newline() {
                assert(single_line(before[before.len() - 1]));
            }
        }
    }
}

/// No line of a text holds a newline.
pub proof fn lemma_split_single(text: Seq<char>)
    ensures
        single_lines(split_lines(text)),
{
    lemma_pieces_nonempty(text);
    lemma_pieces_single(text);
    let p = pieces(text);
    let l = split_lines(text);
    assert forall|i: int| 0 <= i < l.len() implies single_line(#[trigger] l[i]) by {
        assert(single_line(p[i]));
    }
}

/// Text without a newline, put behind a text, lengthens its last piece.
pub proof fn lemma_pieces_extend(text: Seq<char>, more: Seq<char>)
    requires
        single_line(more),
    ensures
        pieces(text).len() >= 1,
        pieces(text + more) == pieces(text).update(
            pieces(text).len() - 1,
            pieces(text).last() + more,
        ),
    decreases more.len(),
{
    lemma_pieces_nonempty(text);
    let p = pieces(text);
    if more.len() == 0 {
        assert(text + more =~= text);
        assert(p.last() + more =~= p.last());
        assert(p.update(p.len() - 1, p.last()) =~= p);
    } else {
        let shorter = more.drop_last();
        assert(single_line(shorter)) by {
            assert forall|i: int| 0 <= i < shorter.len() implies #[trigger] shorter[i]
                != newline() by {
                assert(shorter[i] == more[i]);
            }
        }
        lemma_pieces_extend(text, shorter);
        assert((text + more).drop_last() =~= text + shorter);
        assert((text + more).last() == more.last());
        assert(more[more.len() - 1] != newline());
        let q = pieces(text + shorter);
        assert(q.last() == p.last() + shorter);
        assert((p.last() + shorter).push(more.last()) =~= p.last() + more);
        assert(q.update(q.len() - 1, q.last().push(more.last())) =~= p.update(
            p.len() - 1,
            p.last() + more,
        ));
    }
}

/// A newline put behind a text opens a new, empty piece.
pub proof fn lemma_pieces_newline(text: Seq<char>)
    ensures
        pieces(text.push(newline())) == pieces(text).push(Seq::<char>::empty()),
{
    assert(text.push(newline()).drop_last() =~= text);
}

/// The pieces of joined lines are the lines.
pub proof fn lemma_pieces_join(lines: Seq<Seq<char>>)
    requires
        lines.len() >= 1,
        single_lines(lines),
    ensures
        pieces(join_lines(lines)) == lines,
    decreases lines.len(),
{
    let empty = Seq::<char>::empty();
    if lines.len() == 1 {
        assert(single_line(lines[0]));
        lemma_pieces_extend(empty, lines[0]);
        assert(empty + lines[0] =~= lines[0]);
        assert(pieces(empty) =~= seq![empty]);
        assert(seq![empty].update(0, empty + lines[0]) =~= lines);
    } else {
        let front = lines.drop_last();
        assert(single_lines(front)) by {
            assert forall|i: int| 0 <= i < front.len() implies single_line(#[trigger] front[i]) by {
                assert(front[i] == lines[i]);
            }
        }
        lemma_pieces_join(front);
        let head = join_lines(front);
        lemma_pieces_newline(head);
        assert(head.push(newline()) =~= head + seq![newline()]);
        assert(single_line(lines[lines.len() - 1]));
        lemma_pieces_extend(head + seq![newline()], lines.last());
        assert(empty + lines.last() =~= lines.last());
        assert(front.push(empty).update(front.len() as int, lines.last()) =~= lines);
    }
}

/// A file written from lines without newlines holds exactly those lines, if
/// there is at least one.
pub proof fn lemma_split_file_of(lines: Seq<Seq<char>>)
    requires
        lines.len() >= 1,
        single_lines(lines),
    ensures
        split_lines(file_of(lines)) == lines,
{
    lemma_pieces_join(lines);
    lemma_pieces_newline(join_lines(lines));
    assert(lines.push(Seq::<char>::empty()).drop_last() =~= lines);
}

/// A file written from no lines holds one empty line.
pub proof fn lemma_split_file_of_nothing()
    ensures
        split_lines(file_of(Seq::<Seq<char>>::empty())) == seq![Seq::<char>::empty()],
{
    let empty = Seq::<char>::empty();
    let text = file_of(Seq::<Seq<char>>::empty());
    assert(text =~= seq![newline()]);
    assert(text.drop_last() =~= empty);
    assert(pieces(empty) =~= seq![empty]);
    assert(pieces(text) =~= seq![empty, empty]);
    assert(seq![empty, empty].drop_last() =~= seq![empty]);
}

/// Joined again, the pieces of a text are the text.
pub proof fn lemma_join_pieces(text: Seq<char>)
    ensures
        join_lines(pieces(text)) == text,
    decreases text.len(),
{
    if text.len() == 0 {
        assert(pieces(text)[0] =~= text);
    } else {
        let before = text.drop_last();
        let p = pieces(before);
        lemma_pieces_nonempty(before);
        lemma_join_pieces(before);
        assert(text =~= before.push(text.last()));
        if text.last() == newline() {
            let q = p.push(Seq::<char>::empty());
            assert(q.drop_last() =~= p);
            assert(join_lines(q) =~= before.push(newline()));
        } else {
            let q = p.update(p.len() - 1, p.last().push(text.last()));
            if p.len() == 1 {
                assert(join_lines(q) =~= before.push(text.last()));
            } else {
                assert(q.drop_last() =~= p.drop_last());
                assert(join_lines(q) =~= join_lines(p.drop_last()) + seq![newline()] + p.last().push(
                    text.last(),
                ));
                assert(join_lines(p) == join_lines(p.drop_last()) + seq![newline()] + p.last());
                assert(join_lines(q) =~= before.push(text.last()));
            }
        }
    }
}

/// A text that ends with a newline is the file of its lines; any other text
/// is its lines joined.
pub proof fn lemma_file_of_split(text: Seq<char>)
    ensures
        text.len() > 0 && text.last() == newline() ==> file_of(split_lines(text)) == text,
        text.len() > 0 && text.last() != newline() ==> join_lines(split_lines(text)) == text,
        text.len() == 0 ==> split_lines(text).len() == 0,
{
    lemma_pieces_nonempty(text);
    lemma_join_pieces(text);
    let p = pieces(text);
    if text.len() > 0 {
        let before = text.drop_last();
        lemma_pieces_nonempty(before);
        lemma_join_pieces(before);
        if text.last() == newline() {
            assert(p.drop_last() =~= pieces(before));
            assert(text =~= before.push(newline()));
        } else {
            assert(p.last().len() > 0);
        }
    } else {
        assert(p.drop_last() =~= Seq::<Seq<char>>::empty());
    }
}

/// Cuts `text` into its lines.
pub fn split_into_lines(text: &Vec<char>) -> (out: Vec<Vec<char>>)
    ensures
        views(out@) == split_lines(text@),
{
    let mut done: Vec<Vec<char>> = Vec::new();
    let mut cur: Vec<char> = Vec::new();
    let mut i: usize = 0;
    proof {
        assert(text@.take(0) =~= Seq::<char>::empty());
        assert(views(done@).push(cur@) =~= seq![Seq::<char>::empty()]);
    }
    while i < text.len()
        invariant
            i <= text.len(),
            pieces(text@.take(i as int)) == views(done@).push(cur@),
        decreases text.len() - i,
    {
        let c: char = text[i];
        proof {
            assert(text@.take(i + 1).drop_last() =~= text@.take(i as int));
            assert(text@.take(i + 1).last() == c);
        }
        if c == '\n' {
            proof {
                lemma_views_push(done@, cur);
            }
            done.push(cur);
            cur = Vec::new();
        } else {
            let ghost before = views(done@).push(cur@);
            cur.push(c);
            proof {
                assert(before.update(before.len() - 1, before.last().push(c)) =~= views(
                    done@,
                ).push(cur@));
            }
        }
        i += 1;
    }
    proof {
        assert(text@.take(text.len() as int) =~= text@);
        assert(views(done@).push(cur@).drop_last() =~= views(done@));
    }
    if cur.len() > 0 {
        proof {
            lemma_views_push(done@, cur);
        }
        done.push(cur);
    }
    done
}

/// Joins `lines` with `separator` between each two of them.
pub fn join_chars(lines: &Vec<Vec<char>>, separator: char) -> (out: Vec<char>)
    ensures
        out@ == join_with(views(lines@), separator),
{
    let mut out: Vec<char> = Vec::new();
    let mut i: usize = 0;
    proof {
        assert(views(lines@).take(0) =~= Seq::<Seq<char>>::empty());
    }
    while i < lines.len()
        invariant
            i <= lines.len(),
            out@ == join_with(views(lines@).take(i as int), separator),
        decreases lines.len() - i,
    {
        let ghost head = out@;
        if i > 0 {
            out.push(separator);
        }
        let line = &lines[i];
        let mut j: usize = 0;
        let ghost start = out@;
        while j < line.len()
            invariant
                j <= line.len(),
                out@ == start + line@.take(j as int),
            decreases line.len() - j,
        {
            out.push(line[j]);
            proof {
                assert(line@.take(j + 1) =~= line@.take(j as int).push(line@[j as int]));
            }
            j += 1;
        }
        proof {
            let all = views(lines@);
            assert(line@.take(line.len() as int) =~= line@);
            assert(all.take(i + 1).drop_last() =~= all.take(i as int));
            assert(all.take(i + 1).last() == line@);
            if i > 0 {
                assert(start =~= head + seq![separator]);
            } else {
                assert(start + line@ =~= line@);
                assert(all.take(1)[0] == line@);
            }
        }
        i += 1;
    }
    proof {
        assert(views(lines@).take(lines.len() as int) =~= views(lines@));
    }
    out
}

} // verus!
