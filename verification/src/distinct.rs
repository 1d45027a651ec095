//! Dropping repeated lines and blank lines.

use vstd::prelude::*;
use vstd::relations::*;
use crate::order::{lemma_line_le_antisymmetric, lemma_line_le_transitive, line_le, line_order};
use crate::sorting::{lemma_sorted_lines, lemma_views_push, sorted_lines, views};
use crate::text::{blank_line, is_blank, same_chars};

verus! {

/// `s` without each line that equals the line before it.
pub open spec fn dedup_adjacent(s: Seq<Seq<char>>) -> Seq<Seq<char>>
    decreases s.len(),
{
    if s.len() == 0 {
        s
    } else {
        let front = dedup_adjacent(s.drop_last());
        if front.len() > 0 && front.last() == s.last() {
            front
        } else {
            front.push(s.last())
        }
    }
}

/// The lines in ascending order, each of them once.
pub open spec fn distinct_lines(lines: Seq<Seq<char>>) -> Seq<Seq<char>> {
    dedup_adjacent(sorted_lines(lines))
}

/// The lines that are not blank, in their order.
pub open spec fn nonblank_lines(lines: Seq<Seq<char>>) -> Seq<Seq<char>> {
    lines.filter(|l: Seq<char>| !is_blank(l))
}

/// Each line comes before those after it and differs from them.
pub open spec fn strictly_ascending(s: Seq<Seq<char>>) -> bool {
    forall|i: int, j: int|
        0 <= i < j < s.len() ==> line_le(#[trigger] s[i], #[trigger] s[j]) && s[i] != s[j]
}

/// Dropping repeats from sorted lines leaves the same lines, strictly
/// ascending, and ends with the line that the input ends with.
pub proof fn lemma_dedup_sorted(s: Seq<Seq<char>>)
    requires
        sorted_by(s, line_order()),
    ensures
        strictly_ascending(dedup_adjacent(s)),
        dedup_adjacent(s).to_set() == s.to_set(),
        dedup_adjacent(s).len() <= s.len(),
        s.len() > 0 ==> dedup_adjacent(s).len() > 0 && dedup_adjacent(s).last() == s.last(),
    decreases s.len(),
{
    let d = dedup_adjacent(s);
    if s.len() == 0 {
    } else {
        let front = s.drop_last();
        assert(sorted_by(front, line_order())) by {
            assert forall|i: int, j: int| 0 <= i < j < front.len() implies #[trigger]
                line_order()(front[i], front[j]) by {
                assert(line_order()(s[i], s[j]));
            }
        }
        lemma_dedup_sorted(front);
        let df = dedup_adjacent(front);
        assert(s =~= front.push(s.last()));
        assert forall|x: Seq<char>| d.to_set().contains(x) <==> s.to_set().contains(x) by {
            if d.to_set().contains(x) {
                let k = choose|k: int| 0 <= k < d.len() && d[k] == x;
                if k < df.len() {
                    assert(df.to_set().contains(df[k]));
                    assert(front.to_set().contains(x));
                    let m = choose|m: int| 0 <= m < front.len() && front[m] == x;
                    assert(s[m] == x);
                } else {
                    assert(s[s.len() - 1] == x);
                }
            }
            if s.to_set().contains(x) {
                let m = choose|m: int| 0 <= m < s.len() && s[m] == x;
                if m < front.len() {
                    assert(front[m] == x);
                    assert(front.to_set().contains(x));
                    assert(df.to_set().contains(x));
                    let k = choose|k: int| 0 <= k < df.len() && df[k] == x;
                    assert(d[k] == x);
                } else {
                    assert(d[d.len() - 1] == x);
                }
            }
        }
        assert(d.to_set() =~= s.to_set());
        if !(df.len() > 0 && df.last() == s.last()) {
            assert forall|i: int, j: int| 0 <= i < j < d.len() implies line_le(
                #[trigger] d[i],
                #[trigger] d[j],
            ) && d[i] != d[j] by {
                if j == df.len() {
                    // d[i] lies in df; it comes no later than df.last(), which is the last
                    // line of front and so no later than s.last().
                    assert(front.len() > 0);
                    assert(df.last() == front.last());
                    assert(line_order()(s[s.len() - 2], s[s.len() - 1]));
                    if i < df.len() - 1 {
                        assert(line_le(df[i], df[df.len() - 1]));
                        lemma_line_le_transitive(df[i], df.last(), s.last());
                        if df[i] == s.last() {
                            lemma_line_le_antisymmetric(df.last(), df[i]);
                        }
                    }
                }
            }
        }
    }
}

/// Sorted and freed of repeats, the lines are the same lines, none of them
/// twice: of `N` lines among which `K` repeat an earlier one, `N - K` stay.
pub proof fn lemma_distinct_lines(lines: Seq<Seq<char>>)
    ensures
        strictly_ascending(distinct_lines(lines)),
        distinct_lines(lines).no_duplicates(),
        distinct_lines(lines).to_set() == lines.to_set(),
        distinct_lines(lines).len() == lines.to_set().len(),
        distinct_lines(lines).len() <= lines.len(),
{
    lemma_sorted_lines(lines);
    let s = sorted_lines(lines);
    lemma_dedup_sorted(s);
    let d = distinct_lines(lines);
    assert(s.to_set() =~= lines.to_set()) by {
        s.to_multiset_ensures();
        lines.to_multiset_ensures();
        assert forall|x: Seq<char>| s.to_set().contains(x) <==> lines.to_set().contains(x) by {
            assert(s.contains(x) <==> s.to_multiset().count(x) > 0);
            assert(lines.contains(x) <==> lines.to_multiset().count(x) > 0);
        }
    }
    d.unique_seq_to_set();
}

/// Drops each line that equals the line before it.
pub fn drop_repeats(lines: Vec<Vec<char>>) -> (out: Vec<Vec<char>>)
    ensures
        views(out@) == dedup_adjacent(views(lines@)),
{
    let ghost all = views(lines@);
    let mut out: Vec<Vec<char>> = Vec::new();
    proof {
        assert(all.take(0) =~= Seq::<Seq<char>>::empty());
        assert(views(out@) =~= Seq::<Seq<char>>::empty());
    }
    for line in it: lines
        invariant
            it.seq() == lines@,
            all == views(lines@),
            views(out@) == dedup_adjacent(all.take(it.index())),
    {
        proof {
            assert(all.take(it.index() + 1).drop_last() =~= all.take(it.index()));
            assert(all.take(it.index() + 1).last() == line@);
        }
        let repeat: bool = out.len() > 0 && same_chars(&out[out.len() - 1], &line);
        if !repeat {
            proof {
                lemma_views_push(out@, line);
            }
            out.push(line);
        }
    }
    proof {
        assert(all.take(lines@.len() as int) =~= all);
    }
    out
}

/// Drops the blank lines.
pub fn drop_blank(lines: Vec<Vec<char>>) -> (out: Vec<Vec<char>>)
    ensures
        views(out@) == nonblank_lines(views(lines@)),
{
    let ghost all = views(lines@);
    let ghost keep = |l: Seq<char>| !is_blank(l);
    let mut out: Vec<Vec<char>> = Vec::new();
    proof {
        reveal(Seq::filter);
        assert(all.take(0) =~= Seq::<Seq<char>>::empty());
        assert(views(out@) =~= Seq::<Seq<char>>::empty());
    }
    for line in it: lines
        invariant
            it.seq() == lines@,
            all == views(lines@),
            keep == (|l: Seq<char>| !is_blank(l)),
            views(out@) == all.take(it.index()).filter(keep),
    {
        proof {
            reveal(Seq::filter);
            assert(all.take(it.index() + 1).drop_last() =~= all.take(it.index()));
            assert(all.take(it.index() + 1).last() == line@);
        }
        if !blank_line(&line) {
            proof {
                lemma_views_push(out@, line);
            }
            out.push(line);
        }
    }
    proof {
        assert(all.take(lines@.len() as int) =~= all);
    }
    out
}

} // verus!
