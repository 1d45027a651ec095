//! Sorting lines and dropping repeated ones.

use vstd::multiset::Multiset;
use vstd::prelude::*;
use vstd::relations::*;
use vstd::seq_lib::*;
use crate::order::{lemma_line_le_connected, lemma_line_le_reflexive, lemma_line_le_transitive, lemma_line_order_total, line_le, line_no_later, line_order};

verus! {

/// The lines that a vector of character vectors stands for.
pub open spec fn views(v: Seq<Vec<char>>) -> Seq<Seq<char>> {
    Seq::new(v.len(), |i: int| v[i]@)
}

/// The lines of a vector with one more line at its end.
pub proof fn lemma_views_push(v: Seq<Vec<char>>, l: Vec<char>)
    ensures
        views(v.push(l)) == views(v).push(l@),
{
    assert(views(v.push(l)) =~= views(v).push(l@));
}

/// The lines of a vector without its last line.
pub proof fn lemma_views_drop_last(v: Seq<Vec<char>>)
    requires
        v.len() > 0,
    ensures
        views(v.drop_last()) == views(v).drop_last(),
        views(v) == views(v.drop_last()).push(v.last()@),
{
    assert(views(v.drop_last()) =~= views(v).drop_last());
    assert(views(v) =~= views(v.drop_last()).push(v.last()@));
}

/// The lines in ascending order: the one arrangement of them in which no line
/// comes before an earlier one.
pub open spec fn sorted_lines(lines: Seq<Seq<char>>) -> Seq<Seq<char>> {
    lines.sort_by(line_order())
}

/// Each line comes no earlier than those after it.
pub open spec fn descending(s: Seq<Seq<char>>) -> bool {
    forall|i: int, j: int| 0 <= i < j < s.len() ==> line_le(#[trigger] s[j], #[trigger] s[i])
}

/// No line of `low` comes after a line of `high`.
pub open spec fn all_below(low: Seq<Seq<char>>, high: Seq<Seq<char>>) -> bool {
    forall|i: int, j: int|
        0 <= i < low.len() && 0 <= j < high.len() ==> line_le(#[trigger] low[i], #[trigger] high[j])
}

/// What `sorted_lines` is known by: it is sorted and holds the same lines, each
/// as often as before.
pub proof fn lemma_sorted_lines(lines: Seq<Seq<char>>)
    ensures
        sorted_by(sorted_lines(lines), line_order()),
        sorted_lines(lines).to_multiset() == lines.to_multiset(),
        sorted_lines(lines).len() == lines.len(),
{
    lemma_line_order_total();
    lines.lemma_sort_by_ensures(line_order());
    lines.to_multiset_ensures();
    sorted_lines(lines).to_multiset_ensures();
}

/// A sorted arrangement of the same lines is the sorted arrangement.
pub proof fn lemma_sorted_lines_unique(lines: Seq<Seq<char>>, s: Seq<Seq<char>>)
    requires
        sorted_by(s, line_order()),
        s.to_multiset() == lines.to_multiset(),
    ensures
        s == sorted_lines(lines),
{
    lemma_line_order_total();
    lemma_sorted_lines(lines);
    lemma_sorted_unique(s, sorted_lines(lines), line_order());
}

/// Merges two sorted runs into one.
fn merge_runs(a: Vec<Vec<char>>, b: Vec<Vec<char>>) -> (out: Vec<Vec<char>>)
    requires
        sorted_by(views(a@), line_order()),
        sorted_by(views(b@), line_order()),
    ensures
        sorted_by(views(out@), line_order()),
        views(out@).to_multiset() == views(a@).to_multiset().add(views(b@).to_multiset()),
{
    broadcast use vstd::multiset::group_multiset_axioms;

    let ghost total = views(a@).to_multiset().add(views(b@).to_multiset());
    let mut a = a;
    let mut b = b;
    let mut desc: Vec<Vec<char>> = Vec::new();
    proof {
        assert(views(desc@) =~= Seq::<Seq<char>>::empty());
        views(desc@).to_multiset_ensures();
        assert(views(desc@).to_multiset() =~= Multiset::<Seq<char>>::empty());
    }
    while a.len() > 0 || b.len() > 0
        invariant
            sorted_by(views(a@), line_order()),
            sorted_by(views(b@), line_order()),
            descending(views(desc@)),
            all_below(views(a@), views(desc@)),
            all_below(views(b@), views(desc@)),
            views(a@).to_multiset().add(views(b@).to_multiset()).add(views(desc@).to_multiset())
                == total,
        decreases a.len() + b.len(),
    {
        let from_a: bool = if b.len() == 0 {
            true
        } else if a.len() == 0 {
            false
        } else {
            !line_no_later(&a[a.len() - 1], &b[b.len() - 1])
        };
        let ghost a0 = views(a@);
        let ghost b0 = views(b@);
        let ghost d0 = views(desc@);
        if from_a {
            proof {
                lemma_views_drop_last(a@);
            }
            let line = a.pop().unwrap();
            proof {
                if b0.len() > 0 {
                    lemma_line_le_connected(a0.last(), b0.last());
                }
                assert forall|i: int| 0 <= i < b0.len() implies line_le(#[trigger] b0[i], line@) by {
                    if i < b0.len() - 1 {
                        assert(line_order()(b0[i], b0.last()));
                    } else {
                        lemma_line_le_reflexive(b0.last());
                    }
                    lemma_line_le_transitive(b0[i], b0.last(), line@);
                }
                assert forall|i: int| 0 <= i < views(a@).len() implies line_le(
                    #[trigger] views(a@)[i],
                    line@,
                ) by {
                    assert(line_order()(a0[i], a0.last()));
                }
                assert forall|j: int| 0 <= j < d0.len() implies line_le(line@, #[trigger] d0[j]) by {
                    assert(line_le(a0[a0.len() - 1], d0[j]));
                }
                lemma_views_push(desc@, line);
                to_multiset_build(views(a@), line@);
                to_multiset_build(d0, line@);
            }
            desc.push(line);
            proof {
                assert(views(a@).to_multiset().add(b0.to_multiset()).add(
                    views(desc@).to_multiset(),
                ) =~= a0.to_multiset().add(b0.to_multiset()).add(d0.to_multiset()));
            }
        } else {
            proof {
                lemma_views_drop_last(b@);
            }
            let line = b.pop().unwrap();
            proof {
                assert forall|i: int| 0 <= i < a0.len() implies line_le(#[trigger] a0[i], line@) by {
                    if i < a0.len() - 1 {
                        assert(line_order()(a0[i], a0.last()));
                    } else {
                        lemma_line_le_reflexive(a0.last());
                    }
                    lemma_line_le_transitive(a0[i], a0.last(), line@);
                }
                assert forall|i: int| 0 <= i < views(b@).len() implies line_le(
                    #[trigger] views(b@)[i],
                    line@,
                ) by {
                    assert(line_order()(b0[i], b0.last()));
                }
                assert forall|j: int| 0 <= j < d0.len() implies line_le(line@, #[trigger] d0[j]) by {
                    assert(line_le(b0[b0.len() - 1], d0[j]));
                }
                lemma_views_push(desc@, line);
                to_multiset_build(views(b@), line@);
                to_multiset_build(d0, line@);
            }
            desc.push(line);
            proof {
                assert(a0.to_multiset().add(views(b@).to_multiset()).add(
                    views(desc@).to_multiset(),
                ) =~= a0.to_multiset().add(b0.to_multiset()).add(d0.to_multiset()));
            }
        }
    }
    let mut out: Vec<Vec<char>> = Vec::new();
    proof {
        assert(views(a@) =~= Seq::<Seq<char>>::empty());
        assert(views(b@) =~= Seq::<Seq<char>>::empty());
        assert(views(out@) =~= Seq::<Seq<char>>::empty());
        views(out@).to_multiset_ensures();
        assert(views(out@).to_multiset() =~= Multiset::<Seq<char>>::empty());
        assert(views(out@).to_multiset().add(views(desc@).to_multiset()) =~= total);
    }
    while desc.len() > 0
        invariant
            sorted_by(views(out@), line_order()),
            descending(views(desc@)),
            all_below(views(out@), views(desc@)),
            views(out@).to_multiset().add(views(desc@).to_multiset()) == total,
        decreases desc.len(),
    {
        let ghost d0 = views(desc@);
        let ghost o0 = views(out@);
        proof {
            lemma_views_drop_last(desc@);
        }
        let line = desc.pop().unwrap();
        proof {
            lemma_views_push(out@, line);
            to_multiset_build(views(desc@), line@);
            to_multiset_build(o0, line@);
            assert forall|j: int| 0 <= j < views(desc@).len() implies line_le(
                line@,
                #[trigger] views(desc@)[j],
            ) by {
                assert(line_le(d0[d0.len() - 1], d0[j]));
            }
        }
        out.push(line);
        proof {
            assert(views(out@).to_multiset().add(views(desc@).to_multiset()) =~= o0.to_multiset().add(
                d0.to_multiset(),
            ));
            assert forall|i: int, j: int| 0 <= i < j < views(out@).len() implies #[trigger]
                line_order()(views(out@)[i], views(out@)[j]) by {
                if j < o0.len() {
                    assert(line_order()(o0[i], o0[j]));
                } else {
                    assert(line_le(o0[i], d0[d0.len() - 1]));
                }
            }
        }
    }
    proof {
        assert(views(desc@) =~= Seq::<Seq<char>>::empty());
        views(desc@).to_multiset_ensures();
        assert(views(desc@).to_multiset() =~= Multiset::<Seq<char>>::empty());
        assert(views(out@).to_multiset() =~= total);
    }
    out
}

/// Sorts the lines in ascending order.
pub fn sort_lines(lines: Vec<Vec<char>>) -> (out: Vec<Vec<char>>)
    ensures
        views(out@) == sorted_lines(views(lines@)),
    decreases lines.len(),
{
    let ghost all = views(lines@);
    if lines.len() <= 1 {
        proof {
            assert(sorted_by(all, line_order()));
            lemma_sorted_lines_unique(all, all);
        }
        return lines;
    }
    let mut left = lines;
    let mid: usize = left.len() / 2;
    let right = left.split_off(mid);
    proof {
        assert(all =~= views(left@) + views(right@));
        lemma_multiset_commutative(views(left@), views(right@));
    }
    let ghost l0 = views(left@);
    let ghost r0 = views(right@);
    let left = sort_lines(left);
    let right = sort_lines(right);
    proof {
        lemma_sorted_lines(l0);
        lemma_sorted_lines(r0);
    }
    let out = merge_runs(left, right);
    proof {
        lemma_sorted_lines_unique(all, views(out@));
    }
    out
}

} // verus!
