//! The lexicographic order of lines by code point, which is also the order of
//! their UTF-8 bytes.

use vstd::prelude::*;
use vstd::relations::*;

verus! {

/// `a` comes no later than `b`: at the first place where they differ `a` has
/// the smaller code point, or `a` is a prefix of `b`.
pub open spec fn line_le(a: Seq<char>, b: Seq<char>) -> bool
    decreases a.len(),
{
    if a.len() == 0 {
        true
    } else if b.len() == 0 {
        false
    } else if a[0] != b[0] {
        (a[0] as u32) < (b[0] as u32)
    } else {
        line_le(a.skip(1), b.skip(1))
    }
}

/// The order as a relation, for the sequence library.
pub open spec fn line_order() -> spec_fn(Seq<char>, Seq<char>) -> bool {
    |a: Seq<char>, b: Seq<char>| line_le(a, b)
}

/// Two characters with the same code point are the same character.
pub proof fn lemma_code_point_injective(a: char, b: char)
    requires
        a as u32 == b as u32,
    ensures
        a == b,
{
    vstd::utf8::char_u32_cast(a, a as u32);
    vstd::utf8::char_u32_cast(b, b as u32);
}

/// A line comes no later than itself.
pub proof fn lemma_line_le_reflexive(a: Seq<char>)
    ensures
        line_le(a, a),
    decreases a.len(),
{
    if a.len() > 0 {
        lemma_line_le_reflexive(a.skip(1));
    }
}

/// Two lines of which each comes no later than the other are the same line.
pub proof fn lemma_line_le_antisymmetric(a: Seq<char>, b: Seq<char>)
    requires
        line_le(a, b),
        line_le(b, a),
    ensures
        a == b,
    decreases a.len(),
{
    if a.len() == 0 {
        assert(a =~= b);
    } else {
        lemma_line_le_antisymmetric(a.skip(1), b.skip(1));
        assert(a =~= seq![a[0]] + a.skip(1));
        assert(b =~= seq![b[0]] + b.skip(1));
    }
}

/// The order carries over a line in between.
pub proof fn lemma_line_le_transitive(a: Seq<char>, b: Seq<char>, c: Seq<char>)
    requires
        line_le(a, b),
        line_le(b, c),
    ensures
        line_le(a, c),
    decreases a.len(),
{
    if a.len() > 0 && a[0] == b[0] && b[0] == c[0] {
        lemma_line_le_transitive(a.skip(1), b.skip(1), c.skip(1));
    }
}

/// Of two lines one comes no later than the other.
pub proof fn lemma_line_le_connected(a: Seq<char>, b: Seq<char>)
    ensures
        line_le(a, b) || line_le(b, a),
    decreases a.len(),
{
    if a.len() > 0 && b.len() > 0 {
        if a[0] == b[0] {
            lemma_line_le_connected(a.skip(1), b.skip(1));
        } else if a[0] as u32 == b[0] as u32 {
            lemma_code_point_injective(a[0], b[0]);
        }
    }
}

/// The order of lines is total.
pub proof fn lemma_line_order_total()
    ensures
        total_ordering(line_order()),
{
    let r = line_order();
    assert forall|a: Seq<char>| #[trigger] r(a, a) by {
        lemma_line_le_reflexive(a);
    }
    assert forall|a: Seq<char>, b: Seq<char>| #[trigger] r(a, b) && #[trigger] r(b, a) implies a
        == b by {
        lemma_line_le_antisymmetric(a, b);
    }
    assert forall|a: Seq<char>, b: Seq<char>, c: Seq<char>| #[trigger]
        r(a, b) && #[trigger] r(b, c) implies r(a, c) by {
        lemma_line_le_transitive(a, b, c);
    }
    assert forall|a: Seq<char>, b: Seq<char>| #[trigger] r(a, b) || #[trigger] r(b, a) by {
        lemma_line_le_connected(a, b);
    }
}

/// Whether `a` comes no later than `b`.
pub fn line_no_later(a: &Vec<char>, b: &Vec<char>) -> (r: bool)
    ensures
        r == line_le(a@, b@),
{
    let mut i: usize = 0;
    proof {
        assert(a@.skip(0) == a@);
        assert(b@.skip(0) == b@);
    }
    loop
        invariant
            i <= a.len(),
            i <= b.len(),
            line_le(a@, b@) == line_le(a@.skip(i as int), b@.skip(i as int)),
        decreases a.len() - i,
    {
        if i == a.len() {
            return true;
        }
        if i == b.len() {
            return false;
        }
        proof {
            assert(a@.skip(i as int)[0] == a@[i as int]);
            assert(b@.skip(i as int)[0] == b@[i as int]);
        }
        let x: char = a[i];
        let y: char = b[i];
        if x != y {
            return (x as u32) < (y as u32);
        }
        proof {
            assert(a@.skip(i as int).skip(1) == a@.skip(i + 1));
            assert(b@.skip(i as int).skip(1) == b@.skip(i + 1));
        }
        i += 1;
    }
}

} // verus!
