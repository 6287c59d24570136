//! The order of strings (lexicographic by character, which for UTF-8 text is
//! the order of their bytes) and sorting lists of strings by it.

use vstd::prelude::*;
use crate::text::{chars_of, views};

verus! {

broadcast use vstd::seq_lib::group_to_multiset_ensures;

/// `a` sorts before or equal to `b`.
pub open spec fn lex_le(a: Seq<char>, b: Seq<char>) -> bool
    decreases a.len(),
{
    if a.len() == 0 {
        true
    } else if b.len() == 0 {
        false
    } else if a[0] != b[0] {
        a[0] < b[0]
    } else {
        lex_le(a.drop_first(), b.drop_first())
    }
}

/// The strings of `s` are in order.
pub open spec fn lex_sorted(s: Seq<Seq<char>>) -> bool {
    forall|a: int, b: int| 0 <= a < b < s.len() ==> lex_le(#[trigger] s[a], #[trigger] s[b])
}

/// Any two strings are ordered one way or the other.
proof fn lemma_lex_total(a: Seq<char>, b: Seq<char>)
    ensures
        lex_le(a, b) || lex_le(b, a),
    decreases a.len(),
{
    if a.len() > 0 && b.len() > 0 {
        if a[0] == b[0] {
            lemma_lex_total(a.drop_first(), b.drop_first());
            assert(lex_le(b, a) == lex_le(b.drop_first(), a.drop_first()));
        } else {
            assert(lex_le(a, b) == (a[0] < b[0]));
            assert(lex_le(b, a) == (b[0] < a[0]));
        }
    }
}

/// The order is transitive.
proof fn lemma_lex_trans(a: Seq<char>, b: Seq<char>, c: Seq<char>)
    requires
        lex_le(a, b),
        lex_le(b, c),
    ensures
        lex_le(a, c),
    decreases a.len(),
{
    if a.len() > 0 && b.len() > 0 && c.len() > 0 && a[0] == b[0] && b[0] == c[0] {
        lemma_lex_trans(a.drop_first(), b.drop_first(), c.drop_first());
    }
}

/// Strings ordered both ways are equal.
proof fn lemma_lex_antisym(a: Seq<char>, b: Seq<char>)
    requires
        lex_le(a, b),
        lex_le(b, a),
    ensures
        a == b,
    decreases a.len(),
{
    if a.len() > 0 {
        lemma_lex_antisym(a.drop_first(), b.drop_first());
        assert(a =~= seq![a[0]] + a.drop_first());
        assert(b =~= seq![b[0]] + b.drop_first());
    } else {
        assert(a =~= b);
    }
}

/// The order of strings is a total order: any two are comparable, it is
/// transitive, and two strings that sort before or equal to each other are
/// the same string (so a sorted list of given strings is unique).
pub proof fn law_string_order_is_total(a: Seq<char>, b: Seq<char>, c: Seq<char>)
    ensures
        lex_le(a, b) || lex_le(b, a),
        lex_le(a, b) && lex_le(b, c) ==> lex_le(a, c),
        lex_le(a, b) && lex_le(b, a) ==> a == b,
{
    lemma_lex_total(a, b);
    if lex_le(a, b) && lex_le(b, c) {
        lemma_lex_trans(a, b, c);
    }
    if lex_le(a, b) && lex_le(b, a) {
        lemma_lex_antisym(a, b);
    }
}

proof fn lemma_lex_step(a: Seq<char>, b: Seq<char>, i: int)
    requires
        0 <= i < a.len(),
        i < b.len(),
        a[i] == b[i],
    ensures
        lex_le(a.skip(i), b.skip(i)) == lex_le(a.skip(i + 1), b.skip(i + 1)),
{
    assert(a.skip(i).drop_first() =~= a.skip(i + 1));
    assert(b.skip(i).drop_first() =~= b.skip(i + 1));
}

/// Whether `a` sorts before or equal to `b`.
pub fn str_le(a: &str, b: &str) -> (r: bool)
    ensures
        r == lex_le(a@, b@),
{
    let va = chars_of(a);
    let vb = chars_of(b);
    let mut i: usize = 0;
    assert(va@.skip(0) =~= va@);
    assert(vb@.skip(0) =~= vb@);
    while i < va.len() && i < vb.len() && va[i] == vb[i]
        invariant
            i <= va@.len(),
            i <= vb@.len(),
            lex_le(va@, vb@) == lex_le(va@.skip(i as int), vb@.skip(i as int)),
        decreases va.len() - i,
    {
        proof {
            lemma_lex_step(va@, vb@, i as int);
        }
        i += 1;
    }
    if i == va.len() {
        true
    } else if i == vb.len() {
        false
    } else {
        va[i] < vb[i]
    }
}

/// Inserting `x` after every element that sorts before or equal to it, and
/// before the first that sorts after it, keeps a sorted list sorted.
proof fn lemma_insert_keeps_order(s: Seq<Seq<char>>, pos: int, x: Seq<char>)
    requires
        0 <= pos <= s.len(),
        lex_sorted(s),
        forall|a: int| 0 <= a < pos ==> lex_le(#[trigger] s[a], x),
        pos < s.len() ==> !lex_le(s[pos], x),
    ensures
        lex_sorted(s.insert(pos, x)),
{
    let t = s.insert(pos, x);
    if pos < s.len() {
        lemma_lex_total(s[pos], x);
    }
    assert forall|a: int, b: int| 0 <= a < b < t.len() implies lex_le(#[trigger] t[a], #[trigger] t[b]) by {
        if b < pos {
            assert(t[a] == s[a] && t[b] == s[b]);
        } else if b == pos {
            assert(t[a] == s[a]);
        } else if a < pos {
            assert(t[a] == s[a] && t[b] == s[b - 1]);
            if b - 1 > pos {
                assert(lex_le(s[pos], s[b - 1]));
                lemma_lex_trans(x, s[pos], s[b - 1]);
            }
            lemma_lex_trans(s[a], x, s[b - 1]);
        } else if a == pos {
            assert(t[b] == s[b - 1]);
            if b - 1 > pos {
                assert(lex_le(s[pos], s[b - 1]));
                lemma_lex_trans(x, s[pos], s[b - 1]);
            }
        } else {
            assert(t[a] == s[a - 1] && t[b] == s[b - 1]);
        }
    }
}

/// The strings of `v` in order (a stable insertion sort).
pub fn sorted_strings(v: Vec<String>) -> (r: Vec<String>)
    ensures
        lex_sorted(views(r@)),
        views(r@).to_multiset() == views(v@).to_multiset(),
{
    let mut r: Vec<String> = Vec::new();
    let mut i: usize = 0;
    while i < v.len()
        invariant
            i <= v@.len(),
            lex_sorted(views(r@)),
            views(r@).to_multiset() == views(v@.take(i as int)).to_multiset(),
        decreases v.len() - i,
    {
        let x = v[i].clone();
        let mut pos: usize = 0;
        while pos < r.len() && str_le(r[pos].as_str(), x.as_str())
            invariant
                pos <= r@.len(),
                forall|a: int| 0 <= a < pos ==> lex_le(#[trigger] views(r@)[a], x@),
            decreases r.len() - pos,
        {
            pos += 1;
        }
        let ghost before = views(r@);
        proof {
            lemma_insert_keeps_order(before, pos as int, x@);
        }
        r.insert(pos, x);
        assert(views(r@) =~= before.insert(pos as int, v@[i as int]@));
        assert(views(v@.take(i + 1)) =~= views(v@.take(i as int)).push(v@[i as int]@));
        i += 1;
    }
    assert(v@.take(v@.len() as int) =~= v@);
    r
}

} // verus!
