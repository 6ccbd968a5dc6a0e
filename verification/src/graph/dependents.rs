//! The order dependents are reported in: by distance, then kind order, then identity.

use vstd::multiset::Multiset;
use vstd::prelude::*;

use crate::order::{chars_less, chars_lt, lemma_chars_lt_irreflexive, lemma_chars_lt_total, lemma_chars_lt_transitive};

use super::store::{kind_order, kind_order_of, DependentRow};

verus! {

/// A dependent as plain values: identity, depth, kind.
pub open spec fn row_view(r: DependentRow) -> (Seq<char>, u32, Seq<char>) {
    (r.id@, r.depth, r.kind@)
}

/// Whether dependent `a` orders strictly before `b`: by depth, then kind order, then identity.
pub open spec fn row_before(a: (Seq<char>, u32, Seq<char>), b: (Seq<char>, u32, Seq<char>)) -> bool {
    a.1 < b.1 || (a.1 == b.1 && (kind_order_of(a.2) < kind_order_of(b.2) || (kind_order_of(a.2)
        == kind_order_of(b.2) && chars_lt(a.0, b.0))))
}

/// Whether rows are in non-descending dependent order.
pub open spec fn rows_ordered(rows: Seq<(Seq<char>, u32, Seq<char>)>) -> bool {
    forall|i: int, j: int| 0 <= i < j < rows.len() ==> !row_before(#[trigger] rows[j], #[trigger] rows[i])
}

/// Whether `a` orders strictly before `b`.
fn before(a: &DependentRow, b: &DependentRow) -> (r: bool)
    ensures
        r == row_before(row_view(*a), row_view(*b)),
{
    if a.depth != b.depth {
        return a.depth < b.depth;
    }
    let ka = kind_order(a.kind.as_str());
    let kb = kind_order(b.kind.as_str());
    if ka != kb {
        return ka < kb;
    }
    let ac = crate::text::chars_of(a.id.as_str());
    let bc = crate::text::chars_of(b.id.as_str());
    chars_less(&ac, &bc)
}

/// The dependents in reporting order — by depth, then kind order, then identity — holding the
/// same rows.
pub fn sort_dependents(rows: Vec<DependentRow>) -> (r: Vec<DependentRow>)
    ensures
        rows_ordered(r@.map_values(|x: DependentRow| row_view(x))),
        r@.map_values(|x: DependentRow| row_view(x)).to_multiset() == rows@.map_values(|x: DependentRow| row_view(x)).to_multiset(),
{
    let mut input = rows;
    let ghost original = input@.map_values(|x: DependentRow| row_view(x));
    let mut out: Vec<DependentRow> = Vec::new();
    proof {
        broadcast use vstd::seq_lib::group_to_multiset_ensures;
        broadcast use vstd::multiset::group_multiset_axioms;
        assert(out@.map_values(|x: DependentRow| row_view(x)) =~= Seq::<(Seq<char>, u32, Seq<char>)>::empty());
        assert(Seq::<(Seq<char>, u32, Seq<char>)>::empty().to_multiset() =~= Multiset::empty());
        assert(Multiset::<(Seq<char>, u32, Seq<char>)>::empty().add(original.to_multiset()) =~= original.to_multiset());
    }
    while input.len() > 0
        invariant
            rows_ordered(out@.map_values(|x: DependentRow| row_view(x))),
            out@.map_values(|x: DependentRow| row_view(x)).to_multiset().add(
                input@.map_values(|x: DependentRow| row_view(x)).to_multiset(),
            ) == original.to_multiset(),
        decreases input.len(),
    {
        let ghost in_before = input@.map_values(|x: DependentRow| row_view(x));
        let x = input.pop().unwrap();
        let ghost xv = row_view(x);
        proof {
            assert(in_before =~= input@.map_values(|y: DependentRow| row_view(y)).push(xv));
            crate::graph::dependents::lemma_push_multiset(input@.map_values(|y: DependentRow| row_view(y)), xv);
        }
        let ghost ov = out@.map_values(|y: DependentRow| row_view(y));
        let mut pos: usize = out.len();
        while pos > 0 && before(&x, &out[pos - 1])
            invariant
                pos <= out.len(),
                xv == row_view(x),
                ov == out@.map_values(|y: DependentRow| row_view(y)),
                forall|m: int| pos <= m < ov.len() ==> row_before(xv, #[trigger] ov[m]),
            decreases pos,
        {
            assert(ov[pos - 1] == row_view(out@[pos - 1]));
            pos = pos - 1;
        }
        proof {
            if pos > 0 {
                assert(ov[pos - 1] == row_view(out@[pos - 1]));
            }
        }
        proof {
            lemma_insert_ordered(ov, xv, pos as int);
            lemma_insert_multiset(ov, xv, pos as int);
        }
        out.insert(pos, x);
        proof {
            broadcast use vstd::multiset::group_multiset_axioms;
            assert(out@.map_values(|y: DependentRow| row_view(y)) =~= ov.insert(pos as int, xv));
            let im = input@.map_values(|y: DependentRow| row_view(y)).to_multiset();
            assert(ov.to_multiset().insert(xv).add(im) =~= ov.to_multiset().add(im.insert(xv)));
        }
    }
    proof {
        broadcast use vstd::seq_lib::group_to_multiset_ensures;
        broadcast use vstd::multiset::group_multiset_axioms;
        assert(input@.map_values(|y: DependentRow| row_view(y)) =~= Seq::<(Seq<char>, u32, Seq<char>)>::empty());
        assert(out@.map_values(|x: DependentRow| row_view(x)).to_multiset().add(Multiset::empty())
            =~= out@.map_values(|x: DependentRow| row_view(x)).to_multiset());
    }
    out
}

/// Pushing adds one to the pushed value's count.
pub proof fn lemma_push_multiset(s: Seq<(Seq<char>, u32, Seq<char>)>, x: (Seq<char>, u32, Seq<char>))
    ensures
        s.push(x).to_multiset() == s.to_multiset().insert(x),
{
    broadcast use vstd::seq_lib::group_to_multiset_ensures;
    assert(s.push(x).to_multiset() =~= s.to_multiset().insert(x));
}

/// Inserting keeps the multiset plus the inserted value.
proof fn lemma_insert_multiset(s: Seq<(Seq<char>, u32, Seq<char>)>, x: (Seq<char>, u32, Seq<char>), pos: int)
    requires
        0 <= pos <= s.len(),
    ensures
        s.insert(pos, x).to_multiset() == s.to_multiset().insert(x),
{
    broadcast use vstd::seq_lib::group_to_multiset_ensures;
    vstd::seq_lib::to_multiset_insert(s, pos, x);
}

/// The row order is total up to equal rows and transitive.
proof fn lemma_row_order(a: (Seq<char>, u32, Seq<char>), b: (Seq<char>, u32, Seq<char>), c: (Seq<char>, u32, Seq<char>))
    ensures
        !row_before(a, a),
        row_before(a, b) && row_before(b, c) ==> row_before(a, c),
        row_before(a, b) ==> !row_before(b, a),
        !row_before(a, b) && !row_before(b, a) ==> a.1 == b.1 && kind_order_of(a.2) == kind_order_of(b.2) && a.0 == b.0,
{
    lemma_chars_lt_irreflexive(a.0);
    if row_before(a, b) && row_before(b, c) && a.1 == b.1 && b.1 == c.1 && kind_order_of(a.2) == kind_order_of(b.2)
        && kind_order_of(b.2) == kind_order_of(c.2) {
        lemma_chars_lt_transitive(a.0, b.0, c.0);
    }
    if row_before(a, b) && a.1 == b.1 && kind_order_of(a.2) == kind_order_of(b.2) {
        crate::order::lemma_chars_lt_asymmetric(a.0, b.0);
    }
    if a.0 != b.0 {
        lemma_chars_lt_total(a.0, b.0);
    }
}

/// Inserting `x` after every row that does not order after it, and before the rows it orders
/// before, keeps the rows ordered.
proof fn lemma_insert_ordered(s: Seq<(Seq<char>, u32, Seq<char>)>, x: (Seq<char>, u32, Seq<char>), pos: int)
    requires
        rows_ordered(s),
        0 <= pos <= s.len(),
        forall|m: int| pos <= m < s.len() ==> row_before(x, #[trigger] s[m]),
        pos > 0 ==> !row_before(x, s[pos - 1]),
    ensures
        rows_ordered(s.insert(pos, x)),
{
    let t = s.insert(pos, x);
    assert forall|i: int, j: int| 0 <= i < j < t.len() implies !row_before(#[trigger] t[j], #[trigger] t[i]) by {
        if i < pos && j == pos {
            lemma_row_order(x, s[i], s[pos - 1]);
            lemma_row_order(s[i], s[pos - 1], x);
            if i < pos - 1 {
                assert(!row_before(s[pos - 1], s[i]));
            }
            lemma_row_order(x, s[pos - 1], s[i]);
            lemma_row_order(s[pos - 1], x, s[i]);
            if row_before(x, s[i]) {
                if row_before(s[pos - 1], s[i]) {
                } else {
                    lemma_row_order(x, s[i], s[pos - 1]);
                    lemma_row_order(s[i], s[pos - 1], x);
                }
            }
        } else if i == pos && j > pos {
            lemma_row_order(x, s[j - 1], x);
        } else if i < pos && j > pos {
            assert(t[i] == s[i] && t[j] == s[j - 1]);
        } else if j < pos {
            assert(t[i] == s[i] && t[j] == s[j]);
        } else {
            assert(t[i] == s[i - 1] && t[j] == s[j - 1]);
        }
    }
}

} // verus!
