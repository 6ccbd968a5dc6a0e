//! The graph: range normalization, the semantic corpus, clone keys, the join's alignment decisions
//! and the store's bookkeeping, and the content hash a build records.

pub mod plan;
pub mod chunk;
pub mod clone;
pub mod corpus;
pub mod dependents;
pub mod distance;
pub mod edges;
pub mod hierarchy;
pub mod ingest;
pub mod join;
pub mod range;
pub mod rules;
pub mod store;
pub mod syntax;
pub mod tree;
pub mod tests_class;
pub mod twins;

use vstd::prelude::*;
use vstd::string::StringSliceAdditionalSpecFns;
use vstd::utf8::encode_utf8;

use crate::digest::{hex, hex_of, sha256, sha256_of};
use crate::order::{chars_less, chars_lt, lemma_chars_lt_asymmetric, lemma_chars_lt_total, lemma_chars_lt_transitive};
use crate::text::chars_of;

verus! {

/// A document as values: its path and its source text.
pub type DocView = (Seq<char>, Seq<char>);

/// The documents' values.
pub open spec fn docs_view(docs: Seq<(String, String)>) -> Seq<DocView> {
    docs.map_values(|d: (String, String)| (d.0@, d.1@))
}

/// The first index at or after `from` whose path `x`'s path precedes, or the end of `s`.
pub open spec fn insertion_point_from(s: Seq<DocView>, x: DocView, from: int) -> int
    decreases s.len() - from,
{
    if from < 0 || from >= s.len() {
        s.len() as int
    } else if chars_lt(x.0, s[from].0) {
        from
    } else {
        insertion_point_from(s, x, from + 1)
    }
}

/// The documents ordered by path, documents with equal paths kept in input order (a stable sort,
/// built by inserting each document after every earlier one whose path does not follow it).
pub open spec fn sorted_by_path(docs: Seq<DocView>) -> Seq<DocView>
    decreases docs.len(),
{
    if docs.len() == 0 {
        Seq::empty()
    } else {
        let s = sorted_by_path(docs.drop_last());
        s.insert(insertion_point_from(s, docs.last(), 0), docs.last())
    }
}

/// The bytes hashed for documents in order: each path's UTF-8 bytes, a zero byte, the text's
/// UTF-8 bytes, and a zero byte.
pub open spec fn framed_documents(docs: Seq<DocView>) -> Seq<u8>
    decreases docs.len(),
{
    if docs.len() == 0 {
        Seq::empty()
    } else {
        let d = docs.last();
        framed_documents(docs.drop_last()) + encode_utf8(d.0) + seq![0u8] + encode_utf8(d.1) + seq![
            0u8,
        ]
    }
}

/// The content hash of documents: the lowercase-hex SHA-256 of the framed documents ordered by
/// path.
pub open spec fn content_hash_of(docs: Seq<DocView>) -> Seq<char> {
    hex_of(sha256_of(framed_documents(sorted_by_path(docs))))
}

/// Append the bytes of `s` to `out`.
fn push_bytes(out: &mut Vec<u8>, s: &str)
    ensures
        final(out)@ == old(out)@ + encode_utf8(s@),
{
    let b = s.as_bytes();
    let ghost start = out@;
    let mut k: usize = 0;
    while k < b.len()
        invariant
            k <= b.len(),
            b@ == encode_utf8(s@),
            out@ == start + b@.take(k as int),
        decreases b.len() - k,
    {
        out.push(b[k]);
        assert(b@.take(k + 1) =~= b@.take(k as int).push(b@[k as int]));
        k = k + 1;
    }
    assert(b@.take(b.len() as int) =~= b@);
}

/// Compute the content hash over the analyzed sources: documents are ordered by path first, so
/// the same sources hash the same whatever their discovery order.
pub fn content_hash(documents: &[(String, String)]) -> (r: String)
    ensures
        r@ == content_hash_of(docs_view(documents@)),
{
    let ghost dv = docs_view(documents@);
    let mut paths: Vec<Vec<char>> = Vec::new();
    let mut k: usize = 0;
    while k < documents.len()
        invariant
            dv == docs_view(documents@),
            k <= documents.len(),
            paths.len() == k,
            forall|i: int| 0 <= i < k ==> (#[trigger] paths@[i])@ == dv[i].0,
        decreases documents.len() - k,
    {
        paths.push(chars_of(documents[k].0.as_str()));
        k = k + 1;
    }
    // Insert each document's index after every earlier one whose path does not follow it.
    let mut order: Vec<usize> = Vec::new();
    let mut k: usize = 0;
    assert(dv.take(0) =~= Seq::<DocView>::empty());
    while k < documents.len()
        invariant
            dv == docs_view(documents@),
            k <= documents.len(),
            paths.len() == documents.len(),
            forall|i: int| 0 <= i < documents.len() ==> (#[trigger] paths@[i])@ == dv[i].0,
            forall|i: int| 0 <= i < order.len() ==> (#[trigger] order@[i]) < documents.len(),
            order@.map_values(|i: usize| dv[i as int]) == sorted_by_path(dv.take(k as int)),
        decreases documents.len() - k,
    {
        let ghost s = sorted_by_path(dv.take(k as int));
        let mut pos: usize = 0;
        assert(insertion_point_from(s, dv[k as int], 0) == insertion_point_from(s, dv[k as int], 0));
        while pos < order.len() && !chars_less(&paths[k], &paths[order[pos]])
            invariant
                pos <= order.len(),
                k < documents.len(),
                paths.len() == documents.len(),
                forall|i: int| 0 <= i < documents.len() ==> (#[trigger] paths@[i])@ == dv[i].0,
                forall|i: int| 0 <= i < order.len() ==> (#[trigger] order@[i]) < documents.len(),
                order@.map_values(|i: usize| dv[i as int]) == s,
                insertion_point_from(s, dv[k as int], 0) == insertion_point_from(
                    s,
                    dv[k as int],
                    pos as int,
                ),
            decreases order.len() - pos,
        {
            pos = pos + 1;
        }
        let ghost before = order@;
        order.insert(pos, k);
        proof {
            assert(dv.take(k + 1).drop_last() =~= dv.take(k as int));
            assert(dv.take(k + 1).last() == dv[k as int]);
            assert(order@.map_values(|i: usize| dv[i as int]) =~= s.insert(
                pos as int,
                dv[k as int],
            ));
        }
        k = k + 1;
    }
    assert(dv.take(documents.len() as int) =~= dv);
    let ghost sorted = sorted_by_path(dv);
    let mut framed: Vec<u8> = Vec::new();
    let mut m: usize = 0;
    assert(sorted.take(0) =~= Seq::<DocView>::empty());
    while m < order.len()
        invariant
            dv == docs_view(documents@),
            m <= order.len(),
            forall|i: int| 0 <= i < order.len() ==> (#[trigger] order@[i]) < documents.len(),
            order@.map_values(|i: usize| dv[i as int]) == sorted,
            framed@ == framed_documents(sorted.take(m as int)),
        decreases order.len() - m,
    {
        let i = order[m];
        push_bytes(&mut framed, documents[i].0.as_str());
        framed.push(0u8);
        push_bytes(&mut framed, documents[i].1.as_str());
        framed.push(0u8);
        proof {
            assert(sorted.take(m + 1).drop_last() =~= sorted.take(m as int));
            assert(sorted.take(m + 1).last() == sorted[m as int]);
            assert(sorted[m as int] == dv[i as int]);
        }
        m = m + 1;
    }
    assert(sorted.take(order.len() as int) =~= sorted);
    let digest = sha256(framed.as_slice());
    hex(digest.as_slice())
}

/// Whether the documents' paths are distinct, as a source set's are.
pub open spec fn paths_distinct(docs: Seq<DocView>) -> bool {
    forall|i: int, j: int| 0 <= i < j < docs.len() ==> (#[trigger] docs[i]).0 != (#[trigger] docs[j]).0
}

/// Whether the documents' paths strictly ascend.
pub open spec fn paths_strictly_ascending(docs: Seq<DocView>) -> bool {
    forall|i: int, j: int| 0 <= i < j < docs.len() ==> chars_lt((#[trigger] docs[i]).0, (#[trigger] docs[j]).0)
}

/// The insertion point lies at or after `from`, past every path `x`'s does not precede, before
/// the first one it does.
proof fn lemma_insertion_point(s: Seq<DocView>, x: DocView, from: int)
    requires
        0 <= from <= s.len(),
    ensures
        from <= insertion_point_from(s, x, from) <= s.len(),
        forall|j: int| from <= j < insertion_point_from(s, x, from) ==> !chars_lt(x.0, #[trigger] s[j].0),
        insertion_point_from(s, x, from) < s.len() ==> chars_lt(x.0, s[insertion_point_from(s, x, from)].0),
    decreases s.len() - from,
{
    if from < s.len() && !chars_lt(x.0, s[from].0) {
        lemma_insertion_point(s, x, from + 1);
    }
}

/// Ordering documents with distinct paths by path ascends strictly and keeps every document.
proof fn lemma_sorted_by_path(docs: Seq<DocView>)
    requires
        paths_distinct(docs),
    ensures
        paths_strictly_ascending(sorted_by_path(docs)),
        sorted_by_path(docs).to_multiset() == docs.to_multiset(),
        forall|k: int| 0 <= k < sorted_by_path(docs).len() ==> docs.contains(#[trigger] sorted_by_path(docs)[k]),
    decreases docs.len(),
{
    broadcast use vstd::seq_lib::group_to_multiset_ensures;
    if docs.len() > 0 {
        let d = docs.drop_last();
        assert forall|i: int, j: int| 0 <= i < j < d.len() implies (#[trigger] d[i]).0 != (#[trigger] d[j]).0 by {
            assert(d[i] == docs[i] && d[j] == docs[j]);
        }
        lemma_sorted_by_path(d);
        let s = sorted_by_path(d);
        let x = docs.last();
        let p = insertion_point_from(s, x, 0);
        lemma_insertion_point(s, x, 0);
        let r = s.insert(p, x);
        assert(r == sorted_by_path(docs));
        vstd::seq_lib::to_multiset_insert(s, p, x);
        assert(docs =~= d.push(x));
        assert forall|k: int| 0 <= k < s.len() implies s[k].0 != x.0 by {
            assert(d.contains(s[k]));
            let i = choose|i: int| 0 <= i < d.len() && d[i] == s[k];
            assert(docs[i] == d[i]);
        }
        assert forall|a: int, b: int| 0 <= a < b < r.len() implies chars_lt((#[trigger] r[a]).0, (#[trigger] r[b]).0) by {
            if b < p {
                assert(r[a] == s[a] && r[b] == s[b]);
            } else if b == p {
                assert(r[a] == s[a] && r[b] == x);
                assert(!chars_lt(x.0, s[a].0));
                lemma_chars_lt_total(x.0, s[a].0);
            } else if a == p {
                assert(r[b] == s[b - 1]);
                if b - 1 > p {
                    assert(chars_lt(s[p].0, s[b - 1].0));
                    lemma_chars_lt_transitive(x.0, s[p].0, s[b - 1].0);
                }
            } else if a < p {
                assert(r[a] == s[a] && r[b] == s[b - 1]);
            } else {
                assert(r[a] == s[a - 1] && r[b] == s[b - 1]);
            }
        }
        assert forall|k: int| 0 <= k < r.len() implies docs.contains(#[trigger] r[k]) by {
            if k < p {
                assert(r[k] == s[k]);
                assert(d.contains(s[k]));
                let i = choose|i: int| 0 <= i < d.len() && d[i] == s[k];
                assert(docs[i] == d[i]);
            } else if k == p {
                assert(docs[docs.len() - 1] == x);
            } else {
                assert(r[k] == s[k - 1]);
                assert(d.contains(s[k - 1]));
                let i = choose|i: int| 0 <= i < d.len() && d[i] == s[k - 1];
                assert(docs[i] == d[i]);
            }
        }
    }
}

/// Two strictly ascending document sequences holding the same documents are the same sequence.
proof fn lemma_ascending_unique(s: Seq<DocView>, t: Seq<DocView>)
    requires
        paths_strictly_ascending(s),
        paths_strictly_ascending(t),
        s.to_multiset() == t.to_multiset(),
    ensures
        s == t,
    decreases s.len(),
{
    broadcast use vstd::seq_lib::group_to_multiset_ensures;
    broadcast use vstd::multiset::group_multiset_axioms;
    vstd::seq_lib::to_multiset_len(s);
    vstd::seq_lib::to_multiset_len(t);
    assert(s.len() == t.len());
    if s.len() > 0 {
        let x = s.last();
        let y = t.last();
        assert(s.contains(x));
        assert(t.to_multiset().count(x) > 0);
        assert(t.contains(x));
        assert(s.to_multiset().count(y) > 0);
        assert(s.contains(y));
        let i = choose|i: int| 0 <= i < t.len() && t[i] == x;
        let j = choose|j: int| 0 <= j < s.len() && s[j] == y;
        if x != y {
            if i < t.len() - 1 {
                assert(chars_lt(x.0, y.0));
            }
            if j < s.len() - 1 {
                assert(chars_lt(y.0, x.0));
                if i < t.len() - 1 {
                    lemma_chars_lt_asymmetric(x.0, y.0);
                }
            }
            assert(i < t.len() - 1 || j < s.len() - 1);
            assert(false);
        }
        let sd = s.drop_last();
        let td = t.drop_last();
        assert(s =~= sd.push(x));
        assert(t =~= td.push(x));
        assert(sd.to_multiset() =~= td.to_multiset()) by {
            assert(s.to_multiset() =~= sd.to_multiset().insert(x));
            assert(t.to_multiset() =~= td.to_multiset().insert(x));
            assert forall|a: DocView| sd.to_multiset().count(a) == td.to_multiset().count(a) by {
                assert(s.to_multiset().count(a) == t.to_multiset().count(a));
                assert(s.to_multiset().count(a) == sd.to_multiset().insert(x).count(a));
                assert(t.to_multiset().count(a) == td.to_multiset().insert(x).count(a));
            }
        }
        assert forall|a: int, b: int| 0 <= a < b < sd.len() implies chars_lt((#[trigger] sd[a]).0, (#[trigger] sd[b]).0) by {
            assert(sd[a] == s[a] && sd[b] == s[b]);
        }
        assert forall|a: int, b: int| 0 <= a < b < td.len() implies chars_lt((#[trigger] td[a]).0, (#[trigger] td[b]).0) by {
            assert(td[a] == t[a] && td[b] == t[b]);
        }
        lemma_ascending_unique(sd, td);
    } else {
        assert(s =~= t);
    }
}

/// The content hash is order-independent: the same source set — documents with distinct paths —
/// hashes the same whatever order discovery listed it in.
pub proof fn lemma_content_hash_order_independent(a: Seq<DocView>, b: Seq<DocView>)
    requires
        paths_distinct(a),
        paths_distinct(b),
        a.to_multiset() == b.to_multiset(),
    ensures
        content_hash_of(a) == content_hash_of(b),
{
    lemma_sorted_by_path(a);
    lemma_sorted_by_path(b);
    lemma_ascending_unique(sorted_by_path(a), sorted_by_path(b));
}

} // verus!
