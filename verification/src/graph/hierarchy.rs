//! The `type_hierarchy` edges of a build: for every `impl Trait for Type` block (Rust) or class
//! with declared bases (Python), an edge from the implementing type or subclass to the trait or
//! base, each endpoint resolved through the aligned occurrence at exactly its name-token span. A
//! token with no aligned occurrence contributes no edge; an identity is never guessed from a name.

use vstd::prelude::*;

use crate::identity::CanonicalId;
use crate::text::str_eq;

use super::join::{aligned_view, AlignedOccurrence, AlignedView};
use super::range::ByteSpan;
use super::syntax::{ClassBases, Language, TraitImpl};
use super::tree::{class_bases_among, class_bases_view, trait_impls_among, ClassBasesView, SyntaxNode, SyntaxTree};

verus! {

/// An edge as plain values: its source and destination identities.
pub type EdgeView = (Seq<char>, Seq<char>);

/// The edges as plain values.
pub open spec fn edges_view(edges: Seq<(CanonicalId, CanonicalId)>) -> Seq<EdgeView> {
    edges.map_values(|e: (CanonicalId, CanonicalId)| (e.0@, e.1@))
}

/// The paths of documents given as `(path, text)` pairs.
pub open spec fn source_paths(sources: Seq<(String, String)>) -> Seq<Seq<char>> {
    sources.map_values(|s: (String, String)| s.0@)
}

/// The aligned occurrences as plain values.
pub open spec fn aligned_views(aligned: Seq<AlignedOccurrence>) -> Seq<AlignedView> {
    aligned.map_values(|a: AlignedOccurrence| aligned_view(a))
}

/// The symbol of the first aligned occurrence at `span` in document `path`, searching from `k`.
pub open spec fn symbol_at_from(aligned: Seq<AlignedView>, path: Seq<char>, span: ByteSpan, k: int) -> Option<Seq<char>>
    decreases aligned.len() - k,
{
    if k < 0 || k >= aligned.len() {
        None
    } else if aligned[k].1 == path && aligned[k].2 == span {
        Some(aligned[k].0)
    } else {
        symbol_at_from(aligned, path, span, k + 1)
    }
}

/// The symbol of the first aligned occurrence at `span` in document `path`.
pub open spec fn symbol_at(aligned: Seq<AlignedView>, path: Seq<char>, span: ByteSpan) -> Option<Seq<char>> {
    symbol_at_from(aligned, path, span, 0)
}

/// The edges of `impl Trait for Type` blocks: type to trait, where both resolve.
pub open spec fn impl_edges(aligned: Seq<AlignedView>, path: Seq<char>, impls: Seq<TraitImpl>) -> Seq<EdgeView>
    decreases impls.len(),
{
    if impls.len() == 0 {
        Seq::empty()
    } else {
        let imp = impls.last();
        impl_edges(aligned, path, impls.drop_last()) + match (
            symbol_at(aligned, path, imp.type_name_span),
            symbol_at(aligned, path, imp.trait_name_span),
        ) {
            (Some(ty), Some(tr)) => seq![(ty, tr)],
            _ => Seq::empty(),
        }
    }
}

/// The edges from subclass `sub` to each of its bases that resolves, in declaration order.
pub open spec fn base_edges(aligned: Seq<AlignedView>, path: Seq<char>, sub: Seq<char>, bases: Seq<ByteSpan>) -> Seq<EdgeView>
    decreases bases.len(),
{
    if bases.len() == 0 {
        Seq::empty()
    } else {
        base_edges(aligned, path, sub, bases.drop_last()) + match symbol_at(aligned, path, bases.last()) {
            Some(base) => seq![(sub, base)],
            None => Seq::empty(),
        }
    }
}

/// The edges of class definitions: each resolving subclass to each of its resolving bases.
pub open spec fn class_edges(aligned: Seq<AlignedView>, path: Seq<char>, classes: Seq<ClassBasesView>) -> Seq<EdgeView>
    decreases classes.len(),
{
    if classes.len() == 0 {
        Seq::empty()
    } else {
        let c = classes.last();
        class_edges(aligned, path, classes.drop_last()) + match symbol_at(aligned, path, c.0) {
            Some(sub) => base_edges(aligned, path, sub, c.1),
            None => Seq::empty(),
        }
    }
}

/// The hierarchy edges of one document, from its parsed nodes.
pub open spec fn document_edges(aligned: Seq<AlignedView>, path: Seq<char>, language: Language, nodes: Seq<SyntaxNode>) -> Seq<EdgeView> {
    match language {
        Language::Rust => impl_edges(aligned, path, trait_impls_among(nodes, nodes.len() as int)),
        Language::Python => class_edges(aligned, path, class_bases_among(nodes, nodes.len() as int)),
    }
}

/// The hierarchy edges of the first `n` documents, each from its parsed nodes, in order.
pub open spec fn documents_edges(
    aligned: Seq<AlignedView>,
    paths: Seq<Seq<char>>,
    language: Language,
    trees: Seq<Seq<SyntaxNode>>,
    n: int,
) -> Seq<EdgeView>
    decreases n,
{
    if n <= 0 {
        Seq::empty()
    } else {
        documents_edges(aligned, paths, language, trees, n - 1) + document_edges(aligned, paths[n - 1], language, trees[n - 1])
    }
}

/// The symbol of the first aligned occurrence at `span` in document `path`.
fn symbol_at_exec(aligned: &[AlignedOccurrence], path: &str, span: ByteSpan) -> (r: Option<CanonicalId>)
    ensures
        match r {
            Some(s) => symbol_at(aligned_views(aligned@), path@, span) == Some(s@),
            None => symbol_at(aligned_views(aligned@), path@, span) is None,
        },
{
    let ghost av = aligned_views(aligned@);
    let mut k: usize = 0;
    while k < aligned.len()
        invariant
            k <= aligned.len(),
            av == aligned_views(aligned@),
            symbol_at(av, path@, span) == symbol_at_from(av, path@, span, k as int),
        decreases aligned.len() - k,
    {
        let a = &aligned[k];
        assert(av[k as int] == aligned_view(aligned@[k as int]));
        if str_eq(a.document_path.as_str(), path) && a.name_span.same_as(&span) {
            return Some(a.symbol.clone());
        }
        k = k + 1;
    }
    None
}

/// Append to `out` the edges of `impls`.
fn push_impl_edges(out: &mut Vec<(CanonicalId, CanonicalId)>, aligned: &[AlignedOccurrence], path: &str, impls: &Vec<TraitImpl>)
    ensures
        edges_view(final(out)@) == edges_view(old(out)@) + impl_edges(aligned_views(aligned@), path@, impls@),
{
    let ghost av = aligned_views(aligned@);
    let ghost start = edges_view(out@);
    let mut i: usize = 0;
    while i < impls.len()
        invariant
            i <= impls.len(),
            av == aligned_views(aligned@),
            edges_view(out@) == start + impl_edges(av, path@, impls@.take(i as int)),
        decreases impls.len() - i,
    {
        let ghost before = out@;
        let imp = impls[i];
        assert(impls@.take(i + 1).drop_last() =~= impls@.take(i as int));
        match (symbol_at_exec(aligned, path, imp.type_name_span), symbol_at_exec(aligned, path, imp.trait_name_span)) {
            (Some(ty), Some(tr)) => {
                out.push((ty, tr));
                assert(edges_view(out@) =~= edges_view(before).push((ty@, tr@)));
            },
            _ => {},
        }
        assert(edges_view(out@) =~= start + impl_edges(av, path@, impls@.take(i + 1)));
        i = i + 1;
    }
    assert(impls@.take(impls.len() as int) =~= impls@);
}

/// Append to `out` the edges from `sub` to the resolving `bases`.
fn push_base_edges(
    out: &mut Vec<(CanonicalId, CanonicalId)>,
    aligned: &[AlignedOccurrence],
    path: &str,
    sub: &CanonicalId,
    bases: &Vec<ByteSpan>,
)
    ensures
        edges_view(final(out)@) == edges_view(old(out)@) + base_edges(aligned_views(aligned@), path@, sub@, bases@),
{
    let ghost av = aligned_views(aligned@);
    let ghost start = edges_view(out@);
    let mut i: usize = 0;
    while i < bases.len()
        invariant
            i <= bases.len(),
            av == aligned_views(aligned@),
            edges_view(out@) == start + base_edges(av, path@, sub@, bases@.take(i as int)),
        decreases bases.len() - i,
    {
        let ghost before = out@;
        assert(bases@.take(i + 1).drop_last() =~= bases@.take(i as int));
        match symbol_at_exec(aligned, path, bases[i]) {
            Some(base) => {
                out.push((sub.clone(), base));
                assert(edges_view(out@) =~= edges_view(before).push((sub@, base@)));
            },
            None => {},
        }
        assert(edges_view(out@) =~= start + base_edges(av, path@, sub@, bases@.take(i + 1)));
        i = i + 1;
    }
    assert(bases@.take(bases.len() as int) =~= bases@);
}

/// Append to `out` the edges of `classes`.
fn push_class_edges(out: &mut Vec<(CanonicalId, CanonicalId)>, aligned: &[AlignedOccurrence], path: &str, classes: &Vec<ClassBases>)
    ensures
        edges_view(final(out)@) == edges_view(old(out)@) + class_edges(
            aligned_views(aligned@),
            path@,
            classes@.map_values(|c: ClassBases| class_bases_view(c)),
        ),
{
    let ghost av = aligned_views(aligned@);
    let ghost cv = classes@.map_values(|c: ClassBases| class_bases_view(c));
    let ghost start = edges_view(out@);
    let mut i: usize = 0;
    while i < classes.len()
        invariant
            i <= classes.len(),
            av == aligned_views(aligned@),
            cv == classes@.map_values(|c: ClassBases| class_bases_view(c)),
            edges_view(out@) == start + class_edges(av, path@, cv.take(i as int)),
        decreases classes.len() - i,
    {
        let ghost before = edges_view(out@);
        assert(cv.take(i + 1).drop_last() =~= cv.take(i as int));
        assert(cv.take(i + 1).last() == class_bases_view(classes@[i as int]));
        let c = &classes[i];
        match symbol_at_exec(aligned, path, c.class_name_span) {
            Some(sub) => {
                push_base_edges(out, aligned, path, &sub, &c.base_name_spans);
            },
            None => {},
        }
        assert(edges_view(out@) =~= start + class_edges(av, path@, cv.take(i + 1)));
        i = i + 1;
    }
    assert(cv.take(classes.len() as int) =~= cv);
}

/// The `type_hierarchy` edges of one parsed document, in the order its headers are visited.
pub fn hierarchy_edges(path: &str, tree: &SyntaxTree, aligned: &[AlignedOccurrence]) -> (r: Vec<(CanonicalId, CanonicalId)>)
    ensures
        edges_view(r@) == document_edges(aligned_views(aligned@), path@, tree.language_of(), tree.nodes_view()),
{
    let mut out: Vec<(CanonicalId, CanonicalId)> = Vec::new();
    match tree.language() {
        Language::Rust => {
            let impls = tree.trait_impls();
            push_impl_edges(&mut out, aligned, path, &impls);
        },
        Language::Python => {
            let classes = tree.class_bases();
            push_class_edges(&mut out, aligned, path, &classes);
        },
    }
    assert(edges_view(out@) =~= document_edges(aligned_views(aligned@), path@, tree.language_of(), tree.nodes_view()));
    out
}

/// The `type_hierarchy` edges of a build: each document is parsed as `language` and its headers
/// resolved through the aligned occurrences, document by document in the given order.
pub fn type_hierarchy_edges(language: Language, sources: &[(String, String)], aligned: &[AlignedOccurrence]) -> (r: Vec<
    (CanonicalId, CanonicalId),
>)
    ensures
        exists|trees: Seq<Seq<SyntaxNode>>|
            trees.len() == sources.len() && edges_view(r@) == #[trigger] documents_edges(
                aligned_views(aligned@),
                source_paths(sources@),
                language,
                trees,
                sources.len() as int,
            ),
{
    let ghost paths = source_paths(sources@);
    let ghost av = aligned_views(aligned@);
    let ghost mut trees: Seq<Seq<SyntaxNode>> = Seq::empty();
    let mut out: Vec<(CanonicalId, CanonicalId)> = Vec::new();
    let mut i: usize = 0;
    while i < sources.len()
        invariant
            i <= sources.len(),
            trees.len() == i,
            paths == source_paths(sources@),
            av == aligned_views(aligned@),
            edges_view(out@) == documents_edges(av, paths, language, trees, i as int),
        decreases sources.len() - i,
    {
        let (path, text) = (&sources[i].0, &sources[i].1);
        let parsed = SyntaxTree::parse(text.as_str(), language);
        let tree = parsed.unwrap();
        let mut more = hierarchy_edges(path.as_str(), &tree, aligned);
        let ghost before = edges_view(out@);
        let ghost added = edges_view(more@);
        out.append(&mut more);
        proof {
            assert(edges_view(out@) =~= before + added);
            let t2 = trees.push(tree.nodes_view());
            assert(documents_edges(av, paths, language, t2, i as int) == documents_edges(av, paths, language, trees, i as int)) by {
                lemma_documents_edges_prefix(av, paths, language, trees, t2, i as int);
            }
            assert(paths[i as int] == path@);
            trees = t2;
        }
        i = i + 1;
    }
    out
}

/// The edges of the first `n` documents depend only on their trees.
proof fn lemma_documents_edges_prefix(
    aligned: Seq<AlignedView>,
    paths: Seq<Seq<char>>,
    language: Language,
    a: Seq<Seq<SyntaxNode>>,
    b: Seq<Seq<SyntaxNode>>,
    n: int,
)
    requires
        0 <= n <= a.len(),
        n <= b.len(),
        forall|k: int| 0 <= k < n ==> a[k] == b[k],
    ensures
        documents_edges(aligned, paths, language, a, n) == documents_edges(aligned, paths, language, b, n),
    decreases n,
{
    if n > 0 {
        lemma_documents_edges_prefix(aligned, paths, language, a, b, n - 1);
    }
}

} // verus!
