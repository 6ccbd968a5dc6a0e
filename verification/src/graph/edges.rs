//! The reference-grade dependency edges of a build: every aligned reference derives a `uses` edge
//! from the nearest persisted declaration enclosing it, or, at module scope, an `imports` edge from
//! its document's module when that module is persisted.

use vstd::prelude::*;

use crate::identity::CanonicalId;
use crate::model::OccurrenceRole;
use crate::text::str_eq;

use super::hierarchy::aligned_views;
use super::ingest::{
    defs_view, role_tag, derives_parent, derives_parent_spec, enclosing_spec, enclosing_symbol, parent_of_definition, reference_edge,
    types_view, without_own,
};
use super::join::{locality_tag, rule_tag, outcome_tag, unaligned_view, AlignedOccurrence, AlignedView, UnalignedOccurrence};
use super::range::ByteSpan;
use super::rules::ostr;
use super::store::{DiscrepancyRow, EdgeKind, OccurrenceRow};
use super::syntax::{Language, SyntaxDeclaration};
use super::tree::{declarations_from, source_text_at, text_in, SyntaxNode, SyntaxTree};
use vstd::utf8::encode_utf8;

verus! {

/// A dependency edge as plain values: kind, source identity, destination identity.
pub type DependencyView = (EdgeKind, Seq<char>, Seq<char>);

/// The edges as plain values.
pub open spec fn dependencies_view(edges: Seq<(EdgeKind, CanonicalId, CanonicalId)>) -> Seq<DependencyView> {
    edges.map_values(|e: (EdgeKind, CanonicalId, CanonicalId)| (e.0, e.1@, e.2@))
}

/// Documents as plain values.
pub open spec fn sources_view(sources: Seq<(String, String)>) -> Seq<(Seq<char>, Seq<char>)> {
    sources.map_values(|s: (String, String)| (s.0@, s.1@))
}

/// The modules of documents as plain values.
pub open spec fn modules_view(modules: Seq<(String, CanonicalId)>) -> Seq<(Seq<char>, Seq<char>)> {
    modules.map_values(|m: (String, CanonicalId)| (m.0@, m.1@))
}

/// The value of the first pair keyed `key`, searching from `k`.
pub open spec fn keyed_from(pairs: Seq<(Seq<char>, Seq<char>)>, key: Seq<char>, k: int) -> Option<Seq<char>>
    decreases pairs.len() - k,
{
    if k < 0 || k >= pairs.len() {
        None
    } else if pairs[k].0 == key {
        Some(pairs[k].1)
    } else {
        keyed_from(pairs, key, k + 1)
    }
}

/// The text of a document, empty where none is given.
pub open spec fn source_of(sources: Seq<(Seq<char>, Seq<char>)>, path: Seq<char>) -> Seq<char> {
    match keyed_from(sources, path, 0) {
        Some(t) => t,
        None => Seq::empty(),
    }
}

/// The source text at each declaration's name span.
pub open spec fn chain_texts(source: Seq<char>, chain: Seq<SyntaxDeclaration>) -> Seq<Option<Seq<char>>> {
    chain.map_values(|d: SyntaxDeclaration| text_in(source, d.name_span.start as nat, d.name_span.end as nat))
}

/// The edge one aligned occurrence derives, if any.
pub open spec fn edge_of(
    a: AlignedView,
    sources: Seq<(Seq<char>, Seq<char>)>,
    defs: Seq<(Seq<char>, Seq<char>, ByteSpan)>,
    types: Seq<(Seq<char>, Seq<char>)>,
    modules: Seq<(Seq<char>, Seq<char>)>,
) -> Option<DependencyView> {
    if a.3 != OccurrenceRole::Reference {
        None
    } else {
        match enclosing_spec(a.6, chain_texts(source_of(sources, a.1), a.6), a.1, defs, types) {
            Some(user) => Some((EdgeKind::Uses, user, a.0)),
            None => match keyed_from(modules, a.1, 0) {
                Some(m) => Some((EdgeKind::Imports, m, a.0)),
                None => None,
            },
        }
    }
}

/// The edges the first `n` aligned occurrences derive, in order.
pub open spec fn edges_of(
    aligned: Seq<AlignedView>,
    sources: Seq<(Seq<char>, Seq<char>)>,
    defs: Seq<(Seq<char>, Seq<char>, ByteSpan)>,
    types: Seq<(Seq<char>, Seq<char>)>,
    modules: Seq<(Seq<char>, Seq<char>)>,
    n: int,
) -> Seq<DependencyView>
    decreases n,
{
    if n <= 0 {
        Seq::empty()
    } else {
        edges_of(aligned, sources, defs, types, modules, n - 1) + match edge_of(aligned[n - 1], sources, defs, types, modules) {
            Some(e) => seq![e],
            None => Seq::empty(),
        }
    }
}

/// The text of document `path`, empty where none is given.
fn source_for<'a>(sources: &'a [(String, String)], path: &str) -> (r: &'a str)
    ensures
        r@ == source_of(sources_view(sources@), path@),
{
    let ghost sv = sources_view(sources@);
    let mut k: usize = 0;
    while k < sources.len()
        invariant
            k <= sources.len(),
            sv == sources_view(sources@),
            keyed_from(sv, path@, 0) == keyed_from(sv, path@, k as int),
        decreases sources.len() - k,
    {
        assert(sv[k as int] == (sources@[k as int].0@, sources@[k as int].1@));
        if str_eq(sources[k].0.as_str(), path) {
            return sources[k].1.as_str();
        }
        k = k + 1;
    }
    proof {
        reveal_strlit("");
    }
    ""
}

/// The module of document `path`, if persisted.
fn module_for<'a>(modules: &'a [(String, CanonicalId)], path: &str) -> (r: Option<&'a CanonicalId>)
    ensures
        match r {
            Some(m) => keyed_from(modules_view(modules@), path@, 0) == Some(m@),
            None => keyed_from(modules_view(modules@), path@, 0) is None,
        },
{
    let ghost mv = modules_view(modules@);
    let mut k: usize = 0;
    while k < modules.len()
        invariant
            k <= modules.len(),
            mv == modules_view(modules@),
            keyed_from(mv, path@, 0) == keyed_from(mv, path@, k as int),
        decreases modules.len() - k,
    {
        assert(mv[k as int] == (modules@[k as int].0@, modules@[k as int].1@));
        if str_eq(modules[k].0.as_str(), path) {
            return Some(&modules[k].1);
        }
        k = k + 1;
    }
    None
}

/// Optional texts as plain values.
pub open spec fn texts_view(v: Seq<Option<String>>) -> Seq<Option<Seq<char>>> {
    v.map_values(|t: Option<String>| ostr(t))
}

/// The source text at each declaration's name span.
fn texts_of(source: &str, chain: &Vec<SyntaxDeclaration>) -> (r: Vec<Option<String>>)
    ensures
        r@.len() == chain@.len(),
        texts_view(r@) == chain_texts(source@, chain@),
{
    let mut out: Vec<Option<String>> = Vec::new();
    let mut i: usize = 0;
    while i < chain.len()
        invariant
            i <= chain.len(),
            out@.len() == i,
            texts_view(out@) == chain_texts(source@, chain@.take(i as int)),
        decreases chain.len() - i,
    {
        let ghost before = out@;
        let t = source_text_at(source, chain[i].name_span);
        out.push(t);
        assert forall|j: int| 0 <= j < i + 1 implies #[trigger] texts_view(out@)[j]
            == chain_texts(source@, chain@.take(i + 1))[j] by {
            if j < i {
                assert(out@[j] == before[j]);
                assert(texts_view(before)[j] == chain_texts(source@, chain@.take(i as int))[j]);
            }
        }
        assert(texts_view(out@) =~= chain_texts(source@, chain@.take(i + 1)));
        i = i + 1;
    }
    assert(chain@.take(chain.len() as int) =~= chain@);
    out
}

/// The dependency edges the aligned references derive, in order: `uses` from the nearest persisted
/// declaration enclosing the reference (a definition at the declaration's name span, or for an
/// `impl` block the type it names), else `imports` from the document's persisted module, else none.
/// `defs` holds each persisted symbol's definition document and name span, `types` each persisted
/// type's name, `modules` each document's module.
pub fn dependency_edges(
    aligned: &[AlignedOccurrence],
    sources: &[(String, String)],
    defs: &[(CanonicalId, String, ByteSpan)],
    types: &[(String, CanonicalId)],
    modules: &[(String, CanonicalId)],
) -> (r: Vec<(EdgeKind, CanonicalId, CanonicalId)>)
    ensures
        dependencies_view(r@) == edges_of(
            aligned_views(aligned@),
            sources_view(sources@),
            defs_view(defs@),
            types_view(types@),
            modules_view(modules@),
            aligned@.len() as int,
        ),
{
    let ghost av = aligned_views(aligned@);
    let mut out: Vec<(EdgeKind, CanonicalId, CanonicalId)> = Vec::new();
    let mut k: usize = 0;
    while k < aligned.len()
        invariant
            k <= aligned.len(),
            av == aligned_views(aligned@),
            dependencies_view(out@) == edges_of(
                av,
                sources_view(sources@),
                defs_view(defs@),
                types_view(types@),
                modules_view(modules@),
                k as int,
            ),
        decreases aligned.len() - k,
    {
        let a = &aligned[k];
        let ghost before = dependencies_view(out@);
        assert(av[k as int] == super::join::aligned_view(aligned@[k as int]));
        if let OccurrenceRole::Reference = a.role {
            let source = source_for(sources, a.document_path.as_str());
            let texts = texts_of(source, &a.enclosing);
            let user = enclosing_symbol(a.enclosing.as_slice(), texts.as_slice(), a.document_path.as_str(), defs, types);
            let module = module_for(modules, a.document_path.as_str());
            let user_ref = match &user {
                Some(u) => Some(u),
                None => None,
            };
            match reference_edge(user_ref, module) {
                Some((kind, from)) => {
                    out.push((kind, from, a.symbol.clone()));
                    assert(dependencies_view(out@) =~= before.push((kind, from@, a.symbol@)));
                },
                None => {},
            }
        }
        assert(dependencies_view(out@) =~= edges_of(
            av,
            sources_view(sources@),
            defs_view(defs@),
            types_view(types@),
            modules_view(modules@),
            k + 1,
        ));
        k = k + 1;
    }
    out
}

/// A `contains` edge as plain values: parent identity, child identity.
pub type ContainsView = (Seq<char>, Seq<char>);

/// The `contains` edges as plain values.
pub open spec fn pairs_view(edges: Seq<(CanonicalId, CanonicalId)>) -> Seq<ContainsView> {
    edges.map_values(|e: (CanonicalId, CanonicalId)| (e.0@, e.1@))
}

/// Whether `chain` is the enclosing-declaration chain of some node of some parsed tree.
pub open spec fn parsed_chain(chain: Seq<SyntaxDeclaration>, language: Language) -> bool {
    exists|nodes: Seq<SyntaxNode>, at: Option<int>| chain == #[trigger] declarations_from(nodes, language, at)
}

/// The `contains` edge one aligned definition derives, given the declarations enclosing its name
/// span's start: from the nearest persisted declaration other than its own, for a definition with
/// a source, an extent, and a span short of the whole document.
pub open spec fn contains_edge_of(
    a: AlignedView,
    sources: Seq<(Seq<char>, Seq<char>)>,
    defs: Seq<(Seq<char>, Seq<char>, ByteSpan)>,
    types: Seq<(Seq<char>, Seq<char>)>,
    chain: Seq<SyntaxDeclaration>,
) -> Option<ContainsView> {
    if a.3 != OccurrenceRole::Definition {
        None
    } else {
        match keyed_from(sources, a.1, 0) {
            Some(src) => if derives_parent_spec(a.2, Some(encode_utf8(src).len() as usize)) {
                let parents = without_own(chain, chain_texts(src, chain), a.2);
                match enclosing_spec(parents.0, parents.1, a.1, defs, types) {
                    Some(p) => Some((p, a.0)),
                    None => None,
                }
            } else {
                None
            },
            None => None,
        }
    }
}

/// The `contains` edges the first `n` aligned occurrences derive, in order, given each one's
/// enclosing chain.
pub open spec fn contains_of(
    aligned: Seq<AlignedView>,
    sources: Seq<(Seq<char>, Seq<char>)>,
    defs: Seq<(Seq<char>, Seq<char>, ByteSpan)>,
    types: Seq<(Seq<char>, Seq<char>)>,
    chains: Seq<Seq<SyntaxDeclaration>>,
    n: int,
) -> Seq<ContainsView>
    decreases n,
{
    if n <= 0 {
        Seq::empty()
    } else {
        contains_of(aligned, sources, defs, types, chains, n - 1) + match contains_edge_of(
            aligned[n - 1],
            sources,
            defs,
            types,
            chains[n - 1],
        ) {
            Some(e) => seq![e],
            None => Seq::empty(),
        }
    }
}

/// The edges of the first `n` occurrences depend only on their chains.
proof fn lemma_contains_prefix(
    aligned: Seq<AlignedView>,
    sources: Seq<(Seq<char>, Seq<char>)>,
    defs: Seq<(Seq<char>, Seq<char>, ByteSpan)>,
    types: Seq<(Seq<char>, Seq<char>)>,
    a: Seq<Seq<SyntaxDeclaration>>,
    b: Seq<Seq<SyntaxDeclaration>>,
    n: int,
)
    requires
        0 <= n <= a.len(),
        n <= b.len(),
        forall|k: int| 0 <= k < n ==> a[k] == b[k],
    ensures
        contains_of(aligned, sources, defs, types, a, n) == contains_of(aligned, sources, defs, types, b, n),
    decreases n,
{
    if n > 0 {
        lemma_contains_prefix(aligned, sources, defs, types, a, b, n - 1);
    }
}

/// The text of document `path`, if given.
fn source_opt<'a>(sources: &'a [(String, String)], path: &str) -> (r: Option<&'a str>)
    ensures
        match r {
            Some(t) => keyed_from(sources_view(sources@), path@, 0) == Some(t@),
            None => keyed_from(sources_view(sources@), path@, 0) is None,
        },
{
    let ghost sv = sources_view(sources@);
    let mut k: usize = 0;
    while k < sources.len()
        invariant
            k <= sources.len(),
            sv == sources_view(sources@),
            keyed_from(sv, path@, 0) == keyed_from(sv, path@, k as int),
        decreases sources.len() - k,
    {
        assert(sv[k as int] == (sources@[k as int].0@, sources@[k as int].1@));
        if str_eq(sources[k].0.as_str(), path) {
            return Some(sources[k].1.as_str());
        }
        k = k + 1;
    }
    None
}

/// The `contains` edges the aligned definitions derive, in order: each definition's document is
/// parsed as `language`, and the nearest persisted declaration enclosing its name span's start,
/// other than its own, contains it. A definition without a source, without extent, or spanning its
/// whole document derives none.
pub fn contains_edges(
    language: Language,
    aligned: &[AlignedOccurrence],
    sources: &[(String, String)],
    defs: &[(CanonicalId, String, ByteSpan)],
    types: &[(String, CanonicalId)],
) -> (r: Vec<(CanonicalId, CanonicalId)>)
    ensures
        exists|chains: Seq<Seq<SyntaxDeclaration>>|
            chains.len() == aligned@.len() && (forall|k: int| 0 <= k < chains.len() ==> parsed_chain(#[trigger] chains[k], language))
                && pairs_view(r@) == #[trigger] contains_of(
                aligned_views(aligned@),
                sources_view(sources@),
                defs_view(defs@),
                types_view(types@),
                chains,
                aligned@.len() as int,
            ),
{
    let ghost av = aligned_views(aligned@);
    let ghost sv = sources_view(sources@);
    let ghost mut chains: Seq<Seq<SyntaxDeclaration>> = Seq::empty();
    let mut out: Vec<(CanonicalId, CanonicalId)> = Vec::new();
    let mut k: usize = 0;
    while k < aligned.len()
        invariant
            k <= aligned.len(),
            av == aligned_views(aligned@),
            sv == sources_view(sources@),
            chains.len() == k,
            forall|j: int| 0 <= j < chains.len() ==> parsed_chain(#[trigger] chains[j], language),
            pairs_view(out@) == contains_of(av, sv, defs_view(defs@), types_view(types@), chains, k as int),
        decreases aligned.len() - k,
    {
        let a = &aligned[k];
        let ghost before = pairs_view(out@);
        assert(av[k as int] == super::join::aligned_view(aligned@[k as int]));
        let mut chain: Vec<SyntaxDeclaration> = Vec::new();
        proof {
            assert(chain@ == declarations_from(Seq::<SyntaxNode>::empty(), language, None));
        }
        if let OccurrenceRole::Definition = a.role {
            if let Some(text) = source_opt(sources, a.document_path.as_str()) {
                let len = text.as_bytes().len();
                if derives_parent(a.name_span, Some(len)) {
                    let tree = SyntaxTree::parse(text, language).unwrap();
                    chain = tree.enclosing_declarations(a.name_span.start);
                    let texts = texts_of(text, &chain);
                    match parent_of_definition(
                        chain.as_slice(),
                        texts.as_slice(),
                        a.document_path.as_str(),
                        a.name_span,
                        defs,
                        types,
                    ) {
                        Some(parent) => {
                            out.push((parent, a.symbol.clone()));
                            assert(pairs_view(out@) =~= before.push((parent@, a.symbol@)));
                        },
                        None => {},
                    }
                }
            }
        }
        proof {
            let c2 = chains.push(chain@);
            lemma_contains_prefix(av, sv, defs_view(defs@), types_view(types@), chains, c2, k as int);
            chains = c2;
            assert(pairs_view(out@) =~= contains_of(av, sv, defs_view(defs@), types_view(types@), chains, k + 1));
        }
        k = k + 1;
    }
    out
}

/// A discrepancy row as plain values: document, span, outcome tag, expected name, found text.
pub type DiscrepancyView = (Seq<char>, Option<(usize, usize)>, Seq<char>, Seq<char>, Option<Seq<char>>);

/// The discrepancy rows as plain values.
pub open spec fn discrepancies_view(rows: Seq<DiscrepancyRow>) -> Seq<DiscrepancyView> {
    rows.map_values(
        |d: DiscrepancyRow| (d.document_path@, d.span, d.outcome@, d.expected_name@, ostr(d.found_text)),
    )
}

/// The row persisted for one refused occurrence: its document, its span when it normalized, its
/// outcome's tag, the expected name and the text found there.
pub open spec fn discrepancy_of(u: (Seq<char>, Seq<char>, OccurrenceRole, super::join::JoinOutcome, Option<ByteSpan>, Seq<char>, Option<Seq<char>>)) -> DiscrepancyView {
    (
        u.1,
        match u.4 {
            Some(s) => Some((s.start, s.end)),
            None => None,
        },
        outcome_tag(u.3),
        u.5,
        u.6,
    )
}

/// The discrepancy rows of a build: one per refused occurrence, in order.
pub fn discrepancy_rows(unaligned: &[UnalignedOccurrence]) -> (r: Vec<DiscrepancyRow>)
    ensures
        discrepancies_view(r@) == unaligned@.map_values(
            |u: UnalignedOccurrence| discrepancy_of(unaligned_view(u)),
        ),
{
    let mut out: Vec<DiscrepancyRow> = Vec::new();
    let mut k: usize = 0;
    while k < unaligned.len()
        invariant
            k <= unaligned.len(),
            discrepancies_view(out@) == unaligned@.take(k as int).map_values(
                |u: UnalignedOccurrence| discrepancy_of(unaligned_view(u)),
            ),
        decreases unaligned.len() - k,
    {
        let u = &unaligned[k];
        let ghost before = discrepancies_view(out@);
        let found_text = match &u.found_text {
            Some(t) => Some(t.clone()),
            None => None,
        };
        out.push(
            DiscrepancyRow {
                document_path: u.document_path.clone(),
                span: match u.span {
                    Some(s) => Some((s.start, s.end)),
                    None => None,
                },
                outcome: u.outcome.tag().to_owned(),
                expected_name: u.expected_name.clone(),
                found_text,
            },
        );
        assert(discrepancies_view(out@) =~= before.push(discrepancy_of(unaligned_view(*u))));
        assert(unaligned@.take(k + 1) =~= unaligned@.take(k as int).push(*u));
        assert(unaligned@.take(k + 1).map_values(|u: UnalignedOccurrence| discrepancy_of(unaligned_view(u)))
            =~= unaligned@.take(k as int).map_values(|u: UnalignedOccurrence| discrepancy_of(unaligned_view(u))).push(
            discrepancy_of(unaligned_view(*u)),
        ));
        k = k + 1;
    }
    assert(unaligned@.take(unaligned.len() as int) =~= unaligned@);
    out
}

/// Whether a definition list already holds an entry for symbol `s`.
pub open spec fn defines(defs: Seq<(Seq<char>, Seq<char>, ByteSpan)>, s: Seq<char>) -> bool {
    exists|i: int| 0 <= i < defs.len() && (#[trigger] defs[i]).0 == s
}

/// The definition locations of the first `n` aligned occurrences: each symbol's first aligned
/// definition, with its document and name span, in order of first appearance.
pub open spec fn definitions_among(aligned: Seq<AlignedView>, n: int) -> Seq<(Seq<char>, Seq<char>, ByteSpan)>
    decreases n,
{
    if n <= 0 {
        Seq::empty()
    } else {
        let rest = definitions_among(aligned, n - 1);
        let a = aligned[n - 1];
        if a.3 == OccurrenceRole::Definition && !defines(rest, a.0) {
            rest.push((a.0, a.1, a.2))
        } else {
            rest
        }
    }
}

/// Each symbol's definition location: its first aligned definition, with its document and name
/// span, in order of first appearance.
pub fn definition_locations(aligned: &[AlignedOccurrence]) -> (r: Vec<(CanonicalId, String, ByteSpan)>)
    ensures
        defs_view(r@) == definitions_among(aligned_views(aligned@), aligned@.len() as int),
{
    let ghost av = aligned_views(aligned@);
    let mut out: Vec<(CanonicalId, String, ByteSpan)> = Vec::new();
    let mut k: usize = 0;
    while k < aligned.len()
        invariant
            k <= aligned.len(),
            av == aligned_views(aligned@),
            defs_view(out@) == definitions_among(av, k as int),
        decreases aligned.len() - k,
    {
        let a = &aligned[k];
        let ghost dv = defs_view(out@);
        assert(av[k as int] == super::join::aligned_view(aligned@[k as int]));
        if let OccurrenceRole::Definition = a.role {
            let mut seen = false;
            let mut j: usize = 0;
            while j < out.len()
                invariant
                    j <= out.len(),
                    dv == defs_view(out@),
                    seen <==> exists|i: int| 0 <= i < j && (#[trigger] dv[i]).0 == a.symbol@,
                decreases out.len() - j,
            {
                assert(dv[j as int].0 == out@[j as int].0@);
                if str_eq(out[j].0.as_str(), a.symbol.as_str()) {
                    seen = true;
                }
                j = j + 1;
            }
            if !seen {
                out.push((a.symbol.clone(), a.document_path.clone(), a.name_span));
                assert(defs_view(out@) =~= dv.push((a.symbol@, a.document_path@, a.name_span)));
            }
        }
        k = k + 1;
    }
    out
}

/// An occurrence row as plain values: symbol, document, span, role tag, rule tag, enclosing
/// identity, locality tag.
pub type OccurrenceRowView = (Seq<char>, Seq<char>, (usize, usize), Seq<char>, Seq<char>, Option<Seq<char>>, Option<Seq<char>>);

/// The occurrence rows as plain values.
pub open spec fn occurrence_rows_view(rows: Seq<OccurrenceRow>) -> Seq<OccurrenceRowView> {
    rows.map_values(
        |o: OccurrenceRow| (
            o.symbol_id@,
            o.document_path@,
            o.span,
            o.role@,
            o.rule@,
            match o.enclosing_id {
                Some(e) => Some(e@),
                None => None,
            },
            ostr(o.locality),
        ),
    )
}

/// The row persisted for one aligned occurrence: a reference is attributed to the nearest persisted
/// declaration enclosing it.
pub open spec fn occurrence_row_of(
    a: AlignedView,
    sources: Seq<(Seq<char>, Seq<char>)>,
    defs: Seq<(Seq<char>, Seq<char>, ByteSpan)>,
    types: Seq<(Seq<char>, Seq<char>)>,
) -> OccurrenceRowView {
    (
        a.0,
        a.1,
        (a.2.start, a.2.end),
        match a.3 {
            OccurrenceRole::Definition => "definition"@,
            OccurrenceRole::Reference => "reference"@,
        },
        rule_tag(a.4),
        if a.3 == OccurrenceRole::Reference {
            enclosing_spec(a.6, chain_texts(source_of(sources, a.1), a.6), a.1, defs, types)
        } else {
            None
        },
        match a.5 {
            Some(l) => Some(locality_tag(l)),
            None => None,
        },
    )
}

/// The occurrence rows of a build, one per aligned occurrence, in order.
pub fn occurrence_rows(
    aligned: &[AlignedOccurrence],
    sources: &[(String, String)],
    defs: &[(CanonicalId, String, ByteSpan)],
    types: &[(String, CanonicalId)],
) -> (r: Vec<OccurrenceRow>)
    ensures
        occurrence_rows_view(r@) == aligned_views(aligned@).map_values(
            |a: AlignedView| occurrence_row_of(a, sources_view(sources@), defs_view(defs@), types_view(types@)),
        ),
{
    let ghost av = aligned_views(aligned@);
    let ghost sv = sources_view(sources@);
    let mut out: Vec<OccurrenceRow> = Vec::new();
    let mut k: usize = 0;
    while k < aligned.len()
        invariant
            k <= aligned.len(),
            av == aligned_views(aligned@),
            sv == sources_view(sources@),
            occurrence_rows_view(out@) == av.take(k as int).map_values(
                |a: AlignedView| occurrence_row_of(a, sv, defs_view(defs@), types_view(types@)),
            ),
        decreases aligned.len() - k,
    {
        let a = &aligned[k];
        let ghost before = occurrence_rows_view(out@);
        assert(av[k as int] == super::join::aligned_view(aligned@[k as int]));
        let enclosing_id = match a.role {
            OccurrenceRole::Reference => {
                let source = source_for(sources, a.document_path.as_str());
                let texts = texts_of(source, &a.enclosing);
                enclosing_symbol(a.enclosing.as_slice(), texts.as_slice(), a.document_path.as_str(), defs, types)
            },
            OccurrenceRole::Definition => None,
        };
        let locality = match a.locality {
            Some(l) => Some(l.tag().to_owned()),
            None => None,
        };
        out.push(
            OccurrenceRow {
                symbol_id: a.symbol.clone(),
                document_path: a.document_path.clone(),
                span: (a.name_span.start, a.name_span.end),
                role: role_tag(a.role).to_owned(),
                rule: a.rule.tag().to_owned(),
                enclosing_id,
                locality,
            },
        );
        assert(occurrence_rows_view(out@) =~= before.push(occurrence_row_of(av[k as int], sv, defs_view(defs@), types_view(types@))));
        assert(av.take(k + 1) =~= av.take(k as int).push(av[k as int]));
        assert(av.take(k + 1).map_values(|a: AlignedView| occurrence_row_of(a, sv, defs_view(defs@), types_view(types@)))
            =~= av.take(k as int).map_values(|a: AlignedView| occurrence_row_of(a, sv, defs_view(defs@), types_view(types@))).push(
            occurrence_row_of(av[k as int], sv, defs_view(defs@), types_view(types@)),
        ));
        k = k + 1;
    }
    assert(av.take(aligned.len() as int) =~= av);
    out
}

/// Whether identity `s` is among `ids`.
pub open spec fn listed_id(ids: Seq<CanonicalId>, s: Seq<char>) -> bool {
    exists|i: int| 0 <= i < ids.len() && (#[trigger] ids[i])@ == s
}

/// Whether a document-module list already holds document `d`.
pub open spec fn has_document(mods: Seq<(Seq<char>, Seq<char>)>, d: Seq<char>) -> bool {
    exists|i: int| 0 <= i < mods.len() && (#[trigger] mods[i]).0 == d
}

/// The module of each document among the first `n` aligned occurrences: the first aligned
/// definition of a module symbol in it, in order of first appearance.
pub open spec fn document_modules_among(aligned: Seq<AlignedView>, module_ids: Seq<CanonicalId>, n: int) -> Seq<(Seq<char>, Seq<char>)>
    decreases n,
{
    if n <= 0 {
        Seq::empty()
    } else {
        let rest = document_modules_among(aligned, module_ids, n - 1);
        let a = aligned[n - 1];
        if a.3 == OccurrenceRole::Definition && listed_id(module_ids, a.0) && !has_document(rest, a.1) {
            rest.push((a.1, a.0))
        } else {
            rest
        }
    }
}

/// The module of each document: the first aligned definition of one of the `module_ids` in it.
pub fn document_modules(aligned: &[AlignedOccurrence], module_ids: &[CanonicalId]) -> (r: Vec<(String, CanonicalId)>)
    ensures
        modules_view(r@) == document_modules_among(aligned_views(aligned@), module_ids@, aligned@.len() as int),
{
    let ghost av = aligned_views(aligned@);
    let mut out: Vec<(String, CanonicalId)> = Vec::new();
    let mut k: usize = 0;
    while k < aligned.len()
        invariant
            k <= aligned.len(),
            av == aligned_views(aligned@),
            modules_view(out@) == document_modules_among(av, module_ids@, k as int),
        decreases aligned.len() - k,
    {
        let a = &aligned[k];
        let ghost mv = modules_view(out@);
        assert(av[k as int] == super::join::aligned_view(aligned@[k as int]));
        if let OccurrenceRole::Definition = a.role {
            let mut is_module = false;
            let mut i: usize = 0;
            while i < module_ids.len()
                invariant
                    i <= module_ids.len(),
                    is_module <==> exists|j: int| 0 <= j < i && (#[trigger] module_ids@[j])@ == a.symbol@,
                decreases module_ids.len() - i,
            {
                if str_eq(module_ids[i].as_str(), a.symbol.as_str()) {
                    is_module = true;
                }
                i = i + 1;
            }
            if is_module {
                let mut seen = false;
                let mut j: usize = 0;
                while j < out.len()
                    invariant
                        j <= out.len(),
                        mv == modules_view(out@),
                        seen <==> exists|m: int| 0 <= m < j && (#[trigger] mv[m]).0 == a.document_path@,
                    decreases out.len() - j,
                {
                    assert(mv[j as int].0 == out@[j as int].0@);
                    if str_eq(out[j].0.as_str(), a.document_path.as_str()) {
                        seen = true;
                    }
                    j = j + 1;
                }
                if !seen {
                    out.push((a.document_path.clone(), a.symbol.clone()));
                    assert(modules_view(out@) =~= mv.push((a.document_path@, a.symbol@)));
                }
            }
        }
        k = k + 1;
    }
    out
}

} // verus!
