//! A build's plan: from a semantic index model and the workspace's sources, everything one build
//! persists — the symbol rows, the join's attributions (per-symbol and group-addressed
//! occurrences, the alias pass, the syntax-only count), the occurrence rows, the dependency,
//! containment and hierarchy edges, the discrepancy rows and the metadata — computed before
//! anything is written.

use vstd::prelude::*;
use vstd::utf8::encode_utf8;

use crate::identity::{project_identities, CanonicalId, Descriptor, WorkspaceId};
use crate::model::{AnalyzerProvenance, EnvironmentFacts, OccurrenceRole, PositionEncoding, SourceRange, SymbolKind};
use crate::text::str_eq;

use super::chunk::{ChunkParams, DEFAULT_CHUNK_OVERLAP, DEFAULT_CHUNK_SIZE};
use super::edges::{
    contains_edges, contains_of, definition_locations, definitions_among, dependencies_view, dependency_edges,
    discrepancies_view, discrepancy_of, discrepancy_rows, document_modules, document_modules_among, edges_of,
    modules_view, occurrence_row_of, occurrence_rows, occurrence_rows_view, pairs_view, parsed_chain,
};
use super::hierarchy::{aligned_views, documents_edges, edges_view, source_paths, type_hierarchy_edges};
use super::ingest::{defines_document_module, defs_view, first_document_module, module_by_document, types_view, ModuleDefinition};
use super::store::{DiscrepancyRow, EdgeKind, IndexMetadata, OccurrenceRow, PersistedClass, SymbolRow};
use super::{content_hash_of, docs_view};
use super::twins::{
    carries, counted, duplicated_at, duplicated_descriptor_symbols, group_base_identity, parent_document_map, select_group_twin,
    twin_symbols_by_descriptor, SymbolEvidence,
};
use super::join::{
    alias_alignments, alias_pass, aligned_sum, kept_refusals, syntax_only_count, AliasEvidence,
    aligned_entries, case_outcomes, case_well_formed, chains_fit, counts_outcomes, first_pass_ambiguous, join_pass,
    semantic_sum, unaligned_entries, unaligned_view, AlignedOccurrence, AlignedView, JoinCase, JoinResult, Location,
    UnalignedOccurrence,
};
use super::range::{range_span, range_to_span, ByteSpan, LineIndex};
use super::rules::{ostr, SiteFacts};
use super::syntax::{AliasBinding, Language, SyntaxDeclaration};
use super::tree::{SyntaxNode, SyntaxTree};

verus! {

/// One occurrence of a symbol as a semantic index reports it.
#[derive(Debug, Clone)]
pub struct IndexOccurrence {
    /// The document the occurrence sits in.
    pub document_path: String,
    /// Its range, in the document's position encoding.
    pub range: SourceRange,
    /// Its role.
    pub role: OccurrenceRole,
}

/// One symbol of a semantic index.
#[derive(Debug, Clone)]
pub struct IndexSymbol {
    /// The resolved descriptor, if the index gives one.
    pub descriptor: Option<Descriptor>,
    /// The symbol kind.
    pub kind: SymbolKind,
    /// Whether the symbol is defined outside the workspace.
    pub external: bool,
    /// The symbol's occurrences, in index order.
    pub occurrences: Vec<IndexOccurrence>,
}

/// One document of a semantic index, with the encoding its ranges count characters in.
#[derive(Debug, Clone)]
pub struct IndexDocument {
    /// The document path.
    pub path: String,
    /// The position encoding of its ranges.
    pub encoding: PositionEncoding,
}

/// A semantic index as the build reads it: the analyzer that produced it, its declared
/// environment, its documents and its symbols.
#[derive(Debug, Clone)]
pub struct IndexModel {
    /// The analyzer provenance.
    pub provenance: AnalyzerProvenance,
    /// The backend's declared environment facts, if any.
    pub environment: Option<EnvironmentFacts>,
    /// The indexed documents.
    pub documents: Vec<IndexDocument>,
    /// The symbols.
    pub symbols: Vec<IndexSymbol>,
    /// The occurrences addressed to a descriptor several symbols share, by descriptor.
    pub duplicate_groups: Vec<IndexGroup>,
    /// Each package's library root document, as (package, document) pairs, where the build
    /// system describes one.
    pub library_roots: Vec<(String, String)>,
}

/// The occurrences an index addresses to a duplicated descriptor rather than to one symbol.
#[derive(Debug, Clone)]
pub struct IndexGroup {
    /// The shared descriptor.
    pub descriptor: Descriptor,
    /// The group's occurrences, in index order.
    pub occurrences: Vec<IndexOccurrence>,
}

/// Whether document `path` is listed by the index.
pub open spec fn lists_document(docs: Seq<IndexDocument>, path: Seq<char>) -> bool {
    exists|i: int| 0 <= i < docs.len() && (#[trigger] docs[i]).path@ == path
}

impl IndexModel {
    /// Whether every occurrence's document is listed, so its encoding is known.
    pub open spec fn well_formed(&self) -> bool {
        &&& forall|s: int, o: int|
            0 <= s < self.symbols@.len() && 0 <= o < self.symbols@[s].occurrences@.len() ==> lists_document(
                self.documents@,
                (#[trigger] self.symbols@[s].occurrences@[o]).document_path@,
            )
        &&& forall|g: int, o: int|
            0 <= g < self.duplicate_groups@.len() && 0 <= o < self.duplicate_groups@[g].occurrences@.len() ==> lists_document(
                self.documents@,
                (#[trigger] self.duplicate_groups@[g].occurrences@[o]).document_path@,
            )
    }
}

/// The position encoding of document `path`: the first listing's.
pub open spec fn encoding_from(docs: Seq<IndexDocument>, path: Seq<char>, k: int) -> Option<PositionEncoding>
    decreases docs.len() - k,
{
    if k < 0 || k >= docs.len() {
        None
    } else if docs[k].path@ == path {
        Some(docs[k].encoding)
    } else {
        encoding_from(docs, path, k + 1)
    }
}

/// The position encoding of document `path`.
fn encoding_of(docs: &Vec<IndexDocument>, path: &str) -> (r: Option<PositionEncoding>)
    ensures
        r == encoding_from(docs@, path@, 0),
        lists_document(docs@, path@) ==> r is Some,
{
    let mut k: usize = 0;
    while k < docs.len()
        invariant
            k <= docs.len(),
            encoding_from(docs@, path@, 0) == encoding_from(docs@, path@, k as int),
            forall|m: int| 0 <= m < k ==> (#[trigger] docs@[m]).path@ != path@,
        decreases docs.len() - k,
    {
        if str_eq(docs[k].path.as_str(), path) {
            return Some(docs[k].encoding);
        }
        k = k + 1;
    }
    None
}

/// The position of the first source of document `path`, searching from `k`.
pub open spec fn source_from(sources: Seq<(String, String)>, path: Seq<char>, k: int) -> Option<int>
    decreases sources.len() - k,
{
    if k < 0 || k >= sources.len() {
        None
    } else if sources[k].0@ == path {
        Some(k)
    } else {
        source_from(sources, path, k + 1)
    }
}

/// The position of the first source of document `path`.
fn source_position(sources: &[(String, String)], path: &str) -> (r: Option<usize>)
    ensures
        r is None ==> source_from(sources@, path@, 0) is None,
        r matches Some(k) ==> k < sources@.len() && source_from(sources@, path@, 0) == Some(k as int),
{
    let mut k: usize = 0;
    while k < sources.len()
        invariant
            k <= sources.len(),
            source_from(sources@, path@, 0) == source_from(sources@, path@, k as int),
        decreases sources.len() - k,
    {
        if str_eq(sources[k].0.as_str(), path) {
            return Some(k);
        }
        k = k + 1;
    }
    None
}

/// A line index and a syntax tree for each source, in source order.
fn prepare(sources: &[(String, String)], language: Language) -> (r: (Vec<LineIndex>, Vec<Option<SyntaxTree>>))
    ensures
        r.0@.len() == sources@.len(),
        r.1@.len() == sources@.len(),
        forall|k: int| 0 <= k < sources@.len() ==> (#[trigger] r.0@[k]).describes(sources@[k].1@),
        forall|k: int|
            0 <= k < sources@.len() ==> ((#[trigger] r.1@[k]) matches Some(t) && t.source_view() == sources@[k].1@
                && t.language_of() == language),
{
    let mut lines: Vec<LineIndex> = Vec::new();
    let mut trees: Vec<Option<SyntaxTree>> = Vec::new();
    let mut k: usize = 0;
    while k < sources.len()
        invariant
            k <= sources.len(),
            lines@.len() == k,
            trees@.len() == k,
            forall|m: int| 0 <= m < k ==> (#[trigger] lines@[m]).describes(sources@[m].1@),
            forall|m: int|
                0 <= m < k ==> ((#[trigger] trees@[m]) matches Some(t) && t.source_view() == sources@[m].1@
                    && t.language_of() == language),
        decreases sources.len() - k,
    {
        let text = sources[k].1.as_str();
        lines.push(LineIndex::new(text));
        trees.push(SyntaxTree::parse(text, language));
        k = k + 1;
    }
    (lines, trees)
}

/// Whether symbol `s` enters the join: persisted, with a descriptor that names it.
pub open spec fn joins_symbol(index: IndexModel, ids: Seq<Option<CanonicalId>>, s: int) -> bool {
    &&& ids[s] is Some
    &&& index.symbols@[s].descriptor is Some
    &&& index.symbols@[s].descriptor.unwrap()@.1.len() > 0
}

/// The (symbol, occurrence) positions the join reads among the first `n` symbols, in index order:
/// every occurrence of every symbol that enters the join.
pub open spec fn case_keys(index: IndexModel, ids: Seq<Option<CanonicalId>>, n: int) -> Seq<(int, int)>
    decreases n,
{
    if n <= 0 {
        Seq::empty()
    } else {
        case_keys(index, ids, n - 1) + if joins_symbol(index, ids, n - 1) {
            Seq::new(index.symbols@[n - 1].occurrences@.len(), |o: int| (n - 1, o))
        } else {
            Seq::empty()
        }
    }
}

/// The case for occurrence `o` of symbol `s` carries that symbol and occurrence as they are: the
/// identity, kind and descriptor, the document and role, the descriptor's terminal name as the
/// expected name, and whether the occurrence is ambiguous for want of a single twin.
pub open spec fn case_fields(c: JoinCase, index: IndexModel, ids: Seq<Option<CanonicalId>>, duplicated: Seq<bool>, s: int, o: int) -> bool {
    let sym = index.symbols@[s];
    let occ = sym.occurrences@[o];
    &&& c.symbol@ == ids[s].unwrap()@
    &&& c.kind == sym.kind
    &&& c.descriptor is Some
    &&& c.descriptor.unwrap()@ == sym.descriptor.unwrap()@
    &&& c.document_path@ == occ.document_path@
    &&& c.role == occ.role
    &&& c.expected_name@ == sym.descriptor.unwrap()@.1.last().0
    &&& c.ambiguous == (duplicated[s] && occ.role != OccurrenceRole::Definition)
    &&& c.locality is None
}

/// Where an occurrence lands: nowhere when its document has no source; unlocatable when its range
/// does not normalize onto the first source of its document (or starts at the last byte offset a
/// machine word can hold); otherwise at the normalized span.
pub open spec fn landing(location: Location, index: IndexModel, sources: Seq<(String, String)>, occ: IndexOccurrence) -> bool {
    match source_from(sources, occ.document_path@, 0) {
        None => location is NoSource,
        Some(p) => match range_span(
            sources[p].1@,
            occ.range,
            encoding_from(index.documents@, occ.document_path@, 0).unwrap(),
        ) {
            None => location is Unlocatable,
            Some((a, b)) => if a >= usize::MAX {
                location is Unlocatable
            } else {
                &&& location is At
                &&& location->span.start == a
                &&& location->span.end == b
            },
        },
    }
}

/// The symbols' descriptors, in index order.
pub open spec fn index_descriptors(index: IndexModel) -> Seq<Option<Descriptor>> {
    index.symbols@.map_values(|sym: IndexSymbol| sym.descriptor)
}

/// Whether two optional descriptors are present together and equal as values.
pub open spec fn same_descriptor(a: Option<Descriptor>, b: Option<Descriptor>) -> bool {
    &&& (a is Some <==> b is Some)
    &&& (a is Some ==> a.unwrap()@ == b.unwrap()@)
}

/// Descriptors equal as values leave the same present descriptors.
proof fn lemma_present_same(a: Seq<Option<Descriptor>>, b: Seq<Option<Descriptor>>)
    requires
        a.len() == b.len(),
        forall|i: int| 0 <= i < a.len() ==> same_descriptor(#[trigger] a[i], b[i]),
    ensures
        crate::identity::present_descriptors(a) == crate::identity::present_descriptors(b),
    decreases a.len(),
{
    if a.len() > 0 {
        let (x, y) = (a.drop_last(), b.drop_last());
        assert forall|i: int| 0 <= i < x.len() implies same_descriptor(#[trigger] x[i], y[i]) by {
            assert(x[i] == a[i] && y[i] == b[i]);
        }
        lemma_present_same(x, y);
    }
}

/// Whether `ids` are the identities the symbols are persisted under: a symbol without a
/// descriptor is not persisted, and every other is its descriptor projected among all present
/// descriptors.
pub open spec fn persisted_identities(ids: Seq<Option<CanonicalId>>, workspace: Seq<char>, index: IndexModel) -> bool {
    &&& ids.len() == index.symbols@.len()
    &&& forall|i: int| 0 <= i < ids.len() ==> ((#[trigger] ids[i]) is None <==> index.symbols@[i].descriptor is None)
    &&& forall|i: int|
        0 <= i < ids.len() && index.symbols@[i].descriptor is Some ==> (#[trigger] ids[i]).unwrap()@
            == crate::identity::identity_of(
            workspace,
            crate::identity::present_descriptors(index_descriptors(index)),
            crate::identity::present_descriptors(index_descriptors(index).take(i)).len() as int,
        )
}

/// The identities the symbols are persisted under, projected from their descriptors: a symbol
/// without a descriptor is not persisted.
pub fn symbol_identities(workspace: &WorkspaceId, index: &IndexModel) -> (r: Vec<Option<CanonicalId>>)
    ensures
        persisted_identities(r@, workspace@, *index),
{
    let mut descriptors: Vec<Option<Descriptor>> = Vec::new();
    let mut k: usize = 0;
    while k < index.symbols.len()
        invariant
            k <= index.symbols.len(),
            descriptors@.len() == k,
            forall|i: int| 0 <= i < k ==> same_descriptor(#[trigger] descriptors@[i], index.symbols@[i].descriptor),
        decreases index.symbols.len() - k,
    {
        descriptors.push(
            match &index.symbols[k].descriptor {
                Some(d) => Some(d.duplicate()),
                None => None,
            },
        );
        k = k + 1;
    }
    let r = project_identities(workspace, &descriptors);
    proof {
        let ds = index_descriptors(*index);
        assert forall|i: int| 0 <= i < ds.len() implies same_descriptor(#[trigger] descriptors@[i], ds[i]) by {}
        lemma_present_same(descriptors@, ds);
        assert forall|i: int| 0 <= i < r@.len() && index.symbols@[i].descriptor is Some implies (#[trigger] r@[i]).unwrap()@
            == crate::identity::identity_of(
            workspace@,
            crate::identity::present_descriptors(ds),
            crate::identity::present_descriptors(ds.take(i)).len() as int,
        ) by {
            assert forall|j: int| 0 <= j < i implies same_descriptor(#[trigger] descriptors@.take(i)[j], ds.take(i)[j]) by {}
            lemma_present_same(descriptors@.take(i), ds.take(i));
        }
    }
    r
}

/// Whether a location's facts and bindings fit together as the join reads them.
pub open spec fn location_well_formed(l: Location) -> bool {
    match l {
        Location::At { facts, bindings, binding_facts, document_module, .. } => bindings.len() == binding_facts.len()
            && chains_fit(
            match document_module {
                Some(d) => Some(&d),
                None => None,
            },
            seq![facts] + binding_facts@,
        ),
        _ => true,
    }
}

/// The descriptor of document `path`'s own module, when one is recorded.
fn document_module_of(index: &IndexModel, doc_module: &Vec<(String, usize)>, path: &str) -> (r: Option<Descriptor>)
    requires
        forall|k: int| 0 <= k < doc_module@.len() ==> (#[trigger] doc_module@[k]).1 < index.symbols@.len(),
{
    let mut k: usize = 0;
    while k < doc_module.len()
        invariant
            k <= doc_module.len(),
            forall|m: int| 0 <= m < doc_module@.len() ==> (#[trigger] doc_module@[m]).1 < index.symbols@.len(),
        decreases doc_module.len() - k,
    {
        if str_eq(doc_module[k].0.as_str(), path) {
            return match &index.symbols[doc_module[k].1].descriptor {
                Some(d) => Some(d.duplicate()),
                None => None,
            };
        }
        k = k + 1;
    }
    None
}

/// Whether a document module's descriptor leaves room for the inline modules the facts show.
fn chains_room(d: &Descriptor, facts: &SiteFacts, binding_facts: &Vec<SiteFacts>) -> (r: bool)
    ensures
        r ==> chains_fit(Some(d), seq![*facts] + binding_facts@),
{
    let n = d.segments.len();
    if facts.inline_modules.len() > usize::MAX - n {
        return false;
    }
    let mut k: usize = 0;
    while k < binding_facts.len()
        invariant
            k <= binding_facts.len(),
            n == d.segments.len(),
            n + facts.inline_modules.len() <= usize::MAX,
            forall|m: int| 0 <= m < k ==> n + (#[trigger] binding_facts@[m]).inline_modules.len() <= usize::MAX,
        decreases binding_facts.len() - k,
    {
        if binding_facts[k].inline_modules.len() > usize::MAX - n {
            return false;
        }
        k = k + 1;
    }
    proof {
        let all = seq![*facts] + binding_facts@;
        assert forall|i: int| 0 <= i < all.len() implies d.segments.len() + (#[trigger] all[i]).inline_modules.len() <= usize::MAX by {
            if i > 0 {
                assert(all[i] == binding_facts@[i - 1]);
            }
        }
    }
    true
}

/// What the tree shows at an occurrence that normalized onto `span`: the facts there, the
/// document's alias bindings with the facts at each target token, its own module and, when
/// `with_chain`, the declarations enclosing the span.
fn located(
    tree: &SyntaxTree,
    span: ByteSpan,
    with_chain: bool,
    document_module: Option<Descriptor>,
) -> (r: Location)
    requires
        span.start < usize::MAX,
    ensures
        r is At,
        r->span == span,
        location_well_formed(r),
{
    let facts = tree.site_facts(span);
    let all = tree.alias_bindings();
    let mut bindings: Vec<AliasBinding> = Vec::new();
    let mut binding_facts: Vec<SiteFacts> = Vec::new();
    let mut k: usize = 0;
    while k < all.len()
        invariant
            k <= all.len(),
            bindings@.len() == binding_facts@.len(),
        decreases all.len() - k,
    {
        let b = all[k];
        if b.target_token_span.start < usize::MAX {
            binding_facts.push(tree.site_facts(b.target_token_span));
            bindings.push(b);
        }
        k = k + 1;
    }
    let document_module = match document_module {
        Some(d) => if chains_room(&d, &facts, &binding_facts) {
            Some(d)
        } else {
            None
        },
        None => None,
    };
    let enclosing = if with_chain {
        tree.enclosing_declarations(span.start)
    } else {
        Vec::new()
    };
    Location::At { span, facts, bindings, binding_facts, document_module, enclosing }
}

/// The case for a key: its fields, where it lands, and facts that fit together.
pub open spec fn case_at(
    c: JoinCase,
    index: IndexModel,
    ids: Seq<Option<CanonicalId>>,
    duplicated: Seq<bool>,
    sources: Seq<(String, String)>,
    key: (int, int),
) -> bool {
    &&& case_fields(c, index, ids, duplicated, key.0, key.1)
    &&& landing(c.location, index, sources, index.symbols@[key.0].occurrences@[key.1])
    &&& case_well_formed(c)
}

/// Where occurrence `occ` lands among the sources, and what the tree shows there; the enclosing
/// declarations are read when `with_chain`.
fn locate(
    index: &IndexModel,
    occ: &IndexOccurrence,
    sources: &[(String, String)],
    lines: &Vec<LineIndex>,
    trees: &Vec<Option<SyntaxTree>>,
    doc_module: &Vec<(String, usize)>,
    with_chain: bool,
) -> (r: Location)
    requires
        lists_document(index.documents@, occ.document_path@),
        lines@.len() == sources@.len(),
        trees@.len() == sources@.len(),
        forall|k: int| 0 <= k < sources@.len() ==> (#[trigger] lines@[k]).describes(sources@[k].1@),
        forall|k: int| 0 <= k < sources@.len() ==> ((#[trigger] trees@[k]) matches Some(t) && t.source_view() == sources@[k].1@),
        forall|k: int| 0 <= k < doc_module@.len() ==> (#[trigger] doc_module@[k]).1 < index.symbols@.len(),
    ensures
        landing(r, *index, sources@, *occ),
        location_well_formed(r),
{
    let path = occ.document_path.as_str();
    let p = match source_position(sources, path) {
        Some(p) => p,
        None => return Location::NoSource,
    };
    let encoding = match encoding_of(&index.documents, path) {
        Some(e) => e,
        None => return Location::Unlocatable,
    };
    let text = sources[p].1.as_str();
    proof {
        assert(source_from(sources@, occ.document_path@, 0) == Some(p as int));
        assert(text@ == sources@[p as int].1@);
        assert(encoding_from(index.documents@, occ.document_path@, 0) == Some(encoding));
    }
    let span = match range_to_span(text, &lines[p], occ.range, encoding) {
        Some(sp) => sp,
        None => return Location::Unlocatable,
    };
    if span.start == usize::MAX {
        return Location::Unlocatable;
    }
    match &trees[p] {
        Some(tree) => located(tree, span, with_chain, document_module_of(index, doc_module, path)),
        None => Location::Unlocatable,
    }
}

/// The join's cases: one per occurrence of every persisted symbol whose descriptor names it, in
/// index order, each with where it lands in its document's first source and what the syntax shows
/// there. `duplicated[s]` says whether symbol `s`'s descriptor is shared by another persisted
/// definition; `doc_module` maps each document to the index symbol that is its own module.
pub fn join_cases(
    index: &IndexModel,
    ids: &Vec<Option<CanonicalId>>,
    duplicated: &Vec<bool>,
    sources: &[(String, String)],
    language: Language,
    doc_module: &Vec<(String, usize)>,
) -> (r: Vec<JoinCase>)
    requires
        index.well_formed(),
        ids@.len() == index.symbols@.len(),
        duplicated@.len() == index.symbols@.len(),
        forall|k: int| 0 <= k < doc_module@.len() ==> (#[trigger] doc_module@[k]).1 < index.symbols@.len(),
    ensures
        r@.len() == case_keys(*index, ids@, index.symbols@.len() as int).len(),
        forall|k: int|
            0 <= k < r@.len() ==> case_at(
                #[trigger] r@[k],
                *index,
                ids@,
                duplicated@,
                sources@,
                case_keys(*index, ids@, index.symbols@.len() as int)[k],
            ),
{
    let (lines, trees) = prepare(sources, language);
    let mut out: Vec<JoinCase> = Vec::new();
    let mut s: usize = 0;
    while s < index.symbols.len()
        invariant
            s <= index.symbols@.len(),
            index.well_formed(),
            ids@.len() == index.symbols@.len(),
            duplicated@.len() == index.symbols@.len(),
            forall|k: int| 0 <= k < doc_module@.len() ==> (#[trigger] doc_module@[k]).1 < index.symbols@.len(),
            lines@.len() == sources@.len(),
            trees@.len() == sources@.len(),
            forall|k: int| 0 <= k < sources@.len() ==> (#[trigger] lines@[k]).describes(sources@[k].1@),
            forall|k: int| 0 <= k < sources@.len() ==> ((#[trigger] trees@[k]) matches Some(t) && t.source_view() == sources@[k].1@),
            out@.len() == case_keys(*index, ids@, s as int).len(),
            forall|k: int|
                0 <= k < out@.len() ==> case_at(#[trigger] out@[k], *index, ids@, duplicated@, sources@, case_keys(*index, ids@, s as int)[k]),
        decreases index.symbols@.len() - s,
    {
        let ghost base = out@.len();
        let ghost before = case_keys(*index, ids@, s as int);
        let sym = &index.symbols[s];
        let mut entered = false;
        if let (Some(id), Some(d)) = (&ids[s], &sym.descriptor) {
            if let Some(name) = d.terminal_name() {
                entered = true;
                let dup = duplicated[s];
                let mut o: usize = 0;
                while o < sym.occurrences.len()
                    invariant
                        o <= sym.occurrences@.len(),
                        s < index.symbols@.len(),
                        *sym == index.symbols@[s as int],
                        sym.descriptor == Some(*d),
                        ids@[s as int] == Some(*id),
                        name@ == d@.1.last().0,
                        dup == duplicated@[s as int],
                        index.well_formed(),
                        ids@.len() == index.symbols@.len(),
                        duplicated@.len() == index.symbols@.len(),
                        forall|k: int| 0 <= k < doc_module@.len() ==> (#[trigger] doc_module@[k]).1 < index.symbols@.len(),
                        lines@.len() == sources@.len(),
                        trees@.len() == sources@.len(),
                        forall|k: int| 0 <= k < sources@.len() ==> (#[trigger] lines@[k]).describes(sources@[k].1@),
                        forall|k: int|
                            0 <= k < sources@.len() ==> ((#[trigger] trees@[k]) matches Some(t) && t.source_view() == sources@[k].1@),
                        before == case_keys(*index, ids@, s as int),
                        base == before.len(),
                        out@.len() == base + o,
                        forall|k: int|
                            0 <= k < base ==> case_at(#[trigger] out@[k], *index, ids@, duplicated@, sources@, before[k]),
                        forall|k: int|
                            base <= k < out@.len() ==> case_at(#[trigger] out@[k], *index, ids@, duplicated@, sources@, (s as int, k - base)),
                    decreases sym.occurrences@.len() - o,
                {
                    let occ = &sym.occurrences[o];
                    proof {
                        assert(lists_document(index.documents@, index.symbols@[s as int].occurrences@[o as int].document_path@));
                    }
                    let with_chain = match occ.role {
                        OccurrenceRole::Reference => true,
                        OccurrenceRole::Definition => false,
                    };
                    let location = locate(index, occ, sources, &lines, &trees, doc_module, with_chain);
                    let case = JoinCase {
                        symbol: id.clone(),
                        kind: sym.kind,
                        descriptor: Some(d.duplicate()),
                        document_path: occ.document_path.clone(),
                        role: occ.role,
                        expected_name: name.to_owned(),
                        ambiguous: first_pass_ambiguous(dup, occ.role),
                        locality: None,
                        location,
                    };
                    out.push(case);
                    proof {
                        assert(case_at(out@[out@.len() - 1], *index, ids@, duplicated@, sources@, (s as int, o as int)));
                    }
                    o = o + 1;
                }
            }
        }
        proof {
            let next = case_keys(*index, ids@, s + 1);
            assert(entered == joins_symbol(*index, ids@, s as int));
            if entered {
                assert(next == before + Seq::new(index.symbols@[s as int].occurrences@.len(), |o: int| (s as int, o)));
                assert forall|k: int| 0 <= k < out@.len() implies case_at(#[trigger] out@[k], *index, ids@, duplicated@, sources@, next[k]) by {
                    if k >= base {
                        assert(next[k] == (s as int, k - base));
                    } else {
                        assert(next[k] == before[k]);
                    }
                }
            } else {
                assert(next =~= before);
            }
        }
        s = s + 1;
    }
    out
}

/// The position of the first definition occurrence, searching from `k`.
pub open spec fn definition_from(occs: Seq<IndexOccurrence>, k: int) -> Option<int>
    decreases occs.len() - k,
{
    if k < 0 || k >= occs.len() {
        None
    } else if occs[k].role == OccurrenceRole::Definition {
        Some(k)
    } else {
        definition_from(occs, k + 1)
    }
}

/// The first definition occurrence among `occs`.
fn first_definition(occs: &Vec<IndexOccurrence>) -> (r: Option<usize>)
    ensures
        r is None ==> definition_from(occs@, 0) is None,
        r matches Some(k) ==> k < occs@.len() && definition_from(occs@, 0) == Some(k as int),
{
    let mut k: usize = 0;
    while k < occs.len()
        invariant
            k <= occs.len(),
            definition_from(occs@, 0) == definition_from(occs@, k as int),
        decreases occs.len() - k,
    {
        if crate::model::is_definition(occs[k].role) {
            return Some(k);
        }
        k = k + 1;
    }
    None
}

/// Symbol `s`'s module definition as the module derivation reads it: for a persisted module symbol
/// with a definition occurrence, that occurrence's document and range, its range normalized onto
/// the document's first source and that source's byte length, when the document has a source.
pub open spec fn module_definition_at(
    d: Option<ModuleDefinition>,
    index: IndexModel,
    ids: Seq<Option<CanonicalId>>,
    sources: Seq<(String, String)>,
    s: int,
) -> bool {
    let sym = index.symbols@[s];
    if ids[s] is Some && sym.kind == SymbolKind::Module && definition_from(sym.occurrences@, 0) is Some {
        let occ = sym.occurrences@[definition_from(sym.occurrences@, 0).unwrap()];
        &&& d is Some
        &&& d.unwrap().document_path@ == occ.document_path@
        &&& d.unwrap().range == occ.range
        &&& match source_from(sources, occ.document_path@, 0) {
            None => d.unwrap().span is None && d.unwrap().source_len is None,
            Some(p) => {
                let rs = range_span(sources[p].1@, occ.range, encoding_from(index.documents@, occ.document_path@, 0).unwrap());
                &&& d.unwrap().source_len == Some(encode_utf8(sources[p].1@).len() as usize)
                &&& (d.unwrap().span is None <==> rs is None)
                &&& (d.unwrap().span matches Some(sp) ==> rs == Some((sp.start as nat, sp.end as nat)))
            },
        }
    } else {
        d is None
    }
}

/// Each symbol's module definition, in index order.
pub fn module_definitions(index: &IndexModel, ids: &Vec<Option<CanonicalId>>, sources: &[(String, String)]) -> (r: Vec<Option<ModuleDefinition>>)
    requires
        index.well_formed(),
        ids@.len() == index.symbols@.len(),
    ensures
        r@.len() == index.symbols@.len(),
        forall|s: int| 0 <= s < r@.len() ==> module_definition_at(#[trigger] r@[s], *index, ids@, sources@, s),
{
    let mut out: Vec<Option<ModuleDefinition>> = Vec::new();
    let mut s: usize = 0;
    while s < index.symbols.len()
        invariant
            s <= index.symbols@.len(),
            index.well_formed(),
            ids@.len() == index.symbols@.len(),
            out@.len() == s,
            forall|m: int| 0 <= m < s ==> module_definition_at(#[trigger] out@[m], *index, ids@, sources@, m),
        decreases index.symbols@.len() - s,
    {
        let sym = &index.symbols[s];
        let mut d: Option<ModuleDefinition> = None;
        if ids[s].is_some() && matches!(sym.kind, SymbolKind::Module) {
            if let Some(k) = first_definition(&sym.occurrences) {
                let occ = &sym.occurrences[k];
                let path = occ.document_path.as_str();
                proof {
                    assert(lists_document(index.documents@, index.symbols@[s as int].occurrences@[k as int].document_path@));
                }
                let (span, source_len) = match source_position(sources, path) {
                    None => (None, None),
                    Some(p) => {
                        let text = sources[p].1.as_str();
                        let lines = LineIndex::new(text);
                        let span = match encoding_of(&index.documents, path) {
                            Some(e) => range_to_span(text, &lines, occ.range, e),
                            None => None,
                        };
                        (span, Some(text.len()))
                    },
                };
                d = Some(ModuleDefinition { document_path: occ.document_path.clone(), range: occ.range, span, source_len });
            }
        }
        out.push(d);
        s = s + 1;
    }
    out
}

/// The evidence the duplicate derivation reads of symbol `s`: its descriptor, its persisted
/// identity and the document of its first definition occurrence.
pub open spec fn evidence_matches(e: SymbolEvidence, index: IndexModel, ids: Seq<Option<CanonicalId>>, s: int) -> bool {
    let occs = index.symbols@[s].occurrences@;
    &&& same_descriptor(e.descriptor, index.symbols@[s].descriptor)
    &&& (e.identity is Some <==> ids[s] is Some)
    &&& match definition_from(occs, 0) {
        None => e.definition_document is None,
        Some(k) => e.definition_document is Some && e.definition_document.unwrap()@ == occs[k].document_path@,
    }
}

/// What the duplicate derivation reads of each symbol, in index order.
pub fn symbol_evidence(index: &IndexModel, ids: &Vec<Option<CanonicalId>>) -> (r: Vec<SymbolEvidence>)
    requires
        ids@.len() == index.symbols@.len(),
    ensures
        r@.len() == index.symbols@.len(),
        forall|m: int| 0 <= m < r@.len() ==> evidence_matches(#[trigger] r@[m], *index, ids@, m),
{
    let mut evidence: Vec<SymbolEvidence> = Vec::new();
    let mut s: usize = 0;
    while s < index.symbols.len()
        invariant
            s <= index.symbols@.len(),
            ids@.len() == index.symbols@.len(),
            evidence@.len() == s,
            forall|m: int| 0 <= m < s ==> evidence_matches(#[trigger] evidence@[m], *index, ids@, m),
        decreases index.symbols@.len() - s,
    {
        let sym = &index.symbols[s];
        let descriptor = match &sym.descriptor {
            Some(d) => Some(d.duplicate()),
            None => None,
        };
        let identity = match &ids[s] {
            Some(id) => Some(id.clone()),
            None => None,
        };
        let definition_document = match first_definition(&sym.occurrences) {
            Some(k) => Some(sym.occurrences[k].document_path.clone()),
            None => None,
        };
        evidence.push(SymbolEvidence { descriptor, identity, definition_document });
        s = s + 1;
    }
    evidence
}

/// Whether symbol `s`'s descriptor is shared by another persisted symbol with a definition, while
/// `s` is persisted with a definition too.
pub open spec fn shares_descriptor(index: IndexModel, ids: Seq<Option<CanonicalId>>, s: int) -> bool {
    &&& persisted_definition(index, ids, s)
    &&& exists|j: int|
        0 <= j < index.symbols@.len() && j != s && #[trigger] persisted_definition(index, ids, j)
            && index.symbols@[j].descriptor.unwrap()@ == index.symbols@[s].descriptor.unwrap()@
}

/// Whether symbol `j` is persisted with a descriptor and a definition occurrence.
pub open spec fn persisted_definition(index: IndexModel, ids: Seq<Option<CanonicalId>>, j: int) -> bool {
    &&& index.symbols@[j].descriptor is Some
    &&& ids[j] is Some
    &&& definition_from(index.symbols@[j].occurrences@, 0) is Some
}

/// For each symbol, whether its descriptor is duplicated among the persisted definitions.
pub fn duplicated_symbols(index: &IndexModel, ids: &Vec<Option<CanonicalId>>) -> (r: Vec<bool>)
    requires
        ids@.len() == index.symbols@.len(),
    ensures
        r@.len() == index.symbols@.len(),
        forall|s: int| 0 <= s < r@.len() ==> #[trigger] r@[s] == shares_descriptor(*index, ids@, s),
{
    let evidence = symbol_evidence(index, ids);
    let r = duplicated_descriptor_symbols(&evidence);
    proof {
        let ev = evidence@;
        assert forall|s: int| 0 <= s < r@.len() implies #[trigger] r@[s] == shares_descriptor(*index, ids@, s) by {
            assert(evidence_matches(ev[s], *index, ids@, s));
            assert(counted(ev[s]) == persisted_definition(*index, ids@, s));
            if duplicated_at(ev, s) {
                let j = choose|j: int| 0 <= j < ev.len() && j != s && counted(#[trigger] ev[j]) && carries(ev[j], ev[s].descriptor.unwrap()@);
                assert(evidence_matches(ev[j], *index, ids@, j));
                assert(persisted_definition(*index, ids@, j));
            }
            if shares_descriptor(*index, ids@, s) {
                let j = choose|j: int|
                    0 <= j < index.symbols@.len() && j != s && #[trigger] persisted_definition(*index, ids@, j)
                        && index.symbols@[j].descriptor.unwrap()@ == index.symbols@[s].descriptor.unwrap()@;
                assert(evidence_matches(ev[j], *index, ids@, j));
                assert(counted(ev[j]) && carries(ev[j], ev[s].descriptor.unwrap()@));
            }
        }
    }
    r
}

/// The persisted types and traits by terminal name among the first `n` symbols, in index order;
/// a lookup takes the first entry of a name.
pub open spec fn type_entries(index: IndexModel, ids: Seq<Option<CanonicalId>>, n: int) -> Seq<(Seq<char>, Seq<char>)>
    decreases n,
{
    if n <= 0 {
        Seq::empty()
    } else {
        let sym = index.symbols@[n - 1];
        type_entries(index, ids, n - 1) + if ids[n - 1] is Some && (sym.kind == SymbolKind::Type || sym.kind
            == SymbolKind::Trait) && sym.descriptor is Some && sym.descriptor.unwrap()@.1.len() > 0 {
            seq![(sym.descriptor.unwrap()@.1.last().0, ids[n - 1].unwrap()@)]
        } else {
            Seq::empty()
        }
    }
}

/// The identities of the persisted module symbols among the first `n` symbols, in index order.
pub open spec fn module_entries(index: IndexModel, ids: Seq<Option<CanonicalId>>, n: int) -> Seq<Seq<char>>
    decreases n,
{
    if n <= 0 {
        Seq::empty()
    } else {
        module_entries(index, ids, n - 1) + if ids[n - 1] is Some && index.symbols@[n - 1].kind == SymbolKind::Module {
            seq![ids[n - 1].unwrap()@]
        } else {
            Seq::empty()
        }
    }
}

/// The persisted types by terminal name, and the persisted module identities.
pub fn symbol_tables(index: &IndexModel, ids: &Vec<Option<CanonicalId>>) -> (r: (Vec<(String, CanonicalId)>, Vec<CanonicalId>))
    requires
        ids@.len() == index.symbols@.len(),
    ensures
        super::ingest::types_view(r.0@) == type_entries(*index, ids@, index.symbols@.len() as int),
        r.1@.map_values(|c: CanonicalId| c@) == module_entries(*index, ids@, index.symbols@.len() as int),
{
    let mut types: Vec<(String, CanonicalId)> = Vec::new();
    let mut modules: Vec<CanonicalId> = Vec::new();
    let mut s: usize = 0;
    while s < index.symbols.len()
        invariant
            s <= index.symbols@.len(),
            ids@.len() == index.symbols@.len(),
            super::ingest::types_view(types@) == type_entries(*index, ids@, s as int),
            modules@.map_values(|c: CanonicalId| c@) == module_entries(*index, ids@, s as int),
        decreases index.symbols@.len() - s,
    {
        let sym = &index.symbols[s];
        let ghost tb = types@;
        let ghost mb = modules@;
        if let Some(id) = &ids[s] {
            let typed = match sym.kind {
                SymbolKind::Type => true,
                SymbolKind::Trait => true,
                _ => false,
            };
            if typed {
                if let Some(d) = &sym.descriptor {
                    if let Some(name) = d.terminal_name() {
                        types.push((name.to_owned(), id.clone()));
                    }
                }
            }
            if crate::model::is_module_kind(sym.kind) {
                modules.push(id.clone());
            }
        }
        proof {
            assert(super::ingest::types_view(types@) =~= type_entries(*index, ids@, s + 1));
            assert(modules@.map_values(|c: CanonicalId| c@) =~= module_entries(*index, ids@, s + 1));
        }
        s = s + 1;
    }
    (types, modules)
}

/// The module recorded for each document by the module derivation, for persisted symbols.
pub open spec fn recorded_modules(dm: Seq<(String, usize)>, ids: Seq<Option<CanonicalId>>, n: int) -> Seq<(Seq<char>, Seq<char>)>
    decreases n,
{
    if n <= 0 {
        Seq::empty()
    } else {
        recorded_modules(dm, ids, n - 1) + if ids[dm[n - 1].1 as int] is Some {
            seq![(dm[n - 1].0@, ids[dm[n - 1].1 as int].unwrap()@)]
        } else {
            Seq::empty()
        }
    }
}

/// Each document's module: the first aligned module definition in it, then, for Python, the
/// module the derivation recorded for it (a lookup takes the first entry of a document).
fn module_table(
    aligned: &[AlignedOccurrence],
    module_ids: &[CanonicalId],
    dm: &Vec<(String, usize)>,
    ids: &Vec<Option<CanonicalId>>,
    language: Language,
) -> (r: Vec<(String, CanonicalId)>)
    requires
        forall|k: int| 0 <= k < dm@.len() ==> (#[trigger] dm@[k]).1 < ids@.len(),
    ensures
        modules_view(r@) == document_modules_among(aligned_views(aligned@), module_ids@, aligned@.len() as int) + if language
            == Language::Python {
            recorded_modules(dm@, ids@, dm@.len() as int)
        } else {
            Seq::empty()
        },
{
    let mut r = document_modules(aligned, module_ids);
    let ghost first = modules_view(r@);
    if matches!(language, Language::Python) {
        let mut k: usize = 0;
        while k < dm.len()
            invariant
                k <= dm@.len(),
                forall|m: int| 0 <= m < dm@.len() ==> (#[trigger] dm@[m]).1 < ids@.len(),
                modules_view(r@) == first + recorded_modules(dm@, ids@, k as int),
            decreases dm@.len() - k,
        {
            let ghost before = r@;
            proof {
                assert(recorded_modules(dm@, ids@, k + 1) == recorded_modules(dm@, ids@, k as int) + if ids@[dm@[k as int].1 as int] is Some {
                    seq![(dm@[k as int].0@, ids@[dm@[k as int].1 as int].unwrap()@)]
                } else {
                    Seq::empty()
                });
            }
            if let Some(id) = &ids[dm[k].1] {
                r.push((dm[k].0.clone(), id.clone()));
                proof {
                    assert(modules_view(r@) =~= modules_view(before).push((dm@[k as int].0@, id@)));
                }
            }
            proof {
                assert(modules_view(r@) =~= first + recorded_modules(dm@, ids@, k + 1));
            }
            k = k + 1;
        }
    }
    r
}

/// The occurrences the index holds among its first `n` symbols.
pub open spec fn occurrence_total(index: IndexModel, n: int) -> int
    decreases n,
{
    if n <= 0 {
        0
    } else {
        occurrence_total(index, n - 1) + index.symbols@[n - 1].occurrences@.len()
    }
}

/// The join reads no more occurrences than the index holds.
proof fn lemma_keys_bounded(index: IndexModel, ids: Seq<Option<CanonicalId>>, n: int)
    requires
        0 <= n <= index.symbols@.len(),
    ensures
        case_keys(index, ids, n).len() <= occurrence_total(index, n),
    decreases n,
{
    if n > 0 {
        lemma_keys_bounded(index, ids, n - 1);
    }
}

/// The facts of a site the syntax was not read at: no name, no construct, nothing around it.
fn no_facts() -> (r: SiteFacts)
    ensures
        r.name_span is None,
{
    SiteFacts {
        name_span: None,
        name_text: None,
        span_text: None,
        construct: None,
        has_construct: false,
        source_len: 0,
        impl_self_type: None,
        impl_trait_name: None,
        range_shape: None,
        use_list_terminal: None,
        path_start_self: false,
        super_depth: None,
        inline_modules: Vec::new(),
        dotted_constructs: Vec::new(),
    }
}

/// What the alias pass reads about one refusal: the facts at its span, its document's alias
/// bindings with the source text at each alias name, and the declarations enclosing the name node
/// at its span. A refusal without a span, or whose document has no source, shows no name.
fn refusal_evidence(u: &UnalignedOccurrence, sources: &[(String, String)], trees: &Vec<Option<SyntaxTree>>) -> (r: AliasEvidence)
    requires
        trees@.len() == sources@.len(),
    ensures
        r.bindings@.len() == r.alias_texts@.len(),
        u.span is None || source_from(sources@, u.document_path@, 0) is None ==> r.facts.name_span is None,
{
    let empty = AliasEvidence { facts: no_facts(), bindings: Vec::new(), alias_texts: Vec::new(), enclosing: Vec::new() };
    let span = match u.span {
        Some(sp) => sp,
        None => return empty,
    };
    let p = match source_position(sources, u.document_path.as_str()) {
        Some(p) => p,
        None => return empty,
    };
    let tree = match &trees[p] {
        Some(t) => t,
        None => return empty,
    };
    if span.start == usize::MAX {
        return empty;
    }
    let facts = tree.site_facts(span);
    let bindings = tree.alias_bindings();
    let mut alias_texts: Vec<Option<String>> = Vec::new();
    let mut k: usize = 0;
    while k < bindings.len()
        invariant
            k <= bindings@.len(),
            alias_texts@.len() == k,
        decreases bindings@.len() - k,
    {
        alias_texts.push(
            match tree.text_at(bindings[k].alias_name_span) {
                Some(t) => Some(t.to_owned()),
                None => None,
            },
        );
        k = k + 1;
    }
    let enclosing = match facts.name_span {
        Some(ns) => tree.enclosing_declarations(ns.start),
        None => Vec::new(),
    };
    AliasEvidence { facts, bindings, alias_texts, enclosing }
}

/// The alias pass's evidence for each first-pass refusal, in order.
pub fn alias_evidence(unaligned: &Vec<UnalignedOccurrence>, sources: &[(String, String)], language: Language) -> (r: Vec<AliasEvidence>)
    ensures
        r@.len() == unaligned@.len(),
        forall|i: int| 0 <= i < r@.len() ==> (#[trigger] r@[i]).bindings@.len() == r@[i].alias_texts@.len(),
        forall|i: int|
            0 <= i < r@.len() && (unaligned@[i].span is None || source_from(sources@, unaligned@[i].document_path@, 0) is None)
                ==> (#[trigger] r@[i]).facts.name_span is None,
{
    let (_lines, trees) = prepare(sources, language);
    let mut out: Vec<AliasEvidence> = Vec::new();
    let mut k: usize = 0;
    while k < unaligned.len()
        invariant
            k <= unaligned@.len(),
            trees@.len() == sources@.len(),
            out@.len() == k,
            forall|i: int| 0 <= i < k ==> (#[trigger] out@[i]).bindings@.len() == out@[i].alias_texts@.len(),
            forall|i: int|
                0 <= i < k && (unaligned@[i].span is None || source_from(sources@, unaligned@[i].document_path@, 0) is None)
                    ==> (#[trigger] out@[i]).facts.name_span is None,
        decreases unaligned@.len() - k,
    {
        out.push(refusal_evidence(&unaligned[k], sources, &trees));
        k = k + 1;
    }
    out
}

/// The name spans aligned in document `path`.
fn aligned_spans_in(aligned: &Vec<AlignedOccurrence>, path: &str) -> (r: Vec<ByteSpan>)
{
    let mut out: Vec<ByteSpan> = Vec::new();
    let mut k: usize = 0;
    while k < aligned.len()
        decreases aligned@.len() - k,
    {
        if str_eq(aligned[k].document_path.as_str(), path) {
            out.push(aligned[k].name_span);
        }
        k = k + 1;
    }
    out
}

/// The syntax-only declarations: across the indexed documents that have a source, each counted
/// once, the declarations whose name no aligned occurrence of that document matched. The count
/// stops at `u64::MAX`.
pub fn syntax_only_total(index: &IndexModel, sources: &[(String, String)], language: Language, aligned: &Vec<AlignedOccurrence>) -> (r: u64)
    ensures
        (forall|d: int| 0 <= d < index.documents@.len() ==> source_from(sources@, (#[trigger] index.documents@[d]).path@, 0) is None) ==> r == 0,
{
    let (_lines, trees) = prepare(sources, language);
    let mut total: u64 = 0;
    let mut d: usize = 0;
    while d < index.documents.len()
        invariant
            d <= index.documents@.len(),
            trees@.len() == sources@.len(),
            (forall|m: int| 0 <= m < d ==> source_from(sources@, (#[trigger] index.documents@[m]).path@, 0) is None) ==> total == 0,
        decreases index.documents@.len() - d,
    {
        let path = index.documents[d].path.as_str();
        let mut seen = false;
        let mut e: usize = 0;
        while e < d
            invariant
                e <= d,
                d < index.documents@.len(),
            decreases d - e,
        {
            if str_eq(index.documents[e].path.as_str(), path) {
                seen = true;
            }
            e = e + 1;
        }
        if !seen {
            if let Some(p) = source_position(sources, path) {
                if let Some(tree) = &trees[p] {
                    let decls = tree.all_declarations();
                    let mut names: Vec<ByteSpan> = Vec::new();
                    let mut j: usize = 0;
                    while j < decls.len()
                        invariant
                            j <= decls@.len(),
                            names@.len() == j,
                        decreases decls@.len() - j,
                    {
                        names.push(decls[j].name_span);
                        j = j + 1;
                    }
                    let matched = aligned_spans_in(aligned, path);
                    let c = syntax_only_count(names.as_slice(), matched.as_slice());
                    total = if c > u64::MAX - total {
                        u64::MAX
                    } else {
                        total + c
                    };
                }
            }
        }
        d = d + 1;
    }
    total
}

/// The document of the first definition site recorded for identity `id`, searching from `k`.
pub open spec fn definition_document_from(defs: Seq<(Seq<char>, Seq<char>, ByteSpan)>, id: Seq<char>, k: int) -> Option<Seq<char>>
    decreases defs.len() - k,
{
    if k < 0 || k >= defs.len() {
        None
    } else if defs[k].0 == id {
        Some(defs[k].1)
    } else {
        definition_document_from(defs, id, k + 1)
    }
}

/// The first document recorded as module `id`'s own, searching from `k`.
pub open spec fn module_document_from(modules: Seq<(Seq<char>, Seq<char>)>, id: Seq<char>, k: int) -> Option<Seq<char>>
    decreases modules.len() - k,
{
    if k < 0 || k >= modules.len() {
        None
    } else if modules[k].1 == id {
        Some(modules[k].0)
    } else {
        module_document_from(modules, id, k + 1)
    }
}

/// The document persisted symbol `s` classifies through: its first aligned definition's document;
/// for a module without one, the first document recorded as its own; otherwise the document of its
/// first definition occurrence.
pub open spec fn classification_document(
    index: IndexModel,
    ids: Seq<Option<CanonicalId>>,
    defs: Seq<(Seq<char>, Seq<char>, ByteSpan)>,
    modules: Seq<(Seq<char>, Seq<char>)>,
    s: int,
) -> Option<Seq<char>> {
    let id = ids[s].unwrap()@;
    let sym = index.symbols@[s];
    match definition_document_from(defs, id, 0) {
        Some(d) => Some(d),
        None => match if sym.kind == SymbolKind::Module {
            module_document_from(modules, id, 0)
        } else {
            None
        } {
            Some(d) => Some(d),
            None => match definition_from(sym.occurrences@, 0) {
                Some(k) => Some(sym.occurrences@[k].document_path@),
                None => None,
            },
        },
    }
}

/// The test rule of symbol `s` in a Python index: none for an unpersisted or external symbol or one
/// with no document; otherwise the file-name and directory conventions of its document.
pub open spec fn python_rule(
    index: IndexModel,
    ids: Seq<Option<CanonicalId>>,
    defs: Seq<(Seq<char>, Seq<char>, ByteSpan)>,
    modules: Seq<(Seq<char>, Seq<char>)>,
    s: int,
) -> Option<Seq<char>> {
    if ids[s] is None || index.symbols@[s].external {
        None
    } else {
        match classification_document(index, ids, defs, modules, s) {
            Some(doc) => super::tests_class::test_rule_spec(Language::Python, doc, false, false),
            None => None,
        }
    }
}

/// The document of the first definition site recorded for `id`.
fn definition_document(defs: &Vec<(CanonicalId, String, ByteSpan)>, id: &CanonicalId) -> (r: Option<String>)
    ensures
        ostr(r) == definition_document_from(defs_view(defs@), id@, 0),
{
    let mut k: usize = 0;
    while k < defs.len()
        invariant
            k <= defs@.len(),
            definition_document_from(defs_view(defs@), id@, 0) == definition_document_from(defs_view(defs@), id@, k as int),
        decreases defs@.len() - k,
    {
        if str_eq(defs[k].0.as_str(), id.as_str()) {
            return Some(defs[k].1.clone());
        }
        k = k + 1;
    }
    None
}

/// The first document recorded as module `id`'s own.
fn module_document(modules: &Vec<(String, CanonicalId)>, id: &CanonicalId) -> (r: Option<String>)
    ensures
        ostr(r) == module_document_from(modules_view(modules@), id@, 0),
{
    let mut k: usize = 0;
    while k < modules.len()
        invariant
            k <= modules@.len(),
            module_document_from(modules_view(modules@), id@, 0) == module_document_from(modules_view(modules@), id@, k as int),
        decreases modules@.len() - k,
    {
        if str_eq(modules[k].1.as_str(), id.as_str()) {
            return Some(modules[k].0.clone());
        }
        k = k + 1;
    }
    None
}

/// Each symbol's test rule under the Python conventions, in index order.
pub fn python_test_rules(
    index: &IndexModel,
    ids: &Vec<Option<CanonicalId>>,
    defs: &Vec<(CanonicalId, String, ByteSpan)>,
    modules: &Vec<(String, CanonicalId)>,
) -> (r: Vec<Option<&'static str>>)
    requires
        ids@.len() == index.symbols@.len(),
    ensures
        r@.len() == index.symbols@.len(),
        forall|s: int|
            0 <= s < r@.len() ==> match #[trigger] r@[s] {
                Some(t) => python_rule(*index, ids@, defs_view(defs@), modules_view(modules@), s) == Some(t@),
                None => python_rule(*index, ids@, defs_view(defs@), modules_view(modules@), s) is None,
            },
{
    let mut out: Vec<Option<&'static str>> = Vec::new();
    let mut s: usize = 0;
    while s < index.symbols.len()
        invariant
            s <= index.symbols@.len(),
            ids@.len() == index.symbols@.len(),
            out@.len() == s,
            forall|m: int|
                0 <= m < s ==> match #[trigger] out@[m] {
                    Some(t) => python_rule(*index, ids@, defs_view(defs@), modules_view(modules@), m) == Some(t@),
                    None => python_rule(*index, ids@, defs_view(defs@), modules_view(modules@), m) is None,
                },
        decreases index.symbols@.len() - s,
    {
        let sym = &index.symbols[s];
        let mut rule: Option<&'static str> = None;
        if let Some(id) = &ids[s] {
            if !sym.external {
                let doc = match definition_document(defs, id) {
                    Some(d) => Some(d),
                    None => {
                        let from_module = if crate::model::is_module_kind(sym.kind) {
                            module_document(modules, id)
                        } else {
                            None
                        };
                        match from_module {
                            Some(d) => Some(d),
                            None => match first_definition(&sym.occurrences) {
                                Some(k) => Some(sym.occurrences[k].document_path.clone()),
                                None => None,
                            },
                        }
                    },
                };
                if let Some(d) = doc {
                    rule = super::tests_class::test_rule(Language::Python, d.as_str(), false, false);
                }
            }
        }
        out.push(rule);
        s = s + 1;
    }
    out
}

/// No test rule for any of `n` symbols.
fn no_rules(n: usize) -> (r: Vec<Option<&'static str>>)
    ensures
        r@.len() == n,
        forall|s: int| 0 <= s < n ==> #[trigger] r@[s] is None,
{
    let mut out: Vec<Option<&'static str>> = Vec::new();
    let mut k: usize = 0;
    while k < n
        invariant
            k <= n,
            out@.len() == k,
            forall|s: int| 0 <= s < k ==> #[trigger] out@[s] is None,
        decreases n - k,
    {
        out.push(None);
        k = k + 1;
    }
    out
}

/// Every recorded position of a persisted symbol lies among the first `n`.
proof fn lemma_positions_bounded(ids: Seq<Option<CanonicalId>>, n: int, k: int)
    requires
        0 <= k < persisted_positions(ids, n).len(),
    ensures
        0 <= persisted_positions(ids, n)[k] < n,
    decreases n,
{
    if n > 0 {
        let before = persisted_positions(ids, n - 1);
        if k < before.len() {
            lemma_positions_bounded(ids, n - 1, k);
        }
    }
}

/// The positions of the persisted symbols among the first `n`, in index order.
pub open spec fn persisted_positions(ids: Seq<Option<CanonicalId>>, n: int) -> Seq<int>
    decreases n,
{
    if n <= 0 {
        Seq::empty()
    } else {
        persisted_positions(ids, n - 1) + if ids[n - 1] is Some {
            seq![n - 1]
        } else {
            Seq::empty()
        }
    }
}

/// A static string as an optional plain value.
pub open spec fn ostatic(o: Option<&'static str>) -> Option<Seq<char>> {
    match o {
        Some(t) => Some(t@),
        None => None,
    }
}

/// Symbol `s`'s row: its identity, its descriptor's terminal name (empty when it has none), its
/// kind's tag, its class, whether its descriptor is duplicated and the test rule `rule`. The
/// definition's document, span and texts are left absent.
pub open spec fn identity_row(row: SymbolRow, index: IndexModel, ids: Seq<Option<CanonicalId>>, duplicated: Seq<bool>, s: int, rule: Option<Seq<char>>) -> bool {
    let sym = index.symbols@[s];
    &&& row.canonical_id@ == ids[s].unwrap()@
    &&& row.display_name@ == if sym.descriptor is Some && sym.descriptor.unwrap()@.1.len() > 0 {
        sym.descriptor.unwrap()@.1.last().0
    } else {
        Seq::empty()
    }
    &&& row.kind@ == super::ingest::kind_tag_of(sym.kind)
    &&& row.class == if sym.external {
        PersistedClass::External
    } else {
        PersistedClass::InWorkspace
    }
    &&& row.document_path is None
    &&& row.span is None
    &&& row.span_text is None
    &&& row.signature_text is None
    &&& row.interface_text is None
    &&& row.duplicated == duplicated[s]
    &&& ostr(row.test_rule) == rule
}

/// One row per persisted symbol, in index order, with its identity columns and the test rule
/// `rules[s]` filled. The rows carry no definition content: the declaration tiers it derives from
/// are not read here.
pub fn symbol_rows(
    index: &IndexModel,
    ids: &Vec<Option<CanonicalId>>,
    duplicated: &Vec<bool>,
    rules: &Vec<Option<&'static str>>,
) -> (r: Vec<SymbolRow>)
    requires
        ids@.len() == index.symbols@.len(),
        duplicated@.len() == index.symbols@.len(),
        rules@.len() == index.symbols@.len(),
    ensures
        r@.len() == persisted_positions(ids@, ids@.len() as int).len(),
        forall|k: int|
            0 <= k < r@.len() ==> identity_row(
                #[trigger] r@[k],
                *index,
                ids@,
                duplicated@,
                persisted_positions(ids@, ids@.len() as int)[k],
                ostatic(rules@[persisted_positions(ids@, ids@.len() as int)[k]]),
            ),
{
    let mut rows: Vec<SymbolRow> = Vec::new();
    let mut s: usize = 0;
    while s < index.symbols.len()
        invariant
            s <= index.symbols@.len(),
            ids@.len() == index.symbols@.len(),
            duplicated@.len() == index.symbols@.len(),
            rules@.len() == index.symbols@.len(),
            rows@.len() == persisted_positions(ids@, s as int).len(),
            forall|k: int|
                0 <= k < rows@.len() ==> identity_row(
                    #[trigger] rows@[k],
                    *index,
                    ids@,
                    duplicated@,
                    persisted_positions(ids@, s as int)[k],
                    ostatic(rules@[persisted_positions(ids@, s as int)[k]]),
                ),
        decreases index.symbols@.len() - s,
    {
        let ghost before = persisted_positions(ids@, s as int);
        if let Some(id) = &ids[s] {
            let sym = &index.symbols[s];
            let display_name = match &sym.descriptor {
                Some(d) => match d.terminal_name() {
                    Some(name) => name.to_owned(),
                    None => String::new(),
                },
                None => String::new(),
            };
            let class = if sym.external {
                PersistedClass::External
            } else {
                PersistedClass::InWorkspace
            };
            rows.push(SymbolRow {
                canonical_id: id.clone(),
                display_name,
                kind: super::ingest::kind_tag(sym.kind).to_owned(),
                class,
                document_path: None,
                span: None,
                span_text: None,
                signature_text: None,
                interface_text: None,
                duplicated: duplicated[s],
                test_rule: match rules[s] {
                    Some(t) => Some(t.to_owned()),
                    None => None,
                },
            });
        }
        proof {
            let next = persisted_positions(ids@, s + 1);
            assert forall|k: int| 0 <= k < rows@.len() implies identity_row(#[trigger] rows@[k], *index, ids@, duplicated@, next[k], ostatic(rules@[next[k]])) by {
                if k < before.len() {
                    assert(next[k] == before[k]);
                }
            }
        }
        s = s + 1;
    }
    rows
}

/// Whether every document whose own module some symbol defines has an entry.
pub open spec fn records_every_module(defs: Seq<Option<ModuleDefinition>>, language: Language, dm: Seq<(String, usize)>) -> bool {
    forall|i: int|
        defines_document_module(defs, language, i) ==> exists|k: int|
            0 <= k < dm.len() && (#[trigger] dm[k]).0@ == defs[i].unwrap().document_path@
}

/// Whether `contains` are the `contains` edges the aligned occurrences derive, given the
/// enclosing-declaration chains of some parsed trees of their documents.
pub open spec fn contains_derived(
    contains: Seq<super::edges::ContainsView>,
    aligned: Seq<AlignedView>,
    sources: Seq<(Seq<char>, Seq<char>)>,
    defs: Seq<(Seq<char>, Seq<char>, ByteSpan)>,
    types: Seq<(Seq<char>, Seq<char>)>,
    language: Language,
) -> bool {
    exists|chains: Seq<Seq<SyntaxDeclaration>>|
        chains.len() == aligned.len() && (forall|k: int| 0 <= k < chains.len() ==> parsed_chain(#[trigger] chains[k], language))
            && contains == #[trigger] contains_of(aligned, sources, defs, types, chains, aligned.len() as int)
}

/// Whether `hierarchy` are the `type_hierarchy` edges the aligned occurrences derive over some
/// parsed trees of the documents.
pub open spec fn hierarchy_derived(
    hierarchy: Seq<super::hierarchy::EdgeView>,
    aligned: Seq<AlignedView>,
    paths: Seq<Seq<char>>,
    language: Language,
) -> bool {
    exists|trees: Seq<Seq<SyntaxNode>>|
        trees.len() == paths.len() && hierarchy == #[trigger] documents_edges(aligned, paths, language, trees, paths.len() as int)
}

/// Everything one build persists, computed before anything is written, with the intermediate
/// results it was computed from.
pub struct BuildPlan {
    /// The language the index's documents parse as.
    pub language: Language,
    /// The identity each symbol is persisted under, in index order.
    pub identities: Vec<Option<CanonicalId>>,
    /// For each symbol, whether its descriptor is duplicated among the persisted definitions.
    pub duplicated: Vec<bool>,
    /// Each symbol's module definition, in index order.
    pub module_definitions: Vec<Option<ModuleDefinition>>,
    /// The index symbol that is each document's own module.
    pub document_module: Vec<(String, usize)>,
    /// The persisted symbols' rows, identity columns only.
    pub symbols: Vec<SymbolRow>,
    /// The join's cases: one per occurrence of each symbol that enters the join, in index order,
    /// then one per group-addressed occurrence, in group order.
    pub cases: Vec<JoinCase>,
    /// The join's first pass.
    pub first_pass: Ghost<JoinResult>,
    /// What the alias pass read about each first-pass refusal.
    pub evidence: Vec<AliasEvidence>,
    /// The join's result: the first pass, the alias pass over its refusals, and the syntax-only
    /// declarations.
    pub join: JoinResult,
    /// The aligned definition sites.
    pub definitions: Vec<(CanonicalId, String, ByteSpan)>,
    /// The persisted types and traits by terminal name.
    pub types: Vec<(String, CanonicalId)>,
    /// The persisted module identities.
    pub module_ids: Vec<CanonicalId>,
    /// Each document's module.
    pub modules: Vec<(String, CanonicalId)>,
    /// The occurrence rows.
    pub occurrences: Vec<OccurrenceRow>,
    /// The `uses` and `imports` edges.
    pub dependencies: Vec<(EdgeKind, CanonicalId, CanonicalId)>,
    /// The `contains` edges, parent first.
    pub contains: Vec<(CanonicalId, CanonicalId)>,
    /// The `type_hierarchy` edges, implementor first.
    pub hierarchy: Vec<(CanonicalId, CanonicalId)>,
    /// The discrepancy rows.
    pub discrepancies: Vec<DiscrepancyRow>,
    /// The metadata the build records.
    pub metadata: IndexMetadata,
}

/// A copy of an analyzer provenance.
fn copy_provenance(p: &AnalyzerProvenance) -> (r: AnalyzerProvenance)
    ensures
        r.analyzer_name@ == p.analyzer_name@,
        r.analyzer_version@ == p.analyzer_version@,
{
    AnalyzerProvenance { analyzer_name: p.analyzer_name.clone(), analyzer_version: p.analyzer_version.clone() }
}

/// A copy of optional environment facts.
fn copy_environment(e: &Option<EnvironmentFacts>) -> (r: Option<EnvironmentFacts>)
    ensures
        r is Some <==> e is Some,
        r is Some ==> r.unwrap().interpreter@ == e.unwrap().interpreter@ && r.unwrap().version@ == e.unwrap().version@,
{
    match e {
        Some(f) => Some(EnvironmentFacts { interpreter: f.interpreter.clone(), version: f.version.clone() }),
        None => None,
    }
}

/// Plan one build from a semantic index and the workspace's sources: project the symbols'
/// identities, derive the duplicated descriptors and each document's own module, build the join's
/// cases (each symbol's occurrences, then the group-addressed occurrences routed by locality) and
/// run the join (its first pass, the alias pass over the first pass's refusals, and the
/// syntax-only count), then derive from its aligned occurrences the definition sites, the symbol
/// rows with their test rules, the occurrence rows and the `uses`/`imports`, `contains` and
/// `type_hierarchy` edges, from its refusals the discrepancy rows, and the metadata: the workspace, its root, the analyzer, the
/// content hash of the sources and the join's accounting. Only an index holding `u64::MAX`
/// occurrences or more, which the accounting's counters cannot count, gets no plan.
#[verifier::spinoff_prover]
#[verifier::rlimit(40)]
pub fn plan_build(
    workspace: &WorkspaceId,
    workspace_root: Option<&str>,
    index: &IndexModel,
    sources: &[(String, String)],
) -> (r: Option<BuildPlan>)
    requires
        index.well_formed(),
    ensures
        occurrence_total(*index, index.symbols@.len() as int) + group_keys(*index, index.duplicate_groups@.len() as int).len()
            < u64::MAX ==> r is Some,
        r matches Some(p) ==> {
            let lang = if index.provenance.analyzer_name@ == "scip-python"@ {
                Language::Python
            } else {
                Language::Rust
            };
            let n = index.symbols@.len() as int;
            let aligned = aligned_views(p.join.aligned@);
            &&& p.language == lang
            &&& persisted_identities(p.identities@, workspace@, *index)
            &&& p.duplicated@.len() == n
            &&& forall|s: int| 0 <= s < n ==> #[trigger] p.duplicated@[s] == shares_descriptor(*index, p.identities@, s)
            &&& p.module_definitions@.len() == n
            &&& forall|s: int|
                0 <= s < n ==> module_definition_at(#[trigger] p.module_definitions@[s], *index, p.identities@, sources@, s)
            &&& forall|k: int|
                0 <= k < p.document_module@.len() ==> first_document_module(
                    p.module_definitions@,
                    lang,
                    (#[trigger] p.document_module@[k]).0@,
                    p.document_module@[k].1 as int,
                )
            &&& records_every_module(p.module_definitions@, lang, p.document_module@)
            &&& p.symbols@.len() == persisted_positions(p.identities@, n).len()
            &&& forall|k: int|
                0 <= k < p.symbols@.len() ==> identity_row(
                    #[trigger] p.symbols@[k],
                    *index,
                    p.identities@,
                    p.duplicated@,
                    persisted_positions(p.identities@, n)[k],
                    if lang == Language::Python {
                        python_rule(
                            *index,
                            p.identities@,
                            defs_view(p.definitions@),
                            modules_view(p.modules@),
                            persisted_positions(p.identities@, n)[k],
                        )
                    } else {
                        None
                    },
                )
            &&& p.cases@.len() == case_keys(*index, p.identities@, n).len() + group_keys(*index, index.duplicate_groups@.len() as int).len()
            &&& forall|k: int|
                case_keys(*index, p.identities@, n).len() <= k < p.cases@.len() ==> group_case_at(
                    #[trigger] p.cases@[k],
                    *index,
                    p.identities@,
                    sources@,
                    group_keys(*index, index.duplicate_groups@.len() as int)[k - case_keys(*index, p.identities@, n).len()],
                )
            &&& forall|k: int|
                0 <= k < case_keys(*index, p.identities@, n).len() ==> case_at(
                    #[trigger] p.cases@[k],
                    *index,
                    p.identities@,
                    p.duplicated@,
                    sources@,
                    case_keys(*index, p.identities@, n)[k],
                )
            &&& semantic_sum(p.first_pass@.accounting) == p.cases@.len()
            &&& counts_outcomes(p.first_pass@.accounting, case_outcomes(p.cases@, lang))
            &&& aligned_views(p.first_pass@.aligned@) =~= aligned_entries(p.cases@, lang)
            &&& p.first_pass@.unaligned@.map_values(|u: UnalignedOccurrence| unaligned_view(u)) =~= unaligned_entries(p.cases@, lang)
            &&& p.evidence@.len() == p.first_pass@.unaligned@.len()
            &&& forall|i: int|
                0 <= i < p.evidence@.len() && (p.first_pass@.unaligned@[i].span is None || source_from(
                    sources@,
                    p.first_pass@.unaligned@[i].document_path@,
                    0,
                ) is None) ==> (#[trigger] p.evidence@[i]).facts.name_span is None
            &&& semantic_sum(p.join.accounting) == p.cases@.len()
            &&& aligned_sum(p.join.accounting) == aligned_sum(p.first_pass@.accounting) + alias_alignments(
                p.first_pass@.unaligned@,
                p.evidence@,
                p.first_pass@.aligned@,
                p.first_pass@.unaligned@.len() as int,
            ).len()
            &&& p.join.aligned@.take(p.first_pass@.aligned@.len() as int) =~= p.first_pass@.aligned@
            &&& aligned_views(p.join.aligned@.skip(p.first_pass@.aligned@.len() as int)) =~= alias_alignments(
                p.first_pass@.unaligned@,
                p.evidence@,
                p.first_pass@.aligned@,
                p.first_pass@.unaligned@.len() as int,
            )
            &&& p.join.unaligned@.map_values(|u: UnalignedOccurrence| unaligned_view(u)) =~= kept_refusals(
                p.first_pass@.unaligned@,
                p.evidence@,
                p.first_pass@.aligned@,
                p.first_pass@.unaligned@.len() as int,
            )
            &&& (forall|d: int|
                0 <= d < index.documents@.len() ==> source_from(sources@, (#[trigger] index.documents@[d]).path@, 0) is None)
                ==> p.join.accounting.syntax_only == 0
            &&& defs_view(p.definitions@) =~= definitions_among(aligned, aligned.len() as int)
            &&& types_view(p.types@) =~= type_entries(*index, p.identities@, n)
            &&& p.module_ids@.map_values(|c: CanonicalId| c@) =~= module_entries(*index, p.identities@, n)
            &&& modules_view(p.modules@) =~= document_modules_among(aligned, p.module_ids@, aligned.len() as int) + if lang
                == Language::Python {
                recorded_modules(p.document_module@, p.identities@, p.document_module@.len() as int)
            } else {
                Seq::empty()
            }
            &&& occurrence_rows_view(p.occurrences@) =~= aligned.map_values(
                |a: AlignedView|
                    occurrence_row_of(a, super::edges::sources_view(sources@), defs_view(p.definitions@), types_view(p.types@)),
            )
            &&& dependencies_view(p.dependencies@) =~= edges_of(
                aligned,
                super::edges::sources_view(sources@),
                defs_view(p.definitions@),
                types_view(p.types@),
                modules_view(p.modules@),
                aligned.len() as int,
            )
            &&& contains_derived(
                pairs_view(p.contains@),
                aligned,
                super::edges::sources_view(sources@),
                defs_view(p.definitions@),
                types_view(p.types@),
                lang,
            )
            &&& hierarchy_derived(edges_view(p.hierarchy@), aligned, source_paths(sources@), lang)
            &&& discrepancies_view(p.discrepancies@) =~= p.join.unaligned@.map_values(
                |u: UnalignedOccurrence| discrepancy_of(unaligned_view(u)),
            )
            &&& p.metadata.workspace_id@ =~= workspace@
            &&& match workspace_root {
                Some(w) => p.metadata.workspace_root is Some && p.metadata.workspace_root.unwrap()@ == w@,
                None => p.metadata.workspace_root is None,
            }
            &&& p.metadata.provenance.analyzer_name@ == index.provenance.analyzer_name@
            &&& p.metadata.provenance.analyzer_version@ == index.provenance.analyzer_version@
            &&& p.metadata.content_hash@ =~= content_hash_of(docs_view(sources@))
            &&& p.metadata.accounting == p.join.accounting
            &&& (p.metadata.environment is Some <==> index.environment is Some)
            &&& (p.metadata.environment is Some ==> p.metadata.environment.unwrap().interpreter@
                == index.environment.unwrap().interpreter@ && p.metadata.environment.unwrap().version@
                == index.environment.unwrap().version@)
            &&& p.metadata.chunk_params.chunk_size == DEFAULT_CHUNK_SIZE
            &&& p.metadata.chunk_params.overlap == DEFAULT_CHUNK_OVERLAP
        },
{
    let language = crate::commands::index_language(index.provenance.analyzer_name.as_str());
    let identities = symbol_identities(workspace, index);
    let duplicated = duplicated_symbols(index, &identities);
    let module_definitions = module_definitions(index, &identities, sources);
    let document_module = module_by_document(&module_definitions, language);
    proof {
        assert(records_every_module(module_definitions@, language, document_module@));
        assert forall|k: int| 0 <= k < document_module@.len() implies (#[trigger] document_module@[k]).1 < index.symbols@.len() by {
            assert(first_document_module(module_definitions@, language, document_module@[k].0@, document_module@[k].1 as int));
        }
    }
    let mut cases = join_cases(index, &identities, &duplicated, sources, language, &document_module);
    let ghost symbol_cases = cases@;
    let mut grouped = group_cases(index, &identities, sources, language, &document_module);
    let ghost grouped_cases = grouped@;
    cases.append(&mut grouped);
    proof {
        lemma_keys_bounded(*index, identities@, index.symbols@.len() as int);
        assert(cases@ == symbol_cases + grouped_cases);
    }
    if cases.len() as u64 >= u64::MAX {
        return None;
    }
    proof {
        assert forall|i: int| 0 <= i < cases@.len() implies case_well_formed(#[trigger] cases@[i]) by {
            if i < symbol_cases.len() {
                assert(cases@[i] == symbol_cases[i]);
                assert(case_at(symbol_cases[i], *index, identities@, duplicated@, sources@, case_keys(*index, identities@, index.symbols@.len() as int)[i]));
            } else {
                assert(cases@[i] == grouped_cases[i - symbol_cases.len()]);
                assert(group_case_at(
                    grouped_cases[i - symbol_cases.len()],
                    *index,
                    identities@,
                    sources@,
                    group_keys(*index, index.duplicate_groups@.len() as int)[i - symbol_cases.len()],
                ));
            }
        }
    }
    let first = join_pass(&cases, language);
    let ghost first_pass = first;
    let evidence = alias_evidence(&first.unaligned, sources, language);
    let mut join = alias_pass(first, &evidence);
    join.accounting.syntax_only = syntax_only_total(index, sources, language, &join.aligned);
    let definitions = definition_locations(&join.aligned);
    let (types, module_ids) = symbol_tables(index, &identities);
    proof {
        assert forall|k: int| 0 <= k < document_module@.len() implies (#[trigger] document_module@[k]).1 < identities@.len() by {
            assert(first_document_module(module_definitions@, language, document_module@[k].0@, document_module@[k].1 as int));
        }
    }
    let modules = module_table(&join.aligned, &module_ids, &document_module, &identities, language);
    let rules = if matches!(language, Language::Python) {
        python_test_rules(index, &identities, &definitions, &modules)
    } else {
        no_rules(index.symbols.len())
    };
    let symbols = symbol_rows(index, &identities, &duplicated, &rules);
    proof {
        let n = index.symbols@.len() as int;
        assert forall|k: int| 0 <= k < symbols@.len() implies identity_row(
            #[trigger] symbols@[k],
            *index,
            identities@,
            duplicated@,
            persisted_positions(identities@, n)[k],
            if language == Language::Python {
                python_rule(*index, identities@, defs_view(definitions@), modules_view(modules@), persisted_positions(identities@, n)[k])
            } else {
                None
            },
        ) by {
            let s = persisted_positions(identities@, n)[k];
            lemma_positions_bounded(identities@, n, k);
            assert(identity_row(symbols@[k], *index, identities@, duplicated@, s, ostatic(rules@[s])));
        }
    }
    let occurrences = occurrence_rows(&join.aligned, sources, &definitions, &types);
    let dependencies = dependency_edges(&join.aligned, sources, &definitions, &types, &modules);
    let contains = contains_edges(language, &join.aligned, sources, &definitions, &types);
    let hierarchy = type_hierarchy_edges(language, sources, &join.aligned);
    proof {
        let chains = choose|chains: Seq<Seq<SyntaxDeclaration>>|
            chains.len() == join.aligned@.len() && (forall|k: int| 0 <= k < chains.len() ==> parsed_chain(#[trigger] chains[k], language))
                && pairs_view(contains@) == #[trigger] contains_of(
                aligned_views(join.aligned@),
                super::edges::sources_view(sources@),
                defs_view(definitions@),
                types_view(types@),
                chains,
                join.aligned@.len() as int,
            );
        assert(contains_derived(
            pairs_view(contains@),
            aligned_views(join.aligned@),
            super::edges::sources_view(sources@),
            defs_view(definitions@),
            types_view(types@),
            language,
        ));
        let trees = choose|trees: Seq<Seq<SyntaxNode>>|
            trees.len() == sources.len() && edges_view(hierarchy@) == #[trigger] documents_edges(
                aligned_views(join.aligned@),
                source_paths(sources@),
                language,
                trees,
                sources.len() as int,
            );
        assert(source_paths(sources@).len() == sources@.len());
        assert(edges_view(hierarchy@) == documents_edges(
            aligned_views(join.aligned@),
            source_paths(sources@),
            language,
            trees,
            source_paths(sources@).len() as int,
        ));
        assert(hierarchy_derived(edges_view(hierarchy@), aligned_views(join.aligned@), source_paths(sources@), language));
    }
    let discrepancies = discrepancy_rows(&join.unaligned);
    let metadata = IndexMetadata {
        workspace_id: workspace.clone(),
        workspace_root: match workspace_root {
            Some(w) => Some(w.to_owned()),
            None => None,
        },
        provenance: copy_provenance(&index.provenance),
        content_hash: super::content_hash(sources),
        accounting: join.accounting,
        environment: copy_environment(&index.environment),
        chunk_params: ChunkParams::default(),
    };
    Some(BuildPlan {
        language,
        identities,
        duplicated,
        module_definitions,
        document_module,
        symbols,
        cases,
        first_pass: Ghost(first_pass),
        evidence,
        join,
        definitions,
        types,
        module_ids,
        modules,
        occurrences,
        dependencies,
        contains,
        hierarchy,
        discrepancies,
        metadata,
    })
}

/// The module declarations the index shows, as (definition document, declaring document)
/// pairs: a reference to a module symbol that sits on a module declaration's name declares the
/// module's definition document from the reference's document.
fn module_declarations(
    index: &IndexModel,
    sources: &[(String, String)],
    lines: &Vec<LineIndex>,
    trees: &Vec<Option<SyntaxTree>>,
) -> (r: Vec<(String, String)>)
    requires
        lines@.len() == sources@.len(),
        trees@.len() == sources@.len(),
        forall|k: int| 0 <= k < sources@.len() ==> (#[trigger] lines@[k]).describes(sources@[k].1@),
{
    let mut out: Vec<(String, String)> = Vec::new();
    let mut s: usize = 0;
    while s < index.symbols.len()
        invariant
            s <= index.symbols@.len(),
            lines@.len() == sources@.len(),
            trees@.len() == sources@.len(),
            forall|k: int| 0 <= k < sources@.len() ==> (#[trigger] lines@[k]).describes(sources@[k].1@),
        decreases index.symbols@.len() - s,
    {
        let sym = &index.symbols[s];
        if crate::model::is_module_kind(sym.kind) {
            if let Some(d) = first_definition(&sym.occurrences) {
                let def_doc = &sym.occurrences[d].document_path;
                let mut o: usize = 0;
                while o < sym.occurrences.len()
                    invariant
                        o <= sym.occurrences@.len(),
                        lines@.len() == sources@.len(),
                        trees@.len() == sources@.len(),
                        forall|k: int| 0 <= k < sources@.len() ==> (#[trigger] lines@[k]).describes(sources@[k].1@),
                    decreases sym.occurrences@.len() - o,
                {
                    let occ = &sym.occurrences[o];
                    let declares = match occ.role {
                        OccurrenceRole::Reference => match source_position(sources, occ.document_path.as_str()) {
                            Some(p) => match encoding_of(&index.documents, occ.document_path.as_str()) {
                                Some(e) => match range_to_span(sources[p].1.as_str(), &lines[p], occ.range, e) {
                                    Some(span) => match &trees[p] {
                                        Some(tree) => span.start < usize::MAX && tree.is_module_declaration_name(span),
                                        None => false,
                                    },
                                    None => false,
                                },
                                None => false,
                            },
                            None => false,
                        },
                        OccurrenceRole::Definition => false,
                    };
                    if declares {
                        out.push((def_doc.clone(), occ.document_path.clone()));
                    }
                    o = o + 1;
                }
            }
        }
        s = s + 1;
    }
    out
}

/// Symbol `t`'s first definition span on the source of document `path`, when that definition sits
/// in `path` and normalizes there.
fn definition_span_in(
    index: &IndexModel,
    t: usize,
    path: &str,
    sources: &[(String, String)],
    lines: &Vec<LineIndex>,
) -> (r: Option<ByteSpan>)
    requires
        t < index.symbols@.len(),
        lines@.len() == sources@.len(),
        forall|k: int| 0 <= k < sources@.len() ==> (#[trigger] lines@[k]).describes(sources@[k].1@),
{
    let occs = &index.symbols[t].occurrences;
    let d = match first_definition(occs) {
        Some(d) => d,
        None => return None,
    };
    if !str_eq(occs[d].document_path.as_str(), path) {
        return None;
    }
    let p = match source_position(sources, path) {
        Some(p) => p,
        None => return None,
    };
    match encoding_of(&index.documents, path) {
        Some(e) => range_to_span(sources[p].1.as_str(), &lines[p], occs[d].range, e),
        None => None,
    }
}

/// The library root document recorded for `package`.
fn library_root_of<'a>(roots: &'a Vec<(String, String)>, package: &str) -> (r: Option<&'a String>) {
    let mut k: usize = 0;
    while k < roots.len()
        decreases roots@.len() - k,
    {
        if str_eq(roots[k].0.as_str(), package) {
            return Some(&roots[k].1);
        }
        k = k + 1;
    }
    None
}

/// The (group, occurrence) positions among the first `n` duplicate groups, in group order.
pub open spec fn group_keys(index: IndexModel, n: int) -> Seq<(int, int)>
    decreases n,
{
    if n <= 0 {
        Seq::empty()
    } else {
        group_keys(index, n - 1) + Seq::new(index.duplicate_groups@[n - 1].occurrences@.len(), |o: int| (n - 1, o))
    }
}

/// The case for occurrence `o` of group `g`: the occurrence's document and role, the group's
/// descriptor and its terminal name as the expected name, where the occurrence lands, and either
/// ambiguity with no locality, or the identity and kind of a persisted symbol with the locality rule
/// that selected it.
pub open spec fn group_case_at(c: JoinCase, index: IndexModel, ids: Seq<Option<CanonicalId>>, sources: Seq<(String, String)>, key: (int, int)) -> bool {
    let group = index.duplicate_groups@[key.0];
    let occ = group.occurrences@[key.1];
    &&& c.document_path@ == occ.document_path@
    &&& c.role == occ.role
    &&& c.descriptor is Some
    &&& c.descriptor.unwrap()@ == group.descriptor@
    &&& c.expected_name@ == if group.descriptor@.1.len() > 0 {
        group.descriptor@.1.last().0
    } else {
        Seq::empty()
    }
    &&& landing(c.location, index, sources, occ)
    &&& case_well_formed(c)
    &&& (c.ambiguous ==> c.locality is None)
    &&& (!c.ambiguous ==> c.locality is Some && exists|t: int|
        0 <= t < ids.len() && (#[trigger] ids[t]) is Some && c.symbol@ == ids[t].unwrap()@ && c.kind
            == index.symbols@[t].kind)
}

/// The join's cases for the group-addressed occurrences, one per occurrence in group order. A
/// group with no persisted twins leaves each occurrence ambiguous under the group's identity. An
/// occurrence otherwise goes to the twin locality selects, under that twin's identity and the
/// locality rule, or stays ambiguous under the group's identity when none is selected.
pub fn group_cases(
    index: &IndexModel,
    ids: &Vec<Option<CanonicalId>>,
    sources: &[(String, String)],
    language: Language,
    doc_module: &Vec<(String, usize)>,
) -> (r: Vec<JoinCase>)
    requires
        index.well_formed(),
        ids@.len() == index.symbols@.len(),
        forall|k: int| 0 <= k < doc_module@.len() ==> (#[trigger] doc_module@[k]).1 < index.symbols@.len(),
    ensures
        r@.len() == group_keys(*index, index.duplicate_groups@.len() as int).len(),
        forall|k: int|
            0 <= k < r@.len() ==> group_case_at(
                #[trigger] r@[k],
                *index,
                ids@,
                sources@,
                group_keys(*index, index.duplicate_groups@.len() as int)[k],
            ),
{
    let (lines, trees) = prepare(sources, language);
    let evidence = symbol_evidence(index, ids);
    let parent_of = parent_document_map(module_declarations(index, sources, &lines, &trees).as_slice());
    let mut out: Vec<JoinCase> = Vec::new();
    let mut g: usize = 0;
    while g < index.duplicate_groups.len()
        invariant
            g <= index.duplicate_groups@.len(),
            index.well_formed(),
            ids@.len() == index.symbols@.len(),
            forall|k: int| 0 <= k < doc_module@.len() ==> (#[trigger] doc_module@[k]).1 < index.symbols@.len(),
            lines@.len() == sources@.len(),
            trees@.len() == sources@.len(),
            forall|k: int| 0 <= k < sources@.len() ==> (#[trigger] lines@[k]).describes(sources@[k].1@),
            forall|k: int| 0 <= k < sources@.len() ==> ((#[trigger] trees@[k]) matches Some(t) && t.source_view() == sources@[k].1@),
            parent_of.well_formed(),
            out@.len() == group_keys(*index, g as int).len(),
            forall|k: int| 0 <= k < out@.len() ==> group_case_at(#[trigger] out@[k], *index, ids@, sources@, group_keys(*index, g as int)[k]),
        decreases index.duplicate_groups@.len() - g,
    {
        let group = &index.duplicate_groups[g];
        let twins = twin_symbols_by_descriptor(evidence.as_slice(), &group.descriptor);
        let group_id = group_base_identity(&group.descriptor, evidence.as_slice());
        let expected: String = match group.descriptor.terminal_name() {
            Some(n) => n.to_owned(),
            None => String::new(),
        };
        let library_root = library_root_of(&index.library_roots, group.descriptor.package.as_str());
        let mut twin_docs: Vec<String> = Vec::new();
        let mut t: usize = 0;
        while t < twins.len()
            invariant
                t <= twins@.len(),
                twin_docs@.len() == t,
            decreases twins@.len() - t,
        {
            let doc = if twins[t] < evidence.len() {
                match &evidence[twins[t]].definition_document {
                    Some(d) => d.clone(),
                    None => String::new(),
                }
            } else {
                String::new()
            };
            twin_docs.push(doc);
            t = t + 1;
        }
        let ghost base = out@.len();
        let mut o: usize = 0;
        while o < group.occurrences.len()
            invariant
                o <= group.occurrences@.len(),
                g < index.duplicate_groups@.len(),
                *group == index.duplicate_groups@[g as int],
                index.well_formed(),
                ids@.len() == index.symbols@.len(),
                forall|k: int| 0 <= k < doc_module@.len() ==> (#[trigger] doc_module@[k]).1 < index.symbols@.len(),
                lines@.len() == sources@.len(),
                trees@.len() == sources@.len(),
                forall|k: int| 0 <= k < sources@.len() ==> (#[trigger] lines@[k]).describes(sources@[k].1@),
                forall|k: int|
                    0 <= k < sources@.len() ==> ((#[trigger] trees@[k]) matches Some(t) && t.source_view() == sources@[k].1@),
                parent_of.well_formed(),
                twin_docs@.len() == twins@.len(),
                base == group_keys(*index, g as int).len(),
                out@.len() == base + o,
                forall|k: int| 0 <= k < base ==> group_case_at(#[trigger] out@[k], *index, ids@, sources@, group_keys(*index, g as int)[k]),
                forall|k: int| base <= k < out@.len() ==> group_case_at(#[trigger] out@[k], *index, ids@, sources@, (g as int, k - base)),
                expected@ == if group.descriptor@.1.len() > 0 {
                    group.descriptor@.1.last().0
                } else {
                    Seq::empty()
                },
            decreases group.occurrences@.len() - o,
        {
            let occ = &group.occurrences[o];
            proof {
                assert(lists_document(index.documents@, index.duplicate_groups@[g as int].occurrences@[o as int].document_path@));
            }
            let location = locate(index, occ, sources, &lines, &trees, doc_module, true);
            let (token, is_located, chain) = match &location {
                Location::At { facts, enclosing, .. } => (
                    match &facts.name_text {
                        Some(t) => Some(t.as_str()),
                        None => None,
                    },
                    true,
                    enclosing.as_slice(),
                ),
                _ => (None, false, [].as_slice()),
            };
            let mut twin_spans: Vec<Option<ByteSpan>> = Vec::new();
            let mut t: usize = 0;
            while t < twins.len()
                invariant
                    t <= twins@.len(),
                    twin_spans@.len() == t,
                    lines@.len() == sources@.len(),
                    forall|k: int| 0 <= k < sources@.len() ==> (#[trigger] lines@[k]).describes(sources@[k].1@),
                decreases twins@.len() - t,
            {
                let span = if twins[t] < index.symbols.len() {
                    definition_span_in(index, twins[t], occ.document_path.as_str(), sources, &lines)
                } else {
                    None
                };
                twin_spans.push(span);
                t = t + 1;
            }
            let choice = if twins.len() == 0 {
                None
            } else {
                select_group_twin(
                    occ.document_path.as_str(),
                    token,
                    expected.as_str(),
                    group.descriptor.package.as_str(),
                    match library_root {
                        Some(root) => Some(root.as_str()),
                        None => None,
                    },
                    twin_docs.as_slice(),
                    &parent_of,
                    is_located,
                    twin_spans.as_slice(),
                    chain,
                )
            };
            let selected = match choice {
                Some((i, rule)) => if i < twins.len() && twins[i] < index.symbols.len() {
                    match &ids[twins[i]] {
                        Some(id) => Some((twins[i], id, rule)),
                        None => None,
                    }
                } else {
                    None
                },
                None => None,
            };
            let case = match selected {
                Some((ti, id, rule)) => JoinCase {
                    symbol: id.clone(),
                    kind: index.symbols[ti].kind,
                    descriptor: Some(group.descriptor.duplicate()),
                    document_path: occ.document_path.clone(),
                    role: occ.role,
                    expected_name: expected.clone(),
                    ambiguous: false,
                    locality: Some(rule),
                    location,
                },
                None => JoinCase {
                    symbol: group_id.clone(),
                    kind: SymbolKind::Other,
                    descriptor: Some(group.descriptor.duplicate()),
                    document_path: occ.document_path.clone(),
                    role: occ.role,
                    expected_name: expected.clone(),
                    ambiguous: true,
                    locality: None,
                    location,
                },
            };
            out.push(case);
            proof {
                assert(group_case_at(out@[out@.len() - 1], *index, ids@, sources@, (g as int, o as int)));
            }
            o = o + 1;
        }
        proof {
            let next = group_keys(*index, g + 1);
            assert(next == group_keys(*index, g as int) + Seq::new(index.duplicate_groups@[g as int].occurrences@.len(), |o: int| (g as int, o)));
            assert forall|k: int| 0 <= k < out@.len() implies group_case_at(#[trigger] out@[k], *index, ids@, sources@, next[k]) by {
                if k >= base {
                    assert(next[k] == (g as int, k - base));
                } else {
                    assert(next[k] == group_keys(*index, g as int)[k]);
                }
            }
        }
        g = g + 1;
    }
    out
}

} // verus!
