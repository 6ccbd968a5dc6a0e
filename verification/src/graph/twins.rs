//! Duplicated descriptors and their twins: which symbols share a descriptor, which twin a
//! group-addressed occurrence belongs to by locality, and the identity a group's own
//! discrepancies are surfaced under.
//!
//! Locality is tried in evidence order. Defining-document: the occurrence's document defines
//! exactly one twin. Module-chain: walking from the occurrence's document up through the documents
//! declaring each module reaches a document defining exactly one twin. Declaration-scope: the
//! innermost declaration enclosing the occurrence that contains a same-document twin contains
//! exactly one. Any step seeing more than one candidate declines: refusal, never a guess.

use vstd::prelude::*;

use crate::identity::{CanonicalId, DescView, Descriptor};
use crate::pairs::{string_pairs_view, SourceSet};
use crate::text::{opt_chars, str_eq};

use super::join::{strip_disambiguator, LocalityRule};
use super::range::ByteSpan;
use super::rules::{package_matches, underscored};
use super::store::disambiguator_base_of;
use super::syntax::SyntaxDeclaration;

verus! {

/// Whether no twin is defined in `doc`.
pub open spec fn no_twin_in(docs: Seq<Seq<char>>, doc: Seq<char>) -> bool {
    forall|j: int| 0 <= j < docs.len() ==> docs[j] != doc
}

/// Whether twin `i` is the only twin defined in `doc`.
pub open spec fn sole_twin_in(docs: Seq<Seq<char>>, doc: Seq<char>, i: int) -> bool {
    &&& 0 <= i < docs.len()
    &&& docs[i] == doc
    &&& forall|j: int| 0 <= j < docs.len() && j != i ==> docs[j] != doc
}

/// The document `k` hops up the declaring chain from `start`, while each hop has a declaring
/// document.
pub open spec fn chain_doc(parent: Map<Seq<char>, Seq<char>>, start: Seq<char>, k: nat) -> Option<Seq<char>>
    decreases k,
{
    if k == 0 {
        Some(start)
    } else {
        match chain_doc(parent, start, (k - 1) as nat) {
            Some(d) => if parent.dom().contains(d) {
                Some(parent[d])
            } else {
                None
            },
            None => None,
        }
    }
}

/// Whether the walk reaches step `k` at a document it has not visited before.
pub open spec fn fresh_at(parent: Map<Seq<char>, Seq<char>>, start: Seq<char>, k: nat) -> bool {
    forall|m: nat| m < k ==> chain_doc(parent, start, m) != chain_doc(parent, start, k)
}

/// Whether the walk moves on past step `j`: the document there is new, defines no twin, and has a
/// declaring document.
pub open spec fn walk_moves_on(
    parent: Map<Seq<char>, Seq<char>>,
    docs: Seq<Seq<char>>,
    start: Seq<char>,
    j: nat,
) -> bool {
    &&& chain_doc(parent, start, j) is Some
    &&& fresh_at(parent, start, j)
    &&& no_twin_in(docs, chain_doc(parent, start, j).unwrap())
    &&& parent.dom().contains(chain_doc(parent, start, j).unwrap())
}

/// Whether the walk stops at step `k` on twin `i`: every earlier step moved on, and the document
/// at `k`, newly reached, defines twin `i` alone.
pub open spec fn walk_selects(
    parent: Map<Seq<char>, Seq<char>>,
    docs: Seq<Seq<char>>,
    start: Seq<char>,
    k: nat,
    i: int,
) -> bool {
    &&& forall|j: nat| j < k ==> #[trigger] walk_moves_on(parent, docs, start, j)
    &&& chain_doc(parent, start, k) is Some
    &&& fresh_at(parent, start, k)
    &&& sole_twin_in(docs, chain_doc(parent, start, k).unwrap(), i)
}

/// The paths of a list of strings.
pub open spec fn docs_view(docs: Seq<String>) -> Seq<Seq<char>> {
    docs.map_values(|d: String| d@)
}

/// How many twins (zero, one, or two meaning more than one) are defined in `doc`, and the first.
fn twins_at(docs: &[String], doc: &str) -> (r: (usize, usize))
    ensures
        r.0 == 0 ==> no_twin_in(docs_view(docs@), doc@),
        r.0 == 1 ==> sole_twin_in(docs_view(docs@), doc@, r.1 as int),
        r.0 == 2 ==> exists|a: int, b: int|
            0 <= a < b < docs@.len() && docs_view(docs@)[a] == doc@ && docs_view(docs@)[b] == doc@,
        r.0 <= 2,
{
    let ghost dv = docs_view(docs@);
    let mut count: usize = 0;
    let mut first: usize = 0;
    let mut i: usize = 0;
    while i < docs.len()
        invariant
            i <= docs.len(),
            dv == docs_view(docs@),
            count <= 1,
            count == 0 ==> forall|j: int| 0 <= j < i ==> dv[j] != doc@,
            count == 1 ==> first < i && dv[first as int] == doc@ && forall|j: int|
                0 <= j < i && j != first ==> dv[j] != doc@,
        decreases docs.len() - i,
    {
        assert(dv[i as int] == docs@[i as int]@);
        if str_eq(docs[i].as_str(), doc) {
            if count == 1 {
                assert(0 <= first < i < docs@.len() && dv[first as int] == doc@ && dv[i as int] == doc@);
                return (2, first);
            }
            count = 1;
            first = i;
        }
        i = i + 1;
    }
    (count, first)
}

/// A later step of the walk needs every earlier one to move on.
proof fn lemma_selects_needs(
    parent: Map<Seq<char>, Seq<char>>,
    docs: Seq<Seq<char>>,
    start: Seq<char>,
    k: nat,
    i: int,
    j: nat,
)
    requires
        walk_selects(parent, docs, start, k, i),
        j < k,
    ensures
        walk_moves_on(parent, docs, start, j),
{
}

/// The walk up the declaring chain from `document_path`: the twin it selects and the step it
/// stops at, or `None` when it declines.
fn walk_chain(document_path: &str, twin_docs: &[String], parent_of: &SourceSet) -> (r: Option<(usize, usize)>)
    requires
        parent_of.well_formed(),
    ensures
        match r {
            Some((i, k)) => walk_selects(parent_of.view_map(), docs_view(twin_docs@), document_path@, k as nat, i as int),
            None => forall|k: nat, i: int| !walk_selects(parent_of.view_map(), docs_view(twin_docs@), document_path@, k, i),
        },
{
    let ghost pm = parent_of.view_map();
    let ghost dv = docs_view(twin_docs@);
    let ghost start = document_path@;
    let bound = parent_of.len();
    let mut current = String::new();
    crate::text::push_str(&mut current, document_path);
    let mut visited: Vec<String> = Vec::new();
    let mut k: usize = 0;
    loop
        invariant
            parent_of.well_formed(),
            pm == parent_of.view_map(),
            pm.dom().finite(),
            bound == pm.dom().len(),
            dv == docs_view(twin_docs@),
            start == document_path@,
            visited.len() == k,
            k <= bound,
            chain_doc(pm, start, k as nat) == Some(current@),
            forall|m: int| 0 <= m < k ==> chain_doc(pm, start, m as nat) == Some(#[trigger] visited@[m]@),
            forall|j: nat| j < k ==> #[trigger] walk_moves_on(pm, dv, start, j),
        decreases bound - k,
    {
        // A document already visited closes a cycle: the walk declines.
        let mut seen = false;
        let mut m: usize = 0;
        while m < visited.len()
            invariant
                m <= visited.len(),
                visited.len() == k,
                forall|x: int| 0 <= x < k ==> chain_doc(pm, start, x as nat) == Some(#[trigger] visited@[x]@),
                chain_doc(pm, start, k as nat) == Some(current@),
                seen == exists|x: nat| x < m && chain_doc(pm, start, x) == chain_doc(pm, start, k as nat),
            decreases visited.len() - m,
        {
            let same = str_eq(visited[m].as_str(), current.as_str());
            proof {
                assert(chain_doc(pm, start, m as nat) == Some(visited@[m as int]@));
                if !same && !seen {
                    assert forall|x: nat| x < m + 1 implies chain_doc(pm, start, x) != chain_doc(pm, start, k as nat) by {
                        if x < m {
                            assert(!(x < m && chain_doc(pm, start, x) == chain_doc(pm, start, k as nat)));
                        }
                    }
                }
            }
            if same {
                seen = true;
            }
            m = m + 1;
        }
        if seen {
            proof {
                assert(!fresh_at(pm, start, k as nat));
                assert forall|kk: nat, i: int| !walk_selects(pm, dv, start, kk, i) by {
                    if walk_selects(pm, dv, start, kk, i) {
                        if kk > k {
                            lemma_selects_needs(pm, dv, start, kk, i, k as nat);
                        } else if kk < k {
                            assert(walk_moves_on(pm, dv, start, kk));
                        }
                    }
                }
            }
            return None;
        }
        assert(fresh_at(pm, start, k as nat));
        let (count, first) = twins_at(twin_docs, current.as_str());
        if count == 1 {
            proof {
                assert(walk_selects(pm, dv, start, k as nat, first as int));
            }
            return Some((first, k));
        }
        if count == 2 {
            proof {
                assert forall|kk: nat, i: int| !walk_selects(pm, dv, start, kk, i) by {
                    if walk_selects(pm, dv, start, kk, i) {
                        let (a, b) = choose|a: int, b: int|
                            0 <= a < b < twin_docs@.len() && dv[a] == current@ && dv[b] == current@;
                        if kk > k {
                            lemma_selects_needs(pm, dv, start, kk, i, k as nat);
                        } else if kk < k {
                            assert(walk_moves_on(pm, dv, start, kk));
                        }
                    }
                }
            }
            return None;
        }
        match parent_of.get(current.as_str()) {
            None => {
                proof {
                    assert forall|kk: nat, i: int| !walk_selects(pm, dv, start, kk, i) by {
                        if walk_selects(pm, dv, start, kk, i) {
                            if kk > k {
                                lemma_selects_needs(pm, dv, start, kk, i, k as nat);
                            } else if kk < k {
                                assert(walk_moves_on(pm, dv, start, kk));
                            }
                        }
                    }
                }
                return None;
            },
            Some(next) => {
                proof {
                    assert(walk_moves_on(pm, dv, start, k as nat));
                    let vs = visited@.map_values(|v: String| v@).push(current@);
                    assert forall|a: int, b: int| 0 <= a < b < vs.len() implies vs[a] != vs[b] by {
                        assert(vs[a] == chain_doc(pm, start, a as nat).unwrap());
                        assert(vs[b] == chain_doc(pm, start, b as nat).unwrap());
                        if b < k {
                            assert(walk_moves_on(pm, dv, start, b as nat));
                        }
                    }
                    assert(vs.no_duplicates());
                    vs.unique_seq_to_set();
                    assert forall|x: Seq<char>| vs.to_set().contains(x) implies pm.dom().contains(x) by {
                        let a = choose|a: int| 0 <= a < vs.len() && vs[a] == x;
                        if a < k {
                            assert(walk_moves_on(pm, dv, start, a as nat));
                        }
                    }
                    vstd::set_lib::lemma_len_subset(vs.to_set(), pm.dom());
                }
                visited.push(current);
                current = next;
                proof {
                    assert forall|j: nat| j < k + 1 implies #[trigger] walk_moves_on(pm, dv, start, j) by {
                        if j < k {
                            assert(walk_moves_on(pm, dv, start, j));
                        }
                    }
                }
                k = k + 1;
            },
        }
    }
}

/// Select the unique twin a group occurrence's document is associated with, in evidence order:
/// the defining document, then the module chain through `parent_of` (each document mapped to the
/// document declaring its module). `None` when no twin or more than one is associated, or the
/// chain runs out or returns to a document it already visited.
pub fn select_twin(document_path: &str, twin_docs: &[String], parent_of: &SourceSet) -> (r: Option<(usize, LocalityRule)>)
    requires
        parent_of.well_formed(),
    ensures
        match r {
            Some((i, rule)) => (rule == LocalityRule::DefiningDocument && sole_twin_in(
                docs_view(twin_docs@),
                document_path@,
                i as int,
            )) || (rule == LocalityRule::ModuleChain && exists|k: nat|
                k > 0 && walk_selects(parent_of.view_map(), docs_view(twin_docs@), document_path@, k, i as int)),
            None => forall|k: nat, i: int| !walk_selects(parent_of.view_map(), docs_view(twin_docs@), document_path@, k, i),
        },
{
    match walk_chain(document_path, twin_docs, parent_of) {
        Some((i, k)) => {
            if k == 0 {
                assert(chain_doc(parent_of.view_map(), document_path@, 0) == Some(document_path@));
                Some((i, LocalityRule::DefiningDocument))
            } else {
                proof {
                    let kk: nat = k as nat;
                    assert(kk > 0);
                    assert(walk_selects(parent_of.view_map(), docs_view(twin_docs@), document_path@, kk, i as int));
                }
                let res: Option<(usize, LocalityRule)> = Some((i, LocalityRule::ModuleChain));
                assert(res matches Some((i2, rule)) && rule == LocalityRule::ModuleChain && i2 == i);
                assert(match res {
                    Some((i2, rule)) => rule == LocalityRule::ModuleChain && exists|k2: nat|
                        k2 > 0 && walk_selects(parent_of.view_map(), docs_view(twin_docs@), document_path@, k2, i2 as int),
                    None => true,
                });
                res
            }
        },
        None => None,
    }
}

/// Whether every twin defined in `doc` has a definition span on its source.
pub open spec fn local_spans_known(docs: Seq<Seq<char>>, spans: Seq<Option<ByteSpan>>, doc: Seq<char>) -> bool {
    forall|i: int| 0 <= i < docs.len() && docs[i] == doc ==> (#[trigger] spans[i]) is Some
}

/// Whether declaration `d` of `doc` holds twin `i`'s definition.
pub open spec fn holds_twin(
    d: SyntaxDeclaration,
    docs: Seq<Seq<char>>,
    spans: Seq<Option<ByteSpan>>,
    doc: Seq<char>,
    i: int,
) -> bool {
    &&& 0 <= i < docs.len()
    &&& docs[i] == doc
    &&& spans[i] is Some
    &&& d.full_span.start <= spans[i].unwrap().start
    &&& spans[i].unwrap().end <= d.full_span.end
}

/// Whether declaration `d` of `doc` holds some twin's definition.
pub open spec fn holds_any(d: SyntaxDeclaration, docs: Seq<Seq<char>>, spans: Seq<Option<ByteSpan>>, doc: Seq<char>) -> bool {
    exists|i: int| holds_twin(d, docs, spans, doc, i)
}

/// Whether declaration-scope locality selects twin `i`: every same-document twin's definition has
/// a span, and the innermost declaration of `chain` holding any twin holds twin `i` alone.
pub open spec fn scope_selects(
    chain: Seq<SyntaxDeclaration>,
    docs: Seq<Seq<char>>,
    spans: Seq<Option<ByteSpan>>,
    doc: Seq<char>,
    i: int,
) -> bool {
    &&& local_spans_known(docs, spans, doc)
    &&& exists|k: int|
        0 <= k < chain.len() && (forall|m: int| 0 <= m < k ==> !holds_any(#[trigger] chain[m], docs, spans, doc))
            && holds_twin(#[trigger] chain[k], docs, spans, doc, i) && (forall|j: int|
            j != i ==> !holds_twin(chain[k], docs, spans, doc, j))
}

/// How many twins (zero, one, or two meaning more than one) declaration `d` holds, and the first.
fn held_by(d: &SyntaxDeclaration, docs: &[String], spans: &[Option<ByteSpan>], doc: &str) -> (r: (usize, usize))
    requires
        docs.len() == spans.len(),
    ensures
        r.0 == 0 ==> !holds_any(*d, docs_view(docs@), spans@, doc@),
        r.0 == 1 ==> holds_twin(*d, docs_view(docs@), spans@, doc@, r.1 as int) && forall|j: int|
            j != r.1 ==> !holds_twin(*d, docs_view(docs@), spans@, doc@, j),
        r.0 == 2 ==> exists|a: int, b: int|
            a != b && holds_twin(*d, docs_view(docs@), spans@, doc@, a) && holds_twin(*d, docs_view(docs@), spans@, doc@, b),
        r.0 <= 2,
{
    let ghost dv = docs_view(docs@);
    let mut count: usize = 0;
    let mut first: usize = 0;
    let mut i: usize = 0;
    while i < docs.len()
        invariant
            i <= docs.len(),
            docs.len() == spans.len(),
            dv == docs_view(docs@),
            count <= 1,
            count == 0 ==> forall|j: int| 0 <= j < i ==> !holds_twin(*d, dv, spans@, doc@, j),
            count == 1 ==> first < i && holds_twin(*d, dv, spans@, doc@, first as int) && forall|j: int|
                0 <= j < i && j != first ==> !holds_twin(*d, dv, spans@, doc@, j),
        decreases docs.len() - i,
    {
        assert(dv[i as int] == docs@[i as int]@);
        let hit = match spans[i] {
            Some(s) => str_eq(docs[i].as_str(), doc) && d.full_span.start <= s.start && s.end <= d.full_span.end,
            None => false,
        };
        if hit {
            if count == 1 {
                assert(holds_twin(*d, dv, spans@, doc@, i as int));
                return (2, first);
            }
            count = 1;
            first = i;
        }
        i = i + 1;
    }
    (count, first)
}

/// Select the unique twin by declaration scope: the innermost declaration of `chain` (innermost
/// first) holding any same-document twin's definition decides, selecting the twin it holds when
/// it holds exactly one. `twin_spans[i]` is twin `i`'s definition span on the occurrence's source,
/// `None` when it does not normalize there; a same-document twin without one makes containment
/// undecidable and the rule declines.
pub fn select_twin_by_scope(
    document_path: &str,
    twin_docs: &[String],
    twin_spans: &[Option<ByteSpan>],
    chain: &[SyntaxDeclaration],
) -> (r: Option<(usize, LocalityRule)>)
    requires
        twin_docs.len() == twin_spans.len(),
    ensures
        match r {
            Some((i, rule)) => rule == LocalityRule::DeclarationScope && scope_selects(
                chain@,
                docs_view(twin_docs@),
                twin_spans@,
                document_path@,
                i as int,
            ),
            None => forall|i: int| !scope_selects(chain@, docs_view(twin_docs@), twin_spans@, document_path@, i),
        },
{
    let ghost dv = docs_view(twin_docs@);
    let mut i: usize = 0;
    while i < twin_docs.len()
        invariant
            i <= twin_docs.len(),
            twin_docs.len() == twin_spans.len(),
            dv == docs_view(twin_docs@),
            forall|j: int| 0 <= j < i && dv[j] == document_path@ ==> (#[trigger] twin_spans@[j]) is Some,
        decreases twin_docs.len() - i,
    {
        assert(dv[i as int] == twin_docs@[i as int]@);
        if twin_spans[i].is_none() && str_eq(twin_docs[i].as_str(), document_path) {
            proof {
                assert(!local_spans_known(dv, twin_spans@, document_path@));
            }
            return None;
        }
        i = i + 1;
    }
    assert(local_spans_known(dv, twin_spans@, document_path@));
    let mut k: usize = 0;
    while k < chain.len()
        invariant
            k <= chain.len(),
            twin_docs.len() == twin_spans.len(),
            dv == docs_view(twin_docs@),
            local_spans_known(dv, twin_spans@, document_path@),
            forall|m: int| 0 <= m < k ==> !holds_any(#[trigger] chain@[m], dv, twin_spans@, document_path@),
        decreases chain.len() - k,
    {
        let (count, first) = held_by(&chain[k], twin_docs, twin_spans, document_path);
        if count == 1 {
            proof {
                assert(scope_selects(chain@, dv, twin_spans@, document_path@, first as int));
            }
            let res: Option<(usize, LocalityRule)> = Some((first, LocalityRule::DeclarationScope));
            assert(res matches Some((i2, rule)) && rule == LocalityRule::DeclarationScope && i2 == first);
            return res;
        }
        if count == 2 {
            proof {
                assert forall|i: int| !scope_selects(chain@, dv, twin_spans@, document_path@, i) by {
                    if scope_selects(chain@, dv, twin_spans@, document_path@, i) {
                        let kk = choose|kk: int|
                            0 <= kk < chain@.len() && (forall|m: int| 0 <= m < kk ==> !holds_any(#[trigger] chain@[m], dv, twin_spans@, document_path@))
                                && holds_twin(#[trigger] chain@[kk], dv, twin_spans@, document_path@, i) && (forall|j: int|
                                j != i ==> !holds_twin(chain@[kk], dv, twin_spans@, document_path@, j));
                        if kk < k {
                            assert(holds_any(chain@[kk], dv, twin_spans@, document_path@));
                        } else if kk > k {
                            assert(!holds_any(chain@[k as int], dv, twin_spans@, document_path@));
                        }
                    }
                }
            }
            return None;
        }
        k = k + 1;
    }
    proof {
        assert forall|i: int| !scope_selects(chain@, dv, twin_spans@, document_path@, i) by {
            if scope_selects(chain@, dv, twin_spans@, document_path@, i) {
                let kk = choose|kk: int|
                    0 <= kk < chain@.len() && (forall|m: int| 0 <= m < kk ==> !holds_any(#[trigger] chain@[m], dv, twin_spans@, document_path@))
                        && holds_twin(#[trigger] chain@[kk], dv, twin_spans@, document_path@, i) && (forall|j: int|
                        j != i ==> !holds_twin(chain@[kk], dv, twin_spans@, document_path@, j));
                assert(holds_any(chain@[kk], dv, twin_spans@, document_path@));
            }
        }
    }
    None
}

/// What the join knows of one index symbol: its resolved descriptor, the identity it is
/// persisted under, and the document of its definition occurrence.
#[derive(Debug, Clone, PartialEq, Eq)]
pub struct SymbolEvidence {
    /// The symbol's resolved descriptor, if it has one.
    pub descriptor: Option<Descriptor>,
    /// The identity the symbol is persisted under; `None` when it is not persisted.
    pub identity: Option<CanonicalId>,
    /// The document of the symbol's definition occurrence, if it has one.
    pub definition_document: Option<String>,
}

/// Whether a symbol carries descriptor `d`.
pub open spec fn carries(s: SymbolEvidence, d: DescView) -> bool {
    s.descriptor is Some && s.descriptor.unwrap()@ == d
}

/// Whether a symbol counts toward a duplicate quorum: persisted, with a descriptor and a
/// definition.
pub open spec fn counted(s: SymbolEvidence) -> bool {
    s.descriptor is Some && s.identity is Some && s.definition_document is Some
}

/// Whether symbol `i`'s descriptor is shared by another counted symbol while `i` counts too.
pub open spec fn duplicated_at(sv: Seq<SymbolEvidence>, i: int) -> bool {
    &&& counted(sv[i])
    &&& exists|j: int| 0 <= j < sv.len() && j != i && counted(#[trigger] sv[j]) && carries(sv[j], sv[i].descriptor.unwrap()@)
}

/// For each symbol, whether its resolved descriptor is shared by more than one persisted symbol
/// with a definition: such a descriptor's non-definition occurrences are attributable to no single
/// twin.
pub fn duplicated_descriptor_symbols(symbols: &[SymbolEvidence]) -> (r: Vec<bool>)
    ensures
        r@.len() == symbols@.len(),
        forall|i: int| 0 <= i < symbols@.len() ==> r@[i] == duplicated_at(symbols@, i),
{
    let mut r: Vec<bool> = Vec::new();
    let mut i: usize = 0;
    while i < symbols.len()
        invariant
            i <= symbols.len(),
            r@.len() == i,
            forall|m: int| 0 <= m < i ==> r@[m] == duplicated_at(symbols@, m),
        decreases symbols.len() - i,
    {
        let s = &symbols[i];
        let mut dup = false;
        if let (Some(d), Some(_), Some(_)) = (&s.descriptor, &s.identity, &s.definition_document) {
            let mut j: usize = 0;
            while j < symbols.len()
                invariant
                    j <= symbols.len(),
                    i < symbols.len(),
                    symbols@[i as int].descriptor == Some(*d),
                    counted(symbols@[i as int]),
                    dup == exists|m: int| 0 <= m < j && m != i && counted(#[trigger] symbols@[m]) && carries(symbols@[m], d@),
                decreases symbols.len() - j,
            {
                let t = &symbols[j];
                let mut hit = false;
                if j != i && t.identity.is_some() && t.definition_document.is_some() {
                    if let Some(e) = &t.descriptor {
                        hit = e.same_as(d);
                    }
                }
                proof {
                    if hit {
                        assert(j != i && counted(symbols@[j as int]) && carries(symbols@[j as int], d@));
                    } else if !dup {
                        assert forall|m: int| 0 <= m < j + 1 && m != i implies !(counted(#[trigger] symbols@[m]) && carries(symbols@[m], d@)) by {
                            if m < j {
                                assert(!(0 <= m < j && m != i && counted(symbols@[m]) && carries(symbols@[m], d@)));
                            }
                        }
                    }
                }
                if hit {
                    dup = true;
                }
                j = j + 1;
            }
        }
        r.push(dup);
        i = i + 1;
    }
    r
}

/// The positions below `n` of counted symbols carrying `d`, ascending.
pub open spec fn carrier_positions(sv: Seq<SymbolEvidence>, d: DescView, n: int) -> Seq<int>
    decreases n,
{
    if n <= 0 {
        Seq::empty()
    } else if counted(sv[n - 1]) && carries(sv[n - 1], d) {
        carrier_positions(sv, d, n - 1).push(n - 1)
    } else {
        carrier_positions(sv, d, n - 1)
    }
}

/// The twins of descriptor `d`: the positions of the counted symbols carrying it, when there are
/// at least two; none otherwise.
pub open spec fn twin_positions(sv: Seq<SymbolEvidence>, d: DescView) -> Seq<int> {
    let c = carrier_positions(sv, d, sv.len() as int);
    if c.len() >= 2 {
        c
    } else {
        Seq::empty()
    }
}

/// The positions of a list of indices.
pub open spec fn positions_view(v: Seq<usize>) -> Seq<int> {
    v.map_values(|x: usize| x as int)
}

/// The twin symbols sharing a duplicated descriptor, in index order: the persisted symbols with a
/// definition that carry `descriptor`, when there are at least two; none otherwise.
pub fn twin_symbols_by_descriptor(symbols: &[SymbolEvidence], descriptor: &Descriptor) -> (r: Vec<usize>)
    ensures
        positions_view(r@) == twin_positions(symbols@, descriptor@),
{
    let mut r: Vec<usize> = Vec::new();
    let mut i: usize = 0;
    while i < symbols.len()
        invariant
            i <= symbols.len(),
            positions_view(r@) == carrier_positions(symbols@, descriptor@, i as int),
        decreases symbols.len() - i,
    {
        let s = &symbols[i];
        let mut hit = false;
        if s.identity.is_some() && s.definition_document.is_some() {
            if let Some(e) = &s.descriptor {
                hit = e.same_as(descriptor);
            }
        }
        if hit {
            r.push(i);
            assert(positions_view(r@) =~= carrier_positions(symbols@, descriptor@, i as int).push(i as int));
        }
        i = i + 1;
    }
    if r.len() < 2 {
        r = Vec::new();
        assert(positions_view(r@) =~= Seq::<int>::empty());
    }
    r
}

/// The position of the first persisted symbol carrying `d`, below `n`.
pub open spec fn first_persisted(sv: Seq<SymbolEvidence>, d: DescView, n: int) -> Option<int>
    decreases n,
{
    if n <= 0 {
        None
    } else if first_persisted(sv, d, n - 1) is Some {
        first_persisted(sv, d, n - 1)
    } else if sv[n - 1].identity is Some && carries(sv[n - 1], d) {
        Some(n - 1)
    } else {
        None
    }
}

/// An identity with its collision disambiguator stripped.
pub open spec fn stripped(id: Seq<char>) -> Seq<char> {
    match disambiguator_base_of(id) {
        Some(b) => b,
        None => id,
    }
}

/// The identity a duplicate group's own discrepancies are surfaced under: the first twin's identity
/// without its disambiguator; without twins, that of the first persisted symbol carrying the
/// descriptor; failing that, the descriptor's terminal name.
pub open spec fn group_base_spec(sv: Seq<SymbolEvidence>, d: DescView) -> Seq<char> {
    let twins = twin_positions(sv, d);
    if twins.len() > 0 {
        stripped(sv[twins[0]].identity.unwrap()@)
    } else {
        match first_persisted(sv, d, sv.len() as int) {
            Some(i) => stripped(sv[i].identity.unwrap()@),
            None => if d.1.len() > 0 {
                d.1.last().0
            } else {
                Seq::empty()
            },
        }
    }
}

/// The identity a duplicate group's discrepancies are surfaced under: the twins' shared base, or
/// the base of any persisted symbol carrying the descriptor, or the descriptor's terminal name.
pub fn group_base_identity(descriptor: &Descriptor, symbols: &[SymbolEvidence]) -> (r: CanonicalId)
    ensures
        r@ == group_base_spec(symbols@, descriptor@),
{
    let twins = twin_symbols_by_descriptor(symbols, descriptor);
    if twins.len() > 0 {
        proof {
            let c = carrier_positions(symbols@, descriptor@, symbols@.len() as int);
            lemma_carriers_counted(symbols@, descriptor@, symbols@.len() as int);
            assert(c[0] == twins@[0] as int);
        }
        let first = twins[0];
        match &symbols[first].identity {
            Some(id) => return strip_disambiguator(id),
            None => {
                assert(false);
            },
        }
    }
    let mut i: usize = 0;
    while i < symbols.len()
        invariant
            i <= symbols.len(),
            twin_positions(symbols@, descriptor@).len() == 0,
            first_persisted(symbols@, descriptor@, i as int) is None,
        decreases symbols.len() - i,
    {
        let s = &symbols[i];
        if let (Some(e), Some(id)) = (&s.descriptor, &s.identity) {
            if e.same_as(descriptor) {
                proof {
                    lemma_first_persisted_extends(symbols@, descriptor@, i as int + 1, symbols@.len() as int);
                }
                return strip_disambiguator(id);
            }
        }
        i = i + 1;
    }
    match descriptor.terminal_name() {
        Some(name) => CanonicalId::from_raw(name),
        None => {
            proof {
                reveal_strlit("");
            }
            CanonicalId::from_raw("")
        },
    }
}

/// Every carrier position is a counted symbol carrying the descriptor, below `n`.
proof fn lemma_carriers_counted(sv: Seq<SymbolEvidence>, d: DescView, n: int)
    requires
        n <= sv.len(),
    ensures
        forall|k: int|
            0 <= k < carrier_positions(sv, d, n).len() ==> 0 <= #[trigger] carrier_positions(sv, d, n)[k] < n
                && counted(sv[carrier_positions(sv, d, n)[k]]) && carries(sv[carrier_positions(sv, d, n)[k]], d),
    decreases n,
{
    if n > 0 {
        lemma_carriers_counted(sv, d, n - 1);
        let prev = carrier_positions(sv, d, n - 1);
        let c = carrier_positions(sv, d, n);
        assert forall|k: int| 0 <= k < c.len() implies 0 <= #[trigger] c[k] < n && counted(sv[c[k]]) && carries(sv[c[k]], d) by {
            if k < prev.len() {
                assert(c[k] == prev[k]);
            }
        }
    }
}

/// Once found below `n`, the first persisted carrier stays the answer below any `m >= n`.
proof fn lemma_first_persisted_extends(sv: Seq<SymbolEvidence>, d: DescView, n: int, m: int)
    requires
        n <= m,
        first_persisted(sv, d, n) is Some,
    ensures
        first_persisted(sv, d, m) == first_persisted(sv, d, n),
    decreases m - n,
{
    if m > n {
        lemma_first_persisted_extends(sv, d, n, m - 1);
    }
}

/// Whether `x` declares the module defined in `d`, by the evidence.
pub open spec fn declared_from(ev: Seq<(Seq<char>, Seq<char>)>, d: Seq<char>, x: Seq<char>) -> bool {
    exists|i: int| 0 <= i < ev.len() && #[trigger] ev[i] == (d, x)
}

/// Whether `x` is the one document the evidence shows declaring the module defined in `d`.
pub open spec fn sole_declarer(ev: Seq<(Seq<char>, Seq<char>)>, d: Seq<char>, x: Seq<char>) -> bool {
    &&& declared_from(ev, d, x)
    &&& forall|i: int| 0 <= i < ev.len() && (#[trigger] ev[i]).0 == d ==> ev[i].1 == x
}

/// The document each module's definition document is declared from, given the declaration
/// evidence as (definition document, declaring document) pairs: an entry exactly for the
/// definition documents with one distinct declaring document. None (a crate root) or several
/// (conflicting evidence) yield no entry.
pub fn parent_document_map(evidence: &[(String, String)]) -> (r: SourceSet)
    ensures
        r.well_formed(),
        forall|d: Seq<char>|
            #[trigger] r.view_map().dom().contains(d) <==> exists|x: Seq<char>| sole_declarer(string_pairs_view(evidence@), d, x),
        forall|d: Seq<char>|
            #[trigger] r.view_map().dom().contains(d) ==> sole_declarer(string_pairs_view(evidence@), d, r.view_map()[d]),
{
    let ghost ev = string_pairs_view(evidence@);
    let mut map = SourceSet::new();
    let mut i: usize = 0;
    while i < evidence.len()
        invariant
            i <= evidence.len(),
            ev == string_pairs_view(evidence@),
            map.well_formed(),
            forall|d: Seq<char>|
                #[trigger] map.view_map().dom().contains(d) <==> exists|m: int|
                    0 <= m < i && ev[m].0 == d && sole_declarer(ev, d, #[trigger] ev[m].1),
            forall|d: Seq<char>| #[trigger] map.view_map().dom().contains(d) ==> sole_declarer(ev, d, map.view_map()[d]),
        decreases evidence.len() - i,
    {
        let (d, x) = (&evidence[i].0, &evidence[i].1);
        assert(ev[i as int] == (d@, x@));
        let mut sole = true;
        let mut j: usize = 0;
        while j < evidence.len()
            invariant
                j <= evidence.len(),
                i < evidence.len(),
                ev == string_pairs_view(evidence@),
                ev[i as int] == (d@, x@),
                sole == forall|m: int| 0 <= m < j && (#[trigger] ev[m]).0 == d@ ==> ev[m].1 == x@,
            decreases evidence.len() - j,
        {
            assert(ev[j as int] == (evidence@[j as int].0@, evidence@[j as int].1@));
            if str_eq(evidence[j].0.as_str(), d.as_str()) && !str_eq(evidence[j].1.as_str(), x.as_str()) {
                sole = false;
            }
            j = j + 1;
        }
        let ghost before = map.view_map();
        if sole {
            proof {
                assert(declared_from(ev, d@, x@));
                assert(sole_declarer(ev, d@, x@));
            }
            map.insert(d.clone(), x.clone());
            proof {
                assert forall|e: Seq<char>| #[trigger] map.view_map().dom().contains(e) implies sole_declarer(ev, e, map.view_map()[e]) by {
                    if e != d@ {
                        assert(before.dom().contains(e));
                    }
                }
                assert forall|e: Seq<char>|
                    #[trigger] map.view_map().dom().contains(e) <==> exists|m: int|
                        0 <= m < i + 1 && ev[m].0 == e && sole_declarer(ev, e, #[trigger] ev[m].1) by {
                    if e == d@ {
                        assert(0 <= i < i + 1 && ev[i as int].0 == e && sole_declarer(ev, e, ev[i as int].1));
                    } else if before.dom().contains(e) {
                        let m = choose|m: int| 0 <= m < i && ev[m].0 == e && sole_declarer(ev, e, #[trigger] ev[m].1);
                        assert(0 <= m < i + 1 && ev[m].0 == e && sole_declarer(ev, e, ev[m].1));
                    } else {
                        if exists|m: int| 0 <= m < i + 1 && ev[m].0 == e && sole_declarer(ev, e, #[trigger] ev[m].1) {
                            let m = choose|m: int| 0 <= m < i + 1 && ev[m].0 == e && sole_declarer(ev, e, #[trigger] ev[m].1);
                            assert(m != i);
                        }
                    }
                }
            }
        } else {
            proof {
                let w = choose|m: int| 0 <= m < evidence.len() && (#[trigger] ev[m]).0 == d@ && ev[m].1 != x@;
                assert(!sole_declarer(ev, d@, x@));
                assert forall|e: Seq<char>|
                    #[trigger] map.view_map().dom().contains(e) <==> exists|m: int|
                        0 <= m < i + 1 && ev[m].0 == e && sole_declarer(ev, e, #[trigger] ev[m].1) by {
                    if exists|m: int| 0 <= m < i + 1 && ev[m].0 == e && sole_declarer(ev, e, #[trigger] ev[m].1) {
                        let m = choose|m: int| 0 <= m < i + 1 && ev[m].0 == e && sole_declarer(ev, e, #[trigger] ev[m].1);
                        if m == i {
                            assert(false);
                        }
                        assert(0 <= m < i && ev[m].0 == e && sole_declarer(ev, e, ev[m].1));
                    }
                }
            }
        }
        i = i + 1;
    }
    proof {
        assert forall|d: Seq<char>|
            #[trigger] map.view_map().dom().contains(d) <==> exists|x: Seq<char>| sole_declarer(ev, d, x) by {
            if exists|x: Seq<char>| sole_declarer(ev, d, x) {
                let x = choose|x: Seq<char>| sole_declarer(ev, d, x);
                let m = choose|m: int| 0 <= m < ev.len() && #[trigger] ev[m] == (d, x);
                assert(ev[m].0 == d && sole_declarer(ev, d, ev[m].1));
            }
            if map.view_map().dom().contains(d) {
                assert(sole_declarer(ev, d, map.view_map()[d]));
            }
        }
    }
    map
}

/// Whether the token at a group occurrence spells the package's own name rather than the group's
/// terminal name: it then denotes the package's library target.
pub open spec fn names_package(token: Option<Seq<char>>, expected_name: Seq<char>, package: Seq<char>) -> bool {
    token is Some && token.unwrap() != expected_name && underscored(token.unwrap()) == underscored(package)
}

/// The first twin defined in `doc`.
pub open spec fn first_twin_in(docs: Seq<Seq<char>>, doc: Seq<char>, i: int) -> bool {
    0 <= i < docs.len() && docs[i] == doc && forall|j: int| 0 <= j < i ==> docs[j] != doc
}

/// The first twin defined in `doc`, if any.
fn first_twin(docs: &[String], doc: &str) -> (r: Option<usize>)
    ensures
        match r {
            Some(i) => first_twin_in(docs_view(docs@), doc@, i as int),
            None => no_twin_in(docs_view(docs@), doc@),
        },
{
    let ghost dv = docs_view(docs@);
    let mut i: usize = 0;
    while i < docs.len()
        invariant
            i <= docs.len(),
            dv == docs_view(docs@),
            forall|j: int| 0 <= j < i ==> dv[j] != doc@,
        decreases docs.len() - i,
    {
        assert(dv[i as int] == docs@[i as int]@);
        if str_eq(docs[i].as_str(), doc) {
            return Some(i);
        }
        i = i + 1;
    }
    None
}

/// The twin a group-addressed occurrence belongs to, and the locality rule that selected it; `None`
/// leaves the occurrence duplicate-ambiguous. `token` is the text of the name node at the
/// occurrence, when it is located on its source. A token spelling the package's own name (and not
/// the group's `expected_name`) denotes the library target: the first twin defined in
/// `library_root`, the package's library root document, or none. Otherwise document-grained
/// locality runs first (defining document, then module chain), then, for a located occurrence,
/// declaration scope over `twin_spans` and the enclosing `chain`.
pub fn select_group_twin(
    document_path: &str,
    token: Option<&str>,
    expected_name: &str,
    package: &str,
    library_root: Option<&str>,
    twin_docs: &[String],
    parent_of: &SourceSet,
    located: bool,
    twin_spans: &[Option<ByteSpan>],
    chain: &[SyntaxDeclaration],
) -> (r: Option<(usize, LocalityRule)>)
    requires
        parent_of.well_formed(),
        twin_docs.len() == twin_spans.len(),
    ensures
        names_package(opt_chars(token), expected_name@, package@) ==> match r {
            Some((i, rule)) => rule == LocalityRule::TargetMetadata && library_root is Some && first_twin_in(
                docs_view(twin_docs@),
                library_root.unwrap()@,
                i as int,
            ),
            None => library_root is None || no_twin_in(docs_view(twin_docs@), library_root.unwrap()@),
        },
        !names_package(opt_chars(token), expected_name@, package@) ==> match r {
            Some((i, rule)) => (rule == LocalityRule::DefiningDocument && sole_twin_in(
                docs_view(twin_docs@),
                document_path@,
                i as int,
            )) || (rule == LocalityRule::ModuleChain && exists|k: nat|
                k > 0 && walk_selects(parent_of.view_map(), docs_view(twin_docs@), document_path@, k, i as int)) || (
            rule == LocalityRule::DeclarationScope && located && (forall|k: nat, j: int|
                !walk_selects(parent_of.view_map(), docs_view(twin_docs@), document_path@, k, j)) && scope_selects(
                chain@,
                docs_view(twin_docs@),
                twin_spans@,
                document_path@,
                i as int,
            )),
            None => (forall|k: nat, j: int| !walk_selects(parent_of.view_map(), docs_view(twin_docs@), document_path@, k, j))
                && (located ==> forall|j: int| !scope_selects(chain@, docs_view(twin_docs@), twin_spans@, document_path@, j)),
        },
{
    if let Some(t) = token {
        if !str_eq(t, expected_name) && package_matches(t, package) {
            return match library_root {
                Some(root) => match first_twin(twin_docs, root) {
                    Some(i) => {
                        let res: Option<(usize, LocalityRule)> = Some((i, LocalityRule::TargetMetadata));
                        assert(res matches Some((i2, rule)) && rule == LocalityRule::TargetMetadata && i2 == i);
                        res
                    },
                    None => None,
                },
                None => None,
            };
        }
    }
    match select_twin(document_path, twin_docs, parent_of) {
        Some(found) => Some(found),
        None => {
            if located {
                select_twin_by_scope(document_path, twin_docs, twin_spans, chain)
            } else {
                None
            }
        },
    }
}

} // verus!
