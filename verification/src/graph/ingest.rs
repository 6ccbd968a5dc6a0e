//! The build's bookkeeping decisions: which declaration encloses a reference or a definition, which
//! edge a reference derives, which symbols contain another by span, and whether a stored embedding
//! carries forward.

use vstd::prelude::*;

use crate::identity::CanonicalId;
use crate::model::{OccurrenceRole, SourceRange, SymbolKind};
use vstd::string::StringSliceAdditionalSpecFns;

use crate::text::{
    chars_of, double_colon, find_from, occurs_at, find_from_exec, lemma_find_from, push_char, push_str, slice_to_vec, str_eq,
    string_of,
};
use crate::unicode::{trim_end, trim_end_chars};

use super::range::ByteSpan;
use super::rules::ostr;
use super::store::EdgeKind;
use super::syntax::{Language, SyntaxDeclaration};

verus! {

/// The stored tag of a symbol kind.
pub open spec fn kind_tag_of(kind: SymbolKind) -> Seq<char> {
    match kind {
        SymbolKind::Module => "module"@,
        SymbolKind::Type => "type"@,
        SymbolKind::Trait => "trait"@,
        SymbolKind::Function => "function"@,
        SymbolKind::Method => "method"@,
        SymbolKind::Constant => "constant"@,
        SymbolKind::Field => "field"@,
        SymbolKind::Other => "other"@,
    }
}

/// The stored tag of a symbol kind.
pub fn kind_tag(kind: SymbolKind) -> (r: &'static str)
    ensures
        r@ == kind_tag_of(kind),
{
    match kind {
        SymbolKind::Module => "module",
        SymbolKind::Type => "type",
        SymbolKind::Trait => "trait",
        SymbolKind::Function => "function",
        SymbolKind::Method => "method",
        SymbolKind::Constant => "constant",
        SymbolKind::Field => "field",
        SymbolKind::Other => "other",
    }
}

/// The stored tag of an occurrence role.
pub fn role_tag(role: OccurrenceRole) -> (r: &'static str)
    ensures
        r@ == (match role {
            OccurrenceRole::Definition => "definition"@,
            OccurrenceRole::Reference => "reference"@,
        }),
{
    match role {
        OccurrenceRole::Definition => "definition",
        OccurrenceRole::Reference => "reference",
    }
}

/// A persisted definition location as plain values: identity, document, name span.
pub open spec fn defs_view(defs: Seq<(CanonicalId, String, ByteSpan)>) -> Seq<(Seq<char>, Seq<char>, ByteSpan)> {
    defs.map_values(|d: (CanonicalId, String, ByteSpan)| (d.0@, d.1@, d.2))
}

/// The persisted types by terminal name as plain values.
pub open spec fn types_view(types: Seq<(String, CanonicalId)>) -> Seq<(Seq<char>, Seq<char>)> {
    types.map_values(|t: (String, CanonicalId)| (t.0@, t.1@))
}

/// The first persisted definition at `span` in `doc`.
pub open spec fn def_at(defs: Seq<(Seq<char>, Seq<char>, ByteSpan)>, doc: Seq<char>, span: ByteSpan) -> Option<Seq<char>>
    decreases defs.len(),
{
    if defs.len() == 0 {
        None
    } else if defs[0].1 == doc && defs[0].2 == span {
        Some(defs[0].0)
    } else {
        def_at(defs.drop_first(), doc, span)
    }
}

/// The first persisted type named `name`.
pub open spec fn type_named(types: Seq<(Seq<char>, Seq<char>)>, name: Seq<char>) -> Option<Seq<char>>
    decreases types.len(),
{
    if types.len() == 0 {
        None
    } else if types[0].0 == name {
        Some(types[0].1)
    } else {
        type_named(types.drop_first(), name)
    }
}

/// The nearest persisted declaration along an innermost-first enclosing chain: a declaration whose
/// name span is a persisted definition's, or an `impl` block, which stands for the persisted type
/// its type identifier names. `None` is the module itself.
pub open spec fn enclosing_spec(
    chain: Seq<SyntaxDeclaration>,
    name_texts: Seq<Option<Seq<char>>>,
    doc: Seq<char>,
    defs: Seq<(Seq<char>, Seq<char>, ByteSpan)>,
    types: Seq<(Seq<char>, Seq<char>)>,
) -> Option<Seq<char>>
    decreases chain.len(),
{
    if chain.len() == 0 {
        None
    } else if def_at(defs, doc, chain[0].name_span) is Some {
        def_at(defs, doc, chain[0].name_span)
    } else if chain[0].node_kind@ == "impl_item"@ && name_texts[0] is Some && type_named(
        types,
        name_texts[0].unwrap(),
    ) is Some {
        type_named(types, name_texts[0].unwrap())
    } else {
        enclosing_spec(chain.drop_first(), name_texts.drop_first(), doc, defs, types)
    }
}

/// The first persisted definition at `span` in `doc`.
fn find_def(defs: &[(CanonicalId, String, ByteSpan)], doc: &str, span: ByteSpan) -> (r: Option<CanonicalId>)
    ensures
        match r {
            Some(id) => def_at(defs_view(defs@), doc@, span) == Some(id@),
            None => def_at(defs_view(defs@), doc@, span) is None,
        },
{
    let ghost dv = defs_view(defs@);
    let mut k: usize = 0;
    assert(dv.skip(0) =~= dv);
    while k < defs.len()
        invariant
            k <= defs.len(),
            dv == defs_view(defs@),
            def_at(dv, doc@, span) == def_at(dv.skip(k as int), doc@, span),
        decreases defs.len() - k,
    {
        let (id, d, s) = &defs[k];
        assert(dv.skip(k as int)[0] == dv[k as int]);
        assert(dv[k as int] == (id@, d@, *s));
        assert(dv.skip(k as int).drop_first() =~= dv.skip(k + 1));
        if str_eq(d.as_str(), doc) && s.same_as(&span) {
            return Some(id.clone());
        }
        k = k + 1;
    }
    assert(dv.skip(k as int) =~= Seq::<(Seq<char>, Seq<char>, ByteSpan)>::empty());
    None
}

/// The first persisted type named `name`.
fn find_type(types: &[(String, CanonicalId)], name: &str) -> (r: Option<CanonicalId>)
    ensures
        match r {
            Some(id) => type_named(types_view(types@), name@) == Some(id@),
            None => type_named(types_view(types@), name@) is None,
        },
{
    let ghost tv = types_view(types@);
    let mut k: usize = 0;
    assert(tv.skip(0) =~= tv);
    while k < types.len()
        invariant
            k <= types.len(),
            tv == types_view(types@),
            type_named(tv, name@) == type_named(tv.skip(k as int), name@),
        decreases types.len() - k,
    {
        let (n, id) = &types[k];
        assert(tv.skip(k as int)[0] == tv[k as int]);
        assert(tv[k as int] == (n@, id@));
        assert(tv.skip(k as int).drop_first() =~= tv.skip(k + 1));
        if str_eq(n.as_str(), name) {
            return Some(id.clone());
        }
        k = k + 1;
    }
    assert(tv.skip(k as int) =~= Seq::<(Seq<char>, Seq<char>)>::empty());
    None
}

/// The nearest persisted declaration enclosing a reference, along its innermost-first enclosing
/// chain (`name_texts[i]` is the source text at `chain[i]`'s name span): `None` attributes the
/// reference to the module itself.
pub fn enclosing_symbol(
    chain: &[SyntaxDeclaration],
    name_texts: &[Option<String>],
    document_path: &str,
    defs: &[(CanonicalId, String, ByteSpan)],
    types: &[(String, CanonicalId)],
) -> (r: Option<CanonicalId>)
    requires
        chain.len() == name_texts.len(),
    ensures
        match r {
            Some(id) => enclosing_spec(
                chain@,
                name_texts@.map_values(|t: Option<String>| ostr(t)),
                document_path@,
                defs_view(defs@),
                types_view(types@),
            ) == Some(id@),
            None => enclosing_spec(
                chain@,
                name_texts@.map_values(|t: Option<String>| ostr(t)),
                document_path@,
                defs_view(defs@),
                types_view(types@),
            ) is None,
        },
{
    let ghost tv = name_texts@.map_values(|t: Option<String>| ostr(t));
    let mut k: usize = 0;
    assert(chain@.skip(0) =~= chain@);
    assert(tv.skip(0) =~= tv);
    while k < chain.len()
        invariant
            k <= chain.len(),
            chain.len() == name_texts.len(),
            tv == name_texts@.map_values(|t: Option<String>| ostr(t)),
            enclosing_spec(chain@, tv, document_path@, defs_view(defs@), types_view(types@)) == enclosing_spec(
                chain@.skip(k as int),
                tv.skip(k as int),
                document_path@,
                defs_view(defs@),
                types_view(types@),
            ),
        decreases chain.len() - k,
    {
        let decl = &chain[k];
        assert(chain@.skip(k as int)[0] == *decl);
        assert(tv.skip(k as int)[0] == tv[k as int]);
        assert(chain@.skip(k as int).drop_first() =~= chain@.skip(k + 1));
        assert(tv.skip(k as int).drop_first() =~= tv.skip(k + 1));
        if let Some(id) = find_def(defs, document_path, decl.name_span) {
            return Some(id);
        }
        if str_eq(decl.node_kind.as_str(), "impl_item") {
            if let Some(text) = &name_texts[k] {
                assert(tv[k as int] == Some(text@));
                if let Some(id) = find_type(types, text.as_str()) {
                    return Some(id);
                }
            }
        }
        k = k + 1;
    }
    assert(chain@.skip(k as int) =~= Seq::<SyntaxDeclaration>::empty());
    None
}

/// The declarations of a chain other than those at `name_span`, with their texts, in chain order.
pub open spec fn without_own(chain: Seq<SyntaxDeclaration>, texts: Seq<Option<Seq<char>>>, name_span: ByteSpan) -> (
    Seq<SyntaxDeclaration>,
    Seq<Option<Seq<char>>>,
)
    decreases chain.len(),
{
    if chain.len() == 0 || texts.len() == 0 {
        (Seq::empty(), Seq::empty())
    } else {
        let rest = without_own(chain.drop_last(), texts.drop_last(), name_span);
        if chain.last().name_span == name_span {
            rest
        } else {
            (rest.0.push(chain.last()), rest.1.push(texts.last()))
        }
    }
}

/// A copy of a declaration.
fn copy_decl(d: &SyntaxDeclaration) -> (r: SyntaxDeclaration)
    ensures
        r == *d,
{
    SyntaxDeclaration { node_kind: d.node_kind.clone(), name_span: d.name_span, full_span: d.full_span }
}

/// The parent of a definition at `name_span`: the nearest persisted declaration enclosing it other
/// than the definition's own declaration.
pub fn parent_of_definition(
    chain: &[SyntaxDeclaration],
    name_texts: &[Option<String>],
    document_path: &str,
    name_span: ByteSpan,
    defs: &[(CanonicalId, String, ByteSpan)],
    types: &[(String, CanonicalId)],
) -> (r: Option<CanonicalId>)
    requires
        chain.len() == name_texts.len(),
    ensures
        ({
            let parents = without_own(chain@, name_texts@.map_values(|t: Option<String>| ostr(t)), name_span);
            match r {
                Some(id) => enclosing_spec(parents.0, parents.1, document_path@, defs_view(defs@), types_view(types@))
                    == Some(id@),
                None => enclosing_spec(parents.0, parents.1, document_path@, defs_view(defs@), types_view(types@))
                    is None,
            }
        }),
{
    let ghost tv = name_texts@.map_values(|t: Option<String>| ostr(t));
    let mut parents: Vec<SyntaxDeclaration> = Vec::new();
    let mut parent_texts: Vec<Option<String>> = Vec::new();
    let mut k: usize = 0;
    while k < chain.len()
        invariant
            k <= chain.len(),
            chain.len() == name_texts.len(),
            tv == name_texts@.map_values(|t: Option<String>| ostr(t)),
            parents@.len() == parent_texts@.len(),
            (parents@, parent_texts@.map_values(|t: Option<String>| ostr(t))) == without_own(
                chain@.take(k as int),
                tv.take(k as int),
                name_span,
            ),
        decreases chain.len() - k,
    {
        let decl = &chain[k];
        proof {
            assert(chain@.take(k + 1).drop_last() =~= chain@.take(k as int));
            assert(tv.take(k + 1).drop_last() =~= tv.take(k as int));
            assert(chain@.take(k + 1).last() == *decl);
            assert(tv.take(k + 1).last() == tv[k as int]);
        }
        if !decl.name_span.same_as(&name_span) {
            let ghost before_t = parent_texts@;
            parents.push(copy_decl(decl));
            let t = match &name_texts[k] {
                Some(t) => Some(t.clone()),
                None => None,
            };
            assert(ostr(t) == tv[k as int]);
            parent_texts.push(t);
            proof {
                assert(parent_texts@.map_values(|t: Option<String>| ostr(t)) =~= before_t.map_values(
                    |t: Option<String>| ostr(t),
                ).push(tv[k as int]));
            }
        }
        k = k + 1;
    }
    proof {
        assert(chain@.take(chain.len() as int) =~= chain@);
        assert(tv.take(chain.len() as int) =~= tv);
    }
    enclosing_symbol(&parents, &parent_texts, document_path, defs, types)
}

/// Whether an aligned definition derives a containing parent: an empty span (a position without
/// extent) and a whole-document span (a file module) derive none.
pub open spec fn derives_parent_spec(name_span: ByteSpan, source_len: Option<usize>) -> bool {
    name_span.start != name_span.end && !(name_span.start == 0 && source_len == Some(name_span.end))
}

/// Whether an aligned definition derives a `contains` edge from its parent.
pub fn derives_parent(name_span: ByteSpan, source_len: Option<usize>) -> (r: bool)
    ensures
        r == derives_parent_spec(name_span, source_len),
{
    if name_span.start == name_span.end {
        return false;
    }
    match source_len {
        Some(n) => !(name_span.start == 0 && name_span.end == n),
        None => true,
    }
}

/// The dependency edge an aligned reference derives, as (kind, source identity): a reference
/// inside a persisted declaration is a `uses` edge from it; one at module scope an `imports` edge
/// from the document's module, when that module is persisted; otherwise none.
pub fn reference_edge(user: Option<&CanonicalId>, module: Option<&CanonicalId>) -> (r: Option<(EdgeKind, CanonicalId)>)
    ensures
        match user {
            Some(u) => r matches Some((EdgeKind::Uses, s)) && s@ == u@,
            None => match module {
                Some(m) => r matches Some((EdgeKind::Imports, s)) && s@ == m@,
                None => r is None,
            },
        },
{
    match user {
        Some(u) => Some((EdgeKind::Uses, u.clone())),
        None => match module {
            Some(m) => Some((EdgeKind::Imports, m.clone())),
            None => None,
        },
    }
}

/// One contributing symbol of a document: identity, definition span, whether it is a module.
pub open spec fn spanned_view(v: Seq<(CanonicalId, (usize, usize), bool)>) -> Seq<(Seq<char>, (usize, usize), bool)> {
    v.map_values(|s: (CanonicalId, (usize, usize), bool)| (s.0@, s.1, s.2))
}

/// Whether symbol `i` contains another symbol of its document by span: another identity whose span
/// lies within its own, a span equal to its own counting only when `i` is a module.
pub open spec fn contains_other(s: Seq<(Seq<char>, (usize, usize), bool)>, i: int) -> bool {
    exists|j: int|
        0 <= j < s.len() && #[trigger] s[j].0 != s[i].0 && s[i].1.0 <= s[j].1.0 && s[j].1.1 <= s[i].1.1 && (s[j].1
            != s[i].1 || s[i].2)
}

/// For each contributing symbol of one document, whether it contains another by span.
pub fn span_containers(spans: &[(CanonicalId, (usize, usize), bool)]) -> (r: Vec<bool>)
    ensures
        r@.len() == spans@.len(),
        forall|i: int| 0 <= i < spans@.len() ==> r@[i] == contains_other(spanned_view(spans@), i),
{
    let ghost sv = spanned_view(spans@);
    let mut r: Vec<bool> = Vec::new();
    let mut i: usize = 0;
    while i < spans.len()
        invariant
            i <= spans.len(),
            sv == spanned_view(spans@),
            r@.len() == i,
            forall|m: int| 0 <= m < i ==> r@[m] == contains_other(sv, m),
        decreases spans.len() - i,
    {
        let (id, outer, is_module) = &spans[i];
        assert(sv[i as int] == (id@, *outer, *is_module));
        let mut found = false;
        let mut j: usize = 0;
        while j < spans.len()
            invariant
                j <= spans.len(),
                i < spans.len(),
                sv == spanned_view(spans@),
                sv[i as int] == (id@, *outer, *is_module),
                found == exists|m: int|
                    0 <= m < j && #[trigger] sv[m].0 != sv[i as int].0 && sv[i as int].1.0 <= sv[m].1.0 && sv[m].1.1
                        <= sv[i as int].1.1 && (sv[m].1 != sv[i as int].1 || sv[i as int].2),
            decreases spans.len() - j,
        {
            let (other, inner, _) = &spans[j];
            assert(sv[j as int].0 == other@ && sv[j as int].1 == *inner);
            let hit = !str_eq(other.as_str(), id.as_str()) && outer.0 <= inner.0 && inner.1 <= outer.1 && (inner.0
                != outer.0 || inner.1 != outer.1 || *is_module);
            if hit {
                found = true;
            }
            j = j + 1;
        }
        r.push(found);
        i = i + 1;
    }
    r
}

/// A corpus entry's vector: the prior build's, carried forward when its render is byte-identical,
/// or `None` when the entry must be embedded anew.
pub fn carry_forward(prior: Option<(&str, &Vec<u8>)>, render: &str) -> (r: Option<Vec<u8>>)
    ensures
        match prior {
            Some((pr, emb)) => if pr@ == render@ {
                r matches Some(v) && v@ == emb@
            } else {
                r is None
            },
            None => r is None,
        },
{
    match prior {
        Some((pr, emb)) => if str_eq(pr, render) {
            let mut v: Vec<u8> = Vec::new();
            let mut k: usize = 0;
            while k < emb.len()
                invariant
                    k <= emb.len(),
                    v@ == emb@.take(k as int),
                decreases emb.len() - k,
            {
                v.push(emb[k]);
                assert(emb@.take(k + 1) =~= emb@.take(k as int).push(emb@[k as int]));
                k = k + 1;
            }
            assert(emb@.take(emb.len() as int) =~= emb@);
            Some(v)
        } else {
            None
        },
        None => None,
    }
}

/// The content a symbol's definition persists: its document, its span, and its body, signature
/// and interface texts.
#[derive(Debug, Clone, PartialEq, Eq, Default)]
pub struct DefinitionContent {
    /// The definition's document.
    pub document_path: Option<String>,
    /// The persisted span, as byte offsets.
    pub span: Option<(usize, usize)>,
    /// The body text.
    pub span_text: Option<String>,
    /// The signature tier.
    pub signature_text: Option<String>,
    /// The interface tier.
    pub interface_text: Option<String>,
}

/// The declaration whose name span is a symbol's definition name span: its full span, the source
/// text there, and its signature and interface tiers.
#[derive(Debug, Clone, PartialEq, Eq)]
pub struct MatchedDeclaration {
    /// The declaration's full span.
    pub full_span: ByteSpan,
    /// The source text of the full span, when the span lies on character boundaries.
    pub text: Option<String>,
    /// The declaration's signature tier.
    pub signature: String,
    /// The declaration's interface tier.
    pub interface: String,
}

/// What the syntax of a definition's document shows for it.
#[derive(Debug, Clone, PartialEq, Eq)]
pub struct DefinitionSyntax {
    /// The declaration matching the definition name span, if any.
    pub matched: Option<MatchedDeclaration>,
    /// The document's module documentation, if it carries any.
    pub module_documentation: Option<String>,
    /// The source text at the definition name span, when it lies on character boundaries.
    pub name_text: Option<String>,
}

/// The qualified-name portion of an identity: what follows its first `::`, or the whole identity.
pub open spec fn qualified_of(id: Seq<char>) -> Seq<char> {
    match find_from(id, seq![':', ':'], 0) {
        Some(i) => id.skip(i + 2),
        None => id,
    }
}

/// The qualified-name portion of a canonical identity: the identity with its leading workspace
/// segment (everything through the first `::`) stripped.
pub fn qualified_name(id: &CanonicalId) -> (r: Vec<char>)
    ensures
        r@ == qualified_of(id@),
{
    let cs = chars_of(id.as_str());
    let sep = double_colon();
    match find_from_exec(&cs, &sep, 0) {
        Some(i) => {
            proof {
                lemma_find_from(cs@, sep@, 0);
                assert(sep@.len() == 2);
                assert(occurs_at(cs@, sep@, i as int));
                assert(i + sep@.len() <= cs@.len());
            }
            assert(i + 2 <= cs.len());
            let r = slice_to_vec(&cs, i + 2, cs.len());
            assert(r@ =~= cs@.skip(i + 2));
            r
        },
        None => cs,
    }
}

/// The values of an optional string.
pub open spec fn text_of(o: Option<String>) -> Option<Seq<char>> {
    match o {
        Some(s) => Some(s@),
        None => None,
    }
}

/// A definition content as plain values.
pub open spec fn content_view(c: DefinitionContent) -> (
    Option<Seq<char>>,
    Option<(usize, usize)>,
    Option<Seq<char>>,
    Option<Seq<char>>,
    Option<Seq<char>>,
) {
    (text_of(c.document_path), c.span, text_of(c.span_text), text_of(c.signature_text), text_of(c.interface_text))
}

/// The content a definition persists. An external symbol, or one with no aligned definition
/// location, persists nothing; one whose document has no source persists only its document. A
/// definition matching a declaration persists that declaration's full span and text and its tiers.
/// A module matching none persists the whole document, its qualified name as signature, and the
/// qualified name followed by its module documentation (trailing whitespace trimmed) as interface.
/// Any other persists its name-span text as body, signature and interface alike.
pub open spec fn definition_content_spec(
    external: bool,
    is_module: bool,
    id: Seq<char>,
    location: Option<(Seq<char>, ByteSpan)>,
    source: Option<(Seq<char>, nat)>,
    syntax: DefinitionSyntax,
) -> (Option<Seq<char>>, Option<(usize, usize)>, Option<Seq<char>>, Option<Seq<char>>, Option<Seq<char>>) {
    if external || location is None {
        (None, None, None, None, None)
    } else {
        let doc = location.unwrap().0;
        let name_span = location.unwrap().1;
        match source {
            None => (Some(doc), None, None, None, None),
            Some((text, n)) => match syntax.matched {
                Some(m) => (
                    Some(doc),
                    Some((m.full_span.start, m.full_span.end)),
                    text_of(m.text),
                    Some(m.signature@),
                    Some(m.interface@),
                ),
                None => if is_module {
                    (
                        Some(doc),
                        Some((0, n as usize)),
                        Some(text),
                        Some(qualified_of(id)),
                        Some(
                            match syntax.module_documentation {
                                Some(d) => qualified_of(id) + seq!['\n'] + trim_end(d@),
                                None => qualified_of(id),
                            },
                        ),
                    )
                } else {
                    (
                        Some(doc),
                        Some((name_span.start, name_span.end)),
                        text_of(syntax.name_text),
                        text_of(syntax.name_text),
                        text_of(syntax.name_text),
                    )
                },
            },
        }
    }
}

/// A copy of an optional string.
fn copy_text(o: &Option<String>) -> (r: Option<String>)
    ensures
        r == *o,
{
    match o {
        Some(s) => Some(s.clone()),
        None => None,
    }
}

/// The content a symbol's definition persists, from its aligned definition `location` (document
/// and name span), its document's `source`, and what the syntax there shows.
pub fn definition_content(
    external: bool,
    is_module: bool,
    id: &CanonicalId,
    location: Option<(&str, ByteSpan)>,
    source: Option<&str>,
    syntax: &DefinitionSyntax,
) -> (r: DefinitionContent)
    requires
        source matches Some(src) ==> src.spec_bytes().len() <= usize::MAX,
    ensures
        content_view(r) == definition_content_spec(
            external,
            is_module,
            id@,
            match location {
                Some((d, sp)) => Some((d@, sp)),
                None => None,
            },
            match source {
                Some(src) => Some((src@, src.spec_bytes().len())),
                None => None,
            },
            *syntax,
        ),
{
    let empty = DefinitionContent {
        document_path: None,
        span: None,
        span_text: None,
        signature_text: None,
        interface_text: None,
    };
    if external {
        return empty;
    }
    let (doc, name_span) = match location {
        Some(l) => l,
        None => return empty,
    };
    let mut doc_owned = String::new();
    push_str(&mut doc_owned, doc);
    let src = match source {
        Some(s) => s,
        None => {
            return DefinitionContent {
                document_path: Some(doc_owned),
                span: None,
                span_text: None,
                signature_text: None,
                interface_text: None,
            };
        },
    };
    match &syntax.matched {
        Some(m) => DefinitionContent {
            document_path: Some(doc_owned),
            span: Some((m.full_span.start, m.full_span.end)),
            span_text: copy_text(&m.text),
            signature_text: Some(m.signature.clone()),
            interface_text: Some(m.interface.clone()),
        },
        None => {
            if is_module {
                let q = qualified_name(id);
                let signature = string_of(&q);
                let mut interface = string_of(&q);
                if let Some(d) = &syntax.module_documentation {
                    let dc = chars_of(d.as_str());
                    let trimmed = trim_end_chars(&dc);
                    push_char(&mut interface, '\n');
                    let tail = string_of(&trimmed);
                    push_str(&mut interface, tail.as_str());
                }
                let mut whole = String::new();
                push_str(&mut whole, src);
                DefinitionContent {
                    document_path: Some(doc_owned),
                    span: Some((0, src.as_bytes().len())),
                    span_text: Some(whole),
                    signature_text: Some(signature),
                    interface_text: Some(interface),
                }
            } else {
                DefinitionContent {
                    document_path: Some(doc_owned),
                    span: Some((name_span.start, name_span.end)),
                    span_text: copy_text(&syntax.name_text),
                    signature_text: copy_text(&syntax.name_text),
                    interface_text: copy_text(&syntax.name_text),
                }
            }
        },
    }
}

/// A persisted module symbol's definition occurrence: its document, its range, and — when the
/// document's source is available and the range normalizes onto it — its byte span and the
/// source's byte length.
#[derive(Debug, Clone, PartialEq, Eq)]
pub struct ModuleDefinition {
    /// The definition's document.
    pub document_path: String,
    /// The definition's range as the index reports it.
    pub range: SourceRange,
    /// The range normalized onto the document's source, if it normalizes.
    pub span: Option<ByteSpan>,
    /// The byte length of the document's source, if it is available.
    pub source_len: Option<usize>,
}

/// Whether a module definition is its document's own module: a Python module's zero-width origin
/// marker, or a Rust definition spanning its whole source.
pub open spec fn is_document_module(d: ModuleDefinition, language: Language) -> bool {
    match language {
        Language::Python => d.range == (SourceRange { start_line: 0, start_char: 0, end_line: 0, end_char: 0 }),
        Language::Rust => d.span is Some && d.source_len is Some && d.span.unwrap().start == 0
            && d.span.unwrap().end == d.source_len.unwrap(),
    }
}

/// Whether symbol `i` defines its document's own module.
pub open spec fn defines_document_module(defs: Seq<Option<ModuleDefinition>>, language: Language, i: int) -> bool {
    0 <= i < defs.len() && defs[i] is Some && is_document_module(defs[i].unwrap(), language)
}

/// Whether symbol `i` is the first defining `doc`'s own module.
pub open spec fn first_document_module(defs: Seq<Option<ModuleDefinition>>, language: Language, doc: Seq<char>, i: int) -> bool {
    &&& defines_document_module(defs, language, i)
    &&& defs[i].unwrap().document_path@ == doc
    &&& forall|j: int| 0 <= j < i && defines_document_module(defs, language, j) ==> defs[j].unwrap().document_path@ != doc
}

/// Which index symbol is each document's own module: for every document, the first persisted
/// module symbol whose definition is the whole document (`defs[i]` describes symbol `i`'s
/// definition when it is a persisted module with one). A definition that does not normalize onto
/// its source contributes no entry: refusal over a guessed module.
pub fn module_by_document(defs: &[Option<ModuleDefinition>], language: Language) -> (r: Vec<(String, usize)>)
    ensures
        forall|k: int| 0 <= k < r@.len() ==> first_document_module(defs@, language, (#[trigger] r@[k]).0@, r@[k].1 as int),
        forall|i: int| defines_document_module(defs@, language, i) ==> exists|k: int|
            0 <= k < r@.len() && (#[trigger] r@[k]).0@ == defs@[i].unwrap().document_path@,
        forall|a: int, b: int| 0 <= a < b < r@.len() ==> (#[trigger] r@[a]).0@ != (#[trigger] r@[b]).0@,
{
    let mut r: Vec<(String, usize)> = Vec::new();
    let mut i: usize = 0;
    while i < defs.len()
        invariant
            i <= defs.len(),
            forall|k: int| 0 <= k < r@.len() ==> (#[trigger] r@[k]).1 < i && first_document_module(defs@, language, r@[k].0@, r@[k].1 as int),
            forall|m: int| 0 <= m < i && defines_document_module(defs@, language, m) ==> exists|k: int|
                0 <= k < r@.len() && (#[trigger] r@[k]).0@ == defs@[m].unwrap().document_path@,
            forall|a: int, b: int| 0 <= a < b < r@.len() ==> (#[trigger] r@[a]).0@ != (#[trigger] r@[b]).0@,
        decreases defs.len() - i,
    {
        if let Some(d) = &defs[i] {
            let is_module = match language {
                Language::Python => d.range.same_as(&SourceRange::new(0, 0, 0, 0)),
                Language::Rust => match (d.span, d.source_len) {
                    (Some(sp), Some(n)) => sp.start == 0 && sp.end == n,
                    _ => false,
                },
            };
            if is_module {
                let mut seen = false;
                let mut k: usize = 0;
                while k < r.len()
                    invariant
                        k <= r.len(),
                        seen == exists|x: int| 0 <= x < k && (#[trigger] r@[x]).0@ == d.document_path@,
                    decreases r.len() - k,
                {
                    if str_eq(r[k].0.as_str(), d.document_path.as_str()) {
                        seen = true;
                    }
                    k = k + 1;
                }
                if !seen {
                    let ghost before = r@;
                    proof {
                        assert forall|j: int| 0 <= j < i && defines_document_module(defs@, language, j) implies defs@[j].unwrap().document_path@
                            != d.document_path@ by {
                            if defs@[j].unwrap().document_path@ == d.document_path@ {
                                let x = choose|x: int| 0 <= x < before.len() && (#[trigger] before[x]).0@ == defs@[j].unwrap().document_path@;
                            }
                        }
                        assert(first_document_module(defs@, language, d.document_path@, i as int));
                    }
                    r.push((d.document_path.clone(), i));
                    proof {
                        assert forall|m: int| 0 <= m < i + 1 && defines_document_module(defs@, language, m) implies exists|k: int|
                            0 <= k < r@.len() && (#[trigger] r@[k]).0@ == defs@[m].unwrap().document_path@ by {
                            if m < i {
                                let x = choose|x: int| 0 <= x < before.len() && (#[trigger] before[x]).0@ == defs@[m].unwrap().document_path@;
                                assert(r@[x] == before[x]);
                            } else {
                                assert(r@[before.len() as int].0@ == defs@[m].unwrap().document_path@);
                            }
                        }
                        assert forall|k: int| 0 <= k < r@.len() implies (#[trigger] r@[k]).1 < i + 1 && first_document_module(defs@, language, r@[k].0@, r@[k].1 as int) by {
                            if k < before.len() {
                                assert(r@[k] == before[k]);
                            }
                        }
                        assert forall|a: int, b: int| 0 <= a < b < r@.len() implies (#[trigger] r@[a]).0@ != (#[trigger] r@[b]).0@ by {
                            assert(r@[a] == before[a]);
                            if b < before.len() {
                                assert(r@[b] == before[b]);
                            }
                        }
                    }
                } else {
                    proof {
                        let x = choose|x: int| 0 <= x < r@.len() && (#[trigger] r@[x]).0@ == d.document_path@;
                        assert forall|m: int| 0 <= m < i + 1 && defines_document_module(defs@, language, m) implies exists|k: int|
                            0 <= k < r@.len() && (#[trigger] r@[k]).0@ == defs@[m].unwrap().document_path@ by {
                            if m == i {
                                assert(r@[x].0@ == defs@[m].unwrap().document_path@);
                            }
                        }
                    }
                }
            } else {
                proof {
                    assert(!defines_document_module(defs@, language, i as int));
                }
            }
        }
        i = i + 1;
    }
    r
}

} // verus!
