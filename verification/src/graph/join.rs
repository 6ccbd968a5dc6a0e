//! The guarded positional join between the semantic index and the syntax tree: the named alignment
//! rules, the join's outcomes and their accounting, and the rules' pure decisions.
//!
//! An attribution persists as aligned if and only if one rule's exact expectation is satisfied;
//! every occurrence lands in exactly one per-rule acceptance bucket or one refusal outcome, so
//! acceptances plus refusals sum to the occurrences processed.

use vstd::prelude::*;

use crate::identity::CanonicalId;
use crate::model::OccurrenceRole;
use crate::pairs::{lemma_pairs_map_absent, lemma_pairs_map_lookup, lemma_pairs_map_replace, pairs_map};
use crate::text::str_eq;

use super::range::ByteSpan;
use super::rules::{evaluate_rules_at, odesc, ostr, rules_verdict, SiteFacts};
use super::store::{disambiguator_base, disambiguator_base_of};
use super::syntax::{AliasBinding, Language, SyntaxDeclaration};
use crate::identity::Descriptor;
use crate::model::SymbolKind;

verus! {

/// The named alignment rule that accepted an attribution.
#[derive(Debug, Clone, Copy, PartialEq, Eq, Hash)]
pub enum AlignmentRule {
    /// The source text at the matched name node equals the expected name token.
    Exact,
    /// A crate-root occurrence whose token is the package name or `crate`.
    CrateRoot,
    /// A desugared-operator method located at the operator construct it desugars from.
    OperatorDesugar,
    /// A module definition whose range spans its whole document.
    ModuleSpan,
    /// A type reference at a `Self` token inside an impl of that type or trait.
    SelfKeyword,
    /// A Python module occurrence at a token spelling a trailing run of its dotted name.
    ModuleName,
    /// A module occurrence at a token denoting the containing module itself.
    SelfName,
    /// A Python module definition at the empty span at its document's origin.
    ModuleMarker,
    /// A reference at a declared alias of the occurrence's symbol.
    ImportAlias,
    /// A range-type reference at a range operator of the matching shape.
    RangeLiteral,
    /// A module occurrence at a use-list `self` token.
    UseListSelf,
    /// A module occurrence at a `super` token whose chain depth resolves to it.
    SuperKeyword,
}

/// The stored tag of each alignment rule.
pub open spec fn rule_tag(rule: AlignmentRule) -> Seq<char> {
    match rule {
        AlignmentRule::Exact => "exact"@,
        AlignmentRule::CrateRoot => "crate_root"@,
        AlignmentRule::OperatorDesugar => "operator_desugar"@,
        AlignmentRule::ModuleSpan => "module_span"@,
        AlignmentRule::SelfKeyword => "self_keyword"@,
        AlignmentRule::ModuleName => "module_name"@,
        AlignmentRule::SelfName => "self_name"@,
        AlignmentRule::ModuleMarker => "module_marker"@,
        AlignmentRule::ImportAlias => "import_alias"@,
        AlignmentRule::RangeLiteral => "range_literal"@,
        AlignmentRule::UseListSelf => "use_list_self"@,
        AlignmentRule::SuperKeyword => "super_keyword"@,
    }
}

impl AlignmentRule {
    /// The stored tag for this rule.
    pub fn tag(&self) -> (r: &'static str)
        ensures
            r@ == rule_tag(*self),
    {
        match self {
            AlignmentRule::Exact => "exact",
            AlignmentRule::CrateRoot => "crate_root",
            AlignmentRule::OperatorDesugar => "operator_desugar",
            AlignmentRule::ModuleSpan => "module_span",
            AlignmentRule::SelfKeyword => "self_keyword",
            AlignmentRule::ModuleName => "module_name",
            AlignmentRule::SelfName => "self_name",
            AlignmentRule::ModuleMarker => "module_marker",
            AlignmentRule::ImportAlias => "import_alias",
            AlignmentRule::RangeLiteral => "range_literal",
            AlignmentRule::UseListSelf => "use_list_self",
            AlignmentRule::SuperKeyword => "super_keyword",
        }
    }
}

/// The rule vocabulary, in declaration order.
pub open spec fn rule_vocabulary() -> Seq<AlignmentRule> {
    seq![
        AlignmentRule::Exact,
        AlignmentRule::CrateRoot,
        AlignmentRule::OperatorDesugar,
        AlignmentRule::ModuleSpan,
        AlignmentRule::SelfKeyword,
        AlignmentRule::ModuleName,
        AlignmentRule::SelfName,
        AlignmentRule::ModuleMarker,
        AlignmentRule::ImportAlias,
        AlignmentRule::RangeLiteral,
        AlignmentRule::UseListSelf,
        AlignmentRule::SuperKeyword,
    ]
}

/// The locality rule that selected a duplicated descriptor's twin.
#[derive(Debug, Clone, Copy, PartialEq, Eq, Hash)]
pub enum LocalityRule {
    /// The occurrence's document is the definition document of exactly one twin.
    DefiningDocument,
    /// The occurrence's document belongs to exactly one twin's module tree.
    ModuleChain,
    /// The occurrence's token spells the package's own name; the library target's twin is chosen.
    TargetMetadata,
    /// The innermost declaration enclosing the occurrence that contains a twin contains exactly one.
    DeclarationScope,
}

/// The stored tag of each locality rule.
pub open spec fn locality_tag(rule: LocalityRule) -> Seq<char> {
    match rule {
        LocalityRule::DefiningDocument => "defining_document"@,
        LocalityRule::ModuleChain => "module_chain"@,
        LocalityRule::TargetMetadata => "target_metadata"@,
        LocalityRule::DeclarationScope => "declaration_scope"@,
    }
}

impl LocalityRule {
    /// The stored tag for this rule.
    pub fn tag(&self) -> (r: &'static str)
        ensures
            r@ == locality_tag(*self),
    {
        match self {
            LocalityRule::DefiningDocument => "defining_document",
            LocalityRule::ModuleChain => "module_chain",
            LocalityRule::TargetMetadata => "target_metadata",
            LocalityRule::DeclarationScope => "declaration_scope",
        }
    }
}

/// The outcome of joining one semantic occurrence against the syntax tree.
#[derive(Debug, Clone, Copy, PartialEq, Eq, Hash)]
pub enum JoinOutcome {
    /// The occurrence's location holds syntax naming the same symbol.
    Aligned,
    /// The location holds a name node whose text is not the expected name token.
    TextMismatch,
    /// No syntactic construct exists at the location.
    SemanticOnly,
    /// A non-definition occurrence of a descriptor shared by more than one definition.
    DuplicateAmbiguous,
}

/// The stored tag of each outcome.
pub open spec fn outcome_tag(outcome: JoinOutcome) -> Seq<char> {
    match outcome {
        JoinOutcome::Aligned => "aligned"@,
        JoinOutcome::TextMismatch => "text_mismatch"@,
        JoinOutcome::SemanticOnly => "semantic_only"@,
        JoinOutcome::DuplicateAmbiguous => "duplicate_ambiguous"@,
    }
}

impl JoinOutcome {
    /// The stored tag for this outcome.
    pub fn tag(&self) -> (r: &'static str)
        ensures
            r@ == outcome_tag(*self),
    {
        match self {
            JoinOutcome::Aligned => "aligned",
            JoinOutcome::TextMismatch => "text_mismatch",
            JoinOutcome::SemanticOnly => "semantic_only",
            JoinOutcome::DuplicateAmbiguous => "duplicate_ambiguous",
        }
    }
}

/// An occurrence that aligned.
#[derive(Debug, Clone, PartialEq, Eq)]
pub struct AlignedOccurrence {
    /// The canonical identity of the symbol the occurrence belongs to.
    pub symbol: CanonicalId,
    /// The document the occurrence sits in.
    pub document_path: String,
    /// The byte span of the matched construct.
    pub name_span: ByteSpan,
    /// The occurrence role.
    pub role: OccurrenceRole,
    /// The alignment rule that accepted this attribution.
    pub rule: AlignmentRule,
    /// The locality rule that selected this attribution's twin, for a duplicated descriptor.
    pub locality: Option<LocalityRule>,
    /// For a reference, the enclosing declaration chain, innermost first.
    pub enclosing: Vec<SyntaxDeclaration>,
}

/// An occurrence whose location did not reconcile with the syntax at that location.
#[derive(Debug, Clone, PartialEq, Eq)]
pub struct UnalignedOccurrence {
    /// The canonical identity of the symbol the occurrence belongs to.
    pub symbol: CanonicalId,
    /// The document the occurrence sits in.
    pub document_path: String,
    /// The occurrence role.
    pub role: OccurrenceRole,
    /// Why it did not align.
    pub outcome: JoinOutcome,
    /// The byte span at the occurrence's location, when the coordinate normalized onto the source.
    pub span: Option<ByteSpan>,
    /// The expected name token.
    pub expected_name: String,
    /// The source text found at the location, if any syntax was there.
    pub found_text: Option<String>,
}

/// Per-build counts of join outcomes: one acceptance bucket per alignment rule, plus the refusal
/// outcomes and the syntax-only declarations.
#[derive(Debug, Clone, Copy, PartialEq, Eq)]
pub struct JoinAccounting {
    /// Occurrences accepted by the default name-token-equality rule.
    pub aligned_exact: u64,
    /// Occurrences accepted by the crate-root rule.
    pub aligned_crate_root: u64,
    /// Occurrences accepted by the operator-desugar rule.
    pub aligned_operator_desugar: u64,
    /// Occurrences accepted by the module-span rule.
    pub aligned_module_span: u64,
    /// Occurrences accepted by the self-keyword rule.
    pub aligned_self_keyword: u64,
    /// Occurrences accepted by the module-name rule.
    pub aligned_module_name: u64,
    /// Occurrences accepted by the self-name rule.
    pub aligned_self_name: u64,
    /// Occurrences accepted by the module-marker rule.
    pub aligned_module_marker: u64,
    /// Occurrences accepted by the import-alias rule.
    pub aligned_import_alias: u64,
    /// Occurrences accepted by the range-literal rule.
    pub aligned_range_literal: u64,
    /// Occurrences accepted by the use-list-self rule.
    pub aligned_use_list_self: u64,
    /// Occurrences accepted by the super-keyword rule.
    pub aligned_super_keyword: u64,
    /// Occurrences whose location satisfied no alignment rule's expectation.
    pub text_mismatch: u64,
    /// Occurrences with no syntactic construct at their location.
    pub semantic_only: u64,
    /// Non-definition occurrences of a descriptor shared by more than one definition.
    pub duplicate_ambiguous: u64,
    /// Syntactic declarations the backend did not resolve to any symbol.
    pub syntax_only: u64,
}

/// The acceptance bucket of one rule.
pub open spec fn bucket(a: JoinAccounting, rule: AlignmentRule) -> u64 {
    match rule {
        AlignmentRule::Exact => a.aligned_exact,
        AlignmentRule::CrateRoot => a.aligned_crate_root,
        AlignmentRule::OperatorDesugar => a.aligned_operator_desugar,
        AlignmentRule::ModuleSpan => a.aligned_module_span,
        AlignmentRule::SelfKeyword => a.aligned_self_keyword,
        AlignmentRule::ModuleName => a.aligned_module_name,
        AlignmentRule::SelfName => a.aligned_self_name,
        AlignmentRule::ModuleMarker => a.aligned_module_marker,
        AlignmentRule::ImportAlias => a.aligned_import_alias,
        AlignmentRule::RangeLiteral => a.aligned_range_literal,
        AlignmentRule::UseListSelf => a.aligned_use_list_self,
        AlignmentRule::SuperKeyword => a.aligned_super_keyword,
    }
}

/// The sum of every acceptance bucket.
pub open spec fn aligned_sum(a: JoinAccounting) -> int {
    a.aligned_exact + a.aligned_crate_root + a.aligned_operator_desugar + a.aligned_module_span
        + a.aligned_self_keyword + a.aligned_module_name + a.aligned_self_name
        + a.aligned_module_marker + a.aligned_import_alias + a.aligned_range_literal
        + a.aligned_use_list_self + a.aligned_super_keyword
}

/// The sum of every acceptance bucket and every refusal outcome.
pub open spec fn semantic_sum(a: JoinAccounting) -> int {
    aligned_sum(a) + a.text_mismatch + a.semantic_only + a.duplicate_ambiguous
}

/// Whether `b` is `a` with exactly one acceptance counted under `rule`.
pub open spec fn accepted_once(a: JoinAccounting, b: JoinAccounting, rule: AlignmentRule) -> bool {
    &&& forall|r: AlignmentRule| #[trigger] bucket(b, r) == bucket(a, r) + if r == rule {
        1int
    } else {
        0int
    }
    &&& b.text_mismatch == a.text_mismatch
    &&& b.semantic_only == a.semantic_only
    &&& b.duplicate_ambiguous == a.duplicate_ambiguous
    &&& b.syntax_only == a.syntax_only
}

impl JoinAccounting {
    /// An accounting with every count zero.
    pub fn zero() -> (r: Self)
        ensures
            semantic_sum(r) == 0,
            r.syntax_only == 0,
            forall|rule: AlignmentRule| #[trigger] bucket(r, rule) == 0,
    {
        JoinAccounting {
            aligned_exact: 0,
            aligned_crate_root: 0,
            aligned_operator_desugar: 0,
            aligned_module_span: 0,
            aligned_self_keyword: 0,
            aligned_module_name: 0,
            aligned_self_name: 0,
            aligned_module_marker: 0,
            aligned_import_alias: 0,
            aligned_range_literal: 0,
            aligned_use_list_self: 0,
            aligned_super_keyword: 0,
            text_mismatch: 0,
            semantic_only: 0,
            duplicate_ambiguous: 0,
            syntax_only: 0,
        }
    }

    /// Count one acceptance under `rule`.
    pub fn accept(&mut self, rule: AlignmentRule)
        requires
            bucket(*old(self), rule) < u64::MAX,
        ensures
            accepted_once(*old(self), *final(self), rule),
            aligned_sum(*final(self)) == aligned_sum(*old(self)) + 1,
            semantic_sum(*final(self)) == semantic_sum(*old(self)) + 1,
    {
        let ghost before = *self;
        match rule {
            AlignmentRule::Exact => self.aligned_exact = self.aligned_exact + 1,
            AlignmentRule::CrateRoot => self.aligned_crate_root = self.aligned_crate_root + 1,
            AlignmentRule::OperatorDesugar => self.aligned_operator_desugar =
            self.aligned_operator_desugar + 1,
            AlignmentRule::ModuleSpan => self.aligned_module_span = self.aligned_module_span + 1,
            AlignmentRule::SelfKeyword => self.aligned_self_keyword = self.aligned_self_keyword + 1,
            AlignmentRule::ModuleName => self.aligned_module_name = self.aligned_module_name + 1,
            AlignmentRule::SelfName => self.aligned_self_name = self.aligned_self_name + 1,
            AlignmentRule::ModuleMarker => self.aligned_module_marker = self.aligned_module_marker
                + 1,
            AlignmentRule::ImportAlias => self.aligned_import_alias = self.aligned_import_alias + 1,
            AlignmentRule::RangeLiteral => self.aligned_range_literal = self.aligned_range_literal
                + 1,
            AlignmentRule::UseListSelf => self.aligned_use_list_self = self.aligned_use_list_self
                + 1,
            AlignmentRule::SuperKeyword => self.aligned_super_keyword = self.aligned_super_keyword
                + 1,
        }
        proof {
            lemma_accept_counts(before, *self, rule);
        }
    }

    /// The total occurrences accepted across all alignment rules.
    pub fn aligned_total(&self) -> (r: u64)
        requires
            aligned_sum(*self) <= u64::MAX,
        ensures
            r == aligned_sum(*self),
    {
        self.aligned_exact + self.aligned_crate_root + self.aligned_operator_desugar
            + self.aligned_module_span + self.aligned_self_keyword + self.aligned_module_name
            + self.aligned_self_name + self.aligned_module_marker + self.aligned_import_alias
            + self.aligned_range_literal + self.aligned_use_list_self + self.aligned_super_keyword
    }

    /// The total semantic occurrences processed: every acceptance bucket plus every refusal.
    pub fn total_semantic(&self) -> (r: u64)
        requires
            semantic_sum(*self) <= u64::MAX,
        ensures
            r == semantic_sum(*self),
    {
        self.aligned_total() + self.text_mismatch + self.semantic_only + self.duplicate_ambiguous
    }

    /// The acceptance buckets, one per rule of the vocabulary, in declaration order.
    pub fn by_rule(&self) -> (r: Vec<(AlignmentRule, u64)>)
        ensures
            r@.len() == rule_vocabulary().len(),
            forall|i: int|
                0 <= i < r@.len() ==> (#[trigger] r@[i]).0 == rule_vocabulary()[i] && r@[i].1
                    == bucket(*self, rule_vocabulary()[i]),
    {
        let mut r: Vec<(AlignmentRule, u64)> = Vec::new();
        r.push((AlignmentRule::Exact, self.aligned_exact));
        r.push((AlignmentRule::CrateRoot, self.aligned_crate_root));
        r.push((AlignmentRule::OperatorDesugar, self.aligned_operator_desugar));
        r.push((AlignmentRule::ModuleSpan, self.aligned_module_span));
        r.push((AlignmentRule::SelfKeyword, self.aligned_self_keyword));
        r.push((AlignmentRule::ModuleName, self.aligned_module_name));
        r.push((AlignmentRule::SelfName, self.aligned_self_name));
        r.push((AlignmentRule::ModuleMarker, self.aligned_module_marker));
        r.push((AlignmentRule::ImportAlias, self.aligned_import_alias));
        r.push((AlignmentRule::RangeLiteral, self.aligned_range_literal));
        r.push((AlignmentRule::UseListSelf, self.aligned_use_list_self));
        r.push((AlignmentRule::SuperKeyword, self.aligned_super_keyword));
        r
    }
}

impl Default for JoinAccounting {
    fn default() -> (r: Self)
        ensures
            semantic_sum(r) == 0,
            r.syntax_only == 0,
    {
        JoinAccounting::zero()
    }
}

/// Raising exactly one bucket by one counts exactly one acceptance.
proof fn lemma_accept_counts(a: JoinAccounting, b: JoinAccounting, rule: AlignmentRule)
    requires
        bucket(b, rule) == bucket(a, rule) + 1,
        b.text_mismatch == a.text_mismatch,
        b.semantic_only == a.semantic_only,
        b.duplicate_ambiguous == a.duplicate_ambiguous,
        b.syntax_only == a.syntax_only,
        rule != AlignmentRule::Exact ==> b.aligned_exact == a.aligned_exact,
        rule != AlignmentRule::CrateRoot ==> b.aligned_crate_root == a.aligned_crate_root,
        rule != AlignmentRule::OperatorDesugar ==> b.aligned_operator_desugar
            == a.aligned_operator_desugar,
        rule != AlignmentRule::ModuleSpan ==> b.aligned_module_span == a.aligned_module_span,
        rule != AlignmentRule::SelfKeyword ==> b.aligned_self_keyword == a.aligned_self_keyword,
        rule != AlignmentRule::ModuleName ==> b.aligned_module_name == a.aligned_module_name,
        rule != AlignmentRule::SelfName ==> b.aligned_self_name == a.aligned_self_name,
        rule != AlignmentRule::ModuleMarker ==> b.aligned_module_marker == a.aligned_module_marker,
        rule != AlignmentRule::ImportAlias ==> b.aligned_import_alias == a.aligned_import_alias,
        rule != AlignmentRule::RangeLiteral ==> b.aligned_range_literal == a.aligned_range_literal,
        rule != AlignmentRule::UseListSelf ==> b.aligned_use_list_self == a.aligned_use_list_self,
        rule != AlignmentRule::SuperKeyword ==> b.aligned_super_keyword == a.aligned_super_keyword,
    ensures
        accepted_once(a, b, rule),
        aligned_sum(b) == aligned_sum(a) + 1,
        semantic_sum(b) == semantic_sum(a) + 1,
{
    assert forall|r: AlignmentRule| #[trigger] bucket(b, r) == bucket(a, r) + if r == rule {
        1int
    } else {
        0int
    } by {
        if r != rule {
            match r {
                AlignmentRule::Exact => {},
                AlignmentRule::CrateRoot => {},
                AlignmentRule::OperatorDesugar => {},
                AlignmentRule::ModuleSpan => {},
                AlignmentRule::SelfKeyword => {},
                AlignmentRule::ModuleName => {},
                AlignmentRule::SelfName => {},
                AlignmentRule::ModuleMarker => {},
                AlignmentRule::ImportAlias => {},
                AlignmentRule::RangeLiteral => {},
                AlignmentRule::UseListSelf => {},
                AlignmentRule::SuperKeyword => {},
            }
        }
    }
}

/// The result of joining an index against its source documents.
#[derive(Debug, Clone, PartialEq, Eq)]
pub struct JoinResult {
    /// Occurrences that aligned.
    pub aligned: Vec<AlignedOccurrence>,
    /// Occurrences that did not align.
    pub unaligned: Vec<UnalignedOccurrence>,
    /// Per-build outcome counts.
    pub accounting: JoinAccounting,
}

/// The source text of each referenced document, keyed by document path.
pub struct SourceCorpus<'a> {
    texts: Vec<(&'a str, &'a str)>,
}

/// The values of a list of string pairs.
pub open spec fn str_pairs_view<'a>(pairs: Seq<(&'a str, &'a str)>) -> Seq<(Seq<char>, Seq<char>)> {
    pairs.map_values(|p: (&'a str, &'a str)| (p.0@, p.1@))
}

impl<'a> SourceCorpus<'a> {
    /// The corpus as a map from document path to source text.
    pub closed spec fn view_map(&self) -> Map<Seq<char>, Seq<char>> {
        pairs_map(str_pairs_view(self.texts@))
    }

    /// Whether the stored pairs hold each path once.
    pub closed spec fn well_formed(&self) -> bool {
        forall|i: int, j: int|
            0 <= i < j < self.texts@.len() ==> (#[trigger] self.texts@[i]).0@ != (
            #[trigger] self.texts@[j]).0@
    }

    /// Build a corpus from `(document_path, source_text)` pairs; a later pair for a path replaces
    /// an earlier one.
    pub fn new(entries: &[(&'a str, &'a str)]) -> (r: Self)
        ensures
            r.well_formed(),
            r.view_map() == pairs_map(str_pairs_view(entries@)),
    {
        let mut texts: Vec<(&'a str, &'a str)> = Vec::new();
        let mut k: usize = 0;
        while k < entries.len()
            invariant
                k <= entries.len(),
                forall|i: int, j: int|
                    0 <= i < j < texts@.len() ==> (#[trigger] texts@[i]).0@ != (
                    #[trigger] texts@[j]).0@,
                pairs_map(str_pairs_view(texts@)) == pairs_map(
                    str_pairs_view(entries@.take(k as int)),
                ),
            decreases entries.len() - k,
        {
            let (path, text) = entries[k];
            let ghost before = texts@;
            let mut found: Option<usize> = None;
            let mut i: usize = 0;
            while i < texts.len()
                invariant
                    i <= texts.len(),
                    texts@ == before,
                    found is None ==> forall|j: int| 0 <= j < i ==> texts@[j].0@ != path@,
                    found matches Some(f) ==> f < texts.len() && texts@[f as int].0@ == path@,
                decreases texts.len() - i,
            {
                if found.is_none() && str_eq(texts[i].0, path) {
                    found = Some(i);
                }
                i = i + 1;
            }
            proof {
                assert(entries@.take(k + 1).drop_last() =~= entries@.take(k as int));
                assert(str_pairs_view(entries@.take(k + 1)).drop_last() =~= str_pairs_view(
                    entries@.take(k as int),
                ));
            }
            match found {
                Some(f) => {
                    texts.set(f, (path, text));
                    proof {
                        lemma_pairs_map_replace(str_pairs_view(before), f as int, (path@, text@));
                        assert(str_pairs_view(texts@) =~= str_pairs_view(before).update(
                            f as int,
                            (path@, text@),
                        ));
                    }
                },
                None => {
                    texts.push((path, text));
                    proof {
                        assert(str_pairs_view(texts@).drop_last() =~= str_pairs_view(before));
                    }
                },
            }
            k = k + 1;
        }
        proof {
            assert(entries@.take(entries.len() as int) =~= entries@);
        }
        SourceCorpus { texts }
    }

    /// The corpus's `(document_path, source_text)` pairs, each path once.
    pub fn entries(&self) -> (r: Vec<(&'a str, &'a str)>)
        requires
            self.well_formed(),
        ensures
            pairs_map(str_pairs_view(r@)) == self.view_map(),
            forall|i: int, j: int|
                0 <= i < j < r@.len() ==> (#[trigger] r@[i]).0@ != (#[trigger] r@[j]).0@,
    {
        let mut r: Vec<(&'a str, &'a str)> = Vec::new();
        let mut k: usize = 0;
        while k < self.texts.len()
            invariant
                k <= self.texts.len(),
                r@ == self.texts@.take(k as int),
            decreases self.texts.len() - k,
        {
            r.push(self.texts[k]);
            proof {
                assert(self.texts@.take(k + 1) =~= self.texts@.take(k as int).push(
                    self.texts@[k as int],
                ));
            }
            k = k + 1;
        }
        proof {
            assert(self.texts@.take(self.texts.len() as int) =~= self.texts@);
        }
        r
    }

    /// The source text of `path`, if the corpus holds it.
    pub fn text_of(&self, path: &str) -> (r: Option<&'a str>)
        requires
            self.well_formed(),
        ensures
            r is Some <==> self.view_map().dom().contains(path@),
            r is Some ==> self.view_map()[path@] == r.unwrap()@,
    {
        let ghost pv = str_pairs_view(self.texts@);
        let mut k: usize = 0;
        while k < self.texts.len()
            invariant
                k <= self.texts.len(),
                pv == str_pairs_view(self.texts@),
                self.well_formed(),
                forall|j: int| 0 <= j < k ==> self.texts@[j].0@ != path@,
            decreases self.texts.len() - k,
        {
            if str_eq(self.texts[k].0, path) {
                proof {
                    assert forall|i: int, j: int| 0 <= i < j < pv.len() implies (
                    #[trigger] pv[i]).0 != (#[trigger] pv[j]).0 by {
                        assert(self.texts@[i].0@ != self.texts@[j].0@);
                    }
                    lemma_pairs_map_lookup(pv, k as int);
                }
                return Some(self.texts[k].1);
            }
            k = k + 1;
        }
        proof {
            lemma_pairs_map_absent(pv, path@);
        }
        None
    }
}

/// The first alias binding whose whole binding construct is `span`.
pub open spec fn first_binding_at(bindings: Seq<AliasBinding>, span: ByteSpan) -> Option<int>
    decreases bindings.len(),
{
    if bindings.len() == 0 {
        None
    } else if bindings[0].binding_span == span {
        Some(0)
    } else {
        match first_binding_at(bindings.drop_first(), span) {
            Some(i) => Some(i + 1),
            None => None,
        }
    }
}

/// The verdict at an occurrence's span; when every rule refuses and the span is a whole alias
/// binding (`target as alias`), the verdict at that binding's target token instead.
pub open spec fn evaluate_spec(
    kind: SymbolKind,
    d: Option<Descriptor>,
    role: OccurrenceRole,
    span: ByteSpan,
    expected: Seq<char>,
    facts: SiteFacts,
    language: Language,
    doc: Option<Descriptor>,
    bindings: Seq<AliasBinding>,
    binding_facts: Seq<SiteFacts>,
) -> Option<(AlignmentRule, ByteSpan)> {
    match rules_verdict(kind, d, role, span, expected, facts, language, doc) {
        Some(v) => Some(v),
        None => match first_binding_at(bindings, span) {
            Some(i) => rules_verdict(
                kind,
                d,
                role,
                bindings[i].target_token_span,
                expected,
                binding_facts[i],
                language,
                doc,
            ),
            None => None,
        },
    }
}

/// Whether the inline-module chain of every fact set fits alongside the document module's
/// segments.
pub open spec fn chains_fit(doc: Option<&Descriptor>, facts: Seq<SiteFacts>) -> bool {
    doc matches Some(dd) ==> forall|i: int|
        0 <= i < facts.len() ==> dd.segments.len() + (#[trigger] facts[i]).inline_modules.len() <= usize::MAX
}

/// Dispatch one occurrence to the alignment rules at its own span, falling back to the target
/// token of an alias binding that spans exactly the occurrence. `binding_facts[i]` is what the
/// syntax shows at `bindings[i]`'s target token.
pub fn evaluate_rules(
    kind: SymbolKind,
    descriptor: Option<&Descriptor>,
    role: OccurrenceRole,
    span: ByteSpan,
    expected_name: &str,
    facts: &SiteFacts,
    language: Language,
    document_module: Option<&Descriptor>,
    bindings: &[AliasBinding],
    binding_facts: &[SiteFacts],
) -> (r: Option<(AlignmentRule, ByteSpan)>)
    requires
        bindings.len() == binding_facts.len(),
        chains_fit(document_module, seq![*facts] + binding_facts@),
    ensures
        r == evaluate_spec(
            kind,
            odesc(descriptor),
            role,
            span,
            expected_name@,
            *facts,
            language,
            odesc(document_module),
            bindings@,
            binding_facts@,
        ),
{
    proof {
        assert((seq![*facts] + binding_facts@)[0] == *facts);
    }
    let hit = evaluate_rules_at(kind, descriptor, role, span, expected_name, facts, language, document_module);
    if hit.is_some() {
        return hit;
    }
    let mut k: usize = 0;
    assert(bindings@.skip(0) =~= bindings@);
    while k < bindings.len()
        invariant
            k <= bindings.len(),
            bindings.len() == binding_facts.len(),
            chains_fit(document_module, seq![*facts] + binding_facts@),
            rules_verdict(
                kind,
                odesc(descriptor),
                role,
                span,
                expected_name@,
                *facts,
                language,
                odesc(document_module),
            ) is None,
            first_binding_at(bindings@, span) == match first_binding_at(bindings@.skip(k as int), span) {
                Some(i) => Some(i + k),
                None => None::<int>,
            },
        decreases bindings.len() - k,
    {
        assert(bindings@.skip(k as int)[0] == bindings@[k as int]);
        assert(bindings@.skip(k as int).drop_first() =~= bindings@.skip(k + 1));
        if bindings[k].binding_span.same_as(&span) {
            proof {
                assert(first_binding_at(bindings@.skip(k as int), span) == Some(0int));
                assert(first_binding_at(bindings@, span) == Some(k as int));
                assert((seq![*facts] + binding_facts@)[k + 1] == binding_facts@[k as int]);
            }
            return evaluate_rules_at(
                kind,
                descriptor,
                role,
                bindings[k].target_token_span,
                expected_name,
                &binding_facts[k],
                language,
                document_module,
            );
        }
        k = k + 1;
    }
    assert(bindings@.skip(k as int) =~= Seq::<AliasBinding>::empty());
    None
}

/// What the first pass makes of one located occurrence.
#[derive(Debug, Clone, PartialEq, Eq)]
pub enum Attribution {
    /// A rule accepted the occurrence at the matched construct's span.
    Aligned {
        /// The accepting rule.
        rule: AlignmentRule,
        /// The matched construct's span.
        name_span: ByteSpan,
    },
    /// No rule accepted it: a text mismatch (a name node or other syntax was there) or a
    /// semantic-only occurrence (no construct at all), with the span and text found.
    Refused {
        /// The refusal outcome.
        outcome: JoinOutcome,
        /// The span the refusal is recorded at.
        span: ByteSpan,
        /// The source text found there, if any.
        found_text: Option<String>,
    },
}

/// The attribution a verdict gives: the acceptance, or a refusal recording what syntax was at the
/// span — a name node's text, other syntax's raw text, or nothing.
pub open spec fn attribution_spec(
    verdict: Option<(AlignmentRule, ByteSpan)>,
    span: ByteSpan,
    facts: SiteFacts,
) -> (JoinOutcome, Option<AlignmentRule>, ByteSpan, Option<Seq<char>>) {
    match verdict {
        Some((rule, ms)) => (JoinOutcome::Aligned, Some(rule), ms, None),
        None => match facts.name_span {
            Some(ns) => (JoinOutcome::TextMismatch, None, ns, ostr(facts.name_text)),
            None => if facts.has_construct {
                (JoinOutcome::TextMismatch, None, span, ostr(facts.span_text))
            } else {
                (JoinOutcome::SemanticOnly, None, span, None)
            },
        },
    }
}

/// An attribution as plain values: outcome, accepting rule, span, and found text.
pub open spec fn attribution_view(a: Attribution) -> (JoinOutcome, Option<AlignmentRule>, ByteSpan, Option<Seq<char>>) {
    match a {
        Attribution::Aligned { rule, name_span } => (JoinOutcome::Aligned, Some(rule), name_span, None),
        Attribution::Refused { outcome, span, found_text } => (outcome, None, span, ostr(found_text)),
    }
}

/// Attribute one located occurrence: run the alignment rules; when every rule refuses, record
/// what the syntax at the span shows.
pub fn attribute(
    kind: SymbolKind,
    descriptor: Option<&Descriptor>,
    role: OccurrenceRole,
    span: ByteSpan,
    expected_name: &str,
    facts: &SiteFacts,
    language: Language,
    document_module: Option<&Descriptor>,
    bindings: &[AliasBinding],
    binding_facts: &[SiteFacts],
) -> (r: Attribution)
    requires
        bindings.len() == binding_facts.len(),
        chains_fit(document_module, seq![*facts] + binding_facts@),
    ensures
        attribution_view(r) == attribution_spec(
            evaluate_spec(
                kind,
                odesc(descriptor),
                role,
                span,
                expected_name@,
                *facts,
                language,
                odesc(document_module),
                bindings@,
                binding_facts@,
            ),
            span,
            *facts,
        ),
{
    match evaluate_rules(
        kind,
        descriptor,
        role,
        span,
        expected_name,
        facts,
        language,
        document_module,
        bindings,
        binding_facts,
    ) {
        Some((rule, name_span)) => Attribution::Aligned { rule, name_span },
        None => match facts.name_span {
            Some(ns) => Attribution::Refused {
                outcome: JoinOutcome::TextMismatch,
                span: ns,
                found_text: match &facts.name_text {
                    Some(t) => Some(t.clone()),
                    None => None,
                },
            },
            None => if facts.has_construct {
                Attribution::Refused {
                    outcome: JoinOutcome::TextMismatch,
                    span,
                    found_text: match &facts.span_text {
                        Some(t) => Some(t.clone()),
                        None => None,
                    },
                }
            } else {
                Attribution::Refused { outcome: JoinOutcome::SemanticOnly, span, found_text: None }
            },
        },
    }
}

/// The refusal bucket of an outcome.
pub open spec fn refusal_count(a: JoinAccounting, outcome: JoinOutcome) -> u64 {
    match outcome {
        JoinOutcome::TextMismatch => a.text_mismatch,
        JoinOutcome::SemanticOnly => a.semantic_only,
        JoinOutcome::DuplicateAmbiguous => a.duplicate_ambiguous,
        JoinOutcome::Aligned => 0,
    }
}

/// Whether `b` is `a` with exactly one refusal counted under `outcome` (`delta` one) or released
/// from it (`delta` minus one).
pub open spec fn refusal_moved(a: JoinAccounting, b: JoinAccounting, outcome: JoinOutcome, delta: int) -> bool {
    &&& forall|r: AlignmentRule| #[trigger] bucket(b, r) == bucket(a, r)
    &&& b.text_mismatch == a.text_mismatch + if outcome == JoinOutcome::TextMismatch { delta } else { 0 }
    &&& b.semantic_only == a.semantic_only + if outcome == JoinOutcome::SemanticOnly { delta } else { 0 }
    &&& b.duplicate_ambiguous == a.duplicate_ambiguous + if outcome == JoinOutcome::DuplicateAmbiguous {
        delta
    } else {
        0
    }
    &&& b.syntax_only == a.syntax_only
}

impl JoinAccounting {
    /// Count one refusal under `outcome`, a refusal outcome.
    pub fn refuse(&mut self, outcome: JoinOutcome)
        requires
            outcome != JoinOutcome::Aligned,
            refusal_count(*old(self), outcome) < u64::MAX,
        ensures
            refusal_moved(*old(self), *final(self), outcome, 1),
            aligned_sum(*final(self)) == aligned_sum(*old(self)),
            semantic_sum(*final(self)) == semantic_sum(*old(self)) + 1,
    {
        match outcome {
            JoinOutcome::TextMismatch => self.text_mismatch = self.text_mismatch + 1,
            JoinOutcome::SemanticOnly => self.semantic_only = self.semantic_only + 1,
            JoinOutcome::DuplicateAmbiguous => self.duplicate_ambiguous = self.duplicate_ambiguous + 1,
            JoinOutcome::Aligned => {},
        }
    }

    /// Move one refusal counted under `outcome` to the import-alias acceptance bucket, as the
    /// alias pass does when a binding verifies: the refusal leaves its bucket before the acceptance
    /// is counted, so the total is conserved.
    pub fn reattribute(&mut self, outcome: JoinOutcome)
        requires
            outcome != JoinOutcome::Aligned,
            refusal_count(*old(self), outcome) > 0,
            bucket(*old(self), AlignmentRule::ImportAlias) < u64::MAX,
        ensures
            semantic_sum(*final(self)) == semantic_sum(*old(self)),
            aligned_sum(*final(self)) == aligned_sum(*old(self)) + 1,
            bucket(*final(self), AlignmentRule::ImportAlias) == bucket(*old(self), AlignmentRule::ImportAlias)
                + 1,
            refusal_count(*final(self), outcome) == refusal_count(*old(self), outcome) - 1,
            final(self).syntax_only == old(self).syntax_only,
            final(self).text_mismatch == old(self).text_mismatch - if outcome == JoinOutcome::TextMismatch { 1int } else { 0int },
            final(self).semantic_only == old(self).semantic_only - if outcome == JoinOutcome::SemanticOnly { 1int } else { 0int },
            final(self).duplicate_ambiguous == old(self).duplicate_ambiguous - if outcome == JoinOutcome::DuplicateAmbiguous {
                1int
            } else {
                0int
            },
    {
        match outcome {
            JoinOutcome::TextMismatch => self.text_mismatch = self.text_mismatch - 1,
            JoinOutcome::SemanticOnly => self.semantic_only = self.semantic_only - 1,
            JoinOutcome::DuplicateAmbiguous => self.duplicate_ambiguous = self.duplicate_ambiguous - 1,
            JoinOutcome::Aligned => {},
        }
        self.accept(AlignmentRule::ImportAlias);
    }

    /// Count one attribution: its rule's acceptance bucket, or its refusal bucket.
    pub fn record(&mut self, a: &Attribution)
        requires
            match *a {
                Attribution::Aligned { rule, .. } => bucket(*old(self), rule) < u64::MAX,
                Attribution::Refused { outcome, .. } => outcome != JoinOutcome::Aligned && refusal_count(
                    *old(self),
                    outcome,
                ) < u64::MAX,
            },
        ensures
            semantic_sum(*final(self)) == semantic_sum(*old(self)) + 1,
            match *a {
                Attribution::Aligned { rule, .. } => accepted_once(*old(self), *final(self), rule),
                Attribution::Refused { outcome, .. } => refusal_moved(*old(self), *final(self), outcome, 1),
            },
    {
        match a {
            Attribution::Aligned { rule, .. } => self.accept(*rule),
            Attribution::Refused { outcome, .. } => self.refuse(*outcome),
        }
    }
}

/// An identity without a trailing `#<digits>` collision disambiguator; an identity carrying none
/// is returned unchanged.
pub fn strip_disambiguator(identity: &CanonicalId) -> (r: CanonicalId)
    ensures
        r@ == match disambiguator_base_of(identity@) {
            Some(b) => b,
            None => identity@,
        },
{
    match disambiguator_base(identity.as_str()) {
        Some(base) => CanonicalId::from_string(base),
        None => identity.clone(),
    }
}

/// Whether an aligned span-and-identity pair verifies a binding for `symbol`: the same symbol, at
/// the binding's target token or its whole binding construct.
pub open spec fn verifies_binding(pair: (ByteSpan, Seq<char>), symbol: Seq<char>, b: AliasBinding) -> bool {
    pair.1 == symbol && (pair.0 == b.target_token_span || pair.0 == b.binding_span)
}

/// The first binding, in order, whose alias text is `token` and which some first-pass alignment
/// verifies.
pub open spec fn first_verified_binding(
    bindings: Seq<AliasBinding>,
    alias_texts: Seq<Option<Seq<char>>>,
    token: Seq<char>,
    aligned_here: Seq<(ByteSpan, Seq<char>)>,
    symbol: Seq<char>,
) -> bool
    decreases bindings.len(),
{
    if bindings.len() == 0 {
        false
    } else if alias_texts[0] == Some(token) && exists|j: int|
        0 <= j < aligned_here.len() && verifies_binding(#[trigger] aligned_here[j], symbol, bindings[0]) {
        true
    } else {
        first_verified_binding(bindings.drop_first(), alias_texts.drop_first(), token, aligned_here, symbol)
    }
}

/// The alignments of one document as plain values.
pub open spec fn aligned_pairs_view(v: Seq<(ByteSpan, CanonicalId)>) -> Seq<(ByteSpan, Seq<char>)> {
    v.map_values(|p: (ByteSpan, CanonicalId)| (p.0, p.1@))
}

/// The alias pass's verdict on one first-pass refusal: a reference refused at a name node whose
/// token spells a declared alias, where a first-pass alignment of the same symbol sits at that
/// binding's target token or whole binding, is accepted at the name node. `facts` are what the
/// syntax shows at the refusal's span; `alias_texts[i]` is the text at `bindings[i]`'s alias name;
/// `aligned_here` are the first-pass alignments of the refusal's document.
pub fn alias_acceptance(
    role: OccurrenceRole,
    span: Option<ByteSpan>,
    symbol: &CanonicalId,
    facts: &SiteFacts,
    bindings: &[AliasBinding],
    alias_texts: &[Option<String>],
    aligned_here: &[(ByteSpan, CanonicalId)],
) -> (r: Option<ByteSpan>)
    requires
        bindings.len() == alias_texts.len(),
    ensures
        r is Some <==> (role == OccurrenceRole::Reference && span is Some && facts.name_span is Some
            && ostr(facts.name_text) is Some && first_verified_binding(
            bindings@,
            alias_texts@.map_values(|t: Option<String>| ostr(t)),
            ostr(facts.name_text).unwrap(),
            aligned_pairs_view(aligned_here@),
            symbol@,
        )),
        r is Some ==> r == facts.name_span,
{
    match role {
        OccurrenceRole::Reference => {},
        OccurrenceRole::Definition => return None,
    }
    if span.is_none() {
        return None;
    }
    let name_span = match facts.name_span {
        Some(ns) => ns,
        None => return None,
    };
    let token = match &facts.name_text {
        Some(t) => t,
        None => return None,
    };
    let ghost texts = alias_texts@.map_values(|t: Option<String>| ostr(t));
    let ghost pairs = aligned_pairs_view(aligned_here@);
    let mut k: usize = 0;
    assert(bindings@.skip(0) =~= bindings@);
    assert(texts.skip(0) =~= texts);
    while k < bindings.len()
        invariant
            k <= bindings.len(),
            bindings.len() == alias_texts.len(),
            texts == alias_texts@.map_values(|t: Option<String>| ostr(t)),
            pairs == aligned_pairs_view(aligned_here@),
            role == OccurrenceRole::Reference,
            span is Some,
            facts.name_span == Some(name_span),
            ostr(facts.name_text) == Some(token@),
            first_verified_binding(bindings@, texts, token@, pairs, symbol@) == first_verified_binding(
                bindings@.skip(k as int),
                texts.skip(k as int),
                token@,
                pairs,
                symbol@,
            ),
        decreases bindings.len() - k,
    {
        let b = bindings[k];
        assert(bindings@.skip(k as int)[0] == b);
        assert(texts.skip(k as int)[0] == texts[k as int]);
        assert(bindings@.skip(k as int).drop_first() =~= bindings@.skip(k + 1));
        assert(texts.skip(k as int).drop_first() =~= texts.skip(k + 1));
        let named = match &alias_texts[k] {
            Some(t) => crate::text::str_eq(t.as_str(), token.as_str()),
            None => false,
        };
        assert(named == (texts[k as int] == Some(token@)));
        if named {
            let mut j: usize = 0;
            while j < aligned_here.len()
                invariant
                    j <= aligned_here.len(),
                    pairs == aligned_pairs_view(aligned_here@),
                    k < bindings.len(),
                    bindings.len() == alias_texts.len(),
                    texts == alias_texts@.map_values(|t: Option<String>| ostr(t)),
                    bindings@.skip(k as int)[0] == b,
                    texts.skip(k as int)[0] == Some(token@),
                    role == OccurrenceRole::Reference,
                    span is Some,
                    facts.name_span == Some(name_span),
                    ostr(facts.name_text) == Some(token@),
                    first_verified_binding(bindings@, texts, token@, pairs, symbol@) == first_verified_binding(
                        bindings@.skip(k as int),
                        texts.skip(k as int),
                        token@,
                        pairs,
                        symbol@,
                    ),
                    forall|m: int| 0 <= m < j ==> !verifies_binding(#[trigger] pairs[m], symbol@, b),
                decreases aligned_here.len() - j,
            {
                let (sp, id) = &aligned_here[j];
                assert(pairs[j as int] == (*sp, id@));
                if crate::text::str_eq(id.as_str(), symbol.as_str()) && (sp.same_as(&b.target_token_span)
                    || sp.same_as(&b.binding_span)) {
                    assert(verifies_binding(pairs[j as int], symbol@, b));
                    assert(first_verified_binding(
                        bindings@.skip(k as int),
                        texts.skip(k as int),
                        token@,
                        pairs,
                        symbol@,
                    ));
                    return Some(name_span);
                }
                j = j + 1;
            }
        }
        k = k + 1;
    }
    assert(bindings@.skip(k as int) =~= Seq::<AliasBinding>::empty());
    None
}

/// How many declarations' name spans no alignment matched.
pub open spec fn unmatched_count(decls: Seq<ByteSpan>, matched: Seq<ByteSpan>) -> nat
    decreases decls.len(),
{
    if decls.len() == 0 {
        0
    } else {
        unmatched_count(decls.drop_last(), matched) + if matched.contains(decls.last()) {
            0nat
        } else {
            1nat
        }
    }
}

/// The number of declarations (by name span) that no aligned occurrence matched: the document's
/// syntax-only declarations.
pub fn syntax_only_count(decl_name_spans: &[ByteSpan], matched: &[ByteSpan]) -> (r: u64)
    requires
        decl_name_spans.len() <= u64::MAX,
    ensures
        r == unmatched_count(decl_name_spans@, matched@),
{
    let mut count: u64 = 0;
    let mut k: usize = 0;
    while k < decl_name_spans.len()
        invariant
            k <= decl_name_spans.len(),
            decl_name_spans.len() <= u64::MAX,
            count == unmatched_count(decl_name_spans@.take(k as int), matched@),
            count <= k,
        decreases decl_name_spans.len() - k,
    {
        let d = decl_name_spans[k];
        let mut found = false;
        let mut j: usize = 0;
        while j < matched.len()
            invariant
                j <= matched.len(),
                found == exists|m: int| 0 <= m < j && matched@[m] == d,
            decreases matched.len() - j,
        {
            if matched[j].same_as(&d) {
                found = true;
            }
            j = j + 1;
        }
        proof {
            assert(decl_name_spans@.take(k + 1).drop_last() =~= decl_name_spans@.take(k as int));
            assert(decl_name_spans@.take(k + 1).last() == d);
            if found {
                let m = choose|m: int| 0 <= m < matched.len() && matched@[m] == d;
                assert(matched@.contains(d));
            }
        }
        if !found {
            count = count + 1;
        }
        k = k + 1;
    }
    assert(decl_name_spans@.take(decl_name_spans.len() as int) =~= decl_name_spans@);
    count
}

/// Where a first-pass occurrence landed in its document.
#[derive(Debug, Clone, PartialEq, Eq)]
pub enum Location {
    /// The document has no source in the corpus.
    NoSource,
    /// The occurrence's coordinates did not normalize onto the source.
    Unlocatable,
    /// The occurrence normalized onto `span`.
    At {
        /// The normalized byte span.
        span: ByteSpan,
        /// What the syntax shows at the span.
        facts: SiteFacts,
        /// The document's declared alias bindings.
        bindings: Vec<AliasBinding>,
        /// What the syntax shows at each binding's target token.
        binding_facts: Vec<SiteFacts>,
        /// The descriptor of the document's own module, if known.
        document_module: Option<Descriptor>,
        /// The declarations enclosing the span's start, innermost first.
        enclosing: Vec<SyntaxDeclaration>,
    },
}

/// One semantic occurrence to join, with its symbol resolved.
#[derive(Debug, Clone, PartialEq, Eq)]
pub struct JoinCase {
    /// The identity the occurrence is attributed under.
    pub symbol: CanonicalId,
    /// The symbol's kind.
    pub kind: SymbolKind,
    /// The symbol's descriptor, if it has one.
    pub descriptor: Option<Descriptor>,
    /// The occurrence's document.
    pub document_path: String,
    /// The occurrence's role.
    pub role: OccurrenceRole,
    /// The expected name token.
    pub expected_name: String,
    /// Whether the occurrence can be attributed to no single symbol: a non-definition occurrence of
    /// a duplicated descriptor, or a duplicate-group occurrence no locality rule resolved.
    pub ambiguous: bool,
    /// The locality rule that selected the symbol, for a duplicate-group occurrence.
    pub locality: Option<LocalityRule>,
    /// Where the occurrence landed.
    pub location: Location,
}

/// Whether a first-pass occurrence of a symbol is attributable to no single symbol.
pub fn first_pass_ambiguous(duplicated: bool, role: OccurrenceRole) -> (r: bool)
    ensures
        r == (duplicated && role != OccurrenceRole::Definition),
{
    duplicated && !crate::model::is_definition(role)
}

/// The verdict on one case: its outcome, accepting rule, recorded span and found text.
pub open spec fn case_verdict(c: JoinCase, language: Language) -> (JoinOutcome, Option<AlignmentRule>, Option<ByteSpan>, Option<Seq<char>>) {
    if c.ambiguous {
        (JoinOutcome::DuplicateAmbiguous, None, match c.location {
            Location::At { span, .. } => Some(span),
            _ => None,
        }, None)
    } else {
        match c.location {
            Location::At { span, facts, bindings, binding_facts, document_module, .. } => {
                let a = attribution_spec(
                    evaluate_spec(
                        c.kind,
                        c.descriptor,
                        c.role,
                        span,
                        c.expected_name@,
                        facts,
                        language,
                        document_module,
                        bindings@,
                        binding_facts@,
                    ),
                    span,
                    facts,
                );
                (a.0, a.1, Some(a.2), a.3)
            },
            _ => (JoinOutcome::SemanticOnly, None, None, None),
        }
    }
}

/// An aligned occurrence as plain values.
pub open spec fn aligned_view(a: AlignedOccurrence) -> AlignedView {
    (a.symbol@, a.document_path@, a.name_span, a.role, a.rule, a.locality, a.enclosing@)
}

/// An aligned occurrence as plain values: symbol, document, name span, role, rule, locality and
/// enclosing declaration chain.
pub type AlignedView = (Seq<char>, Seq<char>, ByteSpan, OccurrenceRole, AlignmentRule, Option<LocalityRule>, Seq<
    SyntaxDeclaration,
>);

/// The declarations enclosing a case's span, innermost first; none for a case without a span.
pub open spec fn case_enclosing(c: JoinCase) -> Seq<SyntaxDeclaration> {
    match c.location {
        Location::At { enclosing, .. } => enclosing@,
        _ => Seq::empty(),
    }
}

/// The enclosing chain an aligned case records: its own for a reference or a case carrying
/// locality, none for a plain definition.
pub open spec fn recorded_enclosing(c: JoinCase) -> Seq<SyntaxDeclaration> {
    if c.locality is Some || c.role != OccurrenceRole::Definition {
        case_enclosing(c)
    } else {
        Seq::empty()
    }
}

/// A copy of a declaration chain.
fn copy_declarations(v: &Vec<SyntaxDeclaration>) -> (r: Vec<SyntaxDeclaration>)
    ensures
        r@ == v@,
{
    let mut out: Vec<SyntaxDeclaration> = Vec::new();
    let mut i: usize = 0;
    while i < v.len()
        invariant
            i <= v.len(),
            out@ == v@.take(i as int),
        decreases v.len() - i,
    {
        let d = &v[i];
        out.push(SyntaxDeclaration { node_kind: d.node_kind.clone(), name_span: d.name_span, full_span: d.full_span });
        assert(out@ =~= v@.take(i + 1));
        i = i + 1;
    }
    assert(v@.take(v.len() as int) =~= v@);
    out
}

/// An unaligned occurrence as plain values.
pub open spec fn unaligned_view(u: UnalignedOccurrence) -> (Seq<char>, Seq<char>, OccurrenceRole, JoinOutcome, Option<ByteSpan>, Seq<char>, Option<Seq<char>>) {
    (u.symbol@, u.document_path@, u.role, u.outcome, u.span, u.expected_name@, ostr(u.found_text))
}

/// The aligned entries the cases yield, in order.
pub open spec fn aligned_entries(cases: Seq<JoinCase>, language: Language) -> Seq<AlignedView>
    decreases cases.len(),
{
    if cases.len() == 0 {
        Seq::empty()
    } else {
        let c = cases.last();
        let v = case_verdict(c, language);
        let rest = aligned_entries(cases.drop_last(), language);
        if v.0 == JoinOutcome::Aligned {
            rest.push((c.symbol@, c.document_path@, v.2.unwrap(), c.role, v.1.unwrap(), c.locality, recorded_enclosing(c)))
        } else {
            rest
        }
    }
}

/// The refused entries the cases yield, in order.
pub open spec fn unaligned_entries(cases: Seq<JoinCase>, language: Language) -> Seq<(Seq<char>, Seq<char>, OccurrenceRole, JoinOutcome, Option<ByteSpan>, Seq<char>, Option<Seq<char>>)>
    decreases cases.len(),
{
    if cases.len() == 0 {
        Seq::empty()
    } else {
        let c = cases.last();
        let v = case_verdict(c, language);
        let rest = unaligned_entries(cases.drop_last(), language);
        if v.0 == JoinOutcome::Aligned {
            rest
        } else {
            rest.push((c.symbol@, c.document_path@, c.role, v.0, v.2, c.expected_name@, v.3))
        }
    }
}

/// The outcomes of the cases, in order.
pub open spec fn case_outcomes(cases: Seq<JoinCase>, language: Language) -> Seq<(JoinOutcome, Option<AlignmentRule>)> {
    cases.map_values(|c: JoinCase| (case_verdict(c, language).0, case_verdict(c, language).1))
}

/// The outcomes accepted under `r`.
pub open spec fn accepted_under(r: AlignmentRule) -> spec_fn((JoinOutcome, Option<AlignmentRule>)) -> bool {
    |o: (JoinOutcome, Option<AlignmentRule>)| o.1 == Some(r)
}

/// Whether the accounting counts the outcomes: each acceptance bucket the cases accepted under its
/// rule, each refusal bucket the cases refused with its outcome.
pub open spec fn counts_outcomes(a: JoinAccounting, outcomes: Seq<(JoinOutcome, Option<AlignmentRule>)>) -> bool {
    &&& forall|r: AlignmentRule| #[trigger] bucket(a, r) == crate::counting::count_where(outcomes, accepted_under(r))
    &&& a.text_mismatch == crate::counting::count_where(
        outcomes,
        |o: (JoinOutcome, Option<AlignmentRule>)| o.0 == JoinOutcome::TextMismatch,
    )
    &&& a.semantic_only == crate::counting::count_where(
        outcomes,
        |o: (JoinOutcome, Option<AlignmentRule>)| o.0 == JoinOutcome::SemanticOnly,
    )
    &&& a.duplicate_ambiguous == crate::counting::count_where(
        outcomes,
        |o: (JoinOutcome, Option<AlignmentRule>)| o.0 == JoinOutcome::DuplicateAmbiguous,
    )
    &&& a.syntax_only == 0
}

/// Whether a located case's facts fit and its binding facts match its bindings.
pub open spec fn case_well_formed(c: JoinCase) -> bool {
    match c.location {
        Location::At { facts, bindings, binding_facts, document_module, .. } => bindings.len() == binding_facts.len()
            && chains_fit(
            match document_module {
                Some(d) => Some(&d),
                None => None,
            },
            seq![facts] + binding_facts@,
        ),
        _ => true,
    }
}

/// Whether `b` is `a` with the verdict `v` counted.
pub open spec fn counted_once(a: JoinAccounting, b: JoinAccounting, v: (JoinOutcome, Option<AlignmentRule>)) -> bool {
    &&& forall|r: AlignmentRule| #[trigger] bucket(b, r) == bucket(a, r) + if v.1 == Some(r) { 1int } else { 0int }
    &&& b.text_mismatch == a.text_mismatch + if v.0 == JoinOutcome::TextMismatch { 1int } else { 0int }
    &&& b.semantic_only == a.semantic_only + if v.0 == JoinOutcome::SemanticOnly { 1int } else { 0int }
    &&& b.duplicate_ambiguous == a.duplicate_ambiguous + if v.0 == JoinOutcome::DuplicateAmbiguous { 1int } else { 0int }
    &&& b.syntax_only == a.syntax_only
}

/// A case's verdict carries a rule exactly when it aligned.
pub proof fn lemma_verdict_shape(c: JoinCase, language: Language)
    ensures
        (case_verdict(c, language).0 == JoinOutcome::Aligned) <==> case_verdict(c, language).1 is Some,
        case_verdict(c, language).0 == JoinOutcome::Aligned ==> case_verdict(c, language).2 is Some,
{
}

/// Every bucket is at most the total.
proof fn lemma_bucket_le(a: JoinAccounting, r: AlignmentRule)
    ensures
        bucket(a, r) <= semantic_sum(a),
        a.text_mismatch <= semantic_sum(a),
        a.semantic_only <= semantic_sum(a),
        a.duplicate_ambiguous <= semantic_sum(a),
{
}

/// Join one case: count its verdict and record its entry.
fn join_one(
    c: &JoinCase,
    language: Language,
    accounting: &mut JoinAccounting,
    aligned: &mut Vec<AlignedOccurrence>,
    unaligned: &mut Vec<UnalignedOccurrence>,
)
    requires
        case_well_formed(*c),
        semantic_sum(*old(accounting)) < u64::MAX,
    ensures
        semantic_sum(*final(accounting)) == semantic_sum(*old(accounting)) + 1,
        counted_once(*old(accounting), *final(accounting), (case_verdict(*c, language).0, case_verdict(*c, language).1)),
        case_verdict(*c, language).0 == JoinOutcome::Aligned ==> final(aligned)@.map_values(|a: AlignedOccurrence| aligned_view(a))
            == old(aligned)@.map_values(|a: AlignedOccurrence| aligned_view(a)).push(
            (
                c.symbol@,
                c.document_path@,
                case_verdict(*c, language).2.unwrap(),
                c.role,
                case_verdict(*c, language).1.unwrap(),
                c.locality,
                recorded_enclosing(*c),
            ),
        ) && final(unaligned)@ == old(unaligned)@,
        case_verdict(*c, language).0 != JoinOutcome::Aligned ==> final(unaligned)@.map_values(|u: UnalignedOccurrence| unaligned_view(u))
            == old(unaligned)@.map_values(|u: UnalignedOccurrence| unaligned_view(u)).push(
            (c.symbol@, c.document_path@, c.role, case_verdict(*c, language).0, case_verdict(*c, language).2, c.expected_name@, case_verdict(*c, language).3),
        ) && final(aligned)@ == old(aligned)@,
        case_verdict(*c, language).0 != JoinOutcome::Aligned ==> final(unaligned)@.len() == old(unaligned)@.len() + 1
            && final(unaligned)@.drop_last() == old(unaligned)@,
{
    proof {
        lemma_bucket_le(*accounting, AlignmentRule::Exact);
    }
    let ghost before_aligned = aligned@;
    let ghost before_unaligned = unaligned@;
    if c.ambiguous {
        accounting.refuse(JoinOutcome::DuplicateAmbiguous);
        let span = match &c.location {
            Location::At { span, .. } => Some(*span),
            _ => None,
        };
        unaligned.push(UnalignedOccurrence {
            symbol: c.symbol.clone(),
            document_path: c.document_path.clone(),
            role: c.role,
            outcome: JoinOutcome::DuplicateAmbiguous,
            span,
            expected_name: c.expected_name.clone(),
            found_text: None,
        });
        proof {
            assert(unaligned@.map_values(|u: UnalignedOccurrence| unaligned_view(u)) =~= before_unaligned.map_values(
                |u: UnalignedOccurrence| unaligned_view(u),
            ).push(unaligned_view(unaligned@.last())));
        }
        return;
    }
    match &c.location {
        Location::At { span, facts, bindings, binding_facts, document_module, enclosing } => {
            let dm: Option<&Descriptor> = match document_module {
                Some(d) => Some(d),
                None => None,
            };
            let a = attribute(
                c.kind,
                match &c.descriptor {
                    Some(d) => Some(d),
                    None => None,
                },
                c.role,
                *span,
                c.expected_name.as_str(),
                facts,
                language,
                dm,
                bindings.as_slice(),
                binding_facts.as_slice(),
            );
            proof {
                match a {
                    Attribution::Aligned { rule, .. } => lemma_bucket_le(*accounting, rule),
                    Attribution::Refused { .. } => {},
                }
            }
            accounting.record(&a);
            match a {
                Attribution::Aligned { rule, name_span } => {
                    let keep = c.locality.is_some() || !crate::model::is_definition(c.role);
                    aligned.push(AlignedOccurrence {
                        symbol: c.symbol.clone(),
                        document_path: c.document_path.clone(),
                        name_span,
                        role: c.role,
                        rule,
                        locality: c.locality,
                        enclosing: if keep {
                            copy_declarations(enclosing)
                        } else {
                            Vec::new()
                        },
                    });
                    proof {
                        assert(aligned@.map_values(|a: AlignedOccurrence| aligned_view(a)) =~= before_aligned.map_values(
                            |a: AlignedOccurrence| aligned_view(a),
                        ).push(aligned_view(aligned@.last())));
                    }
                },
                Attribution::Refused { outcome, span, found_text } => {
                    unaligned.push(UnalignedOccurrence {
                        symbol: c.symbol.clone(),
                        document_path: c.document_path.clone(),
                        role: c.role,
                        outcome,
                        span: Some(span),
                        expected_name: c.expected_name.clone(),
                        found_text,
                    });
                    proof {
                        assert(unaligned@.map_values(|u: UnalignedOccurrence| unaligned_view(u)) =~= before_unaligned.map_values(
                            |u: UnalignedOccurrence| unaligned_view(u),
                        ).push(unaligned_view(unaligned@.last())));
                    }
                },
            }
        },
        _ => {
            accounting.refuse(JoinOutcome::SemanticOnly);
            unaligned.push(UnalignedOccurrence {
                symbol: c.symbol.clone(),
                document_path: c.document_path.clone(),
                role: c.role,
                outcome: JoinOutcome::SemanticOnly,
                span: None,
                expected_name: c.expected_name.clone(),
                found_text: None,
            });
            proof {
                assert(unaligned@.map_values(|u: UnalignedOccurrence| unaligned_view(u)) =~= before_unaligned.map_values(
                    |u: UnalignedOccurrence| unaligned_view(u),
                ).push(unaligned_view(unaligned@.last())));
            }
        },
    }
}

/// Counting one more outcome extends the counts over one more prefix element.
proof fn lemma_counts_step(
    before: JoinAccounting,
    after: JoinAccounting,
    outcomes: Seq<(JoinOutcome, Option<AlignmentRule>)>,
    k: int,
)
    requires
        0 <= k < outcomes.len(),
        counts_outcomes(before, outcomes.take(k)),
        counted_once(before, after, outcomes[k]),
    ensures
        counts_outcomes(after, outcomes.take(k + 1)),
{
    crate::counting::lemma_count_where_take(outcomes, k + 1, |o: (JoinOutcome, Option<AlignmentRule>)| o.0 == JoinOutcome::TextMismatch);
    crate::counting::lemma_count_where_take(outcomes, k + 1, |o: (JoinOutcome, Option<AlignmentRule>)| o.0 == JoinOutcome::SemanticOnly);
    crate::counting::lemma_count_where_take(outcomes, k + 1, |o: (JoinOutcome, Option<AlignmentRule>)| o.0 == JoinOutcome::DuplicateAmbiguous);
    assert forall|r: AlignmentRule| #[trigger] bucket(after, r) == crate::counting::count_where(
        outcomes.take(k + 1),
        accepted_under(r),
    ) by {
        crate::counting::lemma_count_where_take(outcomes, k + 1, accepted_under(r));
        assert(bucket(before, r) == crate::counting::count_where(outcomes.take(k), accepted_under(r)));
    }
}

/// The first pass of the join over resolved occurrences: each ambiguous occurrence is refused as
/// duplicate-ambiguous, each occurrence without a normalized location as semantic-only, and every
/// other runs the alignment rules at its span — accepted under the first rule that holds, or
/// refused as a text mismatch or semantic-only by what the syntax there shows. Every occurrence is
/// counted in exactly one bucket.
pub fn join_pass(cases: &[JoinCase], language: Language) -> (r: JoinResult)
    requires
        cases.len() < u64::MAX,
        forall|i: int| 0 <= i < cases@.len() ==> case_well_formed(#[trigger] cases@[i]),
    ensures
        semantic_sum(r.accounting) == cases.len(),
        counts_outcomes(r.accounting, case_outcomes(cases@, language)),
        refusals_counted(r.accounting, r.unaligned@),
        aligned_sum(r.accounting) + r.unaligned@.len() == cases.len(),
        r.aligned@.map_values(|a: AlignedOccurrence| aligned_view(a)) == aligned_entries(cases@, language),
        r.unaligned@.map_values(|u: UnalignedOccurrence| unaligned_view(u)) == unaligned_entries(cases@, language),
{
    let ghost outcomes = case_outcomes(cases@, language);
    let mut accounting = JoinAccounting::zero();
    let mut aligned: Vec<AlignedOccurrence> = Vec::new();
    let mut unaligned: Vec<UnalignedOccurrence> = Vec::new();
    let mut k: usize = 0;
    proof {
        assert(outcomes.take(0) =~= Seq::<(JoinOutcome, Option<AlignmentRule>)>::empty());
        assert(cases@.take(0) =~= Seq::<JoinCase>::empty());
        assert(aligned@.map_values(|a: AlignedOccurrence| aligned_view(a)) =~= aligned_entries(cases@.take(0), language));
        assert(unaligned@.map_values(|u: UnalignedOccurrence| unaligned_view(u)) =~= unaligned_entries(
            cases@.take(0),
            language,
        ));
    }
    while k < cases.len()
        invariant
            k <= cases.len(),
            cases.len() < u64::MAX,
            forall|i: int| 0 <= i < cases@.len() ==> case_well_formed(#[trigger] cases@[i]),
            outcomes == case_outcomes(cases@, language),
            semantic_sum(accounting) == k,
            counts_outcomes(accounting, outcomes.take(k as int)),
            unaligned@.len() == accounting.text_mismatch + accounting.semantic_only + accounting.duplicate_ambiguous,
            accounting.text_mismatch == crate::counting::count_where(unaligned@, refused_as(JoinOutcome::TextMismatch)),
            accounting.semantic_only == crate::counting::count_where(unaligned@, refused_as(JoinOutcome::SemanticOnly)),
            accounting.duplicate_ambiguous == crate::counting::count_where(unaligned@, refused_as(JoinOutcome::DuplicateAmbiguous)),
            forall|i: int| 0 <= i < unaligned@.len() ==> (#[trigger] unaligned@[i]).outcome != JoinOutcome::Aligned,
            aligned@.map_values(|a: AlignedOccurrence| aligned_view(a)) == aligned_entries(cases@.take(k as int), language),
            unaligned@.map_values(|u: UnalignedOccurrence| unaligned_view(u)) == unaligned_entries(
                cases@.take(k as int),
                language,
            ),
        decreases cases.len() - k,
    {
        let ghost before = accounting;
        proof {
            assert(case_well_formed(cases@[k as int]));
            assert(cases@.take(k + 1).drop_last() =~= cases@.take(k as int));
            assert(cases@.take(k + 1).last() == cases@[k as int]);
            lemma_verdict_shape(cases@[k as int], language);
        }
        let ghost before_unaligned = unaligned@;
        assert(forall|i: int| 0 <= i < before_unaligned.len() ==> (#[trigger] before_unaligned[i]).outcome != JoinOutcome::Aligned);
        join_one(&cases[k], language, &mut accounting, &mut aligned, &mut unaligned);
        proof {
            lemma_counts_step(before, accounting, outcomes, k as int);
            let v = case_verdict(cases@[k as int], language);
            if v.0 != JoinOutcome::Aligned {
                let n = before_unaligned.len() as int;
                assert(unaligned@.map_values(|u: UnalignedOccurrence| unaligned_view(u))[n] == unaligned_view(unaligned@[n]));
                assert(unaligned@[n].outcome == v.0);
                assert(unaligned@.last() == unaligned@[n]);
                assert forall|i: int| 0 <= i < unaligned@.len() implies (#[trigger] unaligned@[i]).outcome != JoinOutcome::Aligned by {
                    if i < n {
                        assert(unaligned@[i] == unaligned@.drop_last()[i]);
                        assert(before_unaligned[i].outcome != JoinOutcome::Aligned);
                    }
                }
            }
        }
        k = k + 1;
    }
    proof {
        assert(cases@.take(cases.len() as int) =~= cases@);
        assert(outcomes.take(cases.len() as int) =~= outcomes);
    }
    JoinResult { aligned, unaligned, accounting }
}

/// What the alias pass reads about one first-pass refusal's document.
#[derive(Debug, Clone, PartialEq, Eq)]
pub struct AliasEvidence {
    /// What the syntax shows at the refusal's span.
    pub facts: SiteFacts,
    /// The document's declared alias bindings.
    pub bindings: Vec<AliasBinding>,
    /// The source text at each binding's alias name.
    pub alias_texts: Vec<Option<String>>,
    /// The declarations enclosing the accepted name node's start, innermost first.
    pub enclosing: Vec<SyntaxDeclaration>,
}

/// The first-pass alignments in `doc`, as (span, identity) pairs in order.
pub open spec fn doc_pairs(aligned: Seq<AlignedOccurrence>, doc: Seq<char>) -> Seq<(ByteSpan, Seq<char>)>
    decreases aligned.len(),
{
    if aligned.len() == 0 {
        Seq::empty()
    } else if aligned.last().document_path@ == doc {
        doc_pairs(aligned.drop_last(), doc).push((aligned.last().name_span, aligned.last().symbol@))
    } else {
        doc_pairs(aligned.drop_last(), doc)
    }
}

/// Whether the alias pass accepts one refusal, given its evidence and the first-pass alignments.
pub open spec fn alias_accepts(u: UnalignedOccurrence, e: AliasEvidence, pass_one: Seq<AlignedOccurrence>) -> bool {
    u.role == OccurrenceRole::Reference && u.span is Some && e.facts.name_span is Some && ostr(e.facts.name_text)
        is Some && first_verified_binding(
        e.bindings@,
        e.alias_texts@.map_values(|t: Option<String>| ostr(t)),
        ostr(e.facts.name_text).unwrap(),
        doc_pairs(pass_one, u.document_path@),
        u.symbol@,
    )
}

/// The first `upto` alignments of `doc`, as (span, identity) pairs.
fn pairs_in_doc(aligned: &Vec<AlignedOccurrence>, upto: usize, doc: &str) -> (r: Vec<(ByteSpan, CanonicalId)>)
    requires
        upto <= aligned.len(),
    ensures
        aligned_pairs_view(r@) == doc_pairs(aligned@.take(upto as int), doc@),
{
    let mut r: Vec<(ByteSpan, CanonicalId)> = Vec::new();
    let mut k: usize = 0;
    while k < upto
        invariant
            k <= upto,
            upto <= aligned.len(),
            aligned_pairs_view(r@) == doc_pairs(aligned@.take(k as int), doc@),
        decreases upto - k,
    {
        proof {
            assert(aligned@.take(k + 1).drop_last() =~= aligned@.take(k as int));
            assert(aligned@.take(k + 1).last() == aligned@[k as int]);
        }
        let a = &aligned[k];
        if str_eq(a.document_path.as_str(), doc) {
            let ghost before = r@;
            let id = a.symbol.clone();
            r.push((a.name_span, id));
            proof {
                assert(aligned_pairs_view(r@) =~= aligned_pairs_view(before).push((a.name_span, a.symbol@)));
            }
        }
        k = k + 1;
    }
    r
}

/// Whether the refusal buckets hold at least the refusals listed, none of which is an alignment.
pub open spec fn refusals_counted(a: JoinAccounting, unaligned: Seq<UnalignedOccurrence>) -> bool {
    &&& a.text_mismatch >= crate::counting::count_where(unaligned, refused_as(JoinOutcome::TextMismatch))
    &&& a.semantic_only >= crate::counting::count_where(unaligned, refused_as(JoinOutcome::SemanticOnly))
    &&& a.duplicate_ambiguous >= crate::counting::count_where(unaligned, refused_as(JoinOutcome::DuplicateAmbiguous))
    &&& forall|i: int| 0 <= i < unaligned.len() ==> (#[trigger] unaligned[i]).outcome != JoinOutcome::Aligned
}

/// The refusals carrying `o`.
pub open spec fn refused_as(o: JoinOutcome) -> spec_fn(UnalignedOccurrence) -> bool {
    |u: UnalignedOccurrence| u.outcome == o
}

/// Whether the alias pass accepts refusal `i`.
pub open spec fn accepted_at(
    refusals: Seq<UnalignedOccurrence>,
    evidence: Seq<AliasEvidence>,
    pass_one: Seq<AlignedOccurrence>,
    i: int,
) -> bool {
    alias_accepts(refusals[i], evidence[i], pass_one)
}

/// The refusals among the first `n` the alias pass keeps, in order, as plain values.
pub open spec fn kept_refusals(
    refusals: Seq<UnalignedOccurrence>,
    evidence: Seq<AliasEvidence>,
    pass_one: Seq<AlignedOccurrence>,
    n: int,
) -> Seq<(Seq<char>, Seq<char>, OccurrenceRole, JoinOutcome, Option<ByteSpan>, Seq<char>, Option<Seq<char>>)>
    decreases n,
{
    if n <= 0 {
        Seq::empty()
    } else {
        let rest = kept_refusals(refusals, evidence, pass_one, n - 1);
        if accepted_at(refusals, evidence, pass_one, n - 1) {
            rest
        } else {
            rest.push(unaligned_view(refusals[n - 1]))
        }
    }
}

/// The alignments the alias pass adds for the first `n` refusals, in order, as plain values.
pub open spec fn alias_alignments(
    refusals: Seq<UnalignedOccurrence>,
    evidence: Seq<AliasEvidence>,
    pass_one: Seq<AlignedOccurrence>,
    n: int,
) -> Seq<AlignedView>
    decreases n,
{
    if n <= 0 {
        Seq::empty()
    } else {
        let rest = alias_alignments(refusals, evidence, pass_one, n - 1);
        if accepted_at(refusals, evidence, pass_one, n - 1) {
            let u = refusals[n - 1];
            rest.push(
                (
                    u.symbol@,
                    u.document_path@,
                    evidence[n - 1].facts.name_span.unwrap(),
                    u.role,
                    AlignmentRule::ImportAlias,
                    None,
                    evidence[n - 1].enclosing@,
                ),
            )
        } else {
            rest
        }
    }
}

/// A copy of a refusal.
fn copy_unaligned(u: &UnalignedOccurrence) -> (r: UnalignedOccurrence)
    ensures
        unaligned_view(r) == unaligned_view(*u),
        r.outcome == u.outcome,
{
    UnalignedOccurrence {
        symbol: u.symbol.clone(),
        document_path: u.document_path.clone(),
        role: u.role,
        outcome: u.outcome,
        span: u.span,
        expected_name: u.expected_name.clone(),
        found_text: match &u.found_text {
            Some(t) => Some(t.clone()),
            None => None,
        },
    }
}

/// The second pass of the join: a first-pass refusal at a name node spelling a declared alias
/// whose binding a first-pass alignment of the same symbol verifies is accepted under the
/// import-alias rule at that name node; it leaves its refusal bucket as it is counted, so the total
/// is conserved. `evidence[i]` describes `result.unaligned[i]`; the kept refusals keep their order.
pub fn alias_pass(result: JoinResult, evidence: &[AliasEvidence]) -> (r: JoinResult)
    requires
        evidence.len() == result.unaligned.len(),
        forall|i: int| 0 <= i < evidence@.len() ==> (#[trigger] evidence@[i]).bindings.len() == evidence@[i].alias_texts.len(),
        refusals_counted(result.accounting, result.unaligned@),
        aligned_sum(result.accounting) + result.unaligned.len() <= u64::MAX,
    ensures
        semantic_sum(r.accounting) == semantic_sum(result.accounting),
        aligned_sum(r.accounting) == aligned_sum(result.accounting) + alias_alignments(
            result.unaligned@,
            evidence@,
            result.aligned@,
            result.unaligned@.len() as int,
        ).len(),
        r.accounting.syntax_only == result.accounting.syntax_only,
        r.aligned@.take(result.aligned@.len() as int) == result.aligned@,
        r.aligned@.skip(result.aligned@.len() as int).map_values(|a: AlignedOccurrence| aligned_view(a)) == alias_alignments(
            result.unaligned@,
            evidence@,
            result.aligned@,
            result.unaligned@.len() as int,
        ),
        r.unaligned@.map_values(|u: UnalignedOccurrence| unaligned_view(u)) == kept_refusals(
            result.unaligned@,
            evidence@,
            result.aligned@,
            result.unaligned@.len() as int,
        ),
{
    let mut aligned = result.aligned;
    let refusals = result.unaligned;
    let mut accounting = result.accounting;
    let ghost start = accounting;
    let pass_one_len = aligned.len();
    let ghost pass_one = aligned@;
    let mut kept: Vec<UnalignedOccurrence> = Vec::new();
    let mut k: usize = 0;
    while k < refusals.len()
        invariant
            k <= refusals.len(),
            evidence.len() == refusals.len(),
            forall|i: int| 0 <= i < evidence@.len() ==> (#[trigger] evidence@[i]).bindings.len() == evidence@[i].alias_texts.len(),
            forall|i: int| 0 <= i < refusals@.len() ==> (#[trigger] refusals@[i]).outcome != JoinOutcome::Aligned,
            pass_one_len == pass_one.len(),
            pass_one_len <= aligned.len(),
            aligned@.take(pass_one_len as int) == pass_one,
            aligned@.skip(pass_one_len as int).map_values(|a: AlignedOccurrence| aligned_view(a)) == alias_alignments(
                refusals@,
                evidence@,
                pass_one,
                k as int,
            ),
            kept@.map_values(|u: UnalignedOccurrence| unaligned_view(u)) == kept_refusals(refusals@, evidence@, pass_one, k as int),
            alias_alignments(refusals@, evidence@, pass_one, k as int).len() <= k,
            semantic_sum(accounting) == semantic_sum(start),
            aligned_sum(accounting) == aligned_sum(start) + alias_alignments(refusals@, evidence@, pass_one, k as int).len(),
            aligned_sum(start) + refusals.len() <= u64::MAX,
            accounting.syntax_only == start.syntax_only,
            accounting.text_mismatch + crate::counting::count_where(refusals@.take(k as int), refused_as(JoinOutcome::TextMismatch))
                >= crate::counting::count_where(refusals@, refused_as(JoinOutcome::TextMismatch)),
            accounting.semantic_only + crate::counting::count_where(refusals@.take(k as int), refused_as(JoinOutcome::SemanticOnly))
                >= crate::counting::count_where(refusals@, refused_as(JoinOutcome::SemanticOnly)),
            accounting.duplicate_ambiguous + crate::counting::count_where(
                refusals@.take(k as int),
                refused_as(JoinOutcome::DuplicateAmbiguous),
            ) >= crate::counting::count_where(refusals@, refused_as(JoinOutcome::DuplicateAmbiguous)),
        decreases refusals.len() - k,
    {
        let u = &refusals[k];
        let e = &evidence[k];
        let ghost before_acc = accounting;
        let ghost before_aligned = aligned@;
        let ghost before_kept = kept@;
        proof {
            crate::counting::lemma_count_where_take(refusals@, k + 1, refused_as(JoinOutcome::TextMismatch));
            crate::counting::lemma_count_where_take(refusals@, k + 1, refused_as(JoinOutcome::SemanticOnly));
            crate::counting::lemma_count_where_take(refusals@, k + 1, refused_as(JoinOutcome::DuplicateAmbiguous));
            crate::counting::lemma_count_where_prefix_le(refusals@, k + 1, refused_as(JoinOutcome::TextMismatch));
            crate::counting::lemma_count_where_prefix_le(refusals@, k + 1, refused_as(JoinOutcome::SemanticOnly));
            crate::counting::lemma_count_where_prefix_le(refusals@, k + 1, refused_as(JoinOutcome::DuplicateAmbiguous));
            assert(aligned@.take(pass_one_len as int) == pass_one);
        }
        let here = pairs_in_doc(&aligned, pass_one_len, u.document_path.as_str());
        let verdict = alias_acceptance(
            u.role,
            u.span,
            &u.symbol,
            &e.facts,
            e.bindings.as_slice(),
            e.alias_texts.as_slice(),
            here.as_slice(),
        );
        proof {
            assert(accepted_at(refusals@, evidence@, pass_one, k as int) == (verdict is Some));
        }
        match verdict {
            Some(name_span) => {
                proof {
                    assert(refusals@[k as int].outcome != JoinOutcome::Aligned);
                    assert(bucket(accounting, AlignmentRule::ImportAlias) <= aligned_sum(accounting));
                }
                accounting.reattribute(u.outcome);
                aligned.push(AlignedOccurrence {
                    symbol: u.symbol.clone(),
                    document_path: u.document_path.clone(),
                    name_span,
                    role: u.role,
                    rule: AlignmentRule::ImportAlias,
                    locality: None,
                    enclosing: copy_declarations(&e.enclosing),
                });
                proof {
                    assert(aligned@.take(pass_one_len as int) =~= before_aligned.take(pass_one_len as int));
                    assert(aligned@.skip(pass_one_len as int) =~= before_aligned.skip(pass_one_len as int).push(aligned@.last()));
                    assert(aligned@.skip(pass_one_len as int).map_values(|a: AlignedOccurrence| aligned_view(a))
                        =~= before_aligned.skip(pass_one_len as int).map_values(|a: AlignedOccurrence| aligned_view(a)).push(
                        aligned_view(aligned@.last()),
                    ));
                }
            },
            None => {
                kept.push(copy_unaligned(u));
                proof {
                    assert(kept@.map_values(|u: UnalignedOccurrence| unaligned_view(u)) =~= before_kept.map_values(
                        |u: UnalignedOccurrence| unaligned_view(u),
                    ).push(unaligned_view(kept@.last())));
                }
            },
        }
        k = k + 1;
    }
    JoinResult { aligned, unaligned: kept, accounting }
}

} // verus!
