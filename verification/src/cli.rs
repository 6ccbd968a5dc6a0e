//! The `c10r` command-line surface's arguments, as plain values: the query commands (`get`,
//! `trace`, `find`, `search`, `similar`, `impact`), the operational set (`build`, `status`,
//! `doctor`, `cache`, `hooks`), and the self-describing surface.

use vstd::prelude::*;

use crate::graph::syntax::Language;
use crate::query::{Detail, OrderMode, Relation};

verus! {

/// Whether rendered output is styled.
#[derive(Debug, Clone, Copy, PartialEq, Eq)]
pub enum ColorArg {
    /// Style when writing to a terminal.
    Auto,
    /// Always style.
    Always,
    /// Never style.
    Never,
}

/// A detail level as the command line spells it.
#[derive(Debug, Clone, Copy, PartialEq, Eq)]
pub enum DetailArg {
    /// The symbol's location.
    Location,
    /// The signature.
    Signature,
    /// The interface.
    Interface,
    /// The body.
    Body,
}

/// The detail level a command-line detail names.
pub open spec fn detail_of(d: DetailArg) -> Detail {
    match d {
        DetailArg::Location => Detail::Location,
        DetailArg::Signature => Detail::Signature,
        DetailArg::Interface => Detail::Interface,
        DetailArg::Body => Detail::Body,
    }
}

impl From<DetailArg> for Detail {
    fn from(d: DetailArg) -> (r: Detail) {
        match d {
            DetailArg::Location => Detail::Location,
            DetailArg::Signature => Detail::Signature,
            DetailArg::Interface => Detail::Interface,
            DetailArg::Body => Detail::Body,
        }
    }
}

impl vstd::std_specs::convert::FromSpecImpl<DetailArg> for Detail {
    open spec fn obeys_from_spec() -> bool {
        true
    }

    open spec fn from_spec(d: DetailArg) -> Detail {
        detail_of(d)
    }
}

/// A relation as the command line spells it.
#[derive(Debug, Clone, Copy, PartialEq, Eq)]
pub enum RelationArg {
    /// Enclosing declarations.
    Containers,
    /// Enclosed declarations.
    Contains,
    /// References.
    References,
    /// Dependents.
    Dependents,
    /// Importers.
    Importers,
    /// Implementers.
    Implementers,
    /// Tests.
    Tests,
}

/// The relation a command-line relation names.
pub open spec fn relation_of(r: RelationArg) -> Relation {
    match r {
        RelationArg::Containers => Relation::Containers,
        RelationArg::Contains => Relation::Contains,
        RelationArg::References => Relation::References,
        RelationArg::Dependents => Relation::Dependents,
        RelationArg::Importers => Relation::Importers,
        RelationArg::Implementers => Relation::Implementers,
        RelationArg::Tests => Relation::Tests,
    }
}

impl From<RelationArg> for Relation {
    fn from(r: RelationArg) -> (out: Relation) {
        match r {
            RelationArg::Containers => Relation::Containers,
            RelationArg::Contains => Relation::Contains,
            RelationArg::References => Relation::References,
            RelationArg::Dependents => Relation::Dependents,
            RelationArg::Importers => Relation::Importers,
            RelationArg::Implementers => Relation::Implementers,
            RelationArg::Tests => Relation::Tests,
        }
    }
}

impl vstd::std_specs::convert::FromSpecImpl<RelationArg> for Relation {
    open spec fn obeys_from_spec() -> bool {
        true
    }

    open spec fn from_spec(r: RelationArg) -> Relation {
        relation_of(r)
    }
}

/// A result order as the command line spells it.
#[derive(Debug, Clone, Copy, PartialEq, Eq)]
pub enum OrderArg {
    /// Ranked.
    Ranked,
    /// Unranked.
    Unranked,
}

impl From<OrderArg> for OrderMode {
    fn from(o: OrderArg) -> (r: OrderMode) {
        match o {
            OrderArg::Ranked => OrderMode::Ranked,
            OrderArg::Unranked => OrderMode::Unranked,
        }
    }
}

impl vstd::std_specs::convert::FromSpecImpl<OrderArg> for OrderMode {
    open spec fn obeys_from_spec() -> bool {
        true
    }

    open spec fn from_spec(o: OrderArg) -> OrderMode {
        match o {
            OrderArg::Ranked => OrderMode::Ranked,
            OrderArg::Unranked => OrderMode::Unranked,
        }
    }
}

/// Continuation-token paging for list answers.
#[derive(Debug, Clone, PartialEq, Eq)]
pub struct PageArgs {
    /// The maximum number of items per page; `0` is unbounded.
    pub limit: usize,
    /// The continuation token of a previous page.
    pub cursor: Option<String>,
}

/// `get`: retrieve a symbol at a detail level, by reference or by position.
#[derive(Debug, Clone, PartialEq, Eq)]
pub struct GetArgs {
    /// The symbol reference.
    pub reference: Option<String>,
    /// The detail level.
    pub detail: DetailArg,
    /// A `path:byte_offset` position.
    pub at: Option<String>,
    /// The content line bound; `0` is unbounded.
    pub max_lines: usize,
    /// The first content line to return, one-based.
    pub from: usize,
    /// Paging.
    pub paging: PageArgs,
}

/// `trace`: the symbols in a relation to the subject.
#[derive(Debug, Clone, PartialEq, Eq)]
pub struct TraceArgs {
    /// The subject symbol reference.
    pub reference: String,
    /// The relation.
    pub relation: RelationArg,
    /// The reach of the dependents relation.
    pub depth: Option<u32>,
    /// The detail level of each listed symbol.
    pub detail: Option<DetailArg>,
    /// The result order.
    pub order: OrderArg,
    /// The content line bound per listed symbol.
    pub max_lines: usize,
    /// Paging.
    pub paging: PageArgs,
}

/// `find`: symbols whose names contain a fragment.
#[derive(Debug, Clone, PartialEq, Eq)]
pub struct FindArgs {
    /// The name fragment.
    pub fragment: String,
    /// Paging.
    pub paging: PageArgs,
}

/// `search`: symbols whose passages match a natural-language query.
#[derive(Debug, Clone, PartialEq, Eq)]
pub struct SearchArgs {
    /// The query text.
    pub query: String,
    /// The detail level of each listed symbol.
    pub detail: DetailArg,
    /// The content line bound per listed symbol.
    pub max_lines: usize,
    /// Paging.
    pub paging: PageArgs,
}

/// `similar`: symbols whose passages resemble the subject's.
#[derive(Debug, Clone, PartialEq, Eq)]
pub struct SimilarArgs {
    /// The subject symbol reference.
    pub reference: Option<String>,
    /// A `path:byte_offset` position.
    pub at: Option<String>,
    /// The detail level of each listed symbol.
    pub detail: DetailArg,
    /// The content line bound per listed symbol.
    pub max_lines: usize,
    /// Paging.
    pub paging: PageArgs,
}

/// `impact`: the symbols a change reaches.
#[derive(Debug, Clone, PartialEq, Eq)]
pub struct ImpactArgs {
    /// A revision or revision range.
    pub revspec: Option<String>,
    /// Seed from the staged change.
    pub staged: bool,
    /// The dependents reach.
    pub depth: u32,
    /// The result order.
    pub order: OrderArg,
    /// Paths narrowing the change.
    pub paths: Vec<String>,
    /// Paging.
    pub paging: PageArgs,
}

/// The action of `hooks`.
#[derive(Debug, Clone, Copy, PartialEq, Eq)]
pub enum HookAction {
    /// Install the post-commit hook.
    Install,
}

/// `hooks`.
#[derive(Debug, Clone, Copy, PartialEq, Eq)]
pub struct HooksArgs {
    /// The action.
    pub action: HookAction,
}

/// `status`.
#[derive(Debug, Clone, Copy, PartialEq, Eq)]
pub struct StatusArgs {
    /// Add the bounded grouped discrepancy summary.
    pub discrepancies: bool,
    /// Add every persisted discrepancy row instead.
    pub all: bool,
    /// Add the duplicated-descriptor group detail.
    pub duplicates: bool,
}

/// A language as the command line spells it.
#[derive(Debug, Clone, Copy, PartialEq, Eq)]
pub enum LanguageArg {
    /// Rust.
    Rust,
    /// Python.
    Python,
}

impl From<LanguageArg> for Language {
    fn from(l: LanguageArg) -> (r: Language) {
        match l {
            LanguageArg::Rust => Language::Rust,
            LanguageArg::Python => Language::Python,
        }
    }
}

impl vstd::std_specs::convert::FromSpecImpl<LanguageArg> for Language {
    open spec fn obeys_from_spec() -> bool {
        true
    }

    open spec fn from_spec(l: LanguageArg) -> Language {
        match l {
            LanguageArg::Rust => Language::Rust,
            LanguageArg::Python => Language::Python,
        }
    }
}

/// `build`.
#[derive(Debug, Clone, PartialEq, Eq)]
pub struct BuildArgs {
    /// The workspace root.
    pub root: String,
    /// The rust-analyzer executable.
    pub rust_analyzer: String,
    /// An explicit language selection.
    pub language: Option<LanguageArg>,
    /// The Python environment to resolve against.
    pub environment: Option<String>,
    /// Build even when the store is current.
    pub force: bool,
}

} // verus!
