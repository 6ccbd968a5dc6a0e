//! The query vocabulary the command surface speaks: detail levels, relations, and result orders.

use vstd::prelude::*;

verus! {

/// How much of a symbol an answer carries.
#[derive(Debug, Clone, Copy, PartialEq, Eq)]
pub enum Detail {
    /// The symbol's location only.
    Location,
    /// The declaration form without its body.
    Signature,
    /// The signature with the symbol's own documentation.
    Interface,
    /// The full source text.
    Body,
}

/// A relation between a subject symbol and the symbols an answer lists.
#[derive(Debug, Clone, Copy, PartialEq, Eq)]
pub enum Relation {
    /// The declarations enclosing the subject.
    Containers,
    /// The declarations the subject encloses.
    Contains,
    /// The places the subject is referenced.
    References,
    /// The symbols depending on the subject.
    Dependents,
    /// The modules importing the subject.
    Importers,
    /// The types implementing the subject.
    Implementers,
    /// The test code exercising the subject.
    Tests,
}

/// How a result list is ordered.
#[derive(Debug, Clone, Copy, PartialEq, Eq)]
pub enum OrderMode {
    /// By structural rank.
    Ranked,
    /// In the store's canonical order.
    Unranked,
}

/// The CLI label of a detail level.
pub open spec fn detail_label_of(d: Detail) -> Seq<char> {
    match d {
        Detail::Location => "location"@,
        Detail::Signature => "signature"@,
        Detail::Interface => "interface"@,
        Detail::Body => "body"@,
    }
}

/// The CLI label for a detail level.
pub fn detail_label(detail: Detail) -> (r: &'static str)
    ensures
        r@ == detail_label_of(detail),
{
    match detail {
        Detail::Location => "location",
        Detail::Signature => "signature",
        Detail::Interface => "interface",
        Detail::Body => "body",
    }
}

/// The CLI label of a relation.
pub open spec fn relation_label_of(r: Relation) -> Seq<char> {
    match r {
        Relation::Containers => "containers"@,
        Relation::Contains => "contains"@,
        Relation::References => "references"@,
        Relation::Dependents => "dependents"@,
        Relation::Importers => "importers"@,
        Relation::Implementers => "implementers"@,
        Relation::Tests => "tests"@,
    }
}

/// The CLI label for a relation.
pub fn relation_label(relation: Relation) -> (r: &'static str)
    ensures
        r@ == relation_label_of(relation),
{
    match relation {
        Relation::Containers => "containers",
        Relation::Contains => "contains",
        Relation::References => "references",
        Relation::Dependents => "dependents",
        Relation::Importers => "importers",
        Relation::Implementers => "implementers",
        Relation::Tests => "tests",
    }
}

/// Whether a detail level carries content (and so accepts content bounds).
pub fn is_content_bearing(detail: Detail) -> (r: bool)
    ensures
        r == (detail != Detail::Location),
{
    match detail {
        Detail::Location => false,
        _ => true,
    }
}

/// How a diff changed one file.
#[derive(Debug, Clone, Copy, PartialEq, Eq)]
pub enum ChangeKind {
    /// The file exists on both sides at the same path, with different content.
    Modified,
    /// The file exists only after the change.
    Added,
    /// The file exists only before the change.
    Deleted,
    /// The file moved from its pre-change path to its post-change path.
    Renamed,
}

/// One file's change in a diff: its kind and the path it had on each side, absent on the side
/// where the file does not exist.
#[derive(Debug, Clone, PartialEq, Eq)]
pub struct FileChange {
    /// How the file changed.
    pub kind: ChangeKind,
    /// The workspace-relative path before the change.
    pub pre_path: Option<String>,
    /// The workspace-relative path after the change.
    pub post_path: Option<String>,
}

/// The characters of an optional path.
pub open spec fn opt_path(o: Option<String>) -> Option<Seq<char>> {
    match o {
        Some(s) => Some(s@),
        None => None,
    }
}

impl FileChange {
    /// A change of `kind` between the two paths.
    pub fn new(kind: ChangeKind, pre_path: Option<String>, post_path: Option<String>) -> (r: Self)
        ensures
            r.kind == kind,
            r.pre_path == pre_path,
            r.post_path == post_path,
    {
        FileChange { kind, pre_path, post_path }
    }
}

/// How the workspace an answer is asked from relates to the one its store was built for, when
/// the two are not known to match.
#[derive(Debug, Clone, PartialEq, Eq)]
pub enum WorkspaceRelation {
    /// The store was built for another workspace root, named here.
    Mismatched { recorded_root: String },
    /// The comparison could not be made: no recorded root, or a current root that does not resolve.
    Unknown,
}

/// A relation as plain values: the recorded root of a mismatch, `None` for unknown.
pub open spec fn relation_view(r: WorkspaceRelation) -> Option<Seq<char>> {
    match r {
        WorkspaceRelation::Mismatched { recorded_root } => Some(recorded_root@),
        WorkspaceRelation::Unknown => None,
    }
}

} // verus!
