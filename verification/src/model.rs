//! The engine-neutral semantic model the join and the store speak: position encodings, source
//! ranges, occurrence roles, symbol kinds, and analyzer provenance.

use vstd::prelude::*;

verus! {

/// The unit a semantic range counts characters in, per line.
#[derive(Debug, Clone, Copy, PartialEq, Eq, Hash)]
pub enum PositionEncoding {
    /// UTF-8 bytes.
    Utf8,
    /// UTF-16 code units.
    Utf16,
    /// UTF-32 code points (characters).
    Utf32,
}

/// A `(line, character)` range as a semantic index reports it: zero-based lines, characters counted
/// in the document's declared position encoding.
#[derive(Debug, Clone, Copy, PartialEq, Eq, Hash)]
pub struct SourceRange {
    /// The start line.
    pub start_line: u32,
    /// The start character within the start line.
    pub start_char: u32,
    /// The end line.
    pub end_line: u32,
    /// The end character within the end line.
    pub end_char: u32,
}

impl SourceRange {
    /// Construct a range from its start and end positions.
    pub fn new(start_line: u32, start_char: u32, end_line: u32, end_char: u32) -> (r: Self)
        ensures
            r == (SourceRange { start_line, start_char, end_line, end_char }),
    {
        SourceRange { start_line, start_char, end_line, end_char }
    }

    /// Whether two ranges are the same.
    pub fn same_as(&self, other: &SourceRange) -> (r: bool)
        ensures
            r == (*self == *other),
    {
        self.start_line == other.start_line && self.start_char == other.start_char
            && self.end_line == other.end_line && self.end_char == other.end_char
    }
}

/// The role an occurrence plays.
#[derive(Debug, Clone, Copy, PartialEq, Eq, Hash)]
pub enum OccurrenceRole {
    /// The symbol's definition site.
    Definition,
    /// A reference to the symbol.
    Reference,
}

/// Whether a role is the definition role.
pub fn is_definition(role: OccurrenceRole) -> (r: bool)
    ensures
        r == (role == OccurrenceRole::Definition),
{
    match role {
        OccurrenceRole::Definition => true,
        OccurrenceRole::Reference => false,
    }
}

/// The kind of a resolved symbol.
#[derive(Debug, Clone, Copy, PartialEq, Eq, Hash)]
pub enum SymbolKind {
    /// A module or namespace.
    Module,
    /// A type.
    Type,
    /// A trait.
    Trait,
    /// A free function.
    Function,
    /// A method.
    Method,
    /// A constant.
    Constant,
    /// A field.
    Field,
    /// Anything else.
    Other,
}

/// Whether a kind is the module kind.
pub fn is_module_kind(kind: SymbolKind) -> (r: bool)
    ensures
        r == (kind == SymbolKind::Module),
{
    match kind {
        SymbolKind::Module => true,
        _ => false,
    }
}

/// The analyzer a build ran under: its name and version.
#[derive(Debug, Clone, PartialEq, Eq, Hash)]
pub struct AnalyzerProvenance {
    /// The analyzer's name.
    pub analyzer_name: String,
    /// The analyzer's version.
    pub analyzer_version: String,
}

/// A backend's declared interpreter-environment facts: the interpreter it resolved and the
/// interpreter's version.
#[derive(Debug, Clone, PartialEq, Eq, Hash)]
pub struct EnvironmentFacts {
    /// The resolved interpreter path.
    pub interpreter: String,
    /// The interpreter's reported version.
    pub version: String,
}

} // verus!
