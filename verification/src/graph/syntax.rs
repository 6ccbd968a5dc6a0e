//! The syntax oracle's vocabulary: the languages the join consumes, the declaration and construct
//! records the oracle reports, and the per-language node-kind tables.

use vstd::prelude::*;

use crate::text::str_eq;

use super::range::ByteSpan;

pub use super::tree::SyntaxTree;

verus! {

/// The source language a syntax tree is parsed as.
#[derive(Debug, Clone, Copy, PartialEq, Eq, Hash)]
pub enum Language {
    /// Rust.
    Rust,
    /// Python.
    Python,
}

/// Whether a language is Rust.
pub fn is_rust(language: Language) -> (r: bool)
    ensures
        r == (language == Language::Rust),
{
    match language {
        Language::Rust => true,
        Language::Python => false,
    }
}

/// A declaration node the graph persists: its kind, the span of its name and its full span.
#[derive(Debug, Clone, PartialEq, Eq)]
pub struct SyntaxDeclaration {
    /// The declaration's node kind (e.g. `function_item`, `struct_item`).
    pub node_kind: String,
    /// The byte span of the declaration's name identifier.
    pub name_span: ByteSpan,
    /// The byte span of the whole declaration.
    pub full_span: ByteSpan,
}

/// The name-token spans of the trait and the implementing type in one `impl Trait for Type` block.
#[derive(Debug, Clone, Copy, PartialEq, Eq)]
pub struct TraitImpl {
    /// The name-token span of the implementing type.
    pub type_name_span: ByteSpan,
    /// The name-token span of the implemented trait.
    pub trait_name_span: ByteSpan,
}

/// The subclass and base name-token spans of one Python class definition.
#[derive(Debug, Clone, PartialEq, Eq)]
pub struct ClassBases {
    /// The name-token span of the class being defined.
    pub class_name_span: ByteSpan,
    /// The name-token spans of the declared bases, in declaration order.
    pub base_name_spans: Vec<ByteSpan>,
}

/// One declared alias binding: a document-local name bound to a target token.
#[derive(Debug, Clone, Copy, PartialEq, Eq)]
pub struct AliasBinding {
    /// The byte span of the alias identifier.
    pub alias_name_span: ByteSpan,
    /// The byte span of the target token the alias binds to.
    pub target_token_span: ByteSpan,
    /// The byte span of the whole binding construct (`target as alias`).
    pub binding_span: ByteSpan,
}

/// The syntactic construct located at a byte span: its node kind, full span, and the operator
/// token of an operator-shaped expression.
#[derive(Debug, Clone, PartialEq, Eq)]
pub struct ConstructAt {
    /// The node kind (e.g. `binary_expression`, `try_expression`, `crate`).
    pub kind: String,
    /// The construct's full byte span.
    pub span: ByteSpan,
    /// The operator token for binary, compound-assignment and unary expressions.
    pub operator: Option<String>,
}

/// The shape of a Rust range construct at its operator token.
#[derive(Debug, Clone, Copy, PartialEq, Eq)]
pub struct RangeShape {
    /// Whether a start operand precedes the operator.
    pub has_start: bool,
    /// Whether an end operand follows the operator.
    pub has_end: bool,
    /// Whether the operator is the inclusive form `..=`.
    pub inclusive: bool,
}

/// The class of one spelled token, for clone-key canonicalization.
#[derive(Debug, Clone, Copy, PartialEq, Eq)]
pub enum TokenClass {
    /// An identifier.
    Identifier,
    /// A literal value.
    Literal,
    /// Any other token (keyword, operator, punctuation).
    Other,
}

/// One token of a declaration as spelled in source.
#[derive(Debug, Clone, PartialEq, Eq)]
pub struct SpelledToken {
    /// The token's source text.
    pub text: String,
    /// The token's class.
    pub class: TokenClass,
}

/// The persisted-declaration node kinds of Rust.
pub open spec fn rust_declaration_kind(kind: Seq<char>) -> bool {
    ||| kind == "mod_item"@
    ||| kind == "struct_item"@
    ||| kind == "enum_item"@
    ||| kind == "union_item"@
    ||| kind == "trait_item"@
    ||| kind == "impl_item"@
    ||| kind == "function_item"@
    ||| kind == "const_item"@
    ||| kind == "static_item"@
    ||| kind == "type_item"@
    ||| kind == "function_signature_item"@
}

/// The persisted-declaration node kinds of Python: the module, classes and functions.
pub open spec fn python_declaration_kind(kind: Seq<char>) -> bool {
    ||| kind == "module"@
    ||| kind == "class_definition"@
    ||| kind == "function_definition"@
}

/// Whether a node kind is a persisted declaration in `language`.
pub open spec fn declaration_kind(language: Language, kind: Seq<char>) -> bool {
    match language {
        Language::Rust => rust_declaration_kind(kind),
        Language::Python => python_declaration_kind(kind),
    }
}

/// Whether a node kind is an identifier-like (name) node in `language`.
pub open spec fn name_node_kind(language: Language, kind: Seq<char>) -> bool {
    match language {
        Language::Rust => {
            ||| kind == "identifier"@
            ||| kind == "type_identifier"@
            ||| kind == "field_identifier"@
            ||| kind == "shorthand_field_identifier"@
        },
        Language::Python => kind == "identifier"@,
    }
}

/// Whether `kind` is one of `table`'s entries.
fn in_table(table: &[&str], kind: &str) -> (r: bool)
    ensures
        r == exists|i: int| 0 <= i < table@.len() && table@[i]@ == kind@,
{
    let mut i: usize = 0;
    while i < table.len()
        invariant
            i <= table.len(),
            forall|j: int| 0 <= j < i ==> table@[j]@ != kind@,
        decreases table.len() - i,
    {
        if str_eq(table[i], kind) {
            return true;
        }
        i = i + 1;
    }
    false
}

/// Whether a node kind is a persisted declaration in `language`.
pub fn is_declaration_kind(language: Language, kind: &str) -> (r: bool)
    ensures
        r == declaration_kind(language, kind@),
{
    match language {
        Language::Rust => {
            let table = [
                "mod_item",
                "struct_item",
                "enum_item",
                "union_item",
                "trait_item",
                "impl_item",
                "function_item",
                "const_item",
                "static_item",
                "type_item",
                "function_signature_item",
            ];
            let r = in_table(&table, kind);
            assert(table@[0]@ == "mod_item"@);
            r
        },
        Language::Python => {
            let table = ["module", "class_definition", "function_definition"];
            in_table(&table, kind)
        },
    }
}

/// Whether a node kind is an identifier-like (name) node in `language`.
pub fn is_name_node_kind(language: Language, kind: &str) -> (r: bool)
    ensures
        r == name_node_kind(language, kind@),
{
    match language {
        Language::Rust => {
            let table = ["identifier", "type_identifier", "field_identifier", "shorthand_field_identifier"];
            let r = in_table(&table, kind);
            assert(table@[0]@ == "identifier"@);
            assert(table@[1]@ == "type_identifier"@);
            assert(table@[2]@ == "field_identifier"@);
            assert(table@[3]@ == "shorthand_field_identifier"@);
            r
        },
        Language::Python => str_eq(kind, "identifier"),
    }
}

} // verus!
