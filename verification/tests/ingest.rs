use silent_cartographer::graph::ingest::{
    definition_content, module_by_document, qualified_name, DefinitionSyntax, MatchedDeclaration, ModuleDefinition,
    carry_forward, derives_parent, enclosing_symbol, kind_tag, parent_of_definition, reference_edge, role_tag,
    span_containers,
};
use silent_cartographer::graph::range::ByteSpan;
use silent_cartographer::graph::store::EdgeKind;
use silent_cartographer::graph::syntax::{Language, SyntaxDeclaration};
use silent_cartographer::identity::CanonicalId;
use silent_cartographer::model::{OccurrenceRole, SourceRange, SymbolKind};

fn span(start: usize, end: usize) -> ByteSpan {
    ByteSpan { start, end }
}

fn decl(kind: &str, name: ByteSpan, full: ByteSpan) -> SyntaxDeclaration {
    SyntaxDeclaration { node_kind: kind.to_string(), name_span: name, full_span: full }
}

fn id(s: &str) -> CanonicalId {
    CanonicalId::from_raw(s)
}

#[test]
fn kind_and_role_tags_are_the_stored_words() {
    assert_eq!(kind_tag(SymbolKind::Module), "module");
    assert_eq!(kind_tag(SymbolKind::Method), "method");
    assert_eq!(kind_tag(SymbolKind::Other), "other");
    assert_eq!(role_tag(OccurrenceRole::Definition), "definition");
    assert_eq!(role_tag(OccurrenceRole::Reference), "reference");
}

#[test]
fn a_reference_is_attributed_to_its_nearest_persisted_declaration() {
    // An unpersisted closure-like declaration, inside a persisted function, inside a module.
    let chain = vec![
        decl("closure_expression", span(40, 41), span(38, 60)),
        decl("function_item", span(10, 13), span(7, 80)),
        decl("mod_item", span(4, 6), span(0, 100)),
    ];
    let texts = vec![None, Some("run".to_string()), Some("m".to_string())];
    let defs = vec![
        (id("ws pkg m/run()."), "src/lib.rs".to_string(), span(10, 13)),
        (id("ws pkg m/"), "src/lib.rs".to_string(), span(4, 6)),
    ];
    let got = enclosing_symbol(&chain, &texts, "src/lib.rs", &defs, &[]);
    assert_eq!(got.map(|c| c.as_str().to_string()), Some("ws pkg m/run().".to_string()));
    // The same spans in another document match nothing: the module itself.
    assert!(enclosing_symbol(&chain, &texts, "src/other.rs", &defs, &[]).is_none());
}

#[test]
fn an_impl_block_stands_for_the_type_it_names() {
    let chain = vec![decl("impl_item", span(5, 10), span(0, 50))];
    let texts = vec![Some("Point".to_string())];
    let types = vec![("Point".to_string(), id("ws pkg Point#"))];
    let got = enclosing_symbol(&chain, &texts, "src/lib.rs", &[], &types);
    assert_eq!(got.map(|c| c.as_str().to_string()), Some("ws pkg Point#".to_string()));
    let unnamed = enclosing_symbol(&chain, &[None], "src/lib.rs", &[], &types);
    assert!(unnamed.is_none());
}

#[test]
fn a_definitions_parent_skips_its_own_declaration() {
    let chain = vec![decl("function_item", span(20, 23), span(17, 40)), decl("mod_item", span(4, 6), span(0, 90))];
    let texts = vec![Some("run".to_string()), Some("m".to_string())];
    let defs = vec![
        (id("ws pkg m/run()."), "src/lib.rs".to_string(), span(20, 23)),
        (id("ws pkg m/"), "src/lib.rs".to_string(), span(4, 6)),
    ];
    let parent = parent_of_definition(&chain, &texts, "src/lib.rs", span(20, 23), &defs, &[]);
    assert_eq!(parent.map(|c| c.as_str().to_string()), Some("ws pkg m/".to_string()));
}

#[test]
fn empty_and_whole_document_spans_derive_no_parent() {
    assert!(!derives_parent(span(5, 5), Some(100)));
    assert!(!derives_parent(span(0, 100), Some(100)));
    assert!(derives_parent(span(0, 100), Some(101)));
    assert!(derives_parent(span(0, 100), None));
}

#[test]
fn references_derive_uses_edges_inside_declarations_and_imports_edges_at_module_scope() {
    let user = id("ws pkg f().");
    let module = id("ws pkg m/");
    assert_eq!(
        reference_edge(Some(&user), Some(&module)).map(|(k, s)| (k, s.as_str().to_string())),
        Some((EdgeKind::Uses, "ws pkg f().".to_string()))
    );
    assert_eq!(
        reference_edge(None, Some(&module)).map(|(k, s)| (k, s.as_str().to_string())),
        Some((EdgeKind::Imports, "ws pkg m/".to_string()))
    );
    assert!(reference_edge(None, None).is_none());
}

#[test]
fn span_containment_marks_symbols_holding_another() {
    let spans = vec![
        (id("m/"), (0, 100), true),
        (id("m/f()."), (10, 40), false),
        (id("m/f().x"), (20, 21), false),
        (id("m/g()."), (50, 60), false),
        (id("m/twin."), (50, 60), false),
    ];
    // A non-module sharing its exact span with another identity does not contain it.
    assert_eq!(span_containers(&spans), vec![true, true, false, false, false]);
    // A module whose span equals another symbol's contains it.
    let file_module = vec![(id("file/"), (0, 10), true), (id("file/only."), (0, 10), false)];
    assert_eq!(span_containers(&file_module), vec![true, false]);
}

#[test]
fn a_vector_carries_forward_only_for_a_byte_identical_render() {
    let stored = vec![1u8, 2, 3];
    assert_eq!(carry_forward(Some(("fn f() {}", &stored)), "fn f() {}"), Some(vec![1, 2, 3]));
    assert_eq!(carry_forward(Some(("fn f() {}", &stored)), "fn f() { }"), None);
    assert_eq!(carry_forward(None, "fn f() {}"), None);
}

fn no_syntax() -> DefinitionSyntax {
    DefinitionSyntax { matched: None, module_documentation: None, name_text: None }
}

#[test]
fn a_matched_declaration_persists_its_full_span_and_tiers() {
    let syntax = DefinitionSyntax {
        matched: Some(MatchedDeclaration {
            full_span: span(0, 20),
            text: Some("fn run() { work(); }".to_string()),
            signature: "fn run()".to_string(),
            interface: "fn run()".to_string(),
        }),
        module_documentation: None,
        name_text: Some("run".to_string()),
    };
    let c = definition_content(false, false, &id("ws::pkg::run"), Some(("src/lib.rs", span(3, 6))), Some("fn run() { work(); }"), &syntax);
    assert_eq!(c.document_path.as_deref(), Some("src/lib.rs"));
    assert_eq!(c.span, Some((0, 20)));
    assert_eq!(c.span_text.as_deref(), Some("fn run() { work(); }"));
    assert_eq!(c.signature_text.as_deref(), Some("fn run()"));
}

#[test]
fn a_file_module_persists_its_whole_document_and_qualified_name() {
    let syntax = DefinitionSyntax { matched: None, module_documentation: Some("The module.\n\n".to_string()), name_text: None };
    let source = "//! The module.\nfn f() {}\n";
    let c = definition_content(false, true, &id("ws::pkg::m"), Some(("src/m.rs", span(0, 0))), Some(source), &syntax);
    assert_eq!(c.span, Some((0, source.len())));
    assert_eq!(c.span_text.as_deref(), Some(source));
    assert_eq!(c.signature_text.as_deref(), Some("pkg::m"));
    assert_eq!(c.interface_text.as_deref(), Some("pkg::m\nThe module."));
    let bare = definition_content(false, true, &id("ws::pkg::m"), Some(("src/m.rs", span(0, 0))), Some(source), &no_syntax());
    assert_eq!(bare.interface_text.as_deref(), Some("pkg::m"));
}

#[test]
fn an_unmatched_definition_persists_its_name_text_and_external_ones_nothing() {
    let syntax = DefinitionSyntax { matched: None, module_documentation: None, name_text: Some("x".to_string()) };
    let c = definition_content(false, false, &id("ws::pkg::x"), Some(("src/a.rs", span(4, 5))), Some("let x = 1;"), &syntax);
    assert_eq!(c.span, Some((4, 5)));
    assert_eq!(c.span_text.as_deref(), Some("x"));
    assert_eq!(c.interface_text.as_deref(), Some("x"));
    let external = definition_content(true, false, &id("ws::pkg::x"), Some(("src/a.rs", span(4, 5))), Some("let x = 1;"), &syntax);
    assert_eq!(external.document_path, None);
    let sourceless = definition_content(false, false, &id("ws::pkg::x"), Some(("src/a.rs", span(4, 5))), None, &syntax);
    assert_eq!(sourceless.document_path.as_deref(), Some("src/a.rs"));
    assert_eq!(sourceless.span, None);
    assert_eq!(definition_content(false, false, &id("ws::pkg::x"), None, None, &syntax).document_path, None);
}

#[test]
fn the_qualified_name_drops_the_workspace_segment() {
    assert_eq!(qualified_name(&id("ws::pkg::a::b#2")).into_iter().collect::<String>(), "pkg::a::b#2");
    assert_eq!(qualified_name(&id("bare")).into_iter().collect::<String>(), "bare");
}

fn module_def(doc: &str, range: SourceRange, span: Option<ByteSpan>, len: Option<usize>) -> Option<ModuleDefinition> {
    Some(ModuleDefinition { document_path: doc.to_string(), range, span, source_len: len })
}

#[test]
fn each_document_takes_its_first_whole_document_module() {
    let r = SourceRange::new(0, 0, 3, 0);
    let defs = vec![
        None,
        module_def("src/a.rs", r, Some(span(0, 40)), Some(40)),
        module_def("src/a.rs", r, Some(span(0, 40)), Some(40)),
        module_def("src/b.rs", r, Some(span(4, 9)), Some(40)),
        module_def("src/c.rs", r, None, Some(40)),
    ];
    assert_eq!(module_by_document(&defs, Language::Rust), vec![("src/a.rs".to_string(), 1)]);
    let origin = SourceRange::new(0, 0, 0, 0);
    let py = vec![module_def("pkg/m.py", origin, None, None), module_def("pkg/n.py", r, None, None)];
    assert_eq!(module_by_document(&py, Language::Python), vec![("pkg/m.py".to_string(), 0)]);
}
