use silent_cartographer::graph::edges::{
    contains_edges, definition_locations, dependency_edges, discrepancy_rows, document_modules, occurrence_rows,
};
use silent_cartographer::graph::join::{AlignedOccurrence, AlignmentRule, JoinOutcome, UnalignedOccurrence};
use silent_cartographer::graph::range::ByteSpan;
use silent_cartographer::graph::store::EdgeKind;
use silent_cartographer::graph::syntax::{Language, SyntaxTree};
use silent_cartographer::identity::CanonicalId;
use silent_cartographer::model::OccurrenceRole;

fn id(s: &str) -> CanonicalId {
    CanonicalId::from_raw(s)
}

fn reference(symbol: &str, path: &str, src: &str, token: &str) -> AlignedOccurrence {
    let tree = SyntaxTree::parse(src, Language::Rust).unwrap();
    let start = src.find(token).unwrap();
    AlignedOccurrence {
        symbol: id(symbol),
        document_path: path.to_string(),
        name_span: ByteSpan { start, end: start + token.len() },
        role: OccurrenceRole::Reference,
        rule: AlignmentRule::Exact,
        locality: None,
        enclosing: tree.enclosing_declarations(start),
    }
}

#[test]
fn references_derive_uses_from_their_declaration_and_imports_at_module_scope() {
    let src = "use dep::Thing;\nfn caller() { helper(); }\nstruct S;\nimpl S { fn m() { other(); } }\n";
    let f_start = src.find("caller").unwrap();
    let sources = vec![("lib.rs".to_string(), src.to_string())];
    let defs = vec![(id("ws::caller"), "lib.rs".to_string(), ByteSpan { start: f_start, end: f_start + 6 })];
    let types = vec![("S".to_string(), id("ws::S"))];
    let modules = vec![("lib.rs".to_string(), id("ws::lib"))];
    let aligned = vec![
        reference("dep::Thing", "lib.rs", src, "Thing"),
        reference("ws::helper", "lib.rs", src, "helper"),
        reference("ws::other", "lib.rs", src, "other"),
    ];
    let edges: Vec<(EdgeKind, String, String)> = dependency_edges(&aligned, &sources, &defs, &types, &modules)
        .into_iter()
        .map(|(k, a, b)| (k, a.as_str().to_string(), b.as_str().to_string()))
        .collect();
    assert_eq!(
        edges,
        vec![
            (EdgeKind::Imports, "ws::lib".to_string(), "dep::Thing".to_string()),
            (EdgeKind::Uses, "ws::caller".to_string(), "ws::helper".to_string()),
            (EdgeKind::Uses, "ws::S".to_string(), "ws::other".to_string()),
        ]
    );
    let without_module = dependency_edges(&aligned[..1], &sources, &defs, &types, &[]);
    assert!(without_module.is_empty());
}

fn definition(symbol: &str, path: &str, start: usize, end: usize) -> AlignedOccurrence {
    AlignedOccurrence {
        symbol: id(symbol),
        document_path: path.to_string(),
        name_span: ByteSpan { start, end },
        role: OccurrenceRole::Definition,
        rule: AlignmentRule::Exact,
        locality: None,
        enclosing: Vec::new(),
    }
}

#[test]
fn a_definition_is_contained_by_its_nearest_persisted_enclosing_declaration() {
    let src = "mod outer {\n    fn inner() {}\n}\n";
    let outer = src.find("outer").unwrap();
    let inner = src.find("inner").unwrap();
    let sources = vec![("lib.rs".to_string(), src.to_string())];
    let defs = vec![
        (id("ws::outer"), "lib.rs".to_string(), ByteSpan { start: outer, end: outer + 5 }),
        (id("ws::outer::inner"), "lib.rs".to_string(), ByteSpan { start: inner, end: inner + 5 }),
    ];
    let aligned = vec![
        definition("ws::outer", "lib.rs", outer, outer + 5),
        definition("ws::outer::inner", "lib.rs", inner, inner + 5),
        definition("ws::file", "lib.rs", 0, src.len()),
        definition("ws::elsewhere", "missing.rs", 3, 8),
    ];
    let edges: Vec<(String, String)> = contains_edges(Language::Rust, &aligned, &sources, &defs, &[])
        .into_iter()
        .map(|(a, b)| (a.as_str().to_string(), b.as_str().to_string()))
        .collect();
    assert_eq!(edges, vec![("ws::outer".to_string(), "ws::outer::inner".to_string())]);
}

#[test]
fn every_refusal_persists_one_discrepancy_row_with_its_outcome_tag() {
    let refusals = vec![
        UnalignedOccurrence {
            symbol: id("ws::a"),
            document_path: "a.rs".to_string(),
            role: OccurrenceRole::Reference,
            outcome: JoinOutcome::TextMismatch,
            span: Some(ByteSpan { start: 3, end: 7 }),
            expected_name: "name".to_string(),
            found_text: Some("nmae".to_string()),
        },
        UnalignedOccurrence {
            symbol: id("ws::b"),
            document_path: "b.rs".to_string(),
            role: OccurrenceRole::Definition,
            outcome: JoinOutcome::SemanticOnly,
            span: None,
            expected_name: "b".to_string(),
            found_text: None,
        },
    ];
    let rows = discrepancy_rows(&refusals);
    assert_eq!(rows.len(), 2);
    assert_eq!(rows[0].document_path, "a.rs");
    assert_eq!(rows[0].span, Some((3, 7)));
    assert_eq!(rows[0].outcome, "text_mismatch");
    assert_eq!(rows[0].found_text.as_deref(), Some("nmae"));
    assert_eq!(rows[1].span, None);
    assert_eq!(rows[1].outcome, "semantic_only");
    assert_eq!(rows[1].expected_name, "b");
}

#[test]
fn each_symbol_keeps_its_first_aligned_definition() {
    let aligned = vec![
        reference("ws::a", "x.rs", "fn f() { a(); }\n", "a"),
        definition("ws::a", "one.rs", 3, 4),
        definition("ws::b", "two.rs", 5, 6),
        definition("ws::a", "three.rs", 7, 8),
    ];
    let defs: Vec<(String, String, ByteSpan)> = definition_locations(&aligned)
        .into_iter()
        .map(|(i, d, s)| (i.as_str().to_string(), d, s))
        .collect();
    assert_eq!(
        defs,
        vec![
            ("ws::a".to_string(), "one.rs".to_string(), ByteSpan { start: 3, end: 4 }),
            ("ws::b".to_string(), "two.rs".to_string(), ByteSpan { start: 5, end: 6 }),
        ]
    );
}

#[test]
fn occurrence_rows_attribute_references_and_carry_their_tags() {
    let src = "fn caller() { helper(); }\n";
    let f_start = src.find("caller").unwrap();
    let sources = vec![("lib.rs".to_string(), src.to_string())];
    let defs = vec![(id("ws::caller"), "lib.rs".to_string(), ByteSpan { start: f_start, end: f_start + 6 })];
    let aligned = vec![definition("ws::caller", "lib.rs", f_start, f_start + 6), reference("ws::helper", "lib.rs", src, "helper")];
    let rows = occurrence_rows(&aligned, &sources, &defs, &[]);
    assert_eq!(rows.len(), 2);
    assert_eq!(rows[0].role, "definition");
    assert_eq!(rows[0].rule, "exact");
    assert_eq!(rows[0].enclosing_id, None);
    assert_eq!(rows[1].role, "reference");
    assert_eq!(rows[1].enclosing_id.as_ref().map(|e| e.as_str().to_string()), Some("ws::caller".to_string()));
    assert_eq!(rows[1].locality, None);
}

#[test]
fn a_document_maps_to_the_first_module_defined_in_it() {
    let aligned = vec![
        definition("ws::f", "a.rs", 10, 11),
        definition("ws::a", "a.rs", 0, 20),
        definition("ws::inner", "a.rs", 3, 8),
        definition("ws::b", "b.rs", 0, 5),
    ];
    let modules = vec![id("ws::a"), id("ws::inner"), id("ws::b")];
    let docs: Vec<(String, String)> = document_modules(&aligned, &modules)
        .into_iter()
        .map(|(d, m)| (d, m.as_str().to_string()))
        .collect();
    assert_eq!(docs, vec![("a.rs".to_string(), "ws::a".to_string()), ("b.rs".to_string(), "ws::b".to_string())]);
}
