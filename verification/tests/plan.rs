use silent_cartographer::graph::content_hash;
use silent_cartographer::graph::join::LocalityRule;
use silent_cartographer::graph::plan::{
    plan_build, symbol_identities, BuildPlan, IndexDocument, IndexGroup, IndexModel, IndexOccurrence, IndexSymbol,
};
use silent_cartographer::graph::store::{EdgeKind, PersistedClass};
use silent_cartographer::graph::syntax::Language;
use silent_cartographer::identity::{Descriptor, DescriptorSegment, SegmentKind, WorkspaceId};
use silent_cartographer::model::{AnalyzerProvenance, OccurrenceRole, PositionEncoding, SourceRange, SymbolKind};

const LIB: &str = "fn helper() {}\nfn main() { helper(); }\n";

fn occurrence(path: &str, line: u32, start: u32, end: u32, role: OccurrenceRole) -> IndexOccurrence {
    IndexOccurrence {
        document_path: path.to_string(),
        range: SourceRange::new(line, start, line, end),
        role,
    }
}

fn function(name: &str, external: bool, occurrences: Vec<IndexOccurrence>) -> IndexSymbol {
    IndexSymbol {
        descriptor: Some(Descriptor::new("demo", vec![DescriptorSegment::new(name, SegmentKind::Method)])),
        kind: SymbolKind::Function,
        external,
        occurrences,
    }
}

fn model(analyzer: &str, symbols: Vec<IndexSymbol>) -> IndexModel {
    IndexModel {
        provenance: AnalyzerProvenance {
            analyzer_name: analyzer.to_string(),
            analyzer_version: "1.2.3".to_string(),
        },
        environment: None,
        documents: vec![
            IndexDocument { path: "src/lib.rs".to_string(), encoding: PositionEncoding::Utf8 },
            IndexDocument { path: "src/gone.rs".to_string(), encoding: PositionEncoding::Utf8 },
        ],
        symbols,
        duplicate_groups: vec![],
        library_roots: vec![],
    }
}

fn sources() -> Vec<(String, String)> {
    vec![("src/lib.rs".to_string(), LIB.to_string())]
}

fn plan(index: &IndexModel) -> BuildPlan {
    plan_build(&WorkspaceId::new("demo"), Some("/work/demo"), index, &sources()).expect("a plan")
}

fn helper_and_main() -> IndexModel {
    model(
        "rust-analyzer",
        vec![
            function(
                "helper",
                false,
                vec![
                    occurrence("src/lib.rs", 0, 3, 9, OccurrenceRole::Definition),
                    occurrence("src/lib.rs", 1, 12, 18, OccurrenceRole::Reference),
                ],
            ),
            function("main", false, vec![occurrence("src/lib.rs", 1, 3, 7, OccurrenceRole::Definition)]),
        ],
    )
}

#[test]
fn a_plan_aligns_every_located_occurrence_and_counts_it_once() {
    let index = helper_and_main();
    let p = plan(&index);
    assert_eq!(p.language, Language::Rust);
    assert_eq!(p.cases.len(), 3);
    assert_eq!(p.join.aligned.len(), 3);
    assert!(p.join.unaligned.is_empty());
    assert_eq!(p.join.accounting.aligned_exact, 3);
    assert_eq!(p.join.accounting.semantic_only, 0);
    assert_eq!(p.occurrences.len(), 3);
    assert_eq!(p.definitions.len(), 2);
    assert!(p.discrepancies.is_empty());
}

#[test]
fn a_reference_inside_a_declaration_becomes_a_uses_edge_from_it() {
    let index = helper_and_main();
    let p = plan(&index);
    let helper = p.identities[0].clone().unwrap();
    let main = p.identities[1].clone().unwrap();
    assert!(p
        .dependencies
        .iter()
        .any(|(kind, src, dst)| *kind == EdgeKind::Uses && src.as_str() == main.as_str() && dst.as_str() == helper.as_str()));
    let reference = p.occurrences.iter().find(|o| o.role == "reference").expect("the reference row");
    assert_eq!(reference.enclosing_id.as_ref().map(|e| e.as_str().to_string()), Some(main.as_str().to_string()));
    assert_eq!(reference.span, (27, 33));
}

#[test]
fn the_plan_records_the_workspace_the_analyzer_and_the_content_hash() {
    let index = helper_and_main();
    let p = plan(&index);
    assert_eq!(p.metadata.workspace_id.as_str(), "demo");
    assert_eq!(p.metadata.workspace_root.as_deref(), Some("/work/demo"));
    assert_eq!(p.metadata.provenance.analyzer_name, "rust-analyzer");
    assert_eq!(p.metadata.provenance.analyzer_version, "1.2.3");
    assert_eq!(p.metadata.content_hash, content_hash(&sources()));
    assert_eq!(p.metadata.accounting, p.join.accounting);
    assert!(p.metadata.environment.is_none());
}

#[test]
fn an_occurrence_in_a_document_without_source_is_semantic_only() {
    let index = model(
        "rust-analyzer",
        vec![function("gone", false, vec![occurrence("src/gone.rs", 0, 3, 7, OccurrenceRole::Definition)])],
    );
    let p = plan(&index);
    assert_eq!(p.join.accounting.semantic_only, 1);
    assert_eq!(p.discrepancies.len(), 1);
    assert_eq!(p.discrepancies[0].outcome, "semantic_only");
    assert_eq!(p.discrepancies[0].span, None);
    assert_eq!(p.discrepancies[0].document_path, "src/gone.rs");
}

#[test]
fn an_unnormalizable_range_is_semantic_only_without_a_span() {
    let index = model(
        "rust-analyzer",
        vec![function("helper", false, vec![occurrence("src/lib.rs", 9, 0, 4, OccurrenceRole::Definition)])],
    );
    let p = plan(&index);
    assert_eq!(p.join.accounting.semantic_only, 1);
    assert_eq!(p.discrepancies[0].span, None);
}

#[test]
fn references_of_a_duplicated_descriptor_are_duplicate_ambiguous() {
    let index = model(
        "rust-analyzer",
        vec![
            function(
                "helper",
                false,
                vec![
                    occurrence("src/lib.rs", 0, 3, 9, OccurrenceRole::Definition),
                    occurrence("src/lib.rs", 1, 12, 18, OccurrenceRole::Reference),
                ],
            ),
            function("helper", false, vec![occurrence("src/lib.rs", 0, 3, 9, OccurrenceRole::Definition)]),
        ],
    );
    let p = plan(&index);
    assert_eq!(p.duplicated, vec![true, true]);
    assert_eq!(p.join.accounting.duplicate_ambiguous, 1);
    assert_eq!(p.join.accounting.aligned_exact, 2);
    assert!(p.symbols.iter().all(|row| row.duplicated));
}

#[test]
fn symbol_rows_carry_identity_name_kind_and_class() {
    let index = model(
        "rust-analyzer",
        vec![
            function("helper", false, vec![occurrence("src/lib.rs", 0, 3, 9, OccurrenceRole::Definition)]),
            function("outside", true, vec![]),
            IndexSymbol { descriptor: None, kind: SymbolKind::Other, external: false, occurrences: vec![] },
        ],
    );
    let p = plan(&index);
    assert_eq!(p.symbols.len(), 2);
    assert_eq!(p.symbols[0].display_name, "helper");
    assert_eq!(p.symbols[0].kind, "function");
    assert_eq!(p.symbols[0].class, PersistedClass::InWorkspace);
    assert_eq!(p.symbols[1].class, PersistedClass::External);
    assert!(p.identities[2].is_none());
    let ids = symbol_identities(&WorkspaceId::new("demo"), &index);
    assert_eq!(p.symbols[1].canonical_id.as_str(), ids[1].as_ref().unwrap().as_str());
}

#[test]
fn a_python_index_parses_as_python() {
    let index = model("scip-python", vec![]);
    let p = plan(&index);
    assert_eq!(p.language, Language::Python);
    assert!(p.cases.is_empty());
}

#[test]
fn a_declaration_no_occurrence_matched_is_syntax_only() {
    let index = helper_and_main();
    let extra = vec![("src/lib.rs".to_string(), format!("{LIB}fn extra() {{}}\n"))];
    let p = plan_build(&WorkspaceId::new("demo"), None, &index, &extra).expect("a plan");
    assert_eq!(p.join.accounting.syntax_only, 1);
    assert_eq!(p.metadata.accounting.syntax_only, 1);
    assert_eq!(p.metadata.workspace_root, None);
    let plain = plan(&index);
    assert_eq!(plain.join.accounting.syntax_only, 0);
}

fn python_index(path: &str) -> IndexModel {
    IndexModel {
        provenance: AnalyzerProvenance { analyzer_name: "scip-python".to_string(), analyzer_version: "0.6".to_string() },
        environment: None,
        documents: vec![IndexDocument { path: path.to_string(), encoding: PositionEncoding::Utf8 }],
        symbols: vec![function("helper", false, vec![occurrence(path, 0, 4, 10, OccurrenceRole::Definition)])],
        duplicate_groups: vec![],
        library_roots: vec![],
    }
}

#[test]
fn python_symbols_in_test_files_carry_the_test_file_rule() {
    let source = "def helper():\n    pass\n".to_string();
    for (path, expected) in [
        ("tests/test_util.py", Some("test_file")),
        ("tests/helpers.py", Some("test_directory")),
        ("pkg/util.py", None),
    ] {
        let index = python_index(path);
        let p = plan_build(&WorkspaceId::new("demo"), None, &index, &[(path.to_string(), source.clone())]).expect("a plan");
        assert_eq!(p.symbols.len(), 1);
        assert_eq!(p.symbols[0].test_rule.as_deref(), expected, "{path}");
    }
}

#[test]
fn rust_symbol_rows_carry_no_test_rule() {
    let p = plan(&helper_and_main());
    assert!(p.symbols.iter().all(|row| row.test_rule.is_none()));
}

fn twins_model(groups: Vec<IndexGroup>) -> IndexModel {
    IndexModel {
        provenance: AnalyzerProvenance { analyzer_name: "rust-analyzer".to_string(), analyzer_version: "1".to_string() },
        environment: None,
        documents: vec![
            IndexDocument { path: "src/a.rs".to_string(), encoding: PositionEncoding::Utf8 },
            IndexDocument { path: "src/b.rs".to_string(), encoding: PositionEncoding::Utf8 },
        ],
        symbols: vec![
            function("helper", false, vec![occurrence("src/a.rs", 0, 3, 9, OccurrenceRole::Definition)]),
            function("helper", false, vec![occurrence("src/b.rs", 0, 3, 9, OccurrenceRole::Definition)]),
        ],
        duplicate_groups: groups,
        library_roots: vec![],
    }
}

fn twin_sources() -> Vec<(String, String)> {
    vec![
        ("src/a.rs".to_string(), "fn helper() {}\nfn run() { helper(); }\n".to_string()),
        ("src/b.rs".to_string(), "fn helper() {}\n".to_string()),
    ]
}

fn helper_group() -> IndexGroup {
    IndexGroup {
        descriptor: Descriptor::new("demo", vec![DescriptorSegment::new("helper", SegmentKind::Method)]),
        occurrences: vec![occurrence("src/a.rs", 1, 11, 17, OccurrenceRole::Reference)],
    }
}

#[test]
fn a_group_occurrence_goes_to_the_twin_its_own_document_defines() {
    let index = twins_model(vec![helper_group()]);
    let p = plan_build(&WorkspaceId::new("demo"), None, &index, &twin_sources()).expect("a plan");
    assert_eq!(p.duplicated, vec![true, true]);
    assert_eq!(p.cases.len(), 3);
    assert_eq!(p.join.accounting.aligned_exact, 3);
    assert_eq!(p.join.accounting.duplicate_ambiguous, 0);
    let twin_a = p.identities[0].clone().unwrap();
    let routed = p.join.aligned.iter().find(|a| a.locality.is_some()).expect("the group occurrence aligned");
    assert_eq!(routed.locality, Some(LocalityRule::DefiningDocument));
    assert_eq!(routed.symbol.as_str(), twin_a.as_str());
    let row = p.occurrences.iter().find(|o| o.locality.is_some()).expect("its occurrence row");
    assert_eq!(row.locality.as_deref(), Some("defining_document"));
}

#[test]
fn a_group_without_persisted_twins_stays_ambiguous() {
    let mut index = twins_model(vec![helper_group()]);
    index.symbols.truncate(0);
    let p = plan_build(&WorkspaceId::new("demo"), None, &index, &twin_sources()).expect("a plan");
    assert_eq!(p.join.accounting.duplicate_ambiguous, 1);
    assert_eq!(p.discrepancies.len(), 1);
    assert_eq!(p.discrepancies[0].outcome, "duplicate_ambiguous");
    assert_eq!(p.discrepancies[0].expected_name, "helper");
    assert_eq!(p.discrepancies[0].span, Some((26, 32)));
}
