use silent_cartographer::graph::join::LocalityRule;
use silent_cartographer::graph::range::ByteSpan;
use silent_cartographer::graph::syntax::SyntaxDeclaration;
use silent_cartographer::graph::twins::{
    duplicated_descriptor_symbols, group_base_identity, parent_document_map, select_group_twin, select_twin,
    select_twin_by_scope, twin_symbols_by_descriptor, SymbolEvidence,
};
use silent_cartographer::identity::{CanonicalId, Descriptor, DescriptorSegment, SegmentKind};
use silent_cartographer::pairs::SourceSet;

fn docs(items: &[&str]) -> Vec<String> {
    items.iter().map(|s| s.to_string()).collect()
}

fn parents(items: &[(&str, &str)]) -> SourceSet {
    let pairs: Vec<(String, String)> = items.iter().map(|(a, b)| (a.to_string(), b.to_string())).collect();
    SourceSet::from_pairs(&pairs)
}

fn span(start: usize, end: usize) -> ByteSpan {
    ByteSpan { start, end }
}

fn decl(start: usize, end: usize) -> SyntaxDeclaration {
    SyntaxDeclaration { node_kind: "function_item".to_string(), name_span: span(start, start), full_span: span(start, end) }
}

fn desc(name: &str) -> Descriptor {
    Descriptor::new("pkg", vec![DescriptorSegment::new("m", SegmentKind::Module), DescriptorSegment::new(name, SegmentKind::Term)])
}

fn symbol(d: Option<Descriptor>, id: Option<&str>, def: Option<&str>) -> SymbolEvidence {
    SymbolEvidence {
        descriptor: d,
        identity: id.map(CanonicalId::from_raw),
        definition_document: def.map(str::to_string),
    }
}

#[test]
fn the_defining_document_selects_its_twin() {
    let twins = docs(&["src/a.rs", "src/b.rs"]);
    assert_eq!(select_twin("src/b.rs", &twins, &parents(&[])), Some((1, LocalityRule::DefiningDocument)));
}

#[test]
fn a_document_defining_two_twins_declines() {
    let twins = docs(&["src/a.rs", "src/a.rs"]);
    assert_eq!(select_twin("src/a.rs", &twins, &parents(&[("src/a.rs", "src/lib.rs")])), None);
}

#[test]
fn the_module_chain_walks_up_to_a_defining_document() {
    let twins = docs(&["src/a/mod.rs", "src/b/mod.rs"]);
    let map = parents(&[("src/a/x.rs", "src/a/mod.rs"), ("src/a/mod.rs", "src/lib.rs"), ("src/b/mod.rs", "src/lib.rs")]);
    assert_eq!(select_twin("src/a/x.rs", &twins, &map), Some((0, LocalityRule::ModuleChain)));
    // A chain that runs out before any twin's document declines.
    assert_eq!(select_twin("src/c.rs", &twins, &map), None);
}

#[test]
fn a_cycle_in_the_chain_declines() {
    let twins = docs(&["src/t1.rs", "src/t2.rs"]);
    let map = parents(&[("src/x.rs", "src/y.rs"), ("src/y.rs", "src/x.rs")]);
    assert_eq!(select_twin("src/x.rs", &twins, &map), None);
}

#[test]
fn declaration_scope_selects_the_twin_of_the_innermost_holding_declaration() {
    let twins = docs(&["src/a.rs", "src/a.rs", "src/b.rs"]);
    let spans = vec![Some(span(10, 20)), Some(span(50, 60)), None];
    // Innermost first: a block holding nothing, then a function holding the first twin only.
    let chain = vec![decl(30, 40), decl(5, 25), decl(0, 100)];
    assert_eq!(select_twin_by_scope("src/a.rs", &twins, &spans, &chain), Some((0, LocalityRule::DeclarationScope)));
    // A declaration holding both declines.
    assert_eq!(select_twin_by_scope("src/a.rs", &twins, &spans, &[decl(0, 100)]), None);
    // A same-document twin whose definition does not normalize makes containment undecidable.
    let unknown = vec![Some(span(10, 20)), None, None];
    assert_eq!(select_twin_by_scope("src/a.rs", &twins, &unknown, &chain), None);
    // No same-document twin: nothing to decide.
    assert_eq!(select_twin_by_scope("src/c.rs", &twins, &spans, &chain), None);
}

#[test]
fn a_package_name_token_selects_the_library_twin() {
    let twins = docs(&["src/main.rs", "src/lib.rs"]);
    let map = parents(&[]);
    assert_eq!(
        select_group_twin("src/main.rs", Some("my_pkg"), "my-pkg-x", "my-pkg", Some("src/lib.rs"), &twins, &map, true, &[None, None], &[]),
        Some((1, LocalityRule::TargetMetadata))
    );
    // Without a library root the occurrence stays ambiguous, even in a defining document.
    assert_eq!(
        select_group_twin("src/main.rs", Some("my_pkg"), "my-pkg-x", "my-pkg", None, &twins, &map, true, &[None, None], &[]),
        None
    );
    // A token spelling the group's own name goes through ordinary locality.
    assert_eq!(
        select_group_twin("src/main.rs", Some("my_pkg"), "my_pkg", "my-pkg", Some("src/lib.rs"), &twins, &map, true, &[None, None], &[]),
        Some((0, LocalityRule::DefiningDocument))
    );
}

#[test]
fn an_unlocated_occurrence_skips_declaration_scope() {
    let twins = docs(&["src/a.rs", "src/a.rs"]);
    let spans = vec![Some(span(10, 20)), Some(span(50, 60))];
    let chain = vec![decl(5, 25)];
    let map = parents(&[]);
    assert_eq!(
        select_group_twin("src/a.rs", None, "f", "pkg", None, &twins, &map, true, &spans, &chain),
        Some((0, LocalityRule::DeclarationScope))
    );
    assert_eq!(select_group_twin("src/a.rs", None, "f", "pkg", None, &twins, &map, false, &spans, &chain), None);
}

#[test]
fn duplicated_descriptors_need_two_persisted_definitions() {
    let symbols = vec![
        symbol(Some(desc("f")), Some("ws pkg m/f()."), Some("src/a.rs")),
        symbol(Some(desc("f")), Some("ws pkg m/f().#2"), Some("src/b.rs")),
        symbol(Some(desc("g")), Some("ws pkg m/g()."), Some("src/a.rs")),
        symbol(Some(desc("g")), None, Some("src/b.rs")),
        symbol(Some(desc("h")), Some("ws pkg m/h()."), Some("src/a.rs")),
        symbol(Some(desc("h")), Some("ws pkg m/h()."), None),
    ];
    assert_eq!(duplicated_descriptor_symbols(&symbols), vec![true, true, false, false, false, false]);
    assert_eq!(twin_symbols_by_descriptor(&symbols, &desc("f")), vec![0, 1]);
    assert!(twin_symbols_by_descriptor(&symbols, &desc("g")).is_empty());
}

#[test]
fn a_group_is_named_by_its_twins_shared_base() {
    let symbols = vec![
        symbol(Some(desc("f")), Some("ws pkg m/f().#1"), Some("src/a.rs")),
        symbol(Some(desc("f")), Some("ws pkg m/f().#2"), Some("src/b.rs")),
        symbol(Some(desc("g")), Some("ws pkg m/g().#7"), None),
    ];
    assert_eq!(group_base_identity(&desc("f"), &symbols).as_str(), "ws pkg m/f().");
    // No twins: the first persisted symbol carrying the descriptor names the group.
    assert_eq!(group_base_identity(&desc("g"), &symbols).as_str(), "ws pkg m/g().");
    // Nothing persisted: the terminal name.
    assert_eq!(group_base_identity(&desc("k"), &symbols).as_str(), "k");
}

#[test]
fn a_module_document_has_a_parent_only_with_one_declaring_document() {
    let evidence: Vec<(String, String)> = vec![
        ("src/a.rs", "src/lib.rs"),
        ("src/a.rs", "src/lib.rs"),
        ("src/b.rs", "src/lib.rs"),
        ("src/b.rs", "src/other.rs"),
    ]
    .into_iter()
    .map(|(a, b)| (a.to_string(), b.to_string()))
    .collect();
    let map = parent_document_map(&evidence);
    assert_eq!(map.get("src/a.rs"), Some("src/lib.rs".to_string()));
    assert_eq!(map.get("src/b.rs"), None);
    assert_eq!(map.len(), 1);
}
