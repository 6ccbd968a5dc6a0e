use silent_cartographer::graph::hierarchy::type_hierarchy_edges;
use silent_cartographer::graph::join::{AlignedOccurrence, AlignmentRule};
use silent_cartographer::graph::range::ByteSpan;
use silent_cartographer::graph::syntax::Language;
use silent_cartographer::identity::CanonicalId;
use silent_cartographer::model::OccurrenceRole;

fn at(symbol: &str, path: &str, src: &str, token: &str, occurrence: usize) -> AlignedOccurrence {
    let start = src.match_indices(token).nth(occurrence - 1).expect("token present").0;
    AlignedOccurrence {
        symbol: CanonicalId::from_raw(symbol),
        document_path: path.to_string(),
        name_span: ByteSpan { start, end: start + token.len() },
        role: OccurrenceRole::Reference,
        rule: AlignmentRule::Exact,
        locality: None,
        enclosing: Vec::new(),
    }
}

fn pairs(edges: Vec<(CanonicalId, CanonicalId)>) -> Vec<(String, String)> {
    edges.into_iter().map(|(a, b)| (a.as_str().to_string(), b.as_str().to_string())).collect()
}

#[test]
fn an_impl_header_yields_a_type_to_trait_edge_only_where_both_tokens_align() {
    let src = "impl fmt::Display for Wrapper<T> {}\nimpl Show for Lone {}\n";
    let sources = vec![("lib.rs".to_string(), src.to_string())];
    let aligned = vec![
        at("ws::Wrapper", "lib.rs", src, "Wrapper", 1),
        at("ext::Display", "lib.rs", src, "Display", 1),
        at("ws::Lone", "lib.rs", src, "Lone", 1),
        at("ws::Wrapper", "other.rs", src, "Show", 1),
    ];
    let edges = pairs(type_hierarchy_edges(Language::Rust, &sources, &aligned));
    assert_eq!(edges, vec![("ws::Wrapper".to_string(), "ext::Display".to_string())]);
}

#[test]
fn a_python_class_yields_one_edge_per_aligned_base_in_order() {
    let src = "class Sub(pkg.Base, Other, Missing):\n    pass\n";
    let sources = vec![("m.py".to_string(), src.to_string())];
    let aligned = vec![
        at("ws::Sub", "m.py", src, "Sub", 1),
        at("ws::Base", "m.py", src, "Base", 1),
        at("ws::Other", "m.py", src, "Other", 1),
    ];
    let edges = pairs(type_hierarchy_edges(Language::Python, &sources, &aligned));
    assert_eq!(
        edges,
        vec![
            ("ws::Sub".to_string(), "ws::Base".to_string()),
            ("ws::Sub".to_string(), "ws::Other".to_string()),
        ]
    );
}
