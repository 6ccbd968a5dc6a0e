use silent_cartographer::graph::join::{
    alias_acceptance, attribute, evaluate_rules, strip_disambiguator, syntax_only_count, AlignmentRule, Attribution,
    JoinAccounting, JoinOutcome,
};
use silent_cartographer::graph::range::ByteSpan;
use silent_cartographer::graph::rules::{
    base_type_name, containing_module_ancestor_matches, desugar_construct, evaluate_rules_at,
    is_relative_module_path, package_matches, range_type_name, trailing_component_run_matches, SiteFacts,
};
use silent_cartographer::graph::syntax::{AliasBinding, ConstructAt, Language, RangeShape};
use silent_cartographer::identity::{CanonicalId, Descriptor, DescriptorSegment, SegmentKind};
use silent_cartographer::model::{OccurrenceRole, SymbolKind};

fn span(start: usize, end: usize) -> ByteSpan {
    ByteSpan { start, end }
}

fn facts() -> SiteFacts {
    SiteFacts {
        name_span: None,
        name_text: None,
        span_text: None,
        construct: None,
        has_construct: false,
        source_len: 100,
        impl_self_type: None,
        impl_trait_name: None,
        range_shape: None,
        use_list_terminal: None,
        path_start_self: false,
        super_depth: None,
        inline_modules: Vec::new(),
        dotted_constructs: Vec::new(),
    }
}

fn named(start: usize, end: usize, text: &str) -> SiteFacts {
    SiteFacts { name_span: Some(span(start, end)), name_text: Some(text.to_string()), ..facts() }
}

fn desc(package: &str, segs: &[(&str, SegmentKind)]) -> Descriptor {
    Descriptor::new(package, segs.iter().map(|(n, k)| DescriptorSegment::new(n, *k)).collect())
}

fn eval(
    kind: SymbolKind,
    d: Option<&Descriptor>,
    role: OccurrenceRole,
    at: ByteSpan,
    expected: &str,
    f: &SiteFacts,
    language: Language,
    doc: Option<&Descriptor>,
) -> Option<(AlignmentRule, ByteSpan)> {
    evaluate_rules_at(kind, d, role, at, expected, f, language, doc)
}

#[test]
fn the_default_rule_matches_the_name_token() {
    let f = named(10, 13, "foo");
    assert_eq!(
        eval(SymbolKind::Function, None, OccurrenceRole::Reference, span(10, 13), "foo", &f, Language::Rust, None),
        Some((AlignmentRule::Exact, span(10, 13)))
    );
    assert_eq!(
        eval(SymbolKind::Function, None, OccurrenceRole::Reference, span(10, 13), "bar", &f, Language::Rust, None),
        None
    );
}

#[test]
fn a_crate_root_matches_its_package_name_with_hyphens_normalized() {
    let d = desc("silent-cartographer", &[("crate", SegmentKind::Module)]);
    let f = named(4, 23, "silent_cartographer");
    assert_eq!(
        eval(SymbolKind::Module, Some(&d), OccurrenceRole::Reference, span(4, 23), "crate", &f, Language::Rust, None),
        Some((AlignmentRule::CrateRoot, span(4, 23)))
    );
    let keyword = SiteFacts {
        construct: Some(ConstructAt { kind: "crate".to_string(), span: span(4, 9), operator: None }),
        ..facts()
    };
    assert_eq!(
        eval(SymbolKind::Module, Some(&d), OccurrenceRole::Reference, span(4, 9), "crate", &keyword, Language::Rust, None),
        Some((AlignmentRule::CrateRoot, span(4, 9)))
    );
    assert!(package_matches("silent_cartographer", "silent-cartographer"));
    assert!(!package_matches("other", "silent-cartographer"));
}

#[test]
fn an_operator_method_aligns_at_the_construct_it_desugars_from() {
    let f = SiteFacts {
        construct: Some(ConstructAt {
            kind: "binary_expression".to_string(),
            span: span(0, 6),
            operator: Some("==".to_string()),
        }),
        has_construct: true,
        ..facts()
    };
    assert_eq!(
        eval(SymbolKind::Method, None, OccurrenceRole::Reference, span(2, 3), "eq", &f, Language::Rust, None),
        Some((AlignmentRule::OperatorDesugar, span(0, 6)))
    );
    assert_eq!(
        eval(SymbolKind::Method, None, OccurrenceRole::Reference, span(2, 3), "ne", &f, Language::Rust, None),
        None
    );
    assert!(desugar_construct("deref").is_some());
    assert!(desugar_construct("clone").is_none());
}

#[test]
fn a_file_module_definition_spans_its_document() {
    let f = SiteFacts { source_len: 40, ..facts() };
    assert_eq!(
        eval(SymbolKind::Module, None, OccurrenceRole::Definition, span(0, 40), "walk", &f, Language::Rust, None),
        Some((AlignmentRule::ModuleSpan, span(0, 40)))
    );
    assert_eq!(
        eval(SymbolKind::Function, None, OccurrenceRole::Definition, span(0, 40), "walk", &f, Language::Rust, None),
        None
    );
}

#[test]
fn a_self_token_aligns_inside_an_impl_of_the_type() {
    let f = SiteFacts {
        impl_self_type: Some("Answer<T>".to_string()),
        ..named(30, 34, "Self")
    };
    assert_eq!(
        eval(SymbolKind::Type, None, OccurrenceRole::Reference, span(30, 34), "Answer", &f, Language::Rust, None),
        Some((AlignmentRule::SelfKeyword, span(30, 34)))
    );
    assert_eq!(
        eval(SymbolKind::Type, None, OccurrenceRole::Reference, span(30, 34), "Question", &f, Language::Rust, None),
        None
    );
    assert_eq!(base_type_name("crate::model::Answer<T>"), "Answer".chars().collect::<Vec<char>>());
    assert_eq!(base_type_name(" Answer "), "Answer".chars().collect::<Vec<char>>());
}

#[test]
fn a_range_operator_aligns_with_the_range_type_it_spells() {
    let f = SiteFacts {
        range_shape: Some(RangeShape { has_start: true, has_end: true, inclusive: true }),
        ..facts()
    };
    assert_eq!(
        eval(SymbolKind::Type, None, OccurrenceRole::Reference, span(5, 8), "RangeInclusive<usize>", &f, Language::Rust, None),
        Some((AlignmentRule::RangeLiteral, span(5, 8)))
    );
    assert_eq!(range_type_name(RangeShape { has_start: true, has_end: false, inclusive: true }), None);
    assert_eq!(range_type_name(RangeShape { has_start: false, has_end: false, inclusive: false }), Some("RangeFull"));
}

#[test]
fn use_list_self_fact_aligns_at_the_path_terminal() {
    let f = SiteFacts { use_list_terminal: Some("walk".to_string()), ..facts() };
    assert_eq!(
        eval(SymbolKind::Module, None, OccurrenceRole::Reference, span(17, 21), "walk", &f, Language::Rust, None),
        Some((AlignmentRule::UseListSelf, span(17, 21)))
    );
}

#[test]
fn super_chain_depth_resolves_the_containing_modules_ancestor() {
    let doc = desc("pkg", &[("crate", SegmentKind::Module), ("walk", SegmentKind::Module)]);
    let parent = desc("pkg", &[("crate", SegmentKind::Module), ("walk", SegmentKind::Module)]);
    let f = SiteFacts { super_depth: Some(1), inline_modules: vec!["tests".to_string()], ..facts() };
    assert_eq!(
        eval(SymbolKind::Module, Some(&parent), OccurrenceRole::Reference, span(4, 9), "walk", &f, Language::Rust, Some(&doc)),
        Some((AlignmentRule::SuperKeyword, span(4, 9)))
    );
    let too_deep = SiteFacts { super_depth: Some(3), ..f.clone() };
    assert_eq!(
        eval(SymbolKind::Module, Some(&parent), OccurrenceRole::Reference, span(4, 9), "walk", &too_deep, Language::Rust, Some(&doc)),
        None
    );
    let inner = desc(
        "pkg",
        &[("crate", SegmentKind::Module), ("walk", SegmentKind::Module), ("tests", SegmentKind::Module)],
    );
    assert!(containing_module_ancestor_matches(&inner, &doc, &vec!["tests".to_string()], 0));
    assert!(!containing_module_ancestor_matches(&inner, &doc, &vec!["other".to_string()], 0));
}

#[test]
fn path_start_self_fact_gates_the_self_name_rule() {
    let doc = desc("pkg", &[("crate", SegmentKind::Module), ("walk", SegmentKind::Module)]);
    let at_start = SiteFacts { path_start_self: true, ..facts() };
    assert_eq!(
        eval(SymbolKind::Module, Some(&doc), OccurrenceRole::Reference, span(4, 8), "walk", &at_start, Language::Rust, Some(&doc)),
        Some((AlignmentRule::SelfName, span(4, 8)))
    );
    assert_eq!(
        eval(SymbolKind::Module, Some(&doc), OccurrenceRole::Reference, span(4, 8), "walk", &facts(), Language::Rust, Some(&doc)),
        None
    );
}

#[test]
fn a_python_module_aligns_at_a_trailing_run_of_its_dotted_name() {
    let module = desc("pkg", &[("pkg.shapes", SegmentKind::Module), ("__init__", SegmentKind::Meta)]);
    let bare = named(7, 13, "shapes");
    assert_eq!(
        eval(SymbolKind::Module, Some(&module), OccurrenceRole::Reference, span(7, 13), "__init__", &bare, Language::Python, None),
        Some((AlignmentRule::ModuleName, span(7, 13)))
    );
    let dotted = SiteFacts { dotted_constructs: vec![(span(0, 10), Some("pkg.shapes".to_string()))], ..named(0, 3, "pkg") };
    assert_eq!(
        eval(SymbolKind::Module, Some(&module), OccurrenceRole::Reference, span(0, 3), "__init__", &dotted, Language::Python, None),
        Some((AlignmentRule::ModuleName, span(0, 10)))
    );
    assert!(trailing_component_run_matches(".shapes", "pkg.shapes"));
    assert!(!trailing_component_run_matches("pkg", "pkg.shapes"));
    assert!(!trailing_component_run_matches("hapes", "pkg.shapes"));
    assert!(is_relative_module_path("..pkg.shapes"));
    assert!(!is_relative_module_path("pkg..shapes"));
    assert!(!is_relative_module_path("pkg shapes"));
}

#[test]
fn a_python_module_marker_aligns_only_in_python() {
    let module = desc("pkg", &[("pkg", SegmentKind::Module), ("__init__", SegmentKind::Meta)]);
    assert_eq!(
        eval(SymbolKind::Module, Some(&module), OccurrenceRole::Definition, span(0, 0), "__init__", &facts(), Language::Python, None),
        Some((AlignmentRule::ModuleMarker, span(0, 0)))
    );
    let empty = SiteFacts { source_len: 5, ..facts() };
    assert_eq!(
        eval(SymbolKind::Module, Some(&module), OccurrenceRole::Definition, span(0, 0), "__init__", &empty, Language::Rust, None),
        None,
        "the module-span rule is gated to Rust sources it spans, and the marker rule to Python"
    );
}

#[test]
fn dunder_name_aligns_to_the_documents_own_module() {
    let own = desc("pkg", &[("pkg.shapes", SegmentKind::Module)]);
    let doc = desc("pkg", &[("pkg.shapes", SegmentKind::Module), ("__init__", SegmentKind::Meta)]);
    let f = named(0, 8, "__name__");
    assert_eq!(
        eval(SymbolKind::Module, Some(&own), OccurrenceRole::Reference, span(0, 8), "pkg.shapes", &f, Language::Python, Some(&doc)),
        Some((AlignmentRule::SelfName, span(0, 8)))
    );
}

#[test]
fn an_alias_binding_retries_at_its_target_token() {
    let binding = AliasBinding { alias_name_span: span(20, 21), target_token_span: span(12, 16), binding_span: span(12, 21) };
    let at_binding = SiteFacts { has_construct: true, ..facts() };
    let at_target = named(12, 16, "Path");
    assert_eq!(
        evaluate_rules(
            SymbolKind::Type,
            None,
            OccurrenceRole::Reference,
            span(12, 21),
            "Path",
            &at_binding,
            Language::Python,
            None,
            &[binding],
            &[at_target.clone()],
        ),
        Some((AlignmentRule::Exact, span(12, 16)))
    );
    let refused = attribute(
        SymbolKind::Type,
        None,
        OccurrenceRole::Reference,
        span(30, 31),
        "Path",
        &named(30, 31, "P"),
        Language::Python,
        None,
        &[binding],
        &[at_target],
    );
    assert_eq!(
        refused,
        Attribution::Refused { outcome: JoinOutcome::TextMismatch, span: span(30, 31), found_text: Some("P".to_string()) }
    );
}

#[test]
fn an_alias_verified_by_a_first_pass_alignment_is_accepted() {
    let binding = AliasBinding { alias_name_span: span(20, 21), target_token_span: span(12, 16), binding_span: span(12, 21) };
    let symbol = CanonicalId::from_raw("ws pkg Path#");
    let aligned_here = vec![(span(12, 16), CanonicalId::from_raw("ws pkg Path#"))];
    let at_use = named(40, 41, "P");
    assert_eq!(
        alias_acceptance(OccurrenceRole::Reference, Some(span(40, 41)), &symbol, &at_use, &[binding], &[Some("P".to_string())], &aligned_here),
        Some(span(40, 41))
    );
    assert_eq!(
        alias_acceptance(OccurrenceRole::Reference, Some(span(40, 41)), &symbol, &at_use, &[binding], &[Some("Q".to_string())], &aligned_here),
        None
    );
    let other = CanonicalId::from_raw("ws pkg Other#");
    assert_eq!(
        alias_acceptance(OccurrenceRole::Reference, Some(span(40, 41)), &other, &at_use, &[binding], &[Some("P".to_string())], &aligned_here),
        None
    );
}

#[test]
fn reattribution_conserves_the_total() {
    let mut accounting = JoinAccounting::zero();
    accounting.refuse(JoinOutcome::TextMismatch);
    accounting.refuse(JoinOutcome::SemanticOnly);
    assert_eq!(accounting.total_semantic(), 2);
    accounting.reattribute(JoinOutcome::TextMismatch);
    assert_eq!(accounting.total_semantic(), 2);
    assert_eq!(accounting.text_mismatch, 0);
    assert_eq!(accounting.aligned_import_alias, 1);
    accounting.record(&Attribution::Aligned { rule: AlignmentRule::Exact, name_span: span(0, 1) });
    assert_eq!(accounting.total_semantic(), 3);
    assert_eq!(accounting.aligned_total(), 2);
}

#[test]
fn syntax_only_counts_unmatched_declarations() {
    let decls = [span(0, 3), span(10, 13), span(20, 23)];
    assert_eq!(syntax_only_count(&decls, &[span(10, 13)]), 2);
    assert_eq!(syntax_only_count(&decls, &decls), 0);
}

#[test]
fn a_disambiguator_is_stripped_only_when_it_is_all_digits() {
    assert_eq!(strip_disambiguator(&CanonicalId::from_raw("ws pkg a/b#12")).as_str(), "ws pkg a/b");
    assert_eq!(strip_disambiguator(&CanonicalId::from_raw("ws pkg a/b#x1")).as_str(), "ws pkg a/b#x1");
    assert_eq!(strip_disambiguator(&CanonicalId::from_raw("ws pkg a/b")).as_str(), "ws pkg a/b");
}
