use silent_cartographer::graph::join::{
    alias_pass, join_pass, AliasEvidence, AlignmentRule, JoinCase, JoinOutcome, Location,
};
use silent_cartographer::graph::range::ByteSpan;
use silent_cartographer::graph::rules::SiteFacts;
use silent_cartographer::graph::syntax::{AliasBinding, Language};
use silent_cartographer::identity::CanonicalId;
use silent_cartographer::model::{OccurrenceRole, SymbolKind};

fn span(start: usize, end: usize) -> ByteSpan {
    ByteSpan { start, end }
}

fn facts() -> SiteFacts {
    SiteFacts {
        name_span: None,
        name_text: None,
        span_text: None,
        construct: None,
        has_construct: false,
        source_len: 100,
        impl_self_type: None,
        impl_trait_name: None,
        range_shape: None,
        use_list_terminal: None,
        path_start_self: false,
        super_depth: None,
        inline_modules: Vec::new(),
        dotted_constructs: Vec::new(),
    }
}

fn named(start: usize, end: usize, text: &str) -> SiteFacts {
    SiteFacts { name_span: Some(span(start, end)), name_text: Some(text.to_string()), ..facts() }
}

fn at(at_span: ByteSpan, f: SiteFacts) -> Location {
    Location::At {
        span: at_span,
        facts: f,
        bindings: Vec::new(),
        binding_facts: Vec::new(),
        document_module: None,
        enclosing: Vec::new(),
    }
}

fn case(symbol: &str, role: OccurrenceRole, expected: &str, ambiguous: bool, location: Location) -> JoinCase {
    JoinCase {
        symbol: CanonicalId::from_raw(symbol),
        kind: SymbolKind::Function,
        descriptor: None,
        document_path: "src/lib.rs".to_string(),
        role,
        expected_name: expected.to_string(),
        ambiguous,
        locality: None,
        location,
    }
}

fn first_pass() -> Vec<JoinCase> {
    vec![
        case("ws pkg run().", OccurrenceRole::Definition, "run", false, at(span(10, 13), named(10, 13, "run"))),
        case("ws pkg run().", OccurrenceRole::Reference, "run", false, at(span(40, 41), named(40, 41, "r"))),
        case("ws pkg dup().", OccurrenceRole::Reference, "dup", true, at(span(50, 53), named(50, 53, "dup"))),
        case("ws pkg gone().", OccurrenceRole::Reference, "gone", false, Location::NoSource),
        case("ws pkg bare().", OccurrenceRole::Reference, "bare", false, at(span(60, 61), facts())),
    ]
}

#[test]
fn each_occurrence_lands_in_exactly_one_bucket() {
    let result = join_pass(&first_pass(), Language::Rust);
    let a = result.accounting;
    assert_eq!(a.total_semantic(), 5);
    assert_eq!(a.aligned_exact, 1);
    assert_eq!(a.text_mismatch, 1);
    assert_eq!(a.duplicate_ambiguous, 1);
    assert_eq!(a.semantic_only, 2);
    assert_eq!(result.aligned.len(), 1);
    assert_eq!(result.aligned[0].name_span, span(10, 13));
    assert_eq!(result.aligned[0].rule, AlignmentRule::Exact);
    let outcomes: Vec<JoinOutcome> = result.unaligned.iter().map(|u| u.outcome).collect();
    assert_eq!(
        outcomes,
        vec![JoinOutcome::TextMismatch, JoinOutcome::DuplicateAmbiguous, JoinOutcome::SemanticOnly, JoinOutcome::SemanticOnly]
    );
    assert_eq!(result.unaligned[0].found_text.as_deref(), Some("r"));
}

#[test]
fn no_occurrences_count_nothing() {
    let result = join_pass(&[], Language::Python);
    assert_eq!(result.accounting.total_semantic(), 0);
    assert!(result.aligned.is_empty() && result.unaligned.is_empty());
}

fn no_evidence() -> AliasEvidence {
    AliasEvidence { facts: facts(), bindings: Vec::new(), alias_texts: Vec::new(), enclosing: Vec::new() }
}

#[test]
fn the_alias_pass_reattributes_a_verified_alias_and_conserves_the_total() {
    // `use run as r;` binds `r` (20..21) to the target token `run` (10..13), which the first pass
    // aligned to the same symbol: the text mismatch at `r` (40..41) is accepted on the second pass.
    let result = join_pass(&first_pass(), Language::Rust);
    let binding = AliasBinding { alias_name_span: span(20, 21), target_token_span: span(10, 13), binding_span: span(10, 21) };
    let evidence = vec![
        AliasEvidence {
            facts: named(40, 41, "r"),
            bindings: vec![binding],
            alias_texts: vec![Some("r".to_string())],
            enclosing: Vec::new(),
        },
        no_evidence(),
        no_evidence(),
        no_evidence(),
    ];
    let after = alias_pass(result, &evidence);
    assert_eq!(after.accounting.total_semantic(), 5);
    assert_eq!(after.accounting.text_mismatch, 0);
    assert_eq!(after.accounting.aligned_import_alias, 1);
    assert_eq!(after.aligned.len(), 2);
    assert_eq!(after.aligned[1].rule, AlignmentRule::ImportAlias);
    assert_eq!(after.aligned[1].name_span, span(40, 41));
    assert_eq!(after.unaligned.len(), 3);
}

#[test]
fn an_alias_of_another_symbol_stays_refused() {
    let result = join_pass(&first_pass(), Language::Rust);
    let binding = AliasBinding { alias_name_span: span(20, 21), target_token_span: span(30, 33), binding_span: span(20, 33) };
    let evidence = vec![
        AliasEvidence {
            facts: named(40, 41, "r"),
            bindings: vec![binding],
            alias_texts: vec![Some("r".to_string())],
            enclosing: Vec::new(),
        },
        no_evidence(),
        no_evidence(),
        no_evidence(),
    ];
    let after = alias_pass(result, &evidence);
    assert_eq!(after.accounting.text_mismatch, 1);
    assert_eq!(after.aligned.len(), 1);
    assert_eq!(after.unaligned.len(), 4);
}
