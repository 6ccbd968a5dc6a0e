use silent_cartographer::graph::corpus::{assemble, content_contributes, split_words, CorpusSource};
use silent_cartographer::graph::range::ByteSpan;
use silent_cartographer::identity::CanonicalId;

fn id(raw: &str) -> CanonicalId {
    CanonicalId::from_raw(raw)
}

#[test]
fn leaf_contributes_its_own_content() {
    let leaf_id = id("ws::app::retry::with_backoff");
    let sources = [CorpusSource {
        canonical_id: &leaf_id,
        document_path: None,
        span: None,
        display_name: "with_backoff",
        kind: "function",
        signature_text: Some("fn with_backoff(tries: u32)"),
        interface_text: Some("/// Retry a call with exponential backoff.\nfn with_backoff(tries: u32)"),
        span_text: Some("fn with_backoff(tries: u32) { sleep(tries) }"),
        contains_persisted: false,
    }];
    let corpus = assemble(&sources);
    assert_eq!(corpus.len(), 1);
    assert_eq!(corpus[0].symbol_id.as_str(), "ws::app::retry::with_backoff");
    assert!(corpus[0].render.contains("fn with_backoff(tries: u32) { sleep(tries) }"));
    assert!(corpus[0].render.contains("with backoff"));
    assert!(corpus[0].render.contains("Retry a call with exponential backoff."));
}

#[test]
fn container_contributes_interface_only() {
    let type_id = id("ws::app::Client");
    let method_id = id("ws::app::Client::send");
    let sources = [
        CorpusSource {
            canonical_id: &type_id,
            document_path: None,
            span: None,
            display_name: "Client",
            kind: "type",
            signature_text: Some("struct Client"),
            interface_text: Some("/// An HTTP client.\nstruct Client"),
            span_text: Some("struct Client { fn send(&self) { wire_bytes_out() } }"),
            contains_persisted: true,
        },
        CorpusSource {
            canonical_id: &method_id,
            document_path: None,
            span: None,
            display_name: "send",
            kind: "method",
            signature_text: Some("fn send(&self)"),
            interface_text: Some("fn send(&self)"),
            span_text: Some("fn send(&self) { wire_bytes_out() }"),
            contains_persisted: false,
        },
    ];
    let corpus = assemble(&sources);
    assert_eq!(corpus.len(), 2);
    let container = corpus.iter().find(|e| e.symbol_id == type_id).unwrap();
    assert!(container.render.contains("An HTTP client."));
    assert!(!container.render.contains("wire_bytes_out"));
}

#[test]
fn module_passage_excludes_member_bodies() {
    let module_id = id("ws::app::retry");
    let sources = [CorpusSource {
        canonical_id: &module_id,
        document_path: None,
        span: None,
        display_name: "retry",
        kind: "module",
        signature_text: Some("app::retry"),
        interface_text: Some("app::retry\nRetry policies for outbound calls."),
        span_text: Some("//! Retry policies for outbound calls.\nfn with_backoff() { sleep_inside_module_body() }"),
        contains_persisted: true,
    }];
    let corpus = assemble(&sources);
    assert_eq!(corpus.len(), 1);
    assert!(corpus[0].render.contains("Retry policies for outbound calls."));
    assert!(!corpus[0].render.contains("sleep_inside_module_body"));
}

#[test]
fn eligibility_and_exactly_once() {
    let external_id = id("ws::dep::serde::Serialize");
    let leaf_id = id("ws::app::main");
    let sources = [
        CorpusSource {
            canonical_id: &external_id,
            document_path: None,
            span: None,
            display_name: "Serialize",
            kind: "trait",
            signature_text: None,
            interface_text: None,
            span_text: None,
            contains_persisted: false,
        },
        CorpusSource {
            canonical_id: &leaf_id,
            document_path: None,
            span: None,
            display_name: "main",
            kind: "function",
            signature_text: Some("fn main()"),
            interface_text: Some("fn main()"),
            span_text: Some("fn main() {}"),
            contains_persisted: false,
        },
    ];
    let corpus = assemble(&sources);
    assert_eq!(corpus.len(), 1);
    assert_eq!(corpus[0].symbol_id, leaf_id);
}

#[test]
fn name_only_symbols_are_ineligible() {
    let param_id = id("ws::app::shout::word");
    let sources = [CorpusSource {
        canonical_id: &param_id,
        document_path: None,
        span: None,
        display_name: "word",
        kind: "other",
        signature_text: Some("word"),
        interface_text: Some("word"),
        span_text: Some("word"),
        contains_persisted: false,
    }];
    assert!(!sources[0].contributes());
    assert!(assemble(&sources).is_empty());
}

#[test]
fn assembly_is_deterministic() {
    let a_id = id("ws::app::alpha");
    let b_id = id("ws::app::beta");
    let make = |canonical_id, name| CorpusSource {
        canonical_id,
        document_path: None,
        span: None,
        display_name: name,
        kind: "function",
        signature_text: Some("fn x()"),
        interface_text: Some("fn x()"),
        span_text: Some("fn x() {}"),
        contains_persisted: false,
    };
    let forward = [make(&a_id, "alpha"), make(&b_id, "beta")];
    let reversed = [make(&b_id, "beta"), make(&a_id, "alpha")];
    assert_eq!(assemble(&forward), assemble(&reversed));
}

#[test]
fn split_words_covers_naming_conventions() {
    assert_eq!(split_words("withBackoff"), ["with", "backoff"]);
    assert_eq!(split_words("HTTPClient"), ["http", "client"]);
    assert_eq!(split_words("parse_config"), ["parse", "config"]);
    assert_eq!(split_words("sha256_digest"), ["sha256", "digest"]);
    assert_eq!(split_words("Client"), ["client"]);
}

#[test]
fn the_render_is_header_documentation_then_content() {
    let leaf_id = id("ws::app::retry::with_backoff#0");
    let sources = [CorpusSource {
        canonical_id: &leaf_id,
        document_path: Some("src/retry.rs"),
        span: Some(ByteSpan { start: 4, end: 48 }),
        display_name: "with_backoff",
        kind: "function",
        signature_text: Some("fn with_backoff(tries: u32)"),
        interface_text: Some("/// Retry.\nfn with_backoff(tries: u32)"),
        span_text: Some("fn with_backoff(tries: u32) { sleep(tries) }"),
        contains_persisted: false,
    }];
    let corpus = assemble(&sources);
    assert_eq!(
        corpus[0].header_identity,
        "with backoff\nfunction\napp retry\nfn with_backoff(tries: u32)"
    );
    assert_eq!(corpus[0].documentation.as_deref(), Some("/// Retry."));
    assert_eq!(
        corpus[0].render,
        "with backoff\nfunction\napp retry\nfn with_backoff(tries: u32)\n/// Retry.\nfn with_backoff(tries: u32) { sleep(tries) }"
    );
    assert_eq!(
        corpus[0].content_location,
        Some(("src/retry.rs".to_string(), ByteSpan { start: 4, end: 48 }))
    );
}

#[test]
fn a_repeated_identity_keeps_the_first_contributor_in_identity_order() {
    let z = id("ws::z");
    let a = id("ws::a");
    let src = |canonical_id, body| CorpusSource {
        canonical_id,
        document_path: None,
        span: None,
        display_name: "n",
        kind: "function",
        signature_text: None,
        interface_text: None,
        span_text: Some(body),
        contains_persisted: false,
    };
    let sources = [src(&z, "first z"), src(&a, "only a"), src(&z, "second z")];
    let corpus = assemble(&sources);
    assert_eq!(corpus.len(), 2);
    assert_eq!(corpus[0].symbol_id.as_str(), "ws::a");
    assert_eq!(corpus[1].content, "first z");
}

#[test]
fn eligibility_needs_a_body_beyond_the_name() {
    assert!(!content_contributes("f", Some("f"), Some("f"), None));
    assert!(!content_contributes("f", Some("f"), Some("f"), Some("f")));
    assert!(content_contributes("f", Some("fn f()"), Some("f"), Some("f")));
    assert!(content_contributes("f", None, None, Some("f")));
}

#[test]
fn split_words_handles_separators_and_digits() {
    assert_eq!(split_words("a-b.c"), ["a", "b", "c"]);
    assert_eq!(split_words("__init__"), ["init"]);
    assert_eq!(split_words("parseHTTP2Frame"), ["parse", "http2", "frame"]);
    assert!(split_words("").is_empty());
}
