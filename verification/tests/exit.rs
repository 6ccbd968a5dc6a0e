use silent_cartographer::exit::{classify, ExitCode, Failure};
use silent_cartographer::graph::store::StoreOpenError;
use silent_cartographer::render::sanitize;

fn store_code(error: StoreOpenError) -> ExitCode {
    classify(None, Some(&error))
}

#[test]
fn the_store_outcomes_classify_to_three_distinct_codes() {
    let unrecognized = store_code(StoreOpenError::UnrecognizedStore { path: "/w/index.db".to_string() });
    let missing = store_code(StoreOpenError::MissingStore { path: "/w/index.db".to_string() });
    let incompatible = store_code(StoreOpenError::SchemaVersionMismatch {
        path: "/w/index.db".to_string(),
        found: 11,
        expected: 13,
    });

    assert_eq!(unrecognized, ExitCode::UnrecognizedStore);
    assert_eq!(unrecognized.code(), 6);
    assert_eq!(missing, ExitCode::NoIndex);
    assert_eq!(missing.code(), 3);
    assert_eq!(incompatible, ExitCode::IncompatibleStore);
    assert_eq!(incompatible.code(), 4);
}

#[test]
fn every_unconfirmed_ownership_outcome_reaches_the_same_code() {
    let outcomes = [
        StoreOpenError::UnrecognizedStore { path: "/w/index.db".to_string() },
        StoreOpenError::UnreadableStore {
            path: "/w/.c10r".to_string(),
            detail: "Is a directory (os error 21)".to_string(),
        },
        StoreOpenError::StaleBuildFile { path: "/w/index.db.c10r-tmp-1".to_string() },
    ];
    for outcome in outcomes {
        let described = outcome.message();
        assert_eq!(store_code(outcome), ExitCode::UnrecognizedStore, "{described}");
    }
}

#[test]
fn a_version_mismatch_is_incompatible_at_any_stamp() {
    for found in [0, 1, 12] {
        let code = store_code(StoreOpenError::SchemaVersionMismatch {
            path: "/w/index.db".to_string(),
            found,
            expected: 13,
        });
        assert_eq!(code, ExitCode::IncompatibleStore, "stamp {found}");
    }
}

#[test]
fn a_wrapped_store_refusal_still_classifies() {
    let error = StoreOpenError::UnrecognizedStore { path: "/w/index.db".to_string() };
    assert_eq!(classify(None, Some(&error)), ExitCode::UnrecognizedStore);
}

#[test]
fn a_tagged_failure_is_honored_before_a_store_refusal() {
    let failure = Failure::Usage("bad flag".to_string());
    let store = StoreOpenError::MissingStore { path: "/w/index.db".to_string() };
    assert_eq!(classify(Some(&failure), Some(&store)), ExitCode::Usage);
    assert_eq!(classify(None, None), ExitCode::General);
    assert_eq!(classify(None, Some(&StoreOpenError::Io("disk".to_string()))), ExitCode::General);
    assert_eq!(ExitCode::Success.code(), 0);
}

#[test]
fn the_ownership_refusal_states_both_recoveries_and_deletes_nothing_unconditionally() {
    let message = StoreOpenError::UnrecognizedStore { path: "/w/.c10r/index.db".to_string() }.message();

    assert!(message.contains("/w/.c10r/index.db"), "names the path: {message}");
    assert!(message.contains("c10r build"), "names the rebuild recovery for a stale index: {message}");
    assert!(message.contains("--db"), "names the path-correction recovery for somebody else's file: {message}");
    let lowered = message.to_lowercase();
    let conditional = lowered.find("if this is").expect("the rebuild branch is conditional");
    for instruction in ["remove", "delete", "rm "] {
        assert!(
            lowered.find(instruction).map_or(true, |at| at > conditional),
            "`{instruction}` stands outside a conditional branch: {message}"
        );
    }
}

#[test]
fn every_store_refusal_survives_the_diagnostic_sanitizer() {
    let refusals = [
        StoreOpenError::UnrecognizedStore { path: "/w/index.db".to_string() },
        StoreOpenError::UnreadableStore {
            path: "/w/.c10r".to_string(),
            detail: "Is a directory (os error 21); `--db` wants the database file inside it".to_string(),
        },
        StoreOpenError::MissingStore { path: "/w/index.db".to_string() },
        StoreOpenError::StaleBuildFile { path: "/w/index.db.c10r-tmp-1".to_string() },
        StoreOpenError::SchemaVersionMismatch { path: "/w/index.db".to_string(), found: 12, expected: 13 },
    ];
    for refusal in refusals {
        let message = refusal.message();
        assert_eq!(sanitize(&message), message, "the message is altered on its way to the terminal: {message:?}");
    }
}

#[test]
fn the_sanitizer_replaces_every_control_character() {
    assert_eq!(sanitize("a\nb\u{7}c\u{9b}d\te"), "a\u{fffd}b\u{fffd}c\u{fffd}d\u{fffd}e");
    assert_eq!(sanitize("plain — text"), "plain — text");
}
