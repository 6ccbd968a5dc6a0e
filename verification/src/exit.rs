//! The process exit-code taxonomy: a closed set of outcome codes and the classified failures the
//! command surface raises to reach them.

use vstd::prelude::*;

use crate::graph::store::StoreOpenError;

verus! {

/// The closed set of process outcomes, one distinct code per category.
#[derive(Debug, Clone, Copy, PartialEq, Eq)]
pub enum ExitCode {
    /// The command produced its answer, including a typed-empty answer.
    Success,
    /// A generic operational failure with no more specific category.
    General,
    /// The invocation was malformed.
    Usage,
    /// No index was discovered for the workspace.
    NoIndex,
    /// The index store was written under a different schema version than this binary expects.
    IncompatibleStore,
    /// A required language indexer or setup step was unavailable.
    IndexerSetup,
    /// A file at the store path is not recognized as this system's own store.
    UnrecognizedStore,
}

/// The numeric process exit code of each outcome.
pub open spec fn code_of(c: ExitCode) -> i32 {
    match c {
        ExitCode::Success => 0,
        ExitCode::General => 1,
        ExitCode::Usage => 2,
        ExitCode::NoIndex => 3,
        ExitCode::IncompatibleStore => 4,
        ExitCode::IndexerSetup => 5,
        ExitCode::UnrecognizedStore => 6,
    }
}

impl ExitCode {
    /// The numeric process exit code for this outcome.
    pub fn code(self) -> (r: i32)
        ensures
            r == code_of(self),
    {
        match self {
            ExitCode::Success => 0,
            ExitCode::General => 1,
            ExitCode::Usage => 2,
            ExitCode::NoIndex => 3,
            ExitCode::IncompatibleStore => 4,
            ExitCode::IndexerSetup => 5,
            ExitCode::UnrecognizedStore => 6,
        }
    }
}

/// Distinct outcomes have distinct numeric codes, so a caller can branch on the code alone.
pub proof fn lemma_codes_distinct(a: ExitCode, b: ExitCode)
    requires
        a != b,
    ensures
        code_of(a) != code_of(b),
{
}

/// A command failure tagged with the exit-code category it maps to.
#[derive(Debug, Clone, PartialEq, Eq)]
pub enum Failure {
    /// A malformed invocation the parser did not catch.
    Usage(String),
    /// No index was found to answer the query.
    NoIndex(String),
    /// A required language indexer was unavailable.
    IndexerSetup(String),
    /// A target was refused because it could not be confirmed as this system's own store.
    UnrecognizedStore(String),
}

impl Failure {
    /// The failure's message.
    pub fn message(&self) -> (r: &str)
        ensures
            r@ == (match *self {
                Failure::Usage(m) => m@,
                Failure::NoIndex(m) => m@,
                Failure::IndexerSetup(m) => m@,
                Failure::UnrecognizedStore(m) => m@,
            }),
    {
        match self {
            Failure::Usage(m) => m.as_str(),
            Failure::NoIndex(m) => m.as_str(),
            Failure::IndexerSetup(m) => m.as_str(),
            Failure::UnrecognizedStore(m) => m.as_str(),
        }
    }
}

/// The category of a tagged failure.
pub open spec fn failure_code(f: Failure) -> ExitCode {
    match f {
        Failure::Usage(_) => ExitCode::Usage,
        Failure::NoIndex(_) => ExitCode::NoIndex,
        Failure::IndexerSetup(_) => ExitCode::IndexerSetup,
        Failure::UnrecognizedStore(_) => ExitCode::UnrecognizedStore,
    }
}

/// The category of a store-open refusal: every way ownership cannot be confirmed is one category,
/// an absent store is no index, a version mismatch is an incompatible store, and storage and I/O
/// failures are general.
pub open spec fn store_error_code(e: StoreOpenError) -> ExitCode {
    match e {
        StoreOpenError::UnrecognizedStore { .. } => ExitCode::UnrecognizedStore,
        StoreOpenError::UnreadableStore { .. } => ExitCode::UnrecognizedStore,
        StoreOpenError::StaleBuildFile { .. } => ExitCode::UnrecognizedStore,
        StoreOpenError::MissingStore { .. } => ExitCode::NoIndex,
        StoreOpenError::SchemaVersionMismatch { .. } => ExitCode::IncompatibleStore,
        StoreOpenError::Storage(_) => ExitCode::General,
        StoreOpenError::Io(_) => ExitCode::General,
    }
}

/// Classify a command failure into its exit-code category, given the first tagged failure and the
/// first store-open refusal found in the failure's cause chain: a tagged failure is honored first,
/// then a store-open refusal maps by kind, and anything else is a general failure.
pub fn classify(failure: Option<&Failure>, store_error: Option<&StoreOpenError>) -> (r: ExitCode)
    ensures
        failure matches Some(f) ==> r == failure_code(*f),
        failure is None ==> (store_error matches Some(e) ==> r == store_error_code(*e)),
        failure is None && store_error is None ==> r == ExitCode::General,
{
    if let Some(f) = failure {
        return match f {
            Failure::Usage(_) => ExitCode::Usage,
            Failure::NoIndex(_) => ExitCode::NoIndex,
            Failure::IndexerSetup(_) => ExitCode::IndexerSetup,
            Failure::UnrecognizedStore(_) => ExitCode::UnrecognizedStore,
        };
    }
    if let Some(e) = store_error {
        return match e {
            StoreOpenError::UnrecognizedStore { .. } => ExitCode::UnrecognizedStore,
            StoreOpenError::UnreadableStore { .. } => ExitCode::UnrecognizedStore,
            StoreOpenError::StaleBuildFile { .. } => ExitCode::UnrecognizedStore,
            StoreOpenError::MissingStore { .. } => ExitCode::NoIndex,
            StoreOpenError::SchemaVersionMismatch { .. } => ExitCode::IncompatibleStore,
            StoreOpenError::Storage(_) => ExitCode::General,
            StoreOpenError::Io(_) => ExitCode::General,
        };
    }
    ExitCode::General
}

} // verus!
