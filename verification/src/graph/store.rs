//! The store's vocabulary and bookkeeping: edge kinds, persisted rows, index metadata, freshness,
//! and the ownership verdict read off a store file's header.

use vstd::prelude::*;

use crate::identity::{CanonicalId, WorkspaceId};
use crate::model::{AnalyzerProvenance, EnvironmentFacts};
use crate::text::{chars_of, last_index_of, last_index_of_exec, push_char, push_str, slice_to_vec, str_eq, string_of};
use crate::utf::{bytes_len, utf8_width_of};

use super::chunk::ChunkParams;
use super::join::JoinAccounting;

verus! {

/// An edge kind in the graph.
#[derive(Debug, Clone, Copy, PartialEq, Eq)]
pub enum EdgeKind {
    /// Enclosure: a declaration directly contains another.
    Contains,
    /// A declaration references a symbol in its body.
    Uses,
    /// A module references a symbol at module scope.
    Imports,
    /// A type implements a trait.
    TypeHierarchy,
}

/// The stored tag of each edge kind.
pub open spec fn edge_tag(kind: EdgeKind) -> Seq<char> {
    match kind {
        EdgeKind::Contains => "contains"@,
        EdgeKind::Uses => "uses"@,
        EdgeKind::Imports => "imports"@,
        EdgeKind::TypeHierarchy => "type_hierarchy"@,
    }
}

impl EdgeKind {
    /// The stored tag for this edge kind.
    pub fn tag(&self) -> (r: &'static str)
        ensures
            r@ == edge_tag(*self),
    {
        match self {
            EdgeKind::Contains => "contains",
            EdgeKind::Uses => "uses",
            EdgeKind::Imports => "imports",
            EdgeKind::TypeHierarchy => "type_hierarchy",
        }
    }
}

/// The class a persisted symbol belongs to.
#[derive(Debug, Clone, Copy, PartialEq, Eq)]
pub enum PersistedClass {
    /// Defined in the workspace: carries a definition span.
    InWorkspace,
    /// Resolved but defined outside the workspace.
    External,
}

impl PersistedClass {
    /// The stored tag for this class.
    pub fn tag(&self) -> (r: &'static str)
        ensures
            r@ == (match *self {
                PersistedClass::InWorkspace => "in_workspace"@,
                PersistedClass::External => "external"@,
            }),
    {
        match self {
            PersistedClass::InWorkspace => "in_workspace",
            PersistedClass::External => "external",
        }
    }

    /// The class a stored tag names: `external` is the external class, anything else in-workspace.
    pub fn from_tag(tag: &str) -> (r: Self)
        ensures
            r == (if tag@ == "external"@ {
                PersistedClass::External
            } else {
                PersistedClass::InWorkspace
            }),
    {
        if str_eq(tag, "external") {
            PersistedClass::External
        } else {
            PersistedClass::InWorkspace
        }
    }
}

/// A symbol row as persisted.
#[derive(Debug, Clone, PartialEq, Eq)]
pub struct SymbolRow {
    /// The canonical identity.
    pub canonical_id: CanonicalId,
    /// A human-readable display name.
    pub display_name: String,
    /// The symbol kind tag.
    pub kind: String,
    /// The symbol class.
    pub class: PersistedClass,
    /// The document the definition sits in, if any.
    pub document_path: Option<String>,
    /// The definition span, if any: start and end byte offsets.
    pub span: Option<(usize, usize)>,
    /// The exact source text of the definition span, if any.
    pub span_text: Option<String>,
    /// The signature tier.
    pub signature_text: Option<String>,
    /// The interface tier.
    pub interface_text: Option<String>,
    /// Whether this symbol is a true same-descriptor twin.
    pub duplicated: bool,
    /// The test-classification rule that stamped the symbol as test code, if any.
    pub test_rule: Option<String>,
}

/// A persisted occurrence row.
#[derive(Debug, PartialEq, Eq)]
pub struct OccurrenceRow {
    /// The symbol the occurrence belongs to.
    pub symbol_id: CanonicalId,
    /// The document the occurrence sits in.
    pub document_path: String,
    /// The occurrence's byte span.
    pub span: (usize, usize),
    /// The role tag.
    pub role: String,
    /// The alignment rule tag.
    pub rule: String,
    /// The nearest enclosing persisted declaration, if attributed.
    pub enclosing_id: Option<CanonicalId>,
    /// The locality rule tag, for an attribution resolved from a duplicated descriptor's group.
    pub locality: Option<String>,
}

/// The maximum number of `found_text` bytes persisted per discrepancy row.
pub const FOUND_TEXT_MAX_BYTES: usize = 120;

/// The maximum number of groups the default discrepancy summary displays.
pub const DISCREPANCY_GROUP_CAP: usize = 50;

/// The maximum hop distance the dependents traversal walks.
pub const DEPENDENTS_HORIZON: u32 = 20;

/// One dependent of a seed symbol.
#[derive(Debug, Clone, PartialEq, Eq)]
pub struct DependentRow {
    /// The dependent symbol's canonical identity.
    pub id: CanonicalId,
    /// The shortest hop distance from the seed.
    pub depth: u32,
    /// The connecting edge kind tag.
    pub kind: String,
}

/// The rank graph projection: the node universe and the collapsed dependency edges.
#[derive(Debug, PartialEq, Eq)]
pub struct RankProjection {
    /// Every in-workspace symbol, ordered by canonical identity.
    pub nodes: Vec<CanonicalId>,
    /// The collapsed dependency edges as `(src, dst)` indices into `nodes`.
    pub edges: Vec<(usize, usize)>,
}

/// A persisted join-discrepancy row.
#[derive(Debug, Clone, PartialEq, Eq)]
pub struct DiscrepancyRow {
    /// The document the occurrence sits in.
    pub document_path: String,
    /// The byte span at the occurrence's location, when it normalized.
    pub span: Option<(usize, usize)>,
    /// The outcome kind tag.
    pub outcome: String,
    /// The expected name token.
    pub expected_name: String,
    /// The source text found at the location, truncated, if any.
    pub found_text: Option<String>,
}

/// One group in the bounded discrepancy summary.
#[derive(Debug, Clone, PartialEq, Eq)]
pub struct DiscrepancyGroup {
    /// The outcome kind tag.
    pub outcome: String,
    /// The expected name token shared by the group.
    pub expected_name: String,
    /// How many discrepancies fall in this group.
    pub count: u64,
    /// How many distinct documents the group's discrepancies span.
    pub document_count: u64,
    /// One exemplar location drawn from the group.
    pub exemplar: DiscrepancyRow,
}

/// The bounded discrepancy summary: the displayed groups plus the full-set totals.
#[derive(Debug, Clone, PartialEq, Eq)]
pub struct DiscrepancySummary {
    /// The groups shown, most-populous first, capped.
    pub groups: Vec<DiscrepancyGroup>,
    /// The total number of distinct groups in the full persisted set.
    pub total_groups: u64,
    /// The total number of discrepancy rows in the full persisted set.
    pub total_discrepancies: u64,
}

impl DiscrepancySummary {
    /// Whether the summary withheld groups under the display cap.
    pub fn truncated(&self) -> (r: bool)
        ensures
            r == (self.total_groups > self.groups.len()),
    {
        let shown = self.groups.len();
        if shown as u128 >= self.total_groups as u128 {
            false
        } else {
            true
        }
    }
}

/// A duplicated-descriptor group.
#[derive(Debug, Clone, PartialEq, Eq)]
pub struct DuplicatedGroup {
    /// The shared descriptor's canonical base.
    pub descriptor_base: String,
    /// The definitions that share the descriptor.
    pub definitions: Vec<SymbolRow>,
}

/// The recorded index metadata.
#[derive(Debug, Clone, PartialEq, Eq)]
pub struct IndexMetadata {
    /// The workspace the index was built under.
    pub workspace_id: WorkspaceId,
    /// The canonicalized filesystem root the build indexed, when it could be recorded exactly.
    pub workspace_root: Option<String>,
    /// The analyzer provenance.
    pub provenance: AnalyzerProvenance,
    /// The content hash of the analyzed sources.
    pub content_hash: String,
    /// The join-alignment accounting for the build.
    pub accounting: JoinAccounting,
    /// The backend's declared interpreter-environment facts, if any.
    pub environment: Option<EnvironmentFacts>,
    /// The chunk parameters the build ran under.
    pub chunk_params: ChunkParams,
}

/// The semantic-index identity recorded with a build.
#[derive(Debug, Clone, PartialEq, Eq)]
pub struct SemanticIndexIdentity {
    /// The embedding model identity.
    pub model_identity: String,
    /// The corpus definition version.
    pub corpus_definition_version: u32,
    /// The chunk parameters the build ran under.
    pub chunk_params: ChunkParams,
}

/// One persisted semantic representation: a render and its chunks' embedding bytes.
#[derive(Debug, Clone, PartialEq, Eq)]
pub struct SemanticRepresentation {
    /// The render text the representations derive from.
    pub render: String,
    /// The embedding vector of each chunk, in ordinal order, as little-endian bytes.
    pub embeddings: Vec<Vec<u8>>,
}

/// The freshness of the index relative to what is currently in effect.
#[derive(Debug, Clone, Copy, PartialEq, Eq)]
pub enum Freshness {
    /// Sources, analyzer, and declared environment are unchanged since indexing.
    Fresh,
    /// The source content changed since indexing.
    StaleContent,
    /// The analyzer differs from the recorded provenance.
    StaleVersion,
    /// The recorded interpreter environment differs from the one in effect.
    StaleEnvironment,
}

/// The reported word of each freshness.
pub open spec fn freshness_tag(f: Freshness) -> Seq<char> {
    match f {
        Freshness::Fresh => "fresh"@,
        Freshness::StaleContent => "stale_content"@,
        Freshness::StaleVersion => "stale_version"@,
        Freshness::StaleEnvironment => "stale_environment"@,
    }
}

impl Freshness {
    /// The reported word for this freshness.
    pub fn tag(&self) -> (r: &'static str)
        ensures
            r@ == freshness_tag(*self),
    {
        match self {
            Freshness::Fresh => "fresh",
            Freshness::StaleContent => "stale_content",
            Freshness::StaleVersion => "stale_version",
            Freshness::StaleEnvironment => "stale_environment",
        }
    }

    /// Whether the index is stale, for any reason.
    pub fn is_stale(&self) -> (r: bool)
        ensures
            r == (*self != Freshness::Fresh),
    {
        match self {
            Freshness::Fresh => false,
            _ => true,
        }
    }
}

/// Environment facts as values.
pub open spec fn env_view(e: Option<EnvironmentFacts>) -> Option<(Seq<char>, Seq<char>)> {
    match e {
        Some(f) => Some((f.interpreter@, f.version@)),
        None => None,
    }
}

/// How current a stored index is: a differing content hash makes it stale first, a differing
/// analyzer next, and any difference in the recorded environment (absence included) last.
pub open spec fn freshness_spec(
    meta: IndexMetadata,
    current_hash: Seq<char>,
    current: AnalyzerProvenance,
    current_environment: Option<(Seq<char>, Seq<char>)>,
) -> Freshness {
    if meta.content_hash@ != current_hash {
        Freshness::StaleContent
    } else if meta.provenance.analyzer_version@ != current.analyzer_version@
        || meta.provenance.analyzer_name@ != current.analyzer_name@ {
        Freshness::StaleVersion
    } else if env_view(meta.environment) != current_environment {
        Freshness::StaleEnvironment
    } else {
        Freshness::Fresh
    }
}

/// Environment facts of a borrowed option as values.
pub open spec fn env_ref_view(e: Option<&EnvironmentFacts>) -> Option<(Seq<char>, Seq<char>)> {
    match e {
        Some(f) => Some((f.interpreter@, f.version@)),
        None => None,
    }
}

/// Evaluate one metadata value's freshness against the sources' current content hash, the
/// analyzer in effect, and the declared environment in effect.
pub fn freshness_of(
    meta: &IndexMetadata,
    current_hash: &str,
    current: &AnalyzerProvenance,
    current_environment: Option<&EnvironmentFacts>,
) -> (r: Freshness)
    ensures
        r == freshness_spec(*meta, current_hash@, *current, env_ref_view(current_environment)),
{
    if !str_eq(meta.content_hash.as_str(), current_hash) {
        return Freshness::StaleContent;
    }
    if !str_eq(meta.provenance.analyzer_version.as_str(), current.analyzer_version.as_str())
        || !str_eq(meta.provenance.analyzer_name.as_str(), current.analyzer_name.as_str()) {
        return Freshness::StaleVersion;
    }
    let same_environment = match (&meta.environment, current_environment) {
        (Some(a), Some(b)) => str_eq(a.interpreter.as_str(), b.interpreter.as_str()) && str_eq(
            a.version.as_str(),
            b.version.as_str(),
        ),
        (None, None) => true,
        _ => false,
    };
    if !same_environment {
        return Freshness::StaleEnvironment;
    }
    Freshness::Fresh
}

/// The SQLite `application_id` stamped into every store this system creates: the big-endian bytes
/// of the ASCII string `c10r`.
pub const APPLICATION_ID: i32 = 0x6331_3072;

/// How much of a candidate file's header the recognizer reads.
pub const HEADER_BYTES: usize = 100;

/// The byte offset of `application_id` in the SQLite file header.
pub const APPLICATION_ID_OFFSET: usize = 68;

/// What sits at a store path, decided from the file's header alone.
#[derive(Debug, Clone, Copy, PartialEq, Eq)]
pub enum StoreRecognition {
    /// No file exists at the path.
    Absent,
    /// A file exists, but it is not a store this system created.
    Unrecognized,
    /// A store carrying this system's ownership marker.
    Recognized,
}

/// The 16-byte magic every SQLite database file opens with: `SQLite format 3` and a NUL.
pub open spec fn sqlite_magic() -> Seq<u8> {
    seq![83u8, 81, 76, 105, 116, 101, 32, 102, 111, 114, 109, 97, 116, 32, 51, 0]
}

/// The big-endian bytes of [`APPLICATION_ID`]: `c`, `1`, `0`, `r`.
pub open spec fn application_id_bytes() -> Seq<u8> {
    seq![0x63u8, 0x31, 0x30, 0x72]
}

/// The ownership verdict on the bytes read from the start of a file: recognized when a full header
/// was read, it opens with the SQLite magic, and it carries this system's application id.
pub open spec fn header_verdict(header: Seq<u8>) -> StoreRecognition {
    if header.len() < HEADER_BYTES || header.take(16) != sqlite_magic() {
        StoreRecognition::Unrecognized
    } else if header.subrange(APPLICATION_ID_OFFSET as int, APPLICATION_ID_OFFSET + 4)
        == application_id_bytes() {
        StoreRecognition::Recognized
    } else {
        StoreRecognition::Unrecognized
    }
}

/// Decide what the bytes read from the start of a store file show: this system's own store, or a
/// file it did not create (not a database, truncated, or another application's database).
pub fn recognize_header(header: &[u8]) -> (r: StoreRecognition)
    ensures
        r == header_verdict(header@),
{
    if header.len() < HEADER_BYTES {
        return StoreRecognition::Unrecognized;
    }
    let magic: [u8; 16] = [83, 81, 76, 105, 116, 101, 32, 102, 111, 114, 109, 97, 116, 32, 51, 0];
    let mut i: usize = 0;
    while i < 16
        invariant
            i <= 16,
            header@.len() >= HEADER_BYTES,
            magic@ == sqlite_magic(),
            forall|j: int| 0 <= j < i ==> header@[j] == sqlite_magic()[j],
        decreases 16 - i,
    {
        if header[i] != magic[i] {
            assert(header@.take(16)[i as int] != sqlite_magic()[i as int]);
            return StoreRecognition::Unrecognized;
        }
        i = i + 1;
    }
    assert(header@.take(16) =~= sqlite_magic());
    let id = [0x63u8, 0x31, 0x30, 0x72];
    let o = APPLICATION_ID_OFFSET;
    if header[o] == id[0] && header[o + 1] == id[1] && header[o + 2] == id[2] && header[o + 3]
        == id[3] {
        assert(header@.subrange(o as int, o + 4) =~= application_id_bytes());
        StoreRecognition::Recognized
    } else {
        assert(header@.subrange(o as int, o + 4) != application_id_bytes()) by {
            let sub = header@.subrange(o as int, o + 4);
            if sub == application_id_bytes() {
                assert(sub[0] == header@[o as int]);
                assert(sub[1] == header@[o + 1]);
                assert(sub[2] == header@[o + 2]);
                assert(sub[3] == header@[o + 3]);
            }
        }
        StoreRecognition::Unrecognized
    }
}

/// The kinds of failure examining a store path can meet that shape the refusal's hint.
#[derive(Debug, Clone, Copy, PartialEq, Eq)]
pub enum ExamineFailure {
    /// The path names a directory.
    IsADirectory,
    /// The process lacks permission to read the path.
    PermissionDenied,
    /// Any other failure.
    Other,
}

/// What reading the start of a store path produced.
#[derive(Debug, Clone, PartialEq, Eq)]
pub enum HeaderRead {
    /// Nothing exists at the path.
    NotFound,
    /// The path could not be examined; the operating system's account of why.
    Failed {
        /// The kind of failure.
        kind: ExamineFailure,
        /// The operating system's message.
        message: String,
    },
    /// The bytes read from the start of the file, at most [`HEADER_BYTES`] of them.
    Read(Vec<u8>),
}

/// An error opening a graph store.
#[derive(Debug, Clone, PartialEq, Eq)]
pub enum StoreOpenError {
    /// A file sits at the store path that this system did not create.
    UnrecognizedStore {
        /// The refused file's path.
        path: String,
    },
    /// A path whose contents could not be examined at all.
    UnreadableStore {
        /// The unexaminable path.
        path: String,
        /// The operating system's account of the failure, plus a hint where needed.
        detail: String,
    },
    /// No file exists at the store path, and the operation does not create one.
    MissingStore {
        /// The empty path.
        path: String,
    },
    /// A file already occupies the path a new store is built at.
    StaleBuildFile {
        /// The occupying file's path.
        path: String,
    },
    /// The store was written under a different schema version than this system expects.
    SchemaVersionMismatch {
        /// The store's path.
        path: String,
        /// The version stamped in the store.
        found: i64,
        /// The version this system writes.
        expected: i64,
    },
    /// The underlying storage failed; its message.
    Storage(String),
    /// A filesystem operation on the store's own files failed; its message.
    Io(String),
}

/// The path `path` joined with `name`, as a Unix path join does for a relative `name`.
pub open spec fn path_join(path: Seq<char>, name: Seq<char>) -> Seq<char> {
    if path.len() == 0 || path.last() == '/' {
        path + name
    } else {
        path + seq!['/'] + name
    }
}

/// The hint a refusal adds for a path that could not be examined.
pub open spec fn unreadable_hint(path: Seq<char>, kind: ExamineFailure) -> Seq<char> {
    match kind {
        ExamineFailure::IsADirectory => "; `--db` wants the database file inside it, such as "@
            + path_join(path, "index.db"@),
        ExamineFailure::PermissionDenied => "; check the file's owner and permissions"@,
        ExamineFailure::Other => Seq::empty(),
    }
}

/// Build the refusal for a path whose contents could not be examined: the operating system's words,
/// plus a hint where those words do not imply the fix.
pub fn unreadable_store(path: &str, kind: ExamineFailure, message: &str) -> (r: StoreOpenError)
    ensures
        r matches StoreOpenError::UnreadableStore { path: p, detail } && p@ == path@ && detail@
            == message@ + unreadable_hint(path@, kind),
{
    let mut detail = String::new();
    push_str(&mut detail, message);
    match kind {
        ExamineFailure::IsADirectory => {
            let ghost lead = "; `--db` wants the database file inside it, such as "@;
            push_str(&mut detail, "; `--db` wants the database file inside it, such as ");
            push_str(&mut detail, path);
            let pc = chars_of(path);
            let slash = pc.len() > 0 && pc[pc.len() - 1] != '/';
            if slash {
                push_char(&mut detail, '/');
            }
            push_str(&mut detail, "index.db");
            proof {
                if slash {
                    assert(detail@ =~= message@ + (lead + (path@ + seq!['/'] + "index.db"@)));
                } else {
                    assert(detail@ =~= message@ + (lead + (path@ + "index.db"@)));
                }
            }
        },
        ExamineFailure::PermissionDenied => {
            push_str(&mut detail, "; check the file's owner and permissions");
        },
        ExamineFailure::Other => {
            assert(detail@ =~= message@ + Seq::<char>::empty());
        },
    }
    StoreOpenError::UnreadableStore { path: path.to_owned(), detail }
}

/// The recognizer's verdict on what reading a store path produced, with a failed examination
/// rendered as an unreadable-store refusal.
pub fn recognize_or_refuse(path: &str, read: &HeaderRead) -> (r: Result<
    StoreRecognition,
    StoreOpenError,
>)
    ensures
        read is NotFound ==> r == Ok::<StoreRecognition, StoreOpenError>(StoreRecognition::Absent),
        read matches HeaderRead::Read(bytes) ==> r == Ok::<StoreRecognition, StoreOpenError>(
            header_verdict(bytes@),
        ),
        read matches HeaderRead::Failed { kind, message } ==> r matches Err(
            StoreOpenError::UnreadableStore { path: p, detail },
        ) && p@ == path@ && detail@ == message@ + unreadable_hint(path@, *kind),
{
    match read {
        HeaderRead::NotFound => Ok(StoreRecognition::Absent),
        HeaderRead::Read(bytes) => Ok(recognize_header(bytes.as_slice())),
        HeaderRead::Failed { kind, message } => Err(
            unreadable_store(path, *kind, message.as_str()),
        ),
    }
}

/// The decimal rendering of a signed integer.
pub open spec fn signed_decimal(n: int) -> Seq<char> {
    if n < 0 {
        seq!['-'] + crate::text::decimal((-n) as nat)
    } else {
        crate::text::decimal(n as nat)
    }
}

/// Append the decimal rendering of a signed integer.
fn push_i64(s: &mut String, n: i64)
    ensures
        final(s)@ == old(s)@ + signed_decimal(n as int),
{
    if n < 0 {
        push_char(s, '-');
        let magnitude: u64 = if n == i64::MIN {
            9223372036854775808u64
        } else {
            (-n) as u64
        };
        crate::text::push_decimal(s, magnitude);
        assert(old(s)@ + seq!['-'] + crate::text::decimal(magnitude as nat) =~= old(s)@ + (seq![
            '-',
        ] + crate::text::decimal(magnitude as nat)));
    } else {
        crate::text::push_decimal(s, n as u64);
    }
}

/// The message a store-open refusal states.
pub open spec fn store_error_message(e: StoreOpenError) -> Seq<char> {
    match e {
        StoreOpenError::UnrecognizedStore { path } => path@
            + " is not a c10r index store. If this is an old c10r index, remove it and run `c10r build`; otherwise point `--db` elsewhere."@,
        StoreOpenError::UnreadableStore { path, detail } => "cannot read "@ + path@ + ": "@
            + detail@,
        StoreOpenError::MissingStore { path } => "no index store at "@ + path@
            + "; run `c10r build` to create one"@,
        StoreOpenError::StaleBuildFile { path } => "build file "@ + path@
            + " already exists. If this is a leftover from an interrupted c10r build, removing it is safe; otherwise point `--db` elsewhere."@,
        StoreOpenError::SchemaVersionMismatch { path, found, expected } => "index store at "@
            + path@ + " carries schema version "@ + signed_decimal(found as int)
            + ", but this binary expects version "@ + signed_decimal(expected as int)
            + "; run `c10r build` to rebuild it (or delete the file)"@,
        StoreOpenError::Storage(m) => "store error: "@ + m@,
        StoreOpenError::Io(m) => "index store file operation failed: "@ + m@,
    }
}

impl StoreOpenError {
    /// The refusal's message.
    pub fn message(&self) -> (r: String)
        ensures
            r@ == store_error_message(*self),
    {
        let mut s = String::new();
        match self {
            StoreOpenError::UnrecognizedStore { path } => {
                push_str(&mut s, path.as_str());
                push_str(
                    &mut s,
                    " is not a c10r index store. If this is an old c10r index, remove it and run `c10r build`; otherwise point `--db` elsewhere.",
                );
            },
            StoreOpenError::UnreadableStore { path, detail } => {
                push_str(&mut s, "cannot read ");
                push_str(&mut s, path.as_str());
                push_str(&mut s, ": ");
                push_str(&mut s, detail.as_str());
            },
            StoreOpenError::MissingStore { path } => {
                push_str(&mut s, "no index store at ");
                push_str(&mut s, path.as_str());
                push_str(&mut s, "; run `c10r build` to create one");
            },
            StoreOpenError::StaleBuildFile { path } => {
                push_str(&mut s, "build file ");
                push_str(&mut s, path.as_str());
                push_str(
                    &mut s,
                    " already exists. If this is a leftover from an interrupted c10r build, removing it is safe; otherwise point `--db` elsewhere.",
                );
            },
            StoreOpenError::SchemaVersionMismatch { path, found, expected } => {
                push_str(&mut s, "index store at ");
                push_str(&mut s, path.as_str());
                push_str(&mut s, " carries schema version ");
                push_i64(&mut s, *found);
                push_str(&mut s, ", but this binary expects version ");
                push_i64(&mut s, *expected);
                push_str(&mut s, "; run `c10r build` to rebuild it (or delete the file)");
            },
            StoreOpenError::Storage(m) => {
                push_str(&mut s, "store error: ");
                push_str(&mut s, m.as_str());
            },
            StoreOpenError::Io(m) => {
                push_str(&mut s, "index store file operation failed: ");
                push_str(&mut s, m.as_str());
            },
        }
        s
    }
}

/// Whether every character of `s` is an ASCII digit.
pub open spec fn digits_only(s: Seq<char>) -> bool {
    forall|k: int| 0 <= k < s.len() ==> crate::text::is_digit(#[trigger] s[k])
}

/// The descriptor base of an identity: the identity before a trailing `#<digits>` disambiguator
/// (at least one digit), or `None` when it carries none.
pub open spec fn disambiguator_base_of(id: Seq<char>) -> Option<Seq<char>> {
    match last_index_of(id, '#') {
        Some(h) => if h + 1 < id.len() && digits_only(id.skip(h + 1)) {
            Some(id.take(h))
        } else {
            None
        },
        None => None,
    }
}

/// The descriptor base of an identity, or `None` when it carries no disambiguator.
pub fn disambiguator_base(canonical_id: &str) -> (r: Option<String>)
    ensures
        r is Some <==> disambiguator_base_of(canonical_id@) is Some,
        r is Some ==> disambiguator_base_of(canonical_id@) == Some(r.unwrap()@),
{
    let cs = chars_of(canonical_id);
    let h = match last_index_of_exec(&cs, '#') {
        Some(h) => h,
        None => return None,
    };
    proof {
        lemma_last_index_in_bounds(cs@, '#');
    }
    let n = cs.len();
    if h + 1 >= n {
        return None;
    }
    let mut k = h + 1;
    while k < cs.len()
        invariant
            h < cs.len(),
            cs@ == canonical_id@,
            last_index_of(cs@, '#') == Some(h as int),
            h + 1 <= k <= cs.len(),
            forall|j: int| h + 1 <= j < k ==> crate::text::is_digit(cs@[j]),
        decreases cs.len() - k,
    {
        if !('0' <= cs[k] && cs[k] <= '9') {
            assert(cs@.skip(h + 1)[k - h - 1] == cs@[k as int]);
            assert(!crate::text::is_digit(cs@.skip(h + 1)[k - h - 1]));
            return None;
        }
        k = k + 1;
    }
    assert(cs@.subrange(0, h as int) =~= cs@.take(h as int));
    assert forall|j: int| 0 <= j < cs@.skip(h + 1).len() implies crate::text::is_digit(
        #[trigger] cs@.skip(h + 1)[j],
    ) by {
        assert(cs@.skip(h + 1)[j] == cs@[h + 1 + j]);
    }
    Some(string_of(&slice_to_vec(&cs, 0, h)))
}

proof fn lemma_last_index_in_bounds(s: Seq<char>, c: char)
    ensures
        last_index_of(s, c) matches Some(h) ==> 0 <= h < s.len(),
    decreases s.len(),
{
    if s.len() > 0 && s.last() != c {
        lemma_last_index_in_bounds(s.drop_last(), c);
    }
}

/// How many leading characters of `s` fit within `limit` bytes, counting from `k`.
pub open spec fn fitting_from(s: Seq<char>, limit: nat, k: int) -> int
    decreases s.len() - k,
{
    if k < 0 || k >= s.len() {
        k
    } else if bytes_len(s.take(k + 1)) <= limit {
        fitting_from(s, limit, k + 1)
    } else {
        k
    }
}

/// `s` truncated to its longest prefix of at most [`FOUND_TEXT_MAX_BYTES`] bytes ending on a
/// character boundary.
pub open spec fn truncated_text(s: Seq<char>) -> Seq<char> {
    s.take(fitting_from(s, FOUND_TEXT_MAX_BYTES as nat, 0))
}

/// Truncate `s` to at most [`FOUND_TEXT_MAX_BYTES`] bytes, cutting on a character boundary.
pub fn truncate_on_boundary(s: &str) -> (r: String)
    ensures
        r@ == truncated_text(s@),
{
    let cs = chars_of(s);
    let mut k: usize = 0;
    let mut used: usize = 0;
    assert(cs@.take(0) =~= Seq::<char>::empty());
    while k < cs.len() && used + utf8_width_of(cs[k]) <= FOUND_TEXT_MAX_BYTES
        invariant
            k <= cs.len(),
            used as nat == bytes_len(cs@.take(k as int)),
            used <= FOUND_TEXT_MAX_BYTES,
            fitting_from(cs@, FOUND_TEXT_MAX_BYTES as nat, 0) == fitting_from(
                cs@,
                FOUND_TEXT_MAX_BYTES as nat,
                k as int,
            ),
        decreases cs.len() - k,
    {
        assert(cs@.take(k + 1).drop_last() =~= cs@.take(k as int));
        used = used + utf8_width_of(cs[k]);
        k = k + 1;
    }
    proof {
        if k < cs.len() {
            assert(cs@.take(k + 1).drop_last() =~= cs@.take(k as int));
        }
    }
    assert(cs@.subrange(0, k as int) =~= cs@.take(k as int));
    string_of(&slice_to_vec(&cs, 0, k))
}

/// The tie-break position of a dependency edge kind tag; non-dependency tags sort last.
pub open spec fn kind_order_of(tag: Seq<char>) -> u8 {
    if tag == "uses"@ {
        0
    } else if tag == "imports"@ {
        1
    } else if tag == "type_hierarchy"@ {
        2
    } else {
        3
    }
}

/// The fixed order dependency edge kinds break ties by.
pub fn kind_order(tag: &str) -> (r: u8)
    ensures
        r == kind_order_of(tag@),
{
    if str_eq(tag, "uses") {
        0
    } else if str_eq(tag, "imports") {
        1
    } else if str_eq(tag, "type_hierarchy") {
        2
    } else {
        3
    }
}

/// A literal fragment with the LIKE wildcards `%` and `_` and the escape character `\` each
/// preceded by `\`.
pub open spec fn escaped_like(s: Seq<char>) -> Seq<char>
    decreases s.len(),
{
    if s.len() == 0 {
        Seq::empty()
    } else {
        let c = s.last();
        escaped_like(s.drop_last()) + if c == '\\' || c == '%' || c == '_' {
            seq!['\\', c]
        } else {
            seq![c]
        }
    }
}

/// Escape LIKE wildcards in a literal fragment, using `\` as the escape character.
pub fn escape_like(s: &str) -> (r: String)
    ensures
        r@ == escaped_like(s@),
{
    let cs = chars_of(s);
    let mut out = String::new();
    let mut k: usize = 0;
    assert(cs@.take(0) =~= Seq::<char>::empty());
    while k < cs.len()
        invariant
            k <= cs.len(),
            out@ == escaped_like(cs@.take(k as int)),
        decreases cs.len() - k,
    {
        let c = cs[k];
        let ghost before = out@;
        if c == '\\' || c == '%' || c == '_' {
            push_char(&mut out, '\\');
        }
        push_char(&mut out, c);
        proof {
            assert(cs@.take(k + 1).drop_last() =~= cs@.take(k as int));
            if c == '\\' || c == '%' || c == '_' {
                assert(out@ =~= before + seq!['\\', c]);
            } else {
                assert(out@ =~= before + seq![c]);
            }
        }
        k = k + 1;
    }
    assert(cs@.take(cs.len() as int) =~= cs@);
    out
}

/// The schema version this system writes: stamped into each store at creation and checked at open,
/// before any table is read. The index is derived, replayable data, so a rebuild is the migration.
pub const SCHEMA_VERSION: i64 = 14;

/// Check the schema version stamped in the store at `path`: a store written under another version
/// is refused with both versions named.
pub fn guard_version(path: &str, found: i64) -> (r: Result<(), StoreOpenError>)
    ensures
        found == SCHEMA_VERSION ==> r is Ok,
        found != SCHEMA_VERSION ==> (r matches Err(StoreOpenError::SchemaVersionMismatch { path: p, found: f, expected: e })
            && p@ == path@ && f == found && e == SCHEMA_VERSION),
{
    if found != SCHEMA_VERSION {
        let mut p = String::new();
        crate::text::push_str(&mut p, path);
        return Err(StoreOpenError::SchemaVersionMismatch { path: p, found, expected: SCHEMA_VERSION });
    }
    Ok(())
}

/// The positions below `n` of the identities whose descriptor base is `base`, ascending.
pub open spec fn base_members(ids: Seq<Seq<char>>, base: Seq<char>, n: int) -> Seq<int>
    decreases n,
{
    if n <= 0 {
        Seq::empty()
    } else if disambiguator_base_of(ids[n - 1]) == Some(base) {
        base_members(ids, base, n - 1).push(n - 1)
    } else {
        base_members(ids, base, n - 1)
    }
}

/// The duplicated-descriptor groups among persisted twins' identities: the identities sharing a
/// descriptor base (the identity without its `#<rank>` disambiguator), grouped by base in
/// ascending base order, each group's members in input order; a base carried by one identity alone
/// forms no group.
pub fn duplicated_groups(ids: &[CanonicalId]) -> (r: Vec<(String, Vec<usize>)>)
    ensures
        forall|k: int| 0 <= k < r@.len() ==> (#[trigger] r@[k]).1@.map_values(|i: usize| i as int) == base_members(
            ids@.map_values(|c: CanonicalId| c@),
            r@[k].0@,
            ids@.len() as int,
        ) && r@[k].1@.len() >= 2,
        forall|a: int, b: int| 0 <= a < b < r@.len() ==> crate::order::chars_lt((#[trigger] r@[a]).0@, (#[trigger] r@[b]).0@),
        forall|i: int|
            0 <= i < ids@.len() && (#[trigger] disambiguator_base_of(ids@[i]@)) is Some && base_members(
                ids@.map_values(|c: CanonicalId| c@),
                disambiguator_base_of(ids@[i]@).unwrap(),
                ids@.len() as int,
            ).len() >= 2 ==> exists|k: int| 0 <= k < r@.len() && (#[trigger] r@[k]).0@ == disambiguator_base_of(ids@[i]@).unwrap(),
{
    let ghost iv = ids@.map_values(|c: CanonicalId| c@);
    let mut set = crate::pairs::SourceSet::new();
    let mut i: usize = 0;
    while i < ids.len()
        invariant
            i <= ids.len(),
            iv == ids@.map_values(|c: CanonicalId| c@),
            set.well_formed(),
            forall|j: int| 0 <= j < i && disambiguator_base_of(iv[j]) is Some ==> #[trigger] set.view_map().dom().contains(
                disambiguator_base_of(iv[j]).unwrap(),
            ),
        decreases ids.len() - i,
    {
        assert(iv[i as int] == ids@[i as int]@);
        if let Some(b) = disambiguator_base(ids[i].as_str()) {
            set.insert(b, String::new());
        }
        i = i + 1;
    }
    let pairs = set.into_pairs();
    let ghost pv = crate::pairs::string_pairs_view(pairs@);
    let mut r: Vec<(String, Vec<usize>)> = Vec::new();
    let mut k: usize = 0;
    while k < pairs.len()
        invariant
            k <= pairs.len(),
            iv == ids@.map_values(|c: CanonicalId| c@),
            pv == crate::pairs::string_pairs_view(pairs@),
            crate::pairs::paths_ascending(pv),
            forall|j: int| 0 <= j < ids@.len() && disambiguator_base_of(iv[j]) is Some ==> #[trigger] crate::pairs::pairs_map(pv).dom().contains(
                disambiguator_base_of(iv[j]).unwrap(),
            ),
            forall|x: int| 0 <= x < r@.len() ==> (#[trigger] r@[x]).1@.map_values(|i: usize| i as int) == base_members(
                iv,
                r@[x].0@,
                ids@.len() as int,
            ) && r@[x].1@.len() >= 2,
            forall|x: int| 0 <= x < r@.len() ==> exists|y: int| 0 <= y < k && (#[trigger] r@[x]).0@ == pv[y].0,
            forall|a: int, b: int| 0 <= a < b < r@.len() ==> crate::order::chars_lt((#[trigger] r@[a]).0@, (#[trigger] r@[b]).0@),
            forall|y: int| 0 <= y < k && base_members(iv, #[trigger] pv[y].0, ids@.len() as int).len() >= 2 ==> exists|x: int|
                0 <= x < r@.len() && (#[trigger] r@[x]).0@ == pv[y].0,
        decreases pairs.len() - k,
    {
        let base = pairs[k].0.as_str();
        assert(pv[k as int].0 == base@);
        let mut members: Vec<usize> = Vec::new();
        let mut j: usize = 0;
        while j < ids.len()
            invariant
                j <= ids.len(),
                iv == ids@.map_values(|c: CanonicalId| c@),
                members@.map_values(|i: usize| i as int) == base_members(iv, base@, j as int),
            decreases ids.len() - j,
        {
            assert(iv[j as int] == ids@[j as int]@);
            let same = match disambiguator_base(ids[j].as_str()) {
                Some(b) => str_eq(b.as_str(), base),
                None => false,
            };
            if same {
                let ghost before = members@.map_values(|i: usize| i as int);
                members.push(j);
                assert(members@.map_values(|i: usize| i as int) =~= before.push(j as int));
            }
            j = j + 1;
        }
        if members.len() >= 2 {
            let mut owned = String::new();
            push_str(&mut owned, base);
            let ghost before = r@;
            r.push((owned, members));
            proof {
                assert forall|a: int, b: int| 0 <= a < b < r@.len() implies crate::order::chars_lt((#[trigger] r@[a]).0@, (#[trigger] r@[b]).0@) by {
                    assert(r@[a] == before[a]);
                    if b < before.len() {
                        assert(r@[b] == before[b]);
                    } else {
                        let y = choose|y: int| 0 <= y < k && before[a].0@ == pv[y].0;
                        assert(crate::order::chars_lt(pv[y].0, pv[k as int].0));
                    }
                }
                assert forall|x: int| 0 <= x < r@.len() implies exists|y: int| 0 <= y < k + 1 && (#[trigger] r@[x]).0@ == pv[y].0 by {
                    if x < before.len() {
                        assert(r@[x] == before[x]);
                        let y = choose|y: int| 0 <= y < k && before[x].0@ == pv[y].0;
                    } else {
                        assert(r@[x].0@ == pv[k as int].0);
                    }
                }
                assert forall|y: int| 0 <= y < k + 1 && base_members(iv, #[trigger] pv[y].0, ids@.len() as int).len() >= 2 implies exists|x: int|
                    0 <= x < r@.len() && (#[trigger] r@[x]).0@ == pv[y].0 by {
                    if y < k {
                        let x = choose|x: int| 0 <= x < before.len() && (#[trigger] before[x]).0@ == pv[y].0;
                        assert(r@[x] == before[x]);
                    } else {
                        assert(r@[before.len() as int].0@ == pv[y].0);
                    }
                }
                assert forall|x: int| 0 <= x < r@.len() implies (#[trigger] r@[x]).1@.map_values(|i: usize| i as int) == base_members(
                    iv,
                    r@[x].0@,
                    ids@.len() as int,
                ) && r@[x].1@.len() >= 2 by {
                    if x < before.len() {
                        assert(r@[x] == before[x]);
                    }
                }
            }
        }
        k = k + 1;
    }
    proof {
        assert forall|i: int|
            0 <= i < ids@.len() && (#[trigger] disambiguator_base_of(ids@[i]@)) is Some && base_members(
                iv,
                disambiguator_base_of(ids@[i]@).unwrap(),
                ids@.len() as int,
            ).len() >= 2 implies exists|x: int| 0 <= x < r@.len() && (#[trigger] r@[x]).0@ == disambiguator_base_of(ids@[i]@).unwrap() by {
            assert(iv[i] == ids@[i]@);
            let b = disambiguator_base_of(iv[i]).unwrap();
            assert(crate::pairs::pairs_map(pv).dom().contains(b));
            if forall|y: int| 0 <= y < pv.len() ==> pv[y].0 != b {
                crate::pairs::lemma_pairs_map_absent(pv, b);
            }
            let y = choose|y: int| 0 <= y < pv.len() && pv[y].0 == b;
            assert(base_members(iv, pv[y].0, ids@.len() as int).len() >= 2);
        }
    }
    r
}


/// Why an index is out of date, for every metadata value and every state in effect: a different
/// content hash makes it stale content; the same content under another analyzer name or version
/// makes it stale version, never fresh; the same content and analyzer under another declared
/// environment (absence included) makes it stale environment; and it is fresh exactly when the
/// content, the analyzer's name and version, and the environment all match.
pub proof fn lemma_freshness_reasons(
    meta: IndexMetadata,
    current_hash: Seq<char>,
    current: AnalyzerProvenance,
    current_environment: Option<(Seq<char>, Seq<char>)>,
)
    ensures
        meta.content_hash@ != current_hash ==> freshness_spec(meta, current_hash, current, current_environment)
            == Freshness::StaleContent,
        meta.content_hash@ == current_hash && meta.provenance.analyzer_version@ != current.analyzer_version@
            ==> freshness_spec(meta, current_hash, current, current_environment) == Freshness::StaleVersion,
        meta.content_hash@ == current_hash && meta.provenance.analyzer_name@ != current.analyzer_name@
            ==> freshness_spec(meta, current_hash, current, current_environment) == Freshness::StaleVersion,
        meta.content_hash@ == current_hash && meta.provenance.analyzer_version@ == current.analyzer_version@
            && meta.provenance.analyzer_name@ == current.analyzer_name@ && env_view(meta.environment) != current_environment
            ==> freshness_spec(meta, current_hash, current, current_environment) == Freshness::StaleEnvironment,
        (freshness_spec(meta, current_hash, current, current_environment) == Freshness::Fresh) <==> (meta.content_hash@
            == current_hash && meta.provenance.analyzer_version@ == current.analyzer_version@
            && meta.provenance.analyzer_name@ == current.analyzer_name@ && env_view(meta.environment)
            == current_environment),
{
}

} // verus!
