//! The command surface's decisions: source discovery rules, reverting a change set, language
//! selection, build and doctor reports, the post-commit hook script, and argument validation.

use vstd::prelude::*;
use vstd::string::StringSliceAdditionalSpecFns;

use crate::exit::Failure;
use crate::git::SeedMode;
use crate::graph::join::{aligned_sum, bucket, rule_tag, rule_vocabulary, AlignmentRule, JoinAccounting};
use crate::graph::syntax::Language;
use crate::digest::{hex_of, hex_sha256, sha256_of};
use crate::pairs::{pairs_map, paths_ascending, string_pairs_view, SourceSet};
use crate::query::{opt_path, relation_view, FileChange, WorkspaceRelation};
use crate::render::{padded, push_padded, sanitize, sanitized};
use crate::graph::chunk::{ChunkParams, MIN_CHUNK_SIZE};
use crate::graph::store::{
    header_verdict, unreadable_hint, ExamineFailure, env_ref_view, freshness_of, freshness_spec, recognize_or_refuse, Freshness, HeaderRead, IndexMetadata,
    StoreOpenError, StoreRecognition,
};
use crate::identity::WorkspaceId;
use crate::model::{AnalyzerProvenance, EnvironmentFacts};
use crate::text::{
    chars_of, decimal, join_strings, opt_chars, parse_usize, parsed_usize, join_with, last_index_of, last_index_of_exec, push_char,
    push_decimal, push_str, slice_to_vec, split_on, split_pieces, str_eq, string_of, strings_view,
    vecs_view,
};

verus! {

/// The extension and skipped directory names source discovery walks with for `language`.
pub open spec fn discovery_extension(language: Language) -> Seq<char> {
    match language {
        Language::Rust => "rs"@,
        Language::Python => "py"@,
    }
}

/// The directory name source discovery skips for `language`, besides hidden directories.
pub open spec fn discovery_skip_dir(language: Language) -> Seq<char> {
    match language {
        Language::Rust => "target"@,
        Language::Python => "venv"@,
    }
}

/// The file extension and skipped top-level-name directories source discovery walks with for
/// `language`.
pub fn language_discovery_rules(language: Language) -> (r: (&'static str, Vec<&'static str>))
    ensures
        r.0@ == discovery_extension(language),
        r.1@.len() == 1,
        r.1@[0]@ == discovery_skip_dir(language),
{
    let mut skip: Vec<&'static str> = Vec::new();
    match language {
        Language::Rust => {
            skip.push("target");
            ("rs", skip)
        },
        Language::Python => {
            skip.push("venv");
            ("py", skip)
        },
    }
}

/// `s` without its trailing `/` characters.
pub open spec fn trim_trailing_slashes(s: Seq<char>) -> Seq<char>
    decreases s.len(),
{
    if s.len() > 0 && s.last() == '/' {
        trim_trailing_slashes(s.drop_last())
    } else {
        s
    }
}

/// The final component of a path: what follows the last `/` once trailing slashes are removed.
pub open spec fn file_name_of(path: Seq<char>) -> Seq<char> {
    let t = trim_trailing_slashes(path);
    match last_index_of(t, '/') {
        Some(i) => t.skip(i + 1),
        None => t,
    }
}

/// A file name's extension: what follows its last `.`, unless it has no `.` or its only `.` is
/// its first character.
pub open spec fn extension_of(name: Seq<char>) -> Option<Seq<char>> {
    match last_index_of(name, '.') {
        Some(i) => if i == 0 {
            None
        } else {
            Some(name.skip(i + 1))
        },
        None => None,
    }
}

/// Whether a directory component clears discovery: not hidden and not the skipped directory.
pub open spec fn directory_clears(dir: Seq<char>, language: Language) -> bool {
    !(dir.len() > 0 && dir[0] == '.') && dir != discovery_skip_dir(language)
}

/// Whether source discovery walks into a directory named `name`: it is not hidden and not the
/// language's skipped directory.
pub fn directory_is_walked(name: &str, language: Language) -> (r: bool)
    ensures
        r == directory_clears(name@, language),
{
    let cs = chars_of(name);
    if cs.len() > 0 && cs[0] == '.' {
        return false;
    }
    let (_, skip) = language_discovery_rules(language);
    !str_eq(name, skip[0])
}

/// Whether source discovery would collect `path`: its extension is the language's, and every
/// directory component clears discovery.
pub open spec fn discovered(path: Seq<char>, language: Language) -> bool {
    let dirs = split_pieces(path, seq!['/']).drop_last();
    &&& extension_of(file_name_of(path)) == Some(discovery_extension(language))
    &&& forall|k: int| 0 <= k < dirs.len() ==> directory_clears(#[trigger] dirs[k], language)
}

/// The last index of `c` in `s` lies within `s` and holds `c`.
proof fn lemma_last_index_of_in(s: Seq<char>, c: char)
    ensures
        last_index_of(s, c) matches Some(i) ==> 0 <= i < s.len() && s[i] == c,
    decreases s.len(),
{
    if s.len() > 0 && s.last() != c {
        lemma_last_index_of_in(s.drop_last(), c);
    }
}

/// The final component of a path.
fn file_name(path: &[char]) -> (r: Vec<char>)
    ensures
        r@ == file_name_of(path@),
{
    let mut end = path.len();
    assert(path@.take(path.len() as int) =~= path@);
    while end > 0 && path[end - 1] == '/'
        invariant
            end <= path.len(),
            trim_trailing_slashes(path@) == trim_trailing_slashes(path@.take(end as int)),
        decreases end,
    {
        assert(path@.take(end as int).drop_last() =~= path@.take(end - 1));
        end = end - 1;
    }
    let t = slice_to_vec(path, 0, end);
    assert(t@ =~= path@.take(end as int));
    proof {
        if end > 0 {
            assert(path@.take(end as int).last() == path@[end - 1]);
        }
    }
    match last_index_of_exec(&t, '/') {
        Some(i) => {
            proof {
                lemma_last_index_of_in(t@, '/');
            }
            let r = slice_to_vec(&t, i + 1, t.len());
            assert(r@ =~= t@.skip(i + 1));
            r
        },
        None => t,
    }
}

/// Whether source discovery would have collected `path` — the same extension and skipped-directory
/// rules the walk applies, applied to a path.
pub fn is_discovered_path(path: &str, language: Language) -> (r: bool)
    ensures
        r == discovered(path@, language),
{
    let (extension, skip_dirs) = language_discovery_rules(language);
    let pc = chars_of(path);
    let name = file_name(&pc);
    let ext_ok = match last_index_of_exec(&name, '.') {
        Some(i) => {
            proof {
                lemma_last_index_of_in(name@, '.');
            }
            if i == 0 {
                false
            } else {
                let e = slice_to_vec(&name, i + 1, name.len());
                assert(e@ =~= name@.skip(i + 1));
                let ec = chars_of(extension);
                crate::text::chars_eq(&e, &ec)
            }
        },
        None => false,
    };
    if !ext_ok {
        return false;
    }
    assert(pc@ == path@);
    let mut slash: Vec<char> = Vec::new();
    slash.push('/');
    assert(slash@ =~= seq!['/']);
    let parts = split_on(&pc, &slash);
    proof {
        crate::text::lemma_split_pieces_nonempty(pc@, slash@);
    }
    let ghost dirs = vecs_view(parts@).drop_last();
    let count = if parts.len() > 0 {
        parts.len() - 1
    } else {
        0
    };
    let skip = skip_dirs[0];
    let mut k: usize = 0;
    while k < count
        invariant
            dirs == vecs_view(parts@).drop_last(),
            vecs_view(parts@) == split_pieces(path@, seq!['/']),
            extension_of(file_name_of(path@)) == Some(discovery_extension(language)),
            parts.len() == dirs.len() + 1,
            count == dirs.len(),
            skip@ == discovery_skip_dir(language),
            k <= count,
            forall|j: int| 0 <= j < k ==> directory_clears(#[trigger] dirs[j], language),
        decreases count - k,
    {
        let d = &parts[k];
        assert(dirs[k as int] == d@);
        let hidden = d.len() > 0 && d[0] == '.';
        let sc = chars_of(skip);
        let skipped = crate::text::chars_eq(d, &sc);
        if hidden || skipped {
            assert(!directory_clears(dirs[k as int], language));
            return false;
        }
        assert(directory_clears(dirs[k as int], language));
        k = k + 1;
    }
    true
}

/// Undo one change on a path-to-text map: the post-change path is dropped when it differs from the
/// pre-change path, and the pre-change text is restored at the pre-change path when discovery would
/// have collected that path and its text is known.
pub open spec fn revert_one(
    m: Map<Seq<char>, Seq<char>>,
    change: FileChange,
    pre: Map<Seq<char>, Seq<char>>,
    language: Language,
) -> Map<Seq<char>, Seq<char>> {
    let dropped = match change.post_path {
        Some(post) => if opt_path(change.pre_path) != Some(post@) {
            m.remove(post@)
        } else {
            m
        },
        None => m,
    };
    match change.pre_path {
        Some(p) => if discovered(p@, language) && pre.dom().contains(p@) {
            dropped.insert(p@, pre[p@])
        } else {
            dropped
        },
        None => dropped,
    }
}

/// Undo every change, in order.
pub open spec fn revert_all(
    m: Map<Seq<char>, Seq<char>>,
    changes: Seq<FileChange>,
    pre: Map<Seq<char>, Seq<char>>,
    language: Language,
) -> Map<Seq<char>, Seq<char>>
    decreases changes.len(),
{
    if changes.len() == 0 {
        m
    } else {
        revert_one(revert_all(m, changes.drop_last(), pre, language), changes.last(), pre, language)
    }
}

/// The pre-change source set: `sources` with every change in `changes` undone, given the
/// pre-change text of the paths the changes touched (`pre_contents`, a later pair for a path
/// replacing an earlier one). A modified file takes its pre-change text, an added file is dropped,
/// a deleted file is restored, and a renamed file is restored at its pre-change path; a pre-change
/// path discovery would not collect is not restored. The result is in ascending path order.
pub fn revert_changes(
    sources: &[(String, String)],
    changes: &[FileChange],
    pre_contents: &[(String, String)],
    language: Language,
) -> (r: Vec<(String, String)>)
    ensures
        paths_ascending(string_pairs_view(r@)),
        pairs_map(string_pairs_view(r@)) == revert_all(
            pairs_map(string_pairs_view(sources@)),
            changes@,
            pairs_map(string_pairs_view(pre_contents@)),
            language,
        ),
{
    let mut set = SourceSet::from_pairs(sources);
    let pre = SourceSet::from_pairs(pre_contents);
    let ghost start = set.view_map();
    let mut k: usize = 0;
    while k < changes.len()
        invariant
            k <= changes.len(),
            set.well_formed(),
            pre.well_formed(),
            pre.view_map() == pairs_map(string_pairs_view(pre_contents@)),
            set.view_map() == revert_all(start, changes@.take(k as int), pre.view_map(), language),
        decreases changes.len() - k,
    {
        let change = &changes[k];
        let ghost before = set.view_map();
        match &change.post_path {
            Some(post) => {
                let same = match &change.pre_path {
                    Some(p) => str_eq(p.as_str(), post.as_str()),
                    None => false,
                };
                if !same {
                    set.remove(post.as_str());
                }
            },
            None => {},
        }
        match &change.pre_path {
            Some(p) => {
                if is_discovered_path(p.as_str(), language) {
                    match pre.get(p.as_str()) {
                        Some(content) => {
                            set.insert(p.clone(), content);
                        },
                        None => {},
                    }
                }
            },
            None => {},
        }
        proof {
            assert(changes@.take(k + 1).drop_last() =~= changes@.take(k as int));
            assert(changes@.take(k + 1).last() == changes@[k as int]);
            assert(set.view_map() =~= revert_one(before, changes@[k as int], pre.view_map(), language));
        }
        k = k + 1;
    }
    assert(changes@.take(changes.len() as int) =~= changes@);
    set.into_pairs()
}

/// Whether a change names `path` on either side.
pub open spec fn change_touches(change: FileChange, path: Seq<char>) -> bool {
    opt_path(change.pre_path) == Some(path) || opt_path(change.post_path) == Some(path)
}

/// Reverting one change undoes exactly what it did: a path the change moved away from or added is
/// dropped, a discoverable pre-change path whose text is known takes that text, and every path the
/// change does not name keeps its text.
pub proof fn lemma_revert_one_undoes(
    m: Map<Seq<char>, Seq<char>>,
    change: FileChange,
    pre: Map<Seq<char>, Seq<char>>,
    language: Language,
)
    ensures
        change.pre_path is Some && discovered(change.pre_path.unwrap()@, language) && pre.dom().contains(
            change.pre_path.unwrap()@,
        ) ==> revert_one(m, change, pre, language).dom().contains(change.pre_path.unwrap()@)
            && revert_one(m, change, pre, language)[change.pre_path.unwrap()@]
            == pre[change.pre_path.unwrap()@],
        change.post_path is Some && opt_path(change.pre_path) != Some(change.post_path.unwrap()@)
            ==> !revert_one(m, change, pre, language).dom().contains(change.post_path.unwrap()@),
        forall|k: Seq<char>|
            !change_touches(change, k) ==> (#[trigger] revert_one(m, change, pre, language).dom().contains(k)
                <==> m.dom().contains(k)) && (m.dom().contains(k) ==> revert_one(
                m,
                change,
                pre,
                language,
            )[k] == m[k]),
{
}

/// Reverting a change set leaves the text of every path no change names as it was.
pub proof fn lemma_revert_all_keeps_untouched(
    m: Map<Seq<char>, Seq<char>>,
    changes: Seq<FileChange>,
    pre: Map<Seq<char>, Seq<char>>,
    language: Language,
    path: Seq<char>,
)
    requires
        forall|i: int| 0 <= i < changes.len() ==> !change_touches(#[trigger] changes[i], path),
    ensures
        revert_all(m, changes, pre, language).dom().contains(path) <==> m.dom().contains(path),
        m.dom().contains(path) ==> revert_all(m, changes, pre, language)[path] == m[path],
    decreases changes.len(),
{
    if changes.len() > 0 {
        let d = changes.drop_last();
        assert forall|i: int| 0 <= i < d.len() implies !change_touches(#[trigger] d[i], path) by {
            assert(d[i] == changes[i]);
        }
        lemma_revert_all_keeps_untouched(m, d, pre, language, path);
        assert(!change_touches(changes.last(), path));
    }
}

/// The language a build selects: an explicit selection, else the one manifest present, else none.
pub open spec fn detected_language(
    explicit: Option<Language>,
    cargo_manifest: bool,
    python_manifest: bool,
) -> Option<Language> {
    match explicit {
        Some(l) => Some(l),
        None => if cargo_manifest && !python_manifest {
            Some(Language::Rust)
        } else if python_manifest && !cargo_manifest {
            Some(Language::Python)
        } else {
            None
        },
    }
}

/// The refusal when both project manifests are present and no language was selected.
pub open spec fn both_manifests_message(root: Seq<char>) -> Seq<char> {
    "both Cargo.toml and pyproject.toml are present in "@ + root
        + "; pass --language rust|python to select the backend"@
}

/// The refusal when neither project manifest is present and no language was selected.
pub open spec fn no_manifest_message(root: Seq<char>) -> Seq<char> {
    "no supported project was detected in "@ + root
        + " (no Cargo.toml or pyproject.toml); pass --language rust|python to select a backend explicitly"@
}

/// Select the language backend for a build: an explicit selection overrides detection outright;
/// otherwise a `Cargo.toml` at the workspace root (`cargo_manifest`) marks Rust and a
/// `pyproject.toml` (`python_manifest`) marks Python. Both manifests, or neither, without a
/// selection refuse with a message naming `root`.
pub fn detect_language(
    explicit: Option<Language>,
    cargo_manifest: bool,
    python_manifest: bool,
    root: &str,
) -> (r: Result<Language, String>)
    ensures
        match r {
            Ok(l) => detected_language(explicit, cargo_manifest, python_manifest) == Some(l),
            Err(m) => detected_language(explicit, cargo_manifest, python_manifest) is None && m@ == (
            if cargo_manifest {
                both_manifests_message(root@)
            } else {
                no_manifest_message(root@)
            }),
        },
{
    if let Some(language) = explicit {
        return Ok(language);
    }
    if cargo_manifest && !python_manifest {
        Ok(Language::Rust)
    } else if python_manifest && !cargo_manifest {
        Ok(Language::Python)
    } else if cargo_manifest {
        let mut m = String::new();
        push_str(&mut m, "both Cargo.toml and pyproject.toml are present in ");
        push_str(&mut m, root);
        push_str(&mut m, "; pass --language rust|python to select the backend");
        Err(m)
    } else {
        let mut m = String::new();
        push_str(&mut m, "no supported project was detected in ");
        push_str(&mut m, root);
        push_str(
            &mut m,
            " (no Cargo.toml or pyproject.toml); pass --language rust|python to select a backend explicitly",
        );
        Err(m)
    }
}

/// The outcome of a build request: the workspace was analyzed and the store rewritten, or the store
/// already described the workspace and nothing was analyzed or written. Both carry an accounting:
/// the fresh one, or the one the current store recorded.
#[derive(Debug, Clone, Copy, PartialEq, Eq)]
pub enum BuildOutcome {
    /// The workspace was analyzed and the store rebuilt.
    Rebuilt(JoinAccounting),
    /// The stored index already described the workspace's sources, analyzer, and environment.
    AlreadyCurrent(JoinAccounting),
}

impl BuildOutcome {
    /// The join accounting the build produced, or the one the current store already recorded.
    pub fn accounting(&self) -> (r: JoinAccounting)
        ensures
            r == match *self {
                BuildOutcome::Rebuilt(a) => a,
                BuildOutcome::AlreadyCurrent(a) => a,
            },
    {
        match self {
            BuildOutcome::Rebuilt(a) => *a,
            BuildOutcome::AlreadyCurrent(a) => *a,
        }
    }

    /// Whether the workspace was analyzed and the store rewritten.
    pub fn rebuilt(&self) -> (r: bool)
        ensures
            r == (*self is Rebuilt),
    {
        match self {
            BuildOutcome::Rebuilt(_) => true,
            BuildOutcome::AlreadyCurrent(_) => false,
        }
    }
}

/// One rule's bucket as `tag=count`.
pub open spec fn bucket_text(a: JoinAccounting, rule: AlignmentRule) -> Seq<char> {
    rule_tag(rule) + "="@ + decimal(bucket(a, rule) as nat)
}

/// Every rule's bucket, in vocabulary order, separated by spaces.
pub open spec fn buckets_text(a: JoinAccounting) -> Seq<char> {
    join_with(rule_vocabulary().map_values(|rule: AlignmentRule| bucket_text(a, rule)), " "@)
}

/// The one-line build accounting summary.
pub open spec fn accounting_line(a: JoinAccounting) -> Seq<char> {
    "built: aligned="@ + decimal(aligned_sum(a) as nat) + " ("@ + buckets_text(a)
        + ") text_mismatch="@ + decimal(a.text_mismatch as nat) + " semantic_only="@ + decimal(
        a.semantic_only as nat,
    ) + " duplicate_ambiguous="@ + decimal(a.duplicate_ambiguous as nat) + " syntax_only="@
        + decimal(a.syntax_only as nat)
}

/// The one-line `build` accounting summary: every per-rule acceptance bucket inside the parentheses
/// (their sum is the `aligned=` total), followed by the refusal and syntax-only counts.
pub fn build_accounting_line(accounting: &JoinAccounting) -> (r: String)
    requires
        aligned_sum(*accounting) <= u64::MAX,
    ensures
        r@ == accounting_line(*accounting),
{
    let rules = accounting.by_rule();
    let ghost expected = rule_vocabulary().map_values(|rule: AlignmentRule| bucket_text(*accounting, rule));
    let mut parts: Vec<String> = Vec::new();
    let mut k: usize = 0;
    while k < rules.len()
        invariant
            k <= rules.len(),
            rules@.len() == rule_vocabulary().len(),
            forall|i: int|
                0 <= i < rules@.len() ==> (#[trigger] rules@[i]).0 == rule_vocabulary()[i] && rules@[i].1
                    == bucket(*accounting, rule_vocabulary()[i]),
            expected == rule_vocabulary().map_values(|rule: AlignmentRule| bucket_text(*accounting, rule)),
            strings_view(parts@) == expected.take(k as int),
        decreases rules.len() - k,
    {
        let (rule, count) = rules[k];
        let mut part = String::new();
        push_str(&mut part, rule.tag());
        push_char(&mut part, '=');
        push_decimal(&mut part, count);
        proof {
            reveal_strlit("=");
            assert(rules@[k as int].0 == rule_vocabulary()[k as int]);
            assert(part@ =~= bucket_text(*accounting, rule));
            assert(expected[k as int] == bucket_text(*accounting, rule));
        }
        let ghost old_parts = parts@;
        let ghost part_view = part@;
        parts.push(part);
        proof {
            assert(strings_view(old_parts).len() == k);
            assert(strings_view(parts@) =~= strings_view(old_parts).push(part_view));
            assert(strings_view(parts@) =~= expected.take(k + 1));
        }
        k = k + 1;
    }
    assert(expected.take(rules.len() as int) =~= expected);
    let buckets = join_strings(&parts, ' ');
    assert(seq![' '] =~= " "@) by {
        reveal_strlit(" ");
    }
    let mut line = String::new();
    push_str(&mut line, "built: aligned=");
    push_decimal(&mut line, accounting.aligned_total());
    push_str(&mut line, " (");
    push_str(&mut line, buckets.as_str());
    push_str(&mut line, ") text_mismatch=");
    push_decimal(&mut line, accounting.text_mismatch);
    push_str(&mut line, " semantic_only=");
    push_decimal(&mut line, accounting.semantic_only);
    push_str(&mut line, " duplicate_ambiguous=");
    push_decimal(&mut line, accounting.duplicate_ambiguous);
    push_str(&mut line, " syntax_only=");
    push_decimal(&mut line, accounting.syntax_only);
    line
}

/// The statement a build makes when the stored index already described the workspace.
pub open spec fn already_current_text() -> Seq<char> {
    "already current: sources, analyzer, and environment match the stored index; nothing built (use --force to build anyway)"@
}

/// The human `build` answer: the accounting line for a build that ran, or a statement that the
/// stored index already described the workspace and nothing was analyzed.
pub fn build_outcome_line(outcome: &BuildOutcome) -> (r: String)
    requires
        *outcome matches BuildOutcome::Rebuilt(a) ==> aligned_sum(a) <= u64::MAX,
    ensures
        r@ == match *outcome {
            BuildOutcome::Rebuilt(a) => accounting_line(a),
            BuildOutcome::AlreadyCurrent(_) => already_current_text(),
        },
{
    match outcome {
        BuildOutcome::Rebuilt(accounting) => build_accounting_line(accounting),
        BuildOutcome::AlreadyCurrent(_) => {
            let mut s = String::new();
            push_str(
                &mut s,
                "already current: sources, analyzer, and environment match the stored index; nothing built (use --force to build anyway)",
            );
            s
        },
    }
}

/// The readiness of one required indexer, as `doctor` reports it: found and answering, not found,
/// or found but silent within the probe deadline.
#[derive(Debug, Clone, Copy, PartialEq, Eq)]
pub enum Presence {
    /// The indexer was found and answered the readiness probe.
    Present,
    /// The indexer was not found (or could not be spawned).
    Absent,
    /// The indexer was found but did not answer within the bounded deadline.
    Unresponsive,
}

/// One required indexer's readiness, as `doctor` reports it.
#[derive(Debug, Clone, PartialEq, Eq)]
pub struct IndexerStatus {
    /// The indexer's name.
    pub name: String,
    /// Whether the indexer is present, absent, or present but unresponsive.
    pub presence: Presence,
    /// The indexer's version, when present.
    pub version: Option<String>,
    /// An install hint when absent, or an investigation hint when unresponsive.
    pub hint: Option<String>,
}

impl IndexerStatus {
    /// Whether this indexer is ready: found and responsive.
    pub fn is_ready(&self) -> (r: bool)
        ensures
            r == (self.presence == Presence::Present),
    {
        match self.presence {
            Presence::Present => true,
            _ => false,
        }
    }
}

/// How a readiness probe of an indexer ended.
#[derive(Debug, Clone, PartialEq, Eq)]
pub enum ProbeReport {
    /// The indexer answered with its version.
    Answered(String),
    /// The indexer was found but did not answer within the deadline.
    TimedOut,
    /// The indexer could not be run for any other reason.
    Failed,
}

/// An indexer status as plain values: name, presence, version, hint.
pub open spec fn status_view(s: IndexerStatus) -> (Seq<char>, Presence, Option<Seq<char>>, Option<Seq<char>>) {
    (s.name@, s.presence, opt_path(s.version), opt_path(s.hint))
}

/// The hint an unresponsive indexer carries.
pub open spec fn unresponsive_hint(deadline_secs: u64) -> Seq<char> {
    "found but did not respond within "@ + decimal(deadline_secs as nat)
        + "s; check for a stuck process or a slow filesystem"@
}

/// The status a probe of the indexer `name` yields: present with its version, unresponsive with an
/// investigation hint, or absent with `install_hint`.
pub open spec fn probed_status(
    name: Seq<char>,
    probe: ProbeReport,
    install_hint: Seq<char>,
    deadline_secs: u64,
) -> (Seq<char>, Presence, Option<Seq<char>>, Option<Seq<char>>) {
    match probe {
        ProbeReport::Answered(v) => (name, Presence::Present, Some(v@), None),
        ProbeReport::TimedOut => (name, Presence::Unresponsive, None, Some(unresponsive_hint(deadline_secs))),
        ProbeReport::Failed => (name, Presence::Absent, None, Some(install_hint)),
    }
}

/// A present indexer's status, carrying its version and no hint.
fn present_status(name: &str, version: String) -> (r: IndexerStatus)
    ensures
        status_view(r) == (name@, Presence::Present, Some(version@), None::<Seq<char>>),
{
    let mut n = String::new();
    push_str(&mut n, name);
    IndexerStatus { name: n, presence: Presence::Present, version: Some(version), hint: None }
}

/// An absent indexer's status, carrying the hint that says how to obtain it.
fn absent_status(name: &str, install_hint: &str) -> (r: IndexerStatus)
    ensures
        status_view(r) == (name@, Presence::Absent, None::<Seq<char>>, Some(install_hint@)),
{
    let mut n = String::new();
    push_str(&mut n, name);
    let mut h = String::new();
    push_str(&mut h, install_hint);
    IndexerStatus { name: n, presence: Presence::Absent, version: None, hint: Some(h) }
}

/// An unresponsive indexer's status, carrying an investigation hint.
fn unresponsive_status(name: &str, deadline_secs: u64) -> (r: IndexerStatus)
    ensures
        status_view(r) == (name@, Presence::Unresponsive, None::<Seq<char>>, Some(
            unresponsive_hint(deadline_secs),
        )),
{
    let mut n = String::new();
    push_str(&mut n, name);
    let mut h = String::new();
    push_str(&mut h, "found but did not respond within ");
    push_decimal(&mut h, deadline_secs);
    push_str(&mut h, "s; check for a stuck process or a slow filesystem");
    IndexerStatus { name: n, presence: Presence::Unresponsive, version: None, hint: Some(h) }
}

/// The status for one probe.
fn status_of_probe(name: &str, probe: ProbeReport, install_hint: &str, deadline_secs: u64) -> (r: IndexerStatus)
    ensures
        status_view(r) == probed_status(name@, probe, install_hint@, deadline_secs),
{
    match probe {
        ProbeReport::Answered(version) => present_status(name, version),
        ProbeReport::TimedOut => unresponsive_status(name, deadline_secs),
        ProbeReport::Failed => absent_status(name, install_hint),
    }
}

/// `doctor`: the readiness of each required indexer, given how its probe ended. Both indexers are
/// reported whatever the workspace's language; a tool that could not be run for any reason reports
/// absent with an install hint.
pub fn run_doctor(rust_analyzer: ProbeReport, scip_python: ProbeReport, deadline_secs: u64) -> (r: Vec<
    IndexerStatus,
>)
    ensures
        r@.len() == 2,
        status_view(r@[0]) == probed_status(
            "rust-analyzer"@,
            rust_analyzer,
            "install: rustup component add rust-analyzer"@,
            deadline_secs,
        ),
        status_view(r@[1]) == probed_status(
            "scip-python"@,
            scip_python,
            "install: npm install -g @sourcegraph/scip-python"@,
            deadline_secs,
        ),
{
    let a = status_of_probe(
        "rust-analyzer",
        rust_analyzer,
        "install: rustup component add rust-analyzer",
        deadline_secs,
    );
    let b = status_of_probe(
        "scip-python",
        scip_python,
        "install: npm install -g @sourcegraph/scip-python",
        deadline_secs,
    );
    let mut r: Vec<IndexerStatus> = Vec::new();
    r.push(a);
    r.push(b);
    r
}

/// The status word of a presence.
pub open spec fn presence_word(p: Presence) -> Seq<char> {
    match p {
        Presence::Present => "present"@,
        Presence::Absent => "absent"@,
        Presence::Unresponsive => "unresponsive"@,
    }
}

/// What a status line shows after the status word: the version when present, the hint otherwise.
pub open spec fn status_detail(s: IndexerStatus) -> Seq<char> {
    let o = match s.presence {
        Presence::Present => opt_path(s.version),
        _ => opt_path(s.hint),
    };
    match o {
        Some(d) => d,
        None => Seq::empty(),
    }
}

/// One `doctor` line: the sanitized name in a 15-column field, the status word in a 13-column
/// field, then the sanitized detail.
pub open spec fn doctor_line(s: IndexerStatus) -> Seq<char> {
    padded(sanitized(s.name@), 15) + padded(presence_word(s.presence), 13) + sanitized(status_detail(s))
}

/// The fixed-width human rendering of a `doctor` report: one line per indexer. The name and the
/// version or hint are sanitized, since the version comes from the probed tool's own output.
pub fn render_doctor_report(statuses: &[IndexerStatus]) -> (r: String)
    ensures
        r@ == join_with(statuses@.map_values(|s: IndexerStatus| doctor_line(s)), "\n"@),
{
    let ghost lines = statuses@.map_values(|s: IndexerStatus| doctor_line(s));
    let mut parts: Vec<String> = Vec::new();
    let mut k: usize = 0;
    while k < statuses.len()
        invariant
            k <= statuses.len(),
            lines == statuses@.map_values(|s: IndexerStatus| doctor_line(s)),
            strings_view(parts@) == lines.take(k as int),
        decreases statuses.len() - k,
    {
        let s = &statuses[k];
        let name = sanitize(s.name.as_str());
        let (word, detail): (&str, &str) = match s.presence {
            Presence::Present => ("present", match &s.version {
                Some(v) => v.as_str(),
                None => "",
            }),
            Presence::Absent => ("absent", match &s.hint {
                Some(h) => h.as_str(),
                None => "",
            }),
            Presence::Unresponsive => ("unresponsive", match &s.hint {
                Some(h) => h.as_str(),
                None => "",
            }),
        };
        proof {
            reveal_strlit("");
        }
        let shown = sanitize(detail);
        let mut line = String::new();
        push_padded(&mut line, name.as_str(), 15);
        push_padded(&mut line, word, 13);
        push_str(&mut line, shown.as_str());
        proof {
            assert(detail@ == status_detail(*s));
            assert(line@ =~= doctor_line(*s));
        }
        let ghost old_parts = parts@;
        let ghost line_view = line@;
        parts.push(line);
        proof {
            assert(strings_view(old_parts).len() == k);
            assert(strings_view(parts@) =~= strings_view(old_parts).push(line_view));
            assert(strings_view(parts@) =~= lines.take(k + 1));
        }
        k = k + 1;
    }
    assert(lines.take(statuses.len() as int) =~= lines);
    assert(seq!['\n'] =~= "\n"@) by {
        reveal_strlit("\n");
    }
    join_strings(&parts, '\n')
}

/// Why a pair of chunk parameters is refused, if it is: a chunk size under the minimum leaves no
/// room for content beside a header, and an overlap must be smaller than the chunk size.
pub open spec fn chunk_params_refusal(p: ChunkParams) -> Option<Seq<char>> {
    if p.chunk_size < MIN_CHUNK_SIZE {
        Some(
            "--chunk-size "@ + decimal(p.chunk_size as nat)
                + " leaves no room for content beside a passage's header; the minimum is "@
                + decimal(MIN_CHUNK_SIZE as nat),
        )
    } else if p.overlap >= p.chunk_size {
        Some(
            "--chunk-overlap "@ + decimal(p.overlap as nat) + " must be smaller than --chunk-size "@
                + decimal(p.chunk_size as nat),
        )
    } else {
        None
    }
}

/// Validate a build's chunk parameters before anything is resolved or analyzed: a malformed pair
/// is a usage error.
pub fn validate_chunk_params(params: &ChunkParams) -> (r: Result<(), Failure>)
    ensures
        match r {
            Ok(_) => chunk_params_refusal(*params) is None,
            Err(f) => f matches Failure::Usage(m) && chunk_params_refusal(*params) == Some(m@),
        },
{
    if params.chunk_size < MIN_CHUNK_SIZE {
        let mut m = String::new();
        push_str(&mut m, "--chunk-size ");
        push_decimal(&mut m, params.chunk_size as u64);
        push_str(&mut m, " leaves no room for content beside a passage's header; the minimum is ");
        push_decimal(&mut m, MIN_CHUNK_SIZE as u64);
        return Err(Failure::Usage(m));
    }
    if params.overlap >= params.chunk_size {
        let mut m = String::new();
        push_str(&mut m, "--chunk-overlap ");
        push_decimal(&mut m, params.overlap as u64);
        push_str(&mut m, " must be smaller than --chunk-size ");
        push_decimal(&mut m, params.chunk_size as u64);
        return Err(Failure::Usage(m));
    }
    Ok(())
}

/// The accounting a stored index records when it already describes the requested build, or `None`
/// when a build is required: the store must carry metadata, be recorded for the same workspace
/// identity and root, under the same chunk parameters, and be fresh against the current sources'
/// hash, analyzer, and environment.
pub open spec fn current_accounting_spec(
    metadata: Option<IndexMetadata>,
    workspace: Seq<char>,
    workspace_root: Option<Seq<char>>,
    chunk_params: ChunkParams,
    hash: Seq<char>,
    provenance: AnalyzerProvenance,
    environment: Option<(Seq<char>, Seq<char>)>,
) -> Option<JoinAccounting> {
    match metadata {
        None => None,
        Some(m) => if m.workspace_id@ != workspace || opt_path(m.workspace_root) != workspace_root
            || m.chunk_params != chunk_params || freshness_spec(m, hash, provenance, environment)
            != Freshness::Fresh {
            None
        } else {
            Some(m.accounting)
        },
    }
}

/// The accounting recorded by a store that already describes the requested build, given the
/// store's metadata (`None` for an absent, unreadable, or metadata-less store), or `None` when a
/// build is required.
pub fn current_index_accounting(
    metadata: Option<&IndexMetadata>,
    workspace: &WorkspaceId,
    workspace_root: Option<&str>,
    chunk_params: &ChunkParams,
    hash: &str,
    provenance: &AnalyzerProvenance,
    environment: Option<&EnvironmentFacts>,
) -> (r: Option<JoinAccounting>)
    ensures
        r == current_accounting_spec(
            match metadata {
                Some(m) => Some(*m),
                None => None,
            },
            workspace@,
            match workspace_root {
                Some(w) => Some(w@),
                None => None,
            },
            *chunk_params,
            hash@,
            *provenance,
            env_ref_view(environment),
        ),
{
    let m = match metadata {
        Some(m) => m,
        None => return None,
    };
    if !str_eq(m.workspace_id.as_str(), workspace.as_str()) {
        return None;
    }
    let same_root = match (&m.workspace_root, workspace_root) {
        (Some(a), Some(b)) => str_eq(a.as_str(), b),
        (None, None) => true,
        _ => false,
    };
    if !same_root {
        return None;
    }
    if !m.chunk_params.same_as(chunk_params) {
        return None;
    }
    match freshness_of(m, hash, provenance, environment) {
        Freshness::Fresh => Some(m.accounting),
        _ => None,
    }
}

/// The handoff notice for a build over a store recorded for another workspace root.
pub open spec fn handoff_notice_spec(recorded: Option<Seq<char>>, rebuilding_for: Option<Seq<char>>) -> Option<
    Seq<char>,
> {
    match (recorded, rebuilding_for) {
        (Some(a), Some(b)) => if a == b {
            None
        } else {
            Some(
                "warning: the index at this path was built for workspace root "@ + a
                    + "; rebuilding it for "@ + b,
            )
        },
        _ => None,
    }
}

/// The notice a build discloses when it takes over a store recorded for a different workspace
/// root: both roots named, or `None` when the store already describes this root or either root is
/// unknown.
pub fn workspace_handoff_notice(recorded_root: Option<&str>, workspace_root: Option<&str>) -> (r: Option<String>)
    ensures
        opt_path(r) == handoff_notice_spec(
            match recorded_root {
                Some(a) => Some(a@),
                None => None,
            },
            match workspace_root {
                Some(b) => Some(b@),
                None => None,
            },
        ),
{
    match (recorded_root, workspace_root) {
        (Some(a), Some(b)) => {
            if str_eq(a, b) {
                None
            } else {
                let mut m = String::new();
                push_str(&mut m, "warning: the index at this path was built for workspace root ");
                push_str(&mut m, a);
                push_str(&mut m, "; rebuilding it for ");
                push_str(&mut m, b);
                Some(m)
            }
        },
        _ => None,
    }
}

/// How the current workspace root relates to the root a store recorded, as plain values: `None`
/// for an exact match, `Some(Some(root))` for a mismatch naming the recorded root, `Some(None)`
/// for a comparison that cannot be made.
pub open spec fn relation_spec(recorded: Option<Seq<char>>, current: Option<Seq<char>>) -> Option<
    Option<Seq<char>>,
> {
    match (recorded, current) {
        (Some(a), Some(b)) => if a == b {
            None
        } else {
            Some(Some(a))
        },
        _ => Some(None),
    }
}

/// The relation between the root a store recorded (`None` when it recorded none) and the current
/// workspace root in its resolved form (`None` when it does not resolve to text). Only an exact
/// match reports no relation; every comparison that cannot be made is disclosed as unknown.
pub fn workspace_relation(recorded_root: Option<&str>, current_root: Option<&str>) -> (r: Option<
    WorkspaceRelation,
>)
    ensures
        match r {
            None => relation_spec(opt_chars(recorded_root), opt_chars(current_root)) == None::<
                Option<Seq<char>>,
            >,
            Some(rel) => relation_spec(opt_chars(recorded_root), opt_chars(current_root)) == Some(
                relation_view(rel),
            ),
        },
{
    match (recorded_root, current_root) {
        (Some(a), Some(b)) => {
            if str_eq(b, a) {
                None
            } else {
                let mut root = String::new();
                push_str(&mut root, a);
                Some(WorkspaceRelation::Mismatched { recorded_root: root })
            }
        },
        _ => Some(WorkspaceRelation::Unknown),
    }
}

/// The refusal for a content bound supplied where no content-bearing detail is in play.
pub open spec fn content_bound_misuse_text(flag: Seq<char>) -> Seq<char> {
    "`"@ + flag + "` applies only to content-bearing details; details that accept it: signature, interface, body"@
}

/// The usage error for a content bound (`--max-lines`/`--from`) supplied when no content-bearing
/// detail is in play: it names the offending flag and the details that accept it.
pub fn content_bound_misuse(flag: &str) -> (r: Failure)
    ensures
        r matches Failure::Usage(m) && m@ == content_bound_misuse_text(flag@),
{
    let mut m = String::new();
    push_char(&mut m, '`');
    push_str(&mut m, flag);
    push_str(
        &mut m,
        "` applies only to content-bearing details; details that accept it: signature, interface, body",
    );
    proof {
        reveal_strlit("`");
    }
    Failure::Usage(m)
}

/// A `path:byte_offset` argument split at its last `:`, the offset parsed as a `usize`.
pub open spec fn position_spec(arg: Seq<char>) -> Option<(Seq<char>, nat)> {
    match last_index_of(arg, ':') {
        None => None,
        Some(i) => match parsed_usize(arg.skip(i + 1)) {
            Some(n) => Some((arg.take(i), n)),
            None => None,
        },
    }
}

/// Parse a `path:byte_offset` position argument: the text after the last `:` is the offset.
pub fn parse_position(arg: &str) -> (r: Result<(String, usize), Failure>)
    ensures
        match r {
            Ok((path, offset)) => position_spec(arg@) == Some((path@, offset as nat)),
            Err(f) => position_spec(arg@) is None && (f matches Failure::Usage(m) && m@ == (
            if last_index_of(arg@, ':') is None {
                "position must be `path:byte_offset`"@
            } else {
                "invalid byte offset in "@ + arg@
            })),
        },
{
    let ac = chars_of(arg);
    match last_index_of_exec(&ac, ':') {
        None => {
            let mut m = String::new();
            push_str(&mut m, "position must be `path:byte_offset`");
            Err(Failure::Usage(m))
        },
        Some(i) => {
            let digits = slice_to_vec(&ac, i + 1, ac.len());
            assert(digits@ =~= arg@.skip(i + 1));
            match parse_usize(&digits) {
                Some(n) => {
                    let head = slice_to_vec(&ac, 0, i);
                    assert(head@ =~= arg@.take(i as int));
                    Ok((string_of(&head), n))
                },
                None => {
                    let mut m = String::new();
                    push_str(&mut m, "invalid byte offset in ");
                    push_str(&mut m, arg);
                    Err(Failure::Usage(m))
                },
            }
        },
    }
}

/// The recorded index identity a continuation token binds to: the content hash, analyzer name, and
/// analyzer version joined by unit separators, or nothing when the store records no metadata.
pub open spec fn recorded_identity(meta: Option<IndexMetadata>) -> Seq<char> {
    match meta {
        Some(m) => m.content_hash@ + seq!['\u{1f}'] + m.provenance.analyzer_name@ + seq!['\u{1f}']
            + m.provenance.analyzer_version@,
        None => Seq::empty(),
    }
}

/// The recorded index identity of a store's metadata, or an empty identity when it has none.
pub fn recorded_index_hash(metadata: Option<&IndexMetadata>) -> (r: String)
    ensures
        r@ == recorded_identity(
            match metadata {
                Some(m) => Some(*m),
                None => None,
            },
        ),
{
    let mut r = String::new();
    match metadata {
        Some(m) => {
            push_str(&mut r, m.content_hash.as_str());
            push_char(&mut r, '\u{1f}');
            push_str(&mut r, m.provenance.analyzer_name.as_str());
            push_char(&mut r, '\u{1f}');
            push_str(&mut r, m.provenance.analyzer_version.as_str());
        },
        None => {},
    }
    r
}

/// The outcome of `cache`: the affected `--db` path and whether an index was removed.
#[derive(Debug, Clone, PartialEq, Eq)]
pub struct CacheOutcome {
    /// The `--db` path the removal targeted.
    pub path: String,
    /// Whether an index was removed (`false` when there was nothing to remove).
    pub removed: bool,
}

/// What `cache` does with the path it was given.
#[derive(Debug, Clone, PartialEq, Eq)]
pub enum CacheVerdict {
    /// Nothing exists at the path: success, with nothing removed.
    NothingToRemove,
    /// The path holds a store this system created: remove it.
    Remove,
    /// The path holds something else: refuse, naming the manual alternative.
    Refuse(Failure),
    /// The path could not be examined: refuse with the examination's error.
    Unreadable(StoreOpenError),
}

/// The refusal for a `cache` target that is not this system's store.
pub open spec fn not_a_store_text(path: Seq<char>) -> Seq<char> {
    path + " is not a c10r index store, so c10r will not remove it — if you mean to delete it: rm "@
        + path
}

/// Decide what `cache` does at `db`, given whether anything exists there and what reading its
/// header produced: an absent path has nothing to remove, a recognized store is removed, and
/// anything else is refused — so a mis-pointed `--db` never unlinks an unrelated file.
pub fn cache_verdict(db: &str, exists: bool, read: &HeaderRead) -> (r: CacheVerdict)
    ensures
        !exists ==> r == CacheVerdict::NothingToRemove,
        exists ==> match *read {
            HeaderRead::Read(bytes) => if header_verdict(bytes@) == StoreRecognition::Recognized {
                r == CacheVerdict::Remove
            } else {
                r matches CacheVerdict::Refuse(Failure::UnrecognizedStore(m)) && m@ == not_a_store_text(
                    db@,
                )
            },
            HeaderRead::NotFound => r matches CacheVerdict::Refuse(Failure::UnrecognizedStore(m))
                && m@ == not_a_store_text(db@),
            HeaderRead::Failed { kind, message } => r matches CacheVerdict::Unreadable(
                StoreOpenError::UnreadableStore { path: p, detail },
            ) && p@ == db@ && detail@ == message@ + unreadable_hint(db@, kind),
        },
{
    if !exists {
        return CacheVerdict::NothingToRemove;
    }
    match recognize_or_refuse(db, read) {
        Err(e) => CacheVerdict::Unreadable(e),
        Ok(StoreRecognition::Recognized) => CacheVerdict::Remove,
        Ok(_) => {
            let mut m = String::new();
            push_str(&mut m, db);
            push_str(&mut m, " is not a c10r index store, so c10r will not remove it — if you mean to delete it: rm ");
            push_str(&mut m, db);
            CacheVerdict::Refuse(Failure::UnrecognizedStore(m))
        },
    }
}

/// The human rendering of a `cache` report: one line naming the affected path.
pub fn render_cache_report(outcome: &CacheOutcome) -> (r: String)
    ensures
        r@ == (if outcome.removed {
            "removed index at "@
        } else {
            "nothing to remove at "@
        }) + sanitized(outcome.path@),
{
    let mut r = String::new();
    if outcome.removed {
        push_str(&mut r, "removed index at ");
    } else {
        push_str(&mut r, "nothing to remove at ");
    }
    let p = sanitize(outcome.path.as_str());
    push_str(&mut r, p.as_str());
    r
}

/// The body of a single-quoted shell word: each `'` closes the quote, emits an escaped quote, and
/// reopens it.
pub open spec fn quote_body(s: Seq<char>) -> Seq<char>
    decreases s.len(),
{
    if s.len() == 0 {
        Seq::empty()
    } else {
        quote_body(s.drop_last()) + if s.last() == '\'' {
            seq!['\'', '\\', '\'', '\'']
        } else {
            seq![s.last()]
        }
    }
}

/// `s` as one single-quoted shell word.
pub open spec fn shell_quoted(s: Seq<char>) -> Seq<char> {
    seq!['\''] + quote_body(s) + seq!['\'']
}

/// Quote `s` as one POSIX shell word, whatever characters it holds.
pub fn shell_quote(s: &str) -> (r: String)
    ensures
        r@ == shell_quoted(s@),
{
    let mut r = String::new();
    push_char(&mut r, '\'');
    let ghost start = r@;
    for c in it: s.chars()
        invariant
            it.seq() == s@,
            r@ == start + quote_body(s@.take(it.index())),
    {
        proof {
            assert(s@.take(it.index() + 1).drop_last() =~= s@.take(it.index()));
        }
        if c == '\'' {
            push_char(&mut r, '\'');
            push_char(&mut r, '\\');
            push_char(&mut r, '\'');
            push_char(&mut r, '\'');
        } else {
            push_char(&mut r, c);
        }
        proof {
            assert(r@ =~= start + quote_body(s@.take(it.index() + 1)));
        }
    }
    assert(s@.take(s@.len() as int) =~= s@);
    push_char(&mut r, '\'');
    r
}

/// The post-commit hook script: reruns `c10r build` for the workspace at `root`, indexed at `db`
/// under `workspace`, each value shell-quoted.
pub open spec fn hook_script_text(root: Seq<char>, db: Seq<char>, workspace: Seq<char>) -> Seq<char> {
    "#!/bin/sh\nc10r build "@ + shell_quoted(root) + " --db "@ + shell_quoted(db) + " --workspace "@
        + shell_quoted(workspace) + "\n"@
}

/// The post-commit hook script for a workspace at the absolute `root`, indexed at the absolute
/// `db` under `workspace`: every value is single-quoted, since any of them may hold a space.
pub fn post_commit_hook_script(root: &str, db: &str, workspace: &str) -> (r: String)
    ensures
        r@ == hook_script_text(root@, db@, workspace@),
{
    let mut r = String::new();
    push_str(&mut r, "#!/bin/sh\nc10r build ");
    let q = shell_quote(root);
    push_str(&mut r, q.as_str());
    push_str(&mut r, " --db ");
    let q = shell_quote(db);
    push_str(&mut r, q.as_str());
    push_str(&mut r, " --workspace ");
    let q = shell_quote(workspace);
    push_str(&mut r, q.as_str());
    push_str(&mut r, "\n");
    r
}

/// The outcome of `hooks install`: the hook path written.
#[derive(Debug, Clone, PartialEq, Eq)]
pub struct HookOutcome {
    /// The path the hook was written to.
    pub path: String,
}

/// The refusal when something already exists at the hook path.
pub open spec fn hook_exists_text(path: Seq<char>) -> Seq<char> {
    "a hook already exists at "@ + path
        + "; refusing to overwrite it — remove it first if you mean to replace it, or add `c10r build` to it by hand"@
}

/// What `hooks install` writes at `hook_path`: the hook script, or a refusal when anything already
/// exists there, since a commit hook is the caller's and replacing one is destructive.
pub fn hook_install_plan(
    hook_path: &str,
    hook_exists: bool,
    root: &str,
    db: &str,
    workspace: &str,
) -> (r: Result<String, String>)
    ensures
        match r {
            Ok(script) => !hook_exists && script@ == hook_script_text(root@, db@, workspace@),
            Err(m) => hook_exists && m@ == hook_exists_text(hook_path@),
        },
{
    if hook_exists {
        let mut m = String::new();
        push_str(&mut m, "a hook already exists at ");
        push_str(&mut m, hook_path);
        push_str(
            &mut m,
            "; refusing to overwrite it — remove it first if you mean to replace it, or add `c10r build` to it by hand",
        );
        Err(m)
    } else {
        Ok(post_commit_hook_script(root, db, workspace))
    }
}

/// The human rendering of a `hooks install` report: one line naming the path written.
pub fn render_hook_report(outcome: &HookOutcome) -> (r: String)
    ensures
        r@ == "installed hook at "@ + sanitized(outcome.path@),
{
    let mut r = String::new();
    push_str(&mut r, "installed hook at ");
    let p = sanitize(outcome.path.as_str());
    push_str(&mut r, p.as_str());
    r
}

/// The category label of a seed mode, as an `impact` continuation token's identity and the
/// answer's own `seed_mode` field report it.
pub open spec fn seed_mode_label_of(mode: SeedMode) -> Seq<char> {
    match mode {
        SeedMode::WorkingTree => "working_tree"@,
        SeedMode::Staged => "staged"@,
        SeedMode::Revspec(_) => "range"@,
    }
}

/// The category label of a seed mode: `working_tree`, `staged`, or `range`.
pub fn seed_mode_label(mode: &SeedMode) -> (r: &'static str)
    ensures
        r@ == seed_mode_label_of(*mode),
{
    match mode {
        SeedMode::WorkingTree => "working_tree",
        SeedMode::Staged => "staged",
        SeedMode::Revspec(_) => "range",
    }
}

/// A copy of a file change.
fn copy_change(c: &FileChange) -> (r: FileChange)
    ensures
        r == *c,
{
    FileChange {
        kind: c.kind,
        pre_path: match &c.pre_path {
            Some(p) => Some(p.clone()),
            None => None,
        },
        post_path: match &c.post_path {
            Some(p) => Some(p.clone()),
            None => None,
        },
    }
}

/// Whether a change can carry an impact seed: its pre-change path is one source discovery would
/// collect for `language`.
pub open spec fn seeds_impact(change: FileChange, language: Language) -> bool {
    change.pre_path is Some && discovered(change.pre_path.unwrap()@, language)
}

/// The changes that can carry impact seeds, in order.
pub open spec fn seed_changes_spec(changes: Seq<FileChange>, language: Language) -> Seq<FileChange>
    decreases changes.len(),
{
    if changes.len() == 0 {
        Seq::empty()
    } else if seeds_impact(changes.last(), language) {
        seed_changes_spec(changes.drop_last(), language).push(changes.last())
    } else {
        seed_changes_spec(changes.drop_last(), language)
    }
}

/// The changes an impact assessment seeds from: those whose pre-change path source discovery would
/// collect. A change to a file the graph never tracks contributes nothing at all.
pub fn impact_seed_changes(changes: &[FileChange], language: Language) -> (r: Vec<FileChange>)
    ensures
        r@ == seed_changes_spec(changes@, language),
{
    let mut r: Vec<FileChange> = Vec::new();
    let mut k: usize = 0;
    while k < changes.len()
        invariant
            k <= changes.len(),
            r@ == seed_changes_spec(changes@.take(k as int), language),
        decreases changes.len() - k,
    {
        proof {
            assert(changes@.take(k + 1).drop_last() =~= changes@.take(k as int));
            assert(changes@.take(k + 1).last() == changes@[k as int]);
        }
        let c = &changes[k];
        let keep = match &c.pre_path {
            Some(p) => is_discovered_path(p.as_str(), language),
            None => false,
        };
        if keep {
            r.push(copy_change(c));
        }
        k = k + 1;
    }
    assert(changes@.take(changes.len() as int) =~= changes@);
    r
}

/// The paths of `sources` not in `in_git`, in order.
pub open spec fn outside_git_spec(sources: Seq<(Seq<char>, Seq<char>)>, in_git: Seq<Seq<char>>) -> Seq<Seq<char>>
    decreases sources.len(),
{
    if sources.len() == 0 {
        Seq::empty()
    } else if in_git.contains(sources.last().0) {
        outside_git_spec(sources.drop_last(), in_git)
    } else {
        outside_git_spec(sources.drop_last(), in_git).push(sources.last().0)
    }
}

/// The discovered sources git does not track, in order: a bare worktree of the base revision holds
/// only in_git files, so each of these needs its own copy step to rebuild the pre-change side.
pub fn sources_outside_git(sources: &[(String, String)], in_git: &[String]) -> (r: Vec<String>)
    ensures
        strings_view(r@) == outside_git_spec(string_pairs_view(sources@), strings_view(in_git@)),
{
    let ghost sv = string_pairs_view(sources@);
    let ghost tv = strings_view(in_git@);
    let mut r: Vec<String> = Vec::new();
    let mut k: usize = 0;
    while k < sources.len()
        invariant
            k <= sources.len(),
            sv == string_pairs_view(sources@),
            tv == strings_view(in_git@),
            strings_view(r@) == outside_git_spec(sv.take(k as int), tv),
        decreases sources.len() - k,
    {
        proof {
            assert(sv.take(k + 1).drop_last() =~= sv.take(k as int));
            assert(sv.take(k + 1).last() == sv[k as int]);
        }
        let path = sources[k].0.as_str();
        let mut found = false;
        let mut j: usize = 0;
        while j < in_git.len()
            invariant
                j <= in_git.len(),
                k < sources.len(),
                tv == strings_view(in_git@),
                path@ == sv[k as int].0,
                sv == string_pairs_view(sources@),
                found == exists|m: int| 0 <= m < j && tv[m] == path@,
            decreases in_git.len() - j,
        {
            assert(tv[j as int] == in_git@[j as int]@);
            let same = str_eq(in_git[j].as_str(), path);
            proof {
                if !same && !found {
                    assert forall|m: int| 0 <= m < j + 1 implies tv[m] != path@ by {
                        if m < j {
                            assert(!(0 <= m < j && tv[m] == path@));
                        }
                    }
                }
            }
            if same {
                found = true;
            }
            j = j + 1;
        }
        proof {
            if found {
                let m = choose|m: int| 0 <= m < in_git.len() && tv[m] == path@;
                assert(tv.contains(path@));
            } else {
                assert(!tv.contains(path@));
            }
        }
        if !found {
            let ghost before = strings_view(r@);
            let mut owned = String::new();
            push_str(&mut owned, path);
            r.push(owned);
            assert(strings_view(r@) =~= before.push(path@));
        }
        k = k + 1;
    }
    assert(sv.take(sources.len() as int) =~= sv);
    r
}

/// Whether some change names a path in `paths`, on either side.
pub open spec fn touches_any(changes: Seq<FileChange>, paths: Seq<Seq<char>>) -> bool {
    exists|i: int, j: int| 0 <= i < changes.len() && 0 <= j < paths.len() && change_touches(#[trigger] changes[i], #[trigger] paths[j])
}

/// Whether some path in `paths` is one source discovery would collect.
pub open spec fn any_discovered(paths: Seq<Seq<char>>, language: Language) -> bool {
    exists|j: int| 0 <= j < paths.len() && discovered(#[trigger] paths[j], language)
}

/// Whether the pre-change side of an impact assessment can be rebuilt exactly by substituting each
/// changed file's base content: always for the working tree; for the staged change, unless an
/// unstaged edit touches a changed path; for a revision range, when its head is what is checked
/// out and no uncommitted change touches a discovered source (a single revision behaves like the
/// working tree).
pub open spec fn reconstructible_spec(
    mode: SeedMode,
    changes: Seq<FileChange>,
    unstaged: Seq<Seq<char>>,
    range_head: Option<Seq<char>>,
    current_head: Option<Seq<char>>,
    uncommitted: Seq<Seq<char>>,
    language: Language,
) -> bool {
    match mode {
        SeedMode::WorkingTree => true,
        SeedMode::Staged => !touches_any(changes, unstaged),
        SeedMode::Revspec(_) => match range_head {
            None => true,
            Some(head) => current_head == Some(head) && !any_discovered(uncommitted, language),
        },
    }
}

/// Whether some change names `path` on either side.
fn any_change_touches(changes: &[FileChange], path: &str) -> (r: bool)
    ensures
        r == exists|i: int| 0 <= i < changes@.len() && change_touches(#[trigger] changes@[i], path@),
{
    let mut k: usize = 0;
    while k < changes.len()
        invariant
            k <= changes.len(),
            forall|i: int| 0 <= i < k ==> !change_touches(#[trigger] changes@[i], path@),
        decreases changes.len() - k,
    {
        let c = &changes[k];
        let pre = match &c.pre_path {
            Some(p) => str_eq(p.as_str(), path),
            None => false,
        };
        let post = match &c.post_path {
            Some(p) => str_eq(p.as_str(), path),
            None => false,
        };
        if pre || post {
            assert(change_touches(changes@[k as int], path@));
            return true;
        }
        k = k + 1;
    }
    false
}

/// Whether an impact assessment's pre-change side is reconstructible from this workspace.
/// `current_head` is the revision currently checked out, read when `range_head` names a range's
/// head.
pub fn diff_reconstructible(
    mode: &SeedMode,
    changes: &[FileChange],
    unstaged: &[String],
    range_head: Option<&str>,
    current_head: Option<&str>,
    uncommitted: &[String],
    language: Language,
) -> (r: bool)
    ensures
        r == reconstructible_spec(
            *mode,
            changes@,
            strings_view(unstaged@),
            opt_chars(range_head),
            opt_chars(current_head),
            strings_view(uncommitted@),
            language,
        ),
{
    match mode {
        SeedMode::WorkingTree => true,
        SeedMode::Staged => {
            let ghost uv = strings_view(unstaged@);
            let mut j: usize = 0;
            while j < unstaged.len()
                invariant
                    j <= unstaged.len(),
                    *mode is Staged,
                    uv == strings_view(unstaged@),
                    forall|i: int, m: int| 0 <= i < changes@.len() && 0 <= m < j ==> !change_touches(#[trigger] changes@[i], #[trigger] uv[m]),
                decreases unstaged.len() - j,
            {
                assert(uv[j as int] == unstaged@[j as int]@);
                if any_change_touches(changes, unstaged[j].as_str()) {
                    proof {
                        let i = choose|i: int| 0 <= i < changes@.len() && change_touches(#[trigger] changes@[i], uv[j as int]);
                        assert(touches_any(changes@, uv));
                    }
                    return false;
                }
                j = j + 1;
            }
            true
        },
        SeedMode::Revspec(_) => match range_head {
            None => true,
            Some(head) => {
                let same = match current_head {
                    Some(c) => str_eq(c, head),
                    None => false,
                };
                if !same {
                    return false;
                }
                let ghost cv = strings_view(uncommitted@);
                let mut j: usize = 0;
                while j < uncommitted.len()
                    invariant
                        j <= uncommitted.len(),
                        *mode is Revspec,
                        range_head == Some(head),
                        current_head is Some && current_head.unwrap()@ == head@,
                        cv == strings_view(uncommitted@),
                        forall|m: int| 0 <= m < j ==> !discovered(#[trigger] cv[m], language),
                    decreases uncommitted.len() - j,
                {
                    assert(cv[j as int] == uncommitted@[j as int]@);
                    if is_discovered_path(uncommitted[j].as_str(), language) {
                        assert(any_discovered(cv, language));
                        return false;
                    }
                    j = j + 1;
                }
                true
            },
        },
    }
}

/// The reference an impact continuation token binds to: the seed mode's label, the resolved base
/// revision, the narrowing paths joined by the unit separator, and the patch's SHA-256, all joined
/// by the unit separator.
pub open spec fn impact_reference_spec(mode: SeedMode, base_revision: Seq<char>, paths: Seq<Seq<char>>, patch: Seq<u8>) -> Seq<char> {
    join_with(
        seq![seed_mode_label_of(mode), base_revision, join_with(paths, seq!['\u{1f}']), hex_of(sha256_of(patch))],
        seq!['\u{1f}'],
    )
}

/// The reference an impact answer's continuation token binds to. An impact answer is a function of
/// the diff as well as the index, so the patch's digest rides beside the mode, base revision and
/// narrowing paths: two ranges sharing a base resolve alike yet seed different answers.
pub fn impact_reference(mode: &SeedMode, base_revision: &str, paths: &Vec<String>, patch: &str) -> (r: String)
    ensures
        r@ == impact_reference_spec(*mode, base_revision@, strings_view(paths@), patch.spec_bytes()),
{
    let mut parts: Vec<String> = Vec::new();
    let mut label = String::new();
    push_str(&mut label, seed_mode_label(mode));
    parts.push(label);
    let mut base = String::new();
    push_str(&mut base, base_revision);
    parts.push(base);
    parts.push(join_strings(paths, '\u{1f}'));
    parts.push(hex_sha256(patch.as_bytes()));
    proof {
        assert(strings_view(parts@) =~= seq![
            seed_mode_label_of(*mode),
            base_revision@,
            join_with(strings_view(paths@), seq!['\u{1f}']),
            hex_of(sha256_of(patch.spec_bytes())),
        ]);
    }
    join_strings(&parts, '\u{1f}')
}

/// The syntax language an index's documents parse as, by its recorded analyzer: a scip-python
/// index is Python source, anything else is Rust.
pub fn index_language(analyzer_name: &str) -> (r: Language)
    ensures
        r == (if analyzer_name@ == "scip-python"@ {
            Language::Python
        } else {
            Language::Rust
        }),
{
    if str_eq(analyzer_name, "scip-python") {
        Language::Python
    } else {
        Language::Rust
    }
}

/// The refusal for a workspace root whose canonical form has no directory name to derive an
/// identity from.
pub open spec fn nameless_root_text(canonical_root: Seq<char>) -> Seq<char> {
    "workspace root "@ + canonical_root + " has no directory name to derive an identity from; pass --workspace <name>"@
}

/// The workspace identity for a build: a supplied identity verbatim; otherwise the directory name
/// of the canonicalized workspace root, a pure function of the root path. A root with no directory
/// name (the filesystem root) is refused, pointing at `--workspace`, rather than silently sharing a
/// namespace.
pub fn resolve_workspace(supplied: Option<&str>, canonical_root: &str, directory_name: Option<&str>) -> (r: Result<
    WorkspaceId,
    String,
>)
    ensures
        match supplied {
            Some(name) => r matches Ok(w) && w@ == name@,
            None => match directory_name {
                Some(name) => r matches Ok(w) && w@ == name@,
                None => r matches Err(m) && m@ == nameless_root_text(canonical_root@),
            },
        },
{
    if let Some(name) = supplied {
        return Ok(WorkspaceId::new(name));
    }
    match directory_name {
        Some(name) => Ok(WorkspaceId::new(name)),
        None => {
            let mut m = String::new();
            push_str(&mut m, "workspace root ");
            push_str(&mut m, canonical_root);
            push_str(&mut m, " has no directory name to derive an identity from; pass --workspace <name>");
            Err(m)
        },
    }
}


/// A build reuses a store's recorded accounting exactly when the store describes the requested
/// build: the same workspace and root, the same chunk parameters, the same content, the same
/// analyzer name and version, and the same declared environment; the accounting it hands back is
/// the one recorded. In particular an analyzer upgrade always rebuilds.
pub proof fn lemma_reuse_only_a_current_index(
    metadata: Option<IndexMetadata>,
    workspace: Seq<char>,
    workspace_root: Option<Seq<char>>,
    chunk_params: ChunkParams,
    hash: Seq<char>,
    provenance: AnalyzerProvenance,
    environment: Option<(Seq<char>, Seq<char>)>,
)
    ensures
        (current_accounting_spec(metadata, workspace, workspace_root, chunk_params, hash, provenance, environment) is Some)
            <==> (metadata is Some && metadata.unwrap().workspace_id@ == workspace && opt_path(metadata.unwrap().workspace_root)
            == workspace_root && metadata.unwrap().chunk_params == chunk_params && metadata.unwrap().content_hash@ == hash
            && metadata.unwrap().provenance.analyzer_name@ == provenance.analyzer_name@
            && metadata.unwrap().provenance.analyzer_version@ == provenance.analyzer_version@ && crate::graph::store::env_view(
            metadata.unwrap().environment,
        ) == environment),
        current_accounting_spec(metadata, workspace, workspace_root, chunk_params, hash, provenance, environment) is Some
            ==> current_accounting_spec(metadata, workspace, workspace_root, chunk_params, hash, provenance, environment).unwrap()
            == metadata.unwrap().accounting,
{
    if let Some(m) = metadata {
        crate::graph::store::lemma_freshness_reasons(m, hash, provenance, environment);
    }
}

} // verus!
