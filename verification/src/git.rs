//! The git boundary's decisions. Every `git` invocation runs outside the library, bounded by a
//! deadline; the library names the invocation, reads what came back — a completed capture, a
//! timeout, or a spawn failure — and types every failure.

use vstd::prelude::*;

use crate::exit::Failure;
use crate::text::{
    find_from, find_from_exec, lemma_find_from, occurs_at, slice_to_vec, str_eq,
    chars_of, decimal, drop_empty, lines, lines_of, push_decimal, push_str, split_on, split_pieces,
    string_of, strings_view, vecs_view, without_empty,
};
use crate::unicode::{trim, trim_chars};

verus! {

/// Which change seeds an impact assessment.
#[derive(Debug, Clone, PartialEq, Eq)]
pub enum SeedMode {
    /// The working-tree change against `HEAD`: every uncommitted edit, staged or not.
    WorkingTree,
    /// The staged change against `HEAD`.
    Staged,
    /// A caller-supplied revision or revision range, interpreted by `git diff` itself.
    Revspec(String),
}

/// A typed failure at the git boundary.
#[derive(Debug, Clone, PartialEq, Eq)]
pub enum GitError {
    /// No usable `git` executable could be spawned.
    Absent(String),
    /// The directory is not inside a git worktree.
    NotAWorktree(String),
    /// A `git` invocation did not complete within the bounded deadline.
    Timeout {
        /// The invocation that timed out, named for diagnostics.
        invocation: String,
    },
    /// A revision specification that is malformed or does not resolve in this repository.
    BadRevspec(String),
    /// A `git` invocation completed but reported failure.
    Failed {
        /// The invocation that failed, named for diagnostics.
        invocation: String,
        /// The invocation's captured stderr.
        stderr: String,
    },
}

/// What one bounded `git` invocation produced.
#[derive(Debug, Clone, PartialEq, Eq)]
pub enum GitCapture {
    /// The process ran to completion.
    Completed {
        /// Whether it exited successfully.
        success: bool,
        /// Its standard output, decoded with invalid UTF-8 replaced.
        stdout: String,
        /// Whether the standard output was valid UTF-8, so that `stdout` holds it exactly.
        stdout_exact: bool,
        /// Its standard error, decoded with invalid UTF-8 replaced.
        stderr: String,
    },
    /// The process did not complete within the deadline.
    TimedOut,
    /// The process could not be spawned; the operating system's account of why.
    SpawnFailed(String),
}

/// The text of a git boundary failure, given the bounded deadline in seconds.
pub open spec fn git_error_text(e: GitError, deadline_secs: u64) -> Seq<char> {
    match e {
        GitError::Absent(m) => "git could not be run ("@ + m@
            + "); `impact` requires a working `git` to seed a diff"@,
        GitError::NotAWorktree(p) => p@ + " is not inside a git worktree"@,
        GitError::Timeout { invocation } => "git "@ + invocation@ + " did not complete within the "@
            + decimal(deadline_secs as nat) + "-second bounded deadline"@,
        GitError::BadRevspec(s) => s@ + " is not a valid revision in this repository"@,
        GitError::Failed { invocation, stderr } => "git "@ + invocation@ + " failed: "@ + stderr@,
    }
}

/// A git boundary failure placed on the exit-code taxonomy.
#[derive(Debug, Clone, PartialEq, Eq)]
pub enum ClassifiedGitError {
    /// A failure with an exit-code category of its own.
    Tagged(Failure),
    /// A failure with no category more specific than a general one.
    General(String),
}

impl GitError {
    /// The failure's text, given the bounded deadline in seconds.
    pub fn message(&self, deadline_secs: u64) -> (r: String)
        ensures
            r@ == git_error_text(*self, deadline_secs),
    {
        let mut r = String::new();
        match self {
            GitError::Absent(m) => {
                push_str(&mut r, "git could not be run (");
                push_str(&mut r, m.as_str());
                push_str(&mut r, "); `impact` requires a working `git` to seed a diff");
            },
            GitError::NotAWorktree(p) => {
                push_str(&mut r, p.as_str());
                push_str(&mut r, " is not inside a git worktree");
            },
            GitError::Timeout { invocation } => {
                push_str(&mut r, "git ");
                push_str(&mut r, invocation.as_str());
                push_str(&mut r, " did not complete within the ");
                push_decimal(&mut r, deadline_secs);
                push_str(&mut r, "-second bounded deadline");
            },
            GitError::BadRevspec(s) => {
                push_str(&mut r, s.as_str());
                push_str(&mut r, " is not a valid revision in this repository");
            },
            GitError::Failed { invocation, stderr } => {
                push_str(&mut r, "git ");
                push_str(&mut r, invocation.as_str());
                push_str(&mut r, " failed: ");
                push_str(&mut r, stderr.as_str());
            },
        }
        r
    }

    /// Classify this failure onto the exit-code taxonomy: an absent `git`, a directory outside any
    /// worktree, and a timeout are unmet setup prerequisites; a bad revision specification is a
    /// usage error; any other reported failure is general. The message is the failure's text.
    pub fn into_failure(self, deadline_secs: u64) -> (r: ClassifiedGitError)
        ensures
            match self {
                GitError::Absent(_) | GitError::NotAWorktree(_) | GitError::Timeout { .. } => (r matches ClassifiedGitError::Tagged(
                    Failure::IndexerSetup(m),
                ) && m@ == git_error_text(self, deadline_secs)),
                GitError::BadRevspec(_) => (r matches ClassifiedGitError::Tagged(Failure::Usage(m)) && m@
                    == git_error_text(self, deadline_secs)),
                GitError::Failed { .. } => (r matches ClassifiedGitError::General(m) && m@
                    == git_error_text(self, deadline_secs)),
            },
    {
        let message = self.message(deadline_secs);
        match self {
            GitError::Absent(_) | GitError::NotAWorktree(_) | GitError::Timeout { .. } => {
                ClassifiedGitError::Tagged(Failure::IndexerSetup(message))
            },
            GitError::BadRevspec(_) => ClassifiedGitError::Tagged(Failure::Usage(message)),
            GitError::Failed { .. } => ClassifiedGitError::General(message),
        }
    }
}

/// A copy of `s` as a new string.
fn owned(s: &str) -> (r: String)
    ensures
        r@ == s@,
{
    let mut r = String::new();
    push_str(&mut r, s);
    r
}

/// Whether `e` is the failure an incomplete capture of the invocation `label` stands for.
pub open spec fn is_incomplete_error(capture: GitCapture, label: Seq<char>, e: GitError) -> bool {
    match capture {
        GitCapture::TimedOut => e matches GitError::Timeout { invocation } && invocation@ == label,
        GitCapture::SpawnFailed(m) => e matches GitError::Absent(x) && x@ == m@,
        GitCapture::Completed { .. } => false,
    }
}

/// The failure of a capture that did not complete, for the invocation `label`.
fn incomplete(capture: &GitCapture, label: &str) -> (r: GitError)
    requires
        !(*capture is Completed),
    ensures
        is_incomplete_error(*capture, label@, r),
{
    match capture {
        GitCapture::TimedOut => GitError::Timeout { invocation: owned(label) },
        GitCapture::SpawnFailed(m) => GitError::Absent(m.clone()),
        GitCapture::Completed { .. } => GitError::Timeout { invocation: owned(label) },
    }
}

/// Whether `e` is the failure a completed but unsuccessful capture of `label` reports.
pub open spec fn is_reported_failure(capture: GitCapture, label: Seq<char>, e: GitError) -> bool {
    capture matches GitCapture::Completed { stderr, .. } && e matches GitError::Failed {
        invocation,
        stderr: s,
    } && invocation@ == label && s@ == stderr@
}

/// The failure a completed but unsuccessful capture of `label` reports.
fn reported_failure(capture: &GitCapture, label: &str) -> (r: GitError)
    requires
        *capture is Completed,
    ensures
        is_reported_failure(*capture, label@, r),
{
    match capture {
        GitCapture::Completed { stderr, .. } => GitError::Failed {
            invocation: owned(label),
            stderr: stderr.clone(),
        },
        _ => GitError::Failed { invocation: owned(label), stderr: String::new() },
    }
}

/// The git worktree an assessment draws its diff from: the workspace root `git` runs in, and that
/// root's path prefix relative to the repository root (empty, or ending with `/`).
#[derive(Debug, Clone, PartialEq, Eq)]
pub struct GitRepo {
    root: String,
    prefix: String,
}

/// The invocation `discover` runs.
pub open spec fn discover_label() -> Seq<char> {
    "rev-parse --is-inside-work-tree --show-prefix"@
}

impl GitRepo {
    /// The workspace root, as given.
    pub closed spec fn root_view(&self) -> Seq<char> {
        self.root@
    }

    /// The recorded prefix.
    pub closed spec fn prefix_view(&self) -> Seq<char> {
        self.prefix@
    }

    /// Read the preflight `git rev-parse --is-inside-work-tree --show-prefix` run at `root`: its
    /// first output line must read exactly `true`, and its second is the prefix, kept verbatim
    /// (empty when there is none). Anything else means `root` is not inside a worktree.
    pub fn discover(root: &str, capture: &GitCapture) -> (r: Result<Self, GitError>)
        ensures
            !(*capture is Completed) ==> (r matches Err(e) && is_incomplete_error(
                *capture,
                discover_label(),
                e,
            )),
            *capture matches GitCapture::Completed { success, stdout, .. } ==> ({
                let ls = lines_of(stdout@);
                if success && ls.len() >= 1 && ls[0] == "true"@ {
                    r matches Ok(repo) && repo.root_view() == root@ && repo.prefix_view() == (
                    if ls.len() >= 2 {
                        ls[1]
                    } else {
                        Seq::empty()
                    })
                } else {
                    r matches Err(GitError::NotAWorktree(p)) && p@ == root@
                }
            }),
    {
        match capture {
            GitCapture::Completed { success, stdout, .. } => {
                let ls = lines(stdout.as_str());
                proof {
                    reveal_strlit("true");
                }
                let first_true = ls.len() >= 1 && crate::text::str_eq(ls[0].as_str(), "true");
                assert(ls.len() >= 1 ==> strings_view(ls@)[0] == ls@[0]@);
                if !*success || !first_true {
                    return Err(GitError::NotAWorktree(owned(root)));
                }
                let prefix = if ls.len() >= 2 {
                    assert(strings_view(ls@)[1] == ls@[1]@);
                    ls[1].clone()
                } else {
                    String::new()
                };
                Ok(GitRepo { root: owned(root), prefix })
            },
            _ => Err(incomplete(capture, "rev-parse --is-inside-work-tree --show-prefix")),
        }
    }

    /// The workspace root's path prefix within the repository, as `discover` recorded it.
    pub fn prefix(&self) -> (r: &str)
        ensures
            r@ == self.prefix_view(),
    {
        self.prefix.as_str()
    }

    /// The paths `git ls-files -z` lists: its output split at NUL, empty pieces dropped.
    pub fn tracked_files(&self, capture: &GitCapture) -> (r: Result<Vec<String>, GitError>)
        ensures
            !(*capture is Completed) ==> (r matches Err(e) && is_incomplete_error(
                *capture,
                "ls-files -z"@,
                e,
            )),
            *capture matches GitCapture::Completed { success, stdout, .. } ==> if success {
                r matches Ok(v) && strings_view(v@) == without_empty(split_pieces(stdout@, seq!['\0']))
            } else {
                r matches Err(e) && is_reported_failure(*capture, "ls-files -z"@, e)
            },
    {
        match capture {
            GitCapture::Completed { success, stdout, .. } => {
                if !*success {
                    return Err(reported_failure(capture, "ls-files -z"));
                }
                let sc = chars_of(stdout.as_str());
                let mut nul: Vec<char> = Vec::new();
                nul.push('\0');
                assert(nul@ =~= seq!['\0']);
                let pieces = split_on(&sc, &nul);
                let mut names: Vec<String> = Vec::new();
                let mut k: usize = 0;
                while k < pieces.len()
                    invariant
                        k <= pieces.len(),
                        strings_view(names@) == vecs_view(pieces@).take(k as int),
                    decreases pieces.len() - k,
                {
                    let name = string_of(&pieces[k]);
                    let ghost before = names@;
                    let ghost nv = name@;
                    names.push(name);
                    proof {
                        assert(strings_view(before).len() == k);
                        assert(strings_view(names@) =~= strings_view(before).push(nv));
                        assert(strings_view(names@) =~= vecs_view(pieces@).take(k + 1));
                    }
                    k = k + 1;
                }
                assert(vecs_view(pieces@).take(pieces.len() as int) =~= vecs_view(pieces@));
                Ok(drop_empty(names))
            },
            _ => Err(incomplete(capture, "ls-files -z")),
        }
    }

    /// The paths a `git diff --name-only` invocation labelled `label` reports: one per non-empty
    /// output line.
    fn diff_name_only(&self, capture: &GitCapture, label: &str) -> (r: Result<Vec<String>, GitError>)
        ensures
            !(*capture is Completed) ==> (r matches Err(e) && is_incomplete_error(*capture, label@, e)),
            *capture matches GitCapture::Completed { success, stdout, .. } ==> if success {
                r matches Ok(v) && strings_view(v@) == without_empty(lines_of(stdout@))
            } else {
                r matches Err(e) && is_reported_failure(*capture, label@, e)
            },
    {
        match capture {
            GitCapture::Completed { success, stdout, .. } => {
                if !*success {
                    return Err(reported_failure(capture, label));
                }
                Ok(drop_empty(lines(stdout.as_str())))
            },
            _ => Err(incomplete(capture, label)),
        }
    }

    /// The paths differing between the index and the working tree, from `git diff --name-only
    /// --relative`.
    pub fn unstaged_paths(&self, capture: &GitCapture) -> (r: Result<Vec<String>, GitError>)
        ensures
            !(*capture is Completed) ==> (r matches Err(e) && is_incomplete_error(
                *capture,
                "diff --name-only --relative"@,
                e,
            )),
            *capture matches GitCapture::Completed { success, stdout, .. } ==> if success {
                r matches Ok(v) && strings_view(v@) == without_empty(lines_of(stdout@))
            } else {
                r matches Err(e) && is_reported_failure(*capture, "diff --name-only --relative"@, e)
            },
    {
        self.diff_name_only(capture, "diff --name-only --relative")
    }

    /// The paths differing between `HEAD` and the working tree, staged or not, from `git diff
    /// --name-only --relative HEAD`.
    pub fn uncommitted_paths(&self, capture: &GitCapture) -> (r: Result<Vec<String>, GitError>)
        ensures
            !(*capture is Completed) ==> (r matches Err(e) && is_incomplete_error(
                *capture,
                "diff --name-only --relative HEAD"@,
                e,
            )),
            *capture matches GitCapture::Completed { success, stdout, .. } ==> if success {
                r matches Ok(v) && strings_view(v@) == without_empty(lines_of(stdout@))
            } else {
                r matches Err(e) && is_reported_failure(
                    *capture,
                    "diff --name-only --relative HEAD"@,
                    e,
                )
            },
    {
        self.diff_name_only(capture, "diff --name-only --relative HEAD")
    }

    /// The hook path `git rev-parse --git-path hooks/post-commit` reports, trimmed; relative to
    /// the workspace root unless git reports an absolute path.
    pub fn post_commit_hook_path(&self, capture: &GitCapture) -> (r: Result<String, GitError>)
        ensures
            !(*capture is Completed) ==> (r matches Err(e) && is_incomplete_error(
                *capture,
                "rev-parse --git-path hooks/post-commit"@,
                e,
            )),
            *capture matches GitCapture::Completed { success, stdout, .. } ==> if success {
                r matches Ok(p) && p@ == trim(stdout@)
            } else {
                r matches Err(e) && is_reported_failure(
                    *capture,
                    "rev-parse --git-path hooks/post-commit"@,
                    e,
                )
            },
    {
        match capture {
            GitCapture::Completed { success, stdout, .. } => {
                if !*success {
                    return Err(reported_failure(capture, "rev-parse --git-path hooks/post-commit"));
                }
                let sc = chars_of(stdout.as_str());
                let t = trim_chars(&sc);
                Ok(string_of(&t))
            },
            _ => Err(incomplete(capture, "rev-parse --git-path hooks/post-commit")),
        }
    }
}

/// Whether a revision specification hides an endpoint that would reach `git` as an option: a
/// `..`-separated piece, or either side of its range split at the first `...` (else the first `..`),
/// that begins with `-`.
pub open spec fn has_option_endpoint(spec: Seq<char>) -> bool {
    (exists|k: int|
        0 <= k < split_pieces(spec, ".."@).len() && #[trigger] split_pieces(spec, ".."@)[k].len() > 0
            && split_pieces(spec, ".."@)[k][0] == '-') || match range_split_spec(spec) {
        Some((_, left, right)) => starts_with_dash(left) || starts_with_dash(right),
        None => false,
    }
}

/// Whether a revision expression begins with `-`.
pub open spec fn starts_with_dash(s: Seq<char>) -> bool {
    s.len() > 0 && s[0] == '-'
}

/// Whether a revision expression begins with `-`.
fn dash_led(s: &str) -> (r: bool)
    ensures
        r == starts_with_dash(s@),
{
    let cs = chars_of(s);
    cs.len() > 0 && cs[0] == '-'
}

/// The arguments of the `git diff` invocation for `mode`.
pub open spec fn diff_args_spec(mode: SeedMode) -> Seq<Seq<char>> {
    let fixed = seq![
        "-c"@,
        "core.quotepath=false"@,
        "diff"@,
        "--no-color"@,
        "--no-ext-diff"@,
        "--no-textconv"@,
        "--no-prefix"@,
        "--find-renames"@,
        "--unified=0"@,
        "--relative"@,
    ];
    match mode {
        SeedMode::WorkingTree => fixed.push("HEAD"@),
        SeedMode::Staged => fixed.push("--cached"@).push("HEAD"@),
        SeedMode::Revspec(spec) => fixed.push(spec@),
    }
}

/// Whether a seed mode is a revision specification that would smuggle an option to `git`.
pub open spec fn smuggles_option(mode: SeedMode) -> bool {
    mode matches SeedMode::Revspec(spec) && has_option_endpoint(spec@)
}

/// Whether any `..`-separated piece of `spec`, or either endpoint of its range split at the first
/// `...` (else the first `..`), begins with `-`.
fn option_endpoint(spec: &str) -> (r: bool)
    ensures
        r == has_option_endpoint(spec@),
{
    let sc = chars_of(spec);
    let dots = chars_of("..");
    proof {
        reveal_strlit("..");
    }
    let pieces = split_on(&sc, &dots);
    let ghost pv = vecs_view(pieces@);
    let mut k: usize = 0;
    while k < pieces.len()
        invariant
            k <= pieces.len(),
            pv == vecs_view(pieces@),
            pv == split_pieces(spec@, ".."@),
            forall|j: int| 0 <= j < k ==> !(#[trigger] pv[j].len() > 0 && pv[j][0] == '-'),
        decreases pieces.len() - k,
    {
        assert(pv[k as int] == pieces@[k as int]@);
        if pieces[k].len() > 0 && pieces[k][0] == '-' {
            return true;
        }
        k = k + 1;
    }
    match split_range(spec) {
        Some(RangeSplit::ThreeDot(left, right)) => dash_led(left.as_str()) || dash_led(right.as_str()),
        Some(RangeSplit::TwoDot(left, right)) => dash_led(left.as_str()) || dash_led(right.as_str()),
        None => false,
    }
}

/// Push an owned copy of `s` onto `v`.
fn push_owned(v: &mut Vec<String>, s: &str)
    ensures
        strings_view(final(v)@) == strings_view(old(v)@).push(s@),
{
    let ghost before = v@;
    v.push(owned(s));
    assert(strings_view(v@) =~= strings_view(before).push(s@));
}

/// The arguments of the `git diff` invocation for `mode`, or a refusal for a revision
/// specification with an endpoint that begins with `-` (a `..`-separated piece, or either side of
/// its range split as revision resolution splits it), which would reach `git` as an option.
pub fn diff_invocation(mode: &SeedMode) -> (r: Result<Vec<String>, GitError>)
    ensures
        match r {
            Ok(args) => !smuggles_option(*mode) && strings_view(args@) == diff_args_spec(*mode),
            Err(e) => smuggles_option(*mode) && (*mode matches SeedMode::Revspec(spec) && e matches GitError::BadRevspec(x) && x@ == spec@),
        },
{
    if let SeedMode::Revspec(spec) = mode {
        if option_endpoint(spec.as_str()) {
            return Err(GitError::BadRevspec(spec.clone()));
        }
    }
    let mut args: Vec<String> = Vec::new();
    push_owned(&mut args, "-c");
    push_owned(&mut args, "core.quotepath=false");
    push_owned(&mut args, "diff");
    push_owned(&mut args, "--no-color");
    push_owned(&mut args, "--no-ext-diff");
    push_owned(&mut args, "--no-textconv");
    push_owned(&mut args, "--no-prefix");
    push_owned(&mut args, "--find-renames");
    push_owned(&mut args, "--unified=0");
    push_owned(&mut args, "--relative");
    match mode {
        SeedMode::WorkingTree => push_owned(&mut args, "HEAD"),
        SeedMode::Staged => {
            push_owned(&mut args, "--cached");
            push_owned(&mut args, "HEAD");
        },
        SeedMode::Revspec(spec) => push_owned(&mut args, spec.as_str()),
    }
    proof {
        assert(strings_view(args@) =~= diff_args_spec(*mode));
    }
    Ok(args)
}

/// How a `git show` of one object ended, or that its failure must first be told apart.
#[derive(Debug, PartialEq, Eq)]
pub enum ShowStep {
    /// The content at the revision (`None` when its bytes are not UTF-8), or a failure.
    Done(Result<Option<String>, GitError>),
    /// `show` failed: run `git cat-file -e` on the same object, then call `show_after_check`.
    CheckExists,
}

/// The object `git show` names for a workspace-relative path at a revision.
pub open spec fn object_text(revision: Seq<char>, prefix: Seq<char>, path: Seq<char>) -> Seq<char> {
    revision + ":"@ + prefix + path
}

impl GitRepo {
    /// The patch of the `git diff` run for `mode`: refused first, as `diff_invocation` refuses, for
    /// a specification that would smuggle an option; otherwise the captured output, which must
    /// have completed successfully and be valid UTF-8.
    pub fn diff(&self, mode: &SeedMode, capture: &GitCapture) -> (r: Result<String, GitError>)
        ensures
            smuggles_option(*mode) ==> (*mode matches SeedMode::Revspec(spec) && r matches Err(
                GitError::BadRevspec(x),
            ) && x@ == spec@),
            !smuggles_option(*mode) ==> match *capture {
                GitCapture::Completed { success, stdout, stdout_exact, stderr } => if !success {
                    r matches Err(e) && is_reported_failure(*capture, "diff"@, e)
                } else if !stdout_exact {
                    r matches Err(GitError::Failed { invocation, stderr: m }) && invocation@ == "diff"@
                        && m@ == "the patch was not valid UTF-8"@
                } else {
                    r matches Ok(p) && p@ == stdout@
                },
                _ => r matches Err(e) && is_incomplete_error(*capture, "diff"@, e),
            },
    {
        match diff_invocation(mode) {
            Err(e) => return Err(e),
            Ok(_) => {},
        }
        match capture {
            GitCapture::Completed { success, stdout, stdout_exact, .. } => {
                if !*success {
                    return Err(reported_failure(capture, "diff"));
                }
                if !*stdout_exact {
                    return Err(GitError::Failed {
                        invocation: owned("diff"),
                        stderr: owned("the patch was not valid UTF-8"),
                    });
                }
                Ok(stdout.clone())
            },
            _ => Err(incomplete(capture, "diff")),
        }
    }

    /// The object `<revision>:<prefix><path>` a `git show` of the workspace-relative `path` names.
    pub fn show_object(&self, revision: &str, path: &str) -> (r: String)
        ensures
            r@ == object_text(revision@, self.prefix_view(), path@),
    {
        let mut r = String::new();
        push_str(&mut r, revision);
        crate::text::push_char(&mut r, ':');
        push_str(&mut r, self.prefix.as_str());
        push_str(&mut r, path);
        proof {
            reveal_strlit(":");
        }
        assert(r@ =~= object_text(revision@, self.prefix_view(), path@));
        r
    }

    /// Read a `git show <revision>:<prefix><path>` capture: the content when it succeeded (`None`
    /// when not valid UTF-8), or a request to tell an absent path from an operational failure.
    pub fn show(&self, revision: &str, path: &str, capture: &GitCapture) -> (r: ShowStep)
        ensures
            match *capture {
                GitCapture::Completed { success, stdout, stdout_exact, .. } => if success {
                    r matches ShowStep::Done(Ok(c)) && (if stdout_exact {
                        c matches Some(t) && t@ == stdout@
                    } else {
                        c is None
                    })
                } else {
                    r == ShowStep::CheckExists
                },
                _ => r matches ShowStep::Done(Err(e)) && is_incomplete_error(
                    *capture,
                    "show "@ + object_text(revision@, self.prefix_view(), path@),
                    e,
                ),
            },
    {
        match capture {
            GitCapture::Completed { success, stdout, stdout_exact, .. } => {
                if !*success {
                    return ShowStep::CheckExists;
                }
                if *stdout_exact {
                    ShowStep::Done(Ok(Some(stdout.clone())))
                } else {
                    ShowStep::Done(Ok(None))
                }
            },
            _ => {
                let mut label = owned("show ");
                let object = self.show_object(revision, path);
                push_str(&mut label, object.as_str());
                ShowStep::Done(Err(incomplete(capture, label.as_str())))
            },
        }
    }

    /// Tell a failed `git show` apart with `git cat-file -e` on the same object: when the object
    /// exists, `show`'s failure was operational and is reported; when it does not, the path simply
    /// has no content at that revision.
    pub fn show_after_check(
        &self,
        revision: &str,
        path: &str,
        show_capture: &GitCapture,
        exists_capture: &GitCapture,
    ) -> (r: Result<Option<String>, GitError>)
        requires
            *show_capture is Completed,
        ensures
            match *exists_capture {
                GitCapture::Completed { success, .. } => if success {
                    r matches Err(e) && is_reported_failure(
                        *show_capture,
                        "show "@ + object_text(revision@, self.prefix_view(), path@),
                        e,
                    )
                } else {
                    r matches Ok(c) && c is None
                },
                _ => r matches Err(e) && is_incomplete_error(
                    *exists_capture,
                    "cat-file -e "@ + object_text(revision@, self.prefix_view(), path@),
                    e,
                ),
            },
    {
        let object = self.show_object(revision, path);
        match exists_capture {
            GitCapture::Completed { success, .. } => {
                if *success {
                    let mut label = owned("show ");
                    push_str(&mut label, object.as_str());
                    Err(reported_failure(show_capture, label.as_str()))
                } else {
                    Ok(None)
                }
            },
            _ => {
                let mut label = owned("cat-file -e ");
                push_str(&mut label, object.as_str());
                Err(incomplete(exists_capture, label.as_str()))
            },
        }
    }
}

/// How a revision specification splits as git's range syntax parses it: a three-dot range
/// (`A...B`) is recognized before a two-dot range (`A..B`), since the former also contains `..`.
#[derive(Debug, Clone, PartialEq, Eq)]
pub enum RangeSplit {
    /// `A...B`: the merge base of `A` and `B`.
    ThreeDot(String, String),
    /// `A..B`: `A` itself.
    TwoDot(String, String),
}

/// The split of a specification at its first `...`, else its first `..`, as (three-dot, left,
/// right); `None` for a single revision.
pub open spec fn range_split_spec(spec: Seq<char>) -> Option<(bool, Seq<char>, Seq<char>)> {
    match find_from(spec, "..."@, 0) {
        Some(i) => Some((true, spec.take(i), spec.skip(i + 3))),
        None => match find_from(spec, ".."@, 0) {
            Some(i) => Some((false, spec.take(i), spec.skip(i + 2))),
            None => None,
        },
    }
}

/// The split of a range value as plain values.
pub open spec fn range_split_view(r: Option<RangeSplit>) -> Option<(bool, Seq<char>, Seq<char>)> {
    match r {
        Some(RangeSplit::ThreeDot(a, b)) => Some((true, a@, b@)),
        Some(RangeSplit::TwoDot(a, b)) => Some((false, a@, b@)),
        None => None,
    }
}

/// Split a revision specification into its range endpoints, or `None` for a single revision.
pub fn split_range(spec: &str) -> (r: Option<RangeSplit>)
    ensures
        range_split_view(r) == range_split_spec(spec@),
{
    let sc = chars_of(spec);
    let n = sc.len();
    let three = chars_of("...");
    let two = chars_of("..");
    proof {
        reveal_strlit("...");
        reveal_strlit("..");
        lemma_find_from(sc@, three@, 0);
        lemma_find_from(sc@, two@, 0);
    }
    match find_from_exec(&sc, &three, 0) {
        Some(i) => {
            assert(three@.len() == 3);
            assert(occurs_at(sc@, three@, i as int));
            assert(i + 3 <= sc@.len());
            let left = slice_to_vec(&sc, 0, i);
            let right = slice_to_vec(&sc, i + 3, n);
            assert(left@ =~= spec@.take(i as int));
            assert(right@ =~= spec@.skip(i + 3));
            Some(RangeSplit::ThreeDot(string_of(&left), string_of(&right)))
        },
        None => match find_from_exec(&sc, &two, 0) {
            Some(i) => {
                assert(two@.len() == 2);
                assert(occurs_at(sc@, two@, i as int));
                assert(i + 2 <= sc@.len());
                let left = slice_to_vec(&sc, 0, i);
                let right = slice_to_vec(&sc, i + 2, n);
                assert(left@ =~= spec@.take(i as int));
                assert(right@ =~= spec@.skip(i + 2));
                Some(RangeSplit::TwoDot(string_of(&left), string_of(&right)))
            },
            None => None,
        },
    }
}

/// The next `git` invocation a revision resolution needs, or its outcome.
#[derive(Debug, PartialEq, Eq)]
pub enum RevisionStep<T> {
    /// Resolve `endpoint` to its commit id; an endpoint that does not resolve is reported as the
    /// bad specification `original`.
    Resolve {
        /// The revision expression to resolve.
        endpoint: String,
        /// The specification the caller typed.
        original: String,
    },
    /// Find the merge base of two resolved ids; none is reported as the bad specification
    /// `original`.
    MergeBase {
        /// The first id.
        a: String,
        /// The second id.
        b: String,
        /// The specification the caller typed.
        original: String,
    },
    /// The resolution's outcome.
    Done(T),
}

/// A resolution step as plain values.
pub enum StepView {
    /// Resolve an endpoint, reporting the original specification if it does not resolve.
    Resolve(Seq<char>, Seq<char>),
    /// Find a merge base, reporting the original specification if there is none.
    MergeBase(Seq<char>, Seq<char>, Seq<char>),
    /// Refuse the original specification as a bad revision.
    Refuse(Seq<char>),
    /// Finish with this commit id.
    Found(Seq<char>),
    /// Finish with no commit id.
    NotARange,
}

/// A base-revision step as plain values.
pub open spec fn base_step_view(step: RevisionStep<Result<String, GitError>>) -> StepView {
    match step {
        RevisionStep::Resolve { endpoint, original } => StepView::Resolve(endpoint@, original@),
        RevisionStep::MergeBase { a, b, original } => StepView::MergeBase(a@, b@, original@),
        RevisionStep::Done(Ok(id)) => StepView::Found(id@),
        RevisionStep::Done(Err(GitError::BadRevspec(s))) => StepView::Refuse(s@),
        RevisionStep::Done(Err(_)) => StepView::NotARange,
    }
}

/// A range-head step as plain values.
pub open spec fn head_step_view(step: RevisionStep<Result<Option<String>, GitError>>) -> StepView {
    match step {
        RevisionStep::Resolve { endpoint, original } => StepView::Resolve(endpoint@, original@),
        RevisionStep::MergeBase { a, b, original } => StepView::MergeBase(a@, b@, original@),
        RevisionStep::Done(Ok(Some(id))) => StepView::Found(id@),
        RevisionStep::Done(Ok(None)) => StepView::NotARange,
        RevisionStep::Done(Err(GitError::BadRevspec(s))) => StepView::Refuse(s@),
        RevisionStep::Done(Err(_)) => StepView::Found(Seq::empty()),
    }
}

/// An endpoint as git resolves it: an empty endpoint means `HEAD`.
pub open spec fn endpoint_of(e: Seq<char>) -> Seq<char> {
    if e.len() == 0 {
        "HEAD"@
    } else {
        e
    }
}

/// The endpoints a mode's base resolves, in order.
pub open spec fn base_endpoints(mode: SeedMode) -> Seq<Seq<char>> {
    match mode {
        SeedMode::Revspec(spec) => match range_split_spec(spec@) {
            Some((_, left, right)) => seq![left, right],
            None => seq![spec@],
        },
        _ => seq!["HEAD"@],
    }
}

/// The specification a mode's failures name.
pub open spec fn base_original(mode: SeedMode) -> Seq<char> {
    match mode {
        SeedMode::Revspec(spec) => spec@,
        _ => "HEAD"@,
    }
}

/// Whether a mode's base is the merge base of its endpoints (a three-dot range).
pub open spec fn base_merges(mode: SeedMode) -> bool {
    mode matches SeedMode::Revspec(spec) && range_split_spec(spec@) matches Some((true, _, _))
}

/// The step of resolving the endpoint `e` of a specification, refusing one that begins with `-`:
/// it would reach `git` as an option, never as a revision.
pub open spec fn resolve_step(e: Seq<char>, original: Seq<char>) -> StepView {
    let endpoint = endpoint_of(e);
    if endpoint[0] == '-' {
        StepView::Refuse(original)
    } else {
        StepView::Resolve(endpoint, original)
    }
}

/// The next step of resolving `mode`'s pre-change revision, given the ids resolved so far: each
/// endpoint in turn; then, for a three-dot range, the merge base of the two; then the result — the
/// merge base, or the first endpoint (`HEAD` for the working tree and the staged change).
pub open spec fn base_step(mode: SeedMode, resolved: Seq<Seq<char>>) -> StepView {
    let ends = base_endpoints(mode);
    let n = resolved.len();
    if n < ends.len() {
        resolve_step(ends[n as int], base_original(mode))
    } else if base_merges(mode) && n == ends.len() {
        StepView::MergeBase(resolved[0], resolved[1], base_original(mode))
    } else if base_merges(mode) {
        StepView::Found(resolved[2])
    } else {
        StepView::Found(resolved[0])
    }
}

/// The next step of resolving the head endpoint of `mode`'s range: `NotARange` for the working
/// tree, the staged change, or a single revision; otherwise the right-hand endpoint, resolved.
pub open spec fn head_step(mode: SeedMode, resolved: Seq<Seq<char>>) -> StepView {
    match mode {
        SeedMode::Revspec(spec) => match range_split_spec(spec@) {
            Some((_, _, right)) => if resolved.len() == 0 {
                resolve_step(right, spec@)
            } else {
                StepView::Found(resolved[0])
            },
            None => StepView::NotARange,
        },
        _ => StepView::NotARange,
    }
}

/// The step for endpoint `e`: a refusal naming `original` when it would reach `git` as an option,
/// else a resolution.
fn endpoint_step<T>(e: &str, original: &str) -> (r: RevisionStep<Result<T, GitError>>)
    ensures
        match resolve_step(e@, original@) {
            StepView::Refuse(s) => r matches RevisionStep::Done(Err(GitError::BadRevspec(x))) && x@ == s,
            StepView::Resolve(en, o) => r matches RevisionStep::Resolve { endpoint, original: og }
                && endpoint@ == en && og@ == o,
            _ => false,
        },
{
    let ec = chars_of(e);
    let endpoint = if ec.len() == 0 {
        owned("HEAD")
    } else {
        owned(e)
    };
    let epc = chars_of(endpoint.as_str());
    proof {
        reveal_strlit("HEAD");
    }
    if epc[0] == '-' {
        RevisionStep::Done(Err(GitError::BadRevspec(owned(original))))
    } else {
        RevisionStep::Resolve { endpoint, original: owned(original) }
    }
}

impl GitRepo {
    /// The next step of resolving the pre-change revision for `mode`, given the commit ids the
    /// steps so far resolved (see `base_step`). `WorkingTree` and `Staged` resolve `HEAD`; a
    /// three-dot range resolves to its endpoints' merge base, a two-dot range to its left endpoint
    /// once the right one also resolves, and a single revision to itself.
    pub fn base_revision(&self, mode: &SeedMode, resolved: &[String]) -> (r: RevisionStep<
        Result<String, GitError>,
    >)
        requires
            resolved.len() <= base_endpoints(*mode).len() + if base_merges(*mode) {
                1int
            } else {
                0
            },
        ensures
            base_step_view(r) == base_step(*mode, resolved@.map_values(|s: String| s@)),
    {
        let ghost rv = resolved@.map_values(|s: String| s@);
        match mode {
            SeedMode::WorkingTree | SeedMode::Staged => {
                if resolved.len() == 0 {
                    proof {
                        reveal_strlit("HEAD");
                    }
                    RevisionStep::Resolve { endpoint: owned("HEAD"), original: owned("HEAD") }
                } else {
                    assert(rv[0] == resolved@[0]@);
                    RevisionStep::Done(Ok(resolved[0].clone()))
                }
            },
            SeedMode::Revspec(spec) => {
                let split = split_range(spec.as_str());
                match split {
                    None => {
                        if resolved.len() == 0 {
                            endpoint_step(spec.as_str(), spec.as_str())
                        } else {
                            assert(rv[0] == resolved@[0]@);
                            RevisionStep::Done(Ok(resolved[0].clone()))
                        }
                    },
                    Some(RangeSplit::TwoDot(left, right)) => {
                        if resolved.len() == 0 {
                            endpoint_step(left.as_str(), spec.as_str())
                        } else if resolved.len() == 1 {
                            endpoint_step(right.as_str(), spec.as_str())
                        } else {
                            assert(rv[0] == resolved@[0]@);
                            RevisionStep::Done(Ok(resolved[0].clone()))
                        }
                    },
                    Some(RangeSplit::ThreeDot(left, right)) => {
                        if resolved.len() == 0 {
                            endpoint_step(left.as_str(), spec.as_str())
                        } else if resolved.len() == 1 {
                            endpoint_step(right.as_str(), spec.as_str())
                        } else if resolved.len() == 2 {
                            assert(rv[0] == resolved@[0]@ && rv[1] == resolved@[1]@);
                            RevisionStep::MergeBase {
                                a: resolved[0].clone(),
                                b: resolved[1].clone(),
                                original: spec.clone(),
                            }
                        } else {
                            assert(rv[2] == resolved@[2]@);
                            RevisionStep::Done(Ok(resolved[2].clone()))
                        }
                    },
                }
            },
        }
    }

    /// The next step of resolving the head endpoint of `mode`'s range (see `head_step`): `None`
    /// for the working tree, the staged change, or a single revision.
    pub fn range_head(&self, mode: &SeedMode, resolved: &[String]) -> (r: RevisionStep<
        Result<Option<String>, GitError>,
    >)
        requires
            resolved.len() <= 1,
        ensures
            head_step_view(r) == head_step(*mode, resolved@.map_values(|s: String| s@)),
    {
        let ghost rv = resolved@.map_values(|s: String| s@);
        match mode {
            SeedMode::Revspec(spec) => match split_range(spec.as_str()) {
                Some(RangeSplit::ThreeDot(_, right)) | Some(RangeSplit::TwoDot(_, right)) => {
                    if resolved.len() == 0 {
                        endpoint_step(right.as_str(), spec.as_str())
                    } else {
                        assert(rv[0] == resolved@[0]@);
                        RevisionStep::Done(Ok(Some(resolved[0].clone())))
                    }
                },
                None => RevisionStep::Done(Ok(None)),
            },
            _ => RevisionStep::Done(Ok(None)),
        }
    }
}

/// The invocation label of a resolution step.
pub open spec fn step_label<T>(step: RevisionStep<T>) -> Seq<char> {
    match step {
        RevisionStep::Resolve { endpoint, .. } => "rev-parse --verify --quiet "@ + endpoint@,
        RevisionStep::MergeBase { a, b, .. } => "merge-base "@ + a@ + " "@ + b@,
        RevisionStep::Done(_) => Seq::empty(),
    }
}

/// The specification a resolution step's failure names.
pub open spec fn step_original<T>(step: RevisionStep<T>) -> Seq<char> {
    match step {
        RevisionStep::Resolve { original, .. } => original@,
        RevisionStep::MergeBase { original, .. } => original@,
        RevisionStep::Done(_) => Seq::empty(),
    }
}

impl<T> RevisionStep<T> {
    /// The `git` arguments this step runs: `rev-parse --verify --quiet <endpoint>^{commit}`, or
    /// `merge-base <a> <b>`.
    pub fn invocation(&self) -> (r: Vec<String>)
        requires
            !(*self is Done),
        ensures
            match *self {
                RevisionStep::Resolve { endpoint, .. } => strings_view(r@) == seq![
                    "rev-parse"@,
                    "--verify"@,
                    "--quiet"@,
                    endpoint@ + "^{commit}"@,
                ],
                RevisionStep::MergeBase { a, b, .. } => strings_view(r@) == seq!["merge-base"@, a@, b@],
                RevisionStep::Done(_) => true,
            },
    {
        let mut r: Vec<String> = Vec::new();
        match self {
            RevisionStep::Resolve { endpoint, .. } => {
                push_owned(&mut r, "rev-parse");
                push_owned(&mut r, "--verify");
                push_owned(&mut r, "--quiet");
                let mut arg = endpoint.clone();
                push_str(&mut arg, "^{commit}");
                let ghost before = r@;
                let ghost av = arg@;
                r.push(arg);
                assert(strings_view(r@) =~= strings_view(before).push(av));
            },
            RevisionStep::MergeBase { a, b, .. } => {
                push_owned(&mut r, "merge-base");
                push_owned(&mut r, a.as_str());
                push_owned(&mut r, b.as_str());
            },
            RevisionStep::Done(_) => {},
        }
        r
    }

    /// Read the capture of this step's invocation: the commit id it printed, trimmed; a refusal
    /// of the original specification when it exited unsuccessfully; or a timeout or absent `git`.
    pub fn absorb(&self, capture: &GitCapture) -> (r: Result<String, GitError>)
        requires
            !(*self is Done),
        ensures
            match *capture {
                GitCapture::Completed { success, stdout, .. } => if success {
                    r matches Ok(id) && id@ == trim(stdout@)
                } else {
                    r matches Err(GitError::BadRevspec(s)) && s@ == step_original(*self)
                },
                _ => r matches Err(e) && is_incomplete_error(*capture, step_label(*self), e),
            },
    {
        match capture {
            GitCapture::Completed { success, stdout, .. } => {
                if !*success {
                    let original = match self {
                        RevisionStep::Resolve { original, .. } => original.clone(),
                        RevisionStep::MergeBase { original, .. } => original.clone(),
                        RevisionStep::Done(_) => String::new(),
                    };
                    return Err(GitError::BadRevspec(original));
                }
                let sc = chars_of(stdout.as_str());
                let t = trim_chars(&sc);
                Ok(string_of(&t))
            },
            _ => {
                let mut label = String::new();
                match self {
                    RevisionStep::Resolve { endpoint, .. } => {
                        push_str(&mut label, "rev-parse --verify --quiet ");
                        push_str(&mut label, endpoint.as_str());
                    },
                    RevisionStep::MergeBase { a, b, .. } => {
                        push_str(&mut label, "merge-base ");
                        push_str(&mut label, a.as_str());
                        push_str(&mut label, " ");
                        push_str(&mut label, b.as_str());
                    },
                    RevisionStep::Done(_) => {},
                }
                Err(incomplete(capture, label.as_str()))
            },
        }
    }
}

/// No resolution step ever hands `git` an endpoint that begins with `-`: a dash-prefixed endpoint
/// is refused as a bad revision instead, so no part of a caller's specification reaches `git` as
/// an option.
pub proof fn lemma_no_option_reaches_git(mode: SeedMode, resolved: Seq<Seq<char>>)
    ensures
        base_step(mode, resolved) matches StepView::Resolve(e, _) ==> e.len() > 0 && e[0] != '-',
        head_step(mode, resolved) matches StepView::Resolve(e, _) ==> e.len() > 0 && e[0] != '-',
{
    reveal_strlit("HEAD");
}


/// Every `git diff` invocation runs `diff` under the same fixed flags — paths unquoted, no colour,
/// no external or textconv driver, no `a/`/`b/` prefixes, rename detection, no context lines,
/// paths relative to the invocation directory — and ends with what the change is measured
/// against: `HEAD` for the working tree, `--cached HEAD` for the staged change, and the revision
/// expression itself otherwise. So the working tree is diffed exactly as the expression `HEAD`
/// is, and the staged change differs from it only by `--cached`.
pub proof fn lemma_diff_invocation_base(mode: SeedMode, head: String)
    requires
        head@ == "HEAD"@,
    ensures
        diff_args_spec(mode).take(10) == seq![
            "-c"@,
            "core.quotepath=false"@,
            "diff"@,
            "--no-color"@,
            "--no-ext-diff"@,
            "--no-textconv"@,
            "--no-prefix"@,
            "--find-renames"@,
            "--unified=0"@,
            "--relative"@,
        ],
        diff_args_spec(mode).skip(10) == match mode {
            SeedMode::WorkingTree => seq!["HEAD"@],
            SeedMode::Staged => seq!["--cached"@, "HEAD"@],
            SeedMode::Revspec(spec) => seq![spec@],
        },
        diff_args_spec(SeedMode::WorkingTree) == diff_args_spec(SeedMode::Revspec(head)),
        diff_args_spec(SeedMode::Staged) == diff_args_spec(SeedMode::WorkingTree).drop_last().push("--cached"@).push(
            "HEAD"@,
        ),
{
    let a = diff_args_spec(mode);
    assert(a.take(10) =~= seq![
        "-c"@,
        "core.quotepath=false"@,
        "diff"@,
        "--no-color"@,
        "--no-ext-diff"@,
        "--no-textconv"@,
        "--no-prefix"@,
        "--find-renames"@,
        "--unified=0"@,
        "--relative"@,
    ]);
    match mode {
        SeedMode::WorkingTree => assert(a.skip(10) =~= seq!["HEAD"@]),
        SeedMode::Staged => assert(a.skip(10) =~= seq!["--cached"@, "HEAD"@]),
        SeedMode::Revspec(spec) => assert(a.skip(10) =~= seq![spec@]),
    }
    assert(diff_args_spec(SeedMode::Staged) =~= diff_args_spec(SeedMode::WorkingTree).drop_last().push("--cached"@).push(
        "HEAD"@,
    ));
}

} // verus!
