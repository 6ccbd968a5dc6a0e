use silent_cartographer::exit::Failure;
use silent_cartographer::git::{
    diff_invocation, split_range, ClassifiedGitError, GitCapture, GitError, GitRepo, RangeSplit, RevisionStep,
    SeedMode, ShowStep,
};

fn ok(stdout: &str) -> GitCapture {
    GitCapture::Completed { success: true, stdout: stdout.to_string(), stdout_exact: true, stderr: String::new() }
}

fn failed(stderr: &str) -> GitCapture {
    GitCapture::Completed { success: false, stdout: String::new(), stdout_exact: true, stderr: stderr.to_string() }
}

fn repo(prefix_line: &str) -> GitRepo {
    GitRepo::discover("/w", &ok(&format!("true\n{prefix_line}\n"))).unwrap()
}

/// Drive a revision resolution to its end, answering each resolution step from `answers`.
fn drive(repo: &GitRepo, mode: &SeedMode, answers: &[GitCapture]) -> Result<String, GitError> {
    let mut resolved: Vec<String> = Vec::new();
    let mut next = 0;
    loop {
        match repo.base_revision(mode, &resolved) {
            RevisionStep::Done(result) => return result,
            step => {
                let capture = &answers[next];
                next += 1;
                resolved.push(step.absorb(capture)?);
            }
        }
    }
}

#[test]
fn discover_outside_a_repository_is_not_a_worktree() {
    let result = GitRepo::discover("/tmp/plain", &failed("fatal: not a git repository"));
    assert!(matches!(result, Err(GitError::NotAWorktree(ref p)) if p == "/tmp/plain"), "{result:?}");
    let result = GitRepo::discover("/tmp/plain", &ok("false\n"));
    assert!(matches!(result, Err(GitError::NotAWorktree(_))), "{result:?}");
}

#[test]
fn discover_reports_the_prefix_relative_to_the_repository_root() {
    assert_eq!(repo("").prefix(), "");
    assert_eq!(repo("sub/").prefix(), "sub/");
    let at_root = GitRepo::discover("/w", &ok("true\n")).unwrap();
    assert_eq!(at_root.prefix(), "");
}

#[test]
fn an_incomplete_invocation_is_a_timeout_or_an_absent_git() {
    let timed_out = GitRepo::discover("/w", &GitCapture::TimedOut).unwrap_err();
    assert_eq!(
        timed_out,
        GitError::Timeout { invocation: "rev-parse --is-inside-work-tree --show-prefix".to_string() }
    );
    let absent = GitRepo::discover("/w", &GitCapture::SpawnFailed("No such file".to_string())).unwrap_err();
    assert_eq!(absent, GitError::Absent("No such file".to_string()));
}

#[test]
fn base_revision_working_tree_and_staged_resolve_head() {
    let r = repo("");
    let first = r.base_revision(&SeedMode::WorkingTree, &[]);
    assert_eq!(
        first,
        RevisionStep::Resolve { endpoint: "HEAD".to_string(), original: "HEAD".to_string() }
    );
    assert_eq!(
        first.invocation(),
        vec!["rev-parse".to_string(), "--verify".to_string(), "--quiet".to_string(), "HEAD^{commit}".to_string()]
    );
    assert_eq!(drive(&r, &SeedMode::WorkingTree, &[ok("abc123\n")]), Ok("abc123".to_string()));
    assert_eq!(drive(&r, &SeedMode::Staged, &[ok("abc123\n")]), Ok("abc123".to_string()));
    assert_eq!(
        drive(&r, &SeedMode::Staged, &[failed("")]),
        Err(GitError::BadRevspec("HEAD".to_string()))
    );
}

#[test]
fn base_revision_two_dot_range_resolves_to_the_left_endpoint() {
    let r = repo("");
    let mode = SeedMode::Revspec("aaa..HEAD".to_string());
    assert_eq!(drive(&r, &mode, &[ok("aaa\n"), ok("bbb\n")]), Ok("aaa".to_string()));
}

#[test]
fn base_revision_three_dot_range_resolves_to_the_merge_base() {
    let r = repo("");
    let mode = SeedMode::Revspec("aaa...bbb".to_string());
    assert_eq!(
        r.base_revision(&mode, &["a1".to_string(), "b1".to_string()]),
        RevisionStep::MergeBase { a: "a1".to_string(), b: "b1".to_string(), original: "aaa...bbb".to_string() }
    );
    assert_eq!(drive(&r, &mode, &[ok("a1\n"), ok("b1\n"), ok("root\n")]), Ok("root".to_string()));
    assert_eq!(
        drive(&r, &mode, &[ok("a1\n"), ok("b1\n"), failed("")]),
        Err(GitError::BadRevspec("aaa...bbb".to_string()))
    );
}

#[test]
fn base_revision_bare_revision_resolves_to_itself() {
    let r = repo("");
    assert_eq!(drive(&r, &SeedMode::Revspec("HEAD".to_string()), &[ok("head-id\n")]), Ok("head-id".to_string()));
}

#[test]
fn base_revision_rejects_garbage_and_leading_dash_specs() {
    let r = repo("");
    assert_eq!(
        drive(&r, &SeedMode::Revspec("not-a-revision-at-all".to_string()), &[failed("")]),
        Err(GitError::BadRevspec("not-a-revision-at-all".to_string()))
    );
    assert_eq!(
        drive(&r, &SeedMode::Revspec("--force".to_string()), &[]),
        Err(GitError::BadRevspec("--force".to_string()))
    );
    let smuggled = SeedMode::Revspec("HEAD..--upload-pack=evil".to_string());
    assert_eq!(
        drive(&r, &smuggled, &[ok("head\n")]),
        Err(GitError::BadRevspec("HEAD..--upload-pack=evil".to_string()))
    );
    assert!(matches!(diff_invocation(&smuggled), Err(GitError::BadRevspec(_))));
    assert!(matches!(r.diff(&smuggled, &ok("patch")), Err(GitError::BadRevspec(_))));
}

#[test]
fn the_diff_invocation_refuses_a_dash_endpoint_after_three_dots() {
    let three = SeedMode::Revspec("HEAD...-x".to_string());
    assert_eq!(diff_invocation(&three), Err(GitError::BadRevspec("HEAD...-x".to_string())));
    assert!(diff_invocation(&SeedMode::Revspec("HEAD...main".to_string())).is_ok());
    assert!(diff_invocation(&SeedMode::Revspec("a.-b".to_string())).is_ok());
}

#[test]
fn an_empty_endpoint_means_head() {
    let r = repo("");
    assert_eq!(
        r.base_revision(&SeedMode::Revspec("..main".to_string()), &[]),
        RevisionStep::Resolve { endpoint: "HEAD".to_string(), original: "..main".to_string() }
    );
}

#[test]
fn range_head_resolves_the_right_endpoint_and_none_for_a_bare_revision() {
    let r = repo("");
    assert_eq!(
        r.range_head(&SeedMode::Revspec("root..HEAD".to_string()), &[]),
        RevisionStep::Resolve { endpoint: "HEAD".to_string(), original: "root..HEAD".to_string() }
    );
    assert_eq!(
        r.range_head(&SeedMode::Revspec("root...HEAD".to_string()), &["head".to_string()]),
        RevisionStep::Done(Ok(Some("head".to_string())))
    );
    assert_eq!(r.range_head(&SeedMode::Revspec("HEAD".to_string()), &[]), RevisionStep::Done(Ok(None)));
    assert_eq!(r.range_head(&SeedMode::WorkingTree, &[]), RevisionStep::Done(Ok(None)));
}

#[test]
fn ranges_split_three_dot_before_two_dot() {
    assert_eq!(split_range("a...b"), Some(RangeSplit::ThreeDot("a".to_string(), "b".to_string())));
    assert_eq!(split_range("a..b"), Some(RangeSplit::TwoDot("a".to_string(), "b".to_string())));
    assert_eq!(split_range("a"), None);
}

#[test]
fn the_diff_invocation_names_every_load_bearing_flag() {
    let args = diff_invocation(&SeedMode::Staged).unwrap();
    assert_eq!(
        args,
        [
            "-c", "core.quotepath=false", "diff", "--no-color", "--no-ext-diff", "--no-textconv", "--no-prefix",
            "--find-renames", "--unified=0", "--relative", "--cached", "HEAD"
        ]
        .iter()
        .map(|s| s.to_string())
        .collect::<Vec<_>>()
    );
    let r = repo("");
    assert_eq!(r.diff(&SeedMode::WorkingTree, &ok("@@ -1 +1 @@\n")), Ok("@@ -1 +1 @@\n".to_string()));
    let not_utf8 = GitCapture::Completed {
        success: true,
        stdout: "\u{fffd}".to_string(),
        stdout_exact: false,
        stderr: String::new(),
    };
    assert_eq!(
        r.diff(&SeedMode::WorkingTree, &not_utf8),
        Err(GitError::Failed {
            invocation: "diff".to_string(),
            stderr: "the patch was not valid UTF-8".to_string()
        })
    );
}

#[test]
fn show_returns_pre_change_content_and_none_for_an_absent_path() {
    let r = repo("sub/");
    assert_eq!(r.show_object("abc", "file.txt"), "abc:sub/file.txt");
    assert_eq!(r.show("abc", "file.txt", &ok("before\n")), ShowStep::Done(Ok(Some("before\n".to_string()))));
    assert_eq!(r.show("abc", "missing.txt", &failed("fatal")), ShowStep::CheckExists);
    assert_eq!(r.show_after_check("abc", "missing.txt", &failed("fatal"), &failed("")), Ok(None));
}

#[test]
fn show_reports_operational_failure_when_show_fails_but_the_object_exists() {
    let r = repo("");
    let result = r.show_after_check("abc", "file.txt", &failed("fatal: stub operational failure"), &ok(""));
    assert_eq!(
        result,
        Err(GitError::Failed {
            invocation: "show abc:file.txt".to_string(),
            stderr: "fatal: stub operational failure".to_string()
        })
    );
}

#[test]
fn tracked_files_lists_committed_and_omits_untracked() {
    let r = repo("");
    assert_eq!(
        r.tracked_files(&ok("tracked.txt\0src/a.rs\0")),
        Ok(vec!["tracked.txt".to_string(), "src/a.rs".to_string()])
    );
    assert_eq!(
        r.tracked_files(&failed("boom")),
        Err(GitError::Failed { invocation: "ls-files -z".to_string(), stderr: "boom".to_string() })
    );
}

#[test]
fn unstaged_paths_lists_only_files_with_an_unstaged_edit() {
    let r = repo("");
    assert_eq!(r.unstaged_paths(&ok("unstaged.txt\n")), Ok(vec!["unstaged.txt".to_string()]));
}

#[test]
fn uncommitted_paths_lists_both_staged_and_unstaged_edits() {
    let r = repo("");
    assert_eq!(
        r.uncommitted_paths(&ok("staged.txt\r\nunstaged.txt\n\n")),
        Ok(vec!["staged.txt".to_string(), "unstaged.txt".to_string()])
    );
}

#[test]
fn the_hook_path_is_read_trimmed() {
    let r = repo("");
    assert_eq!(r.post_commit_hook_path(&ok(".git/hooks/post-commit\n")), Ok(".git/hooks/post-commit".to_string()));
}

#[test]
fn git_failures_land_on_the_exit_taxonomy() {
    let timeout = GitError::Timeout { invocation: "diff".to_string() };
    assert_eq!(
        timeout.into_failure(10),
        ClassifiedGitError::Tagged(Failure::IndexerSetup(
            "git diff did not complete within the 10-second bounded deadline".to_string()
        ))
    );
    assert_eq!(
        GitError::BadRevspec("x".to_string()).into_failure(10),
        ClassifiedGitError::Tagged(Failure::Usage("x is not a valid revision in this repository".to_string()))
    );
    assert_eq!(
        GitError::Failed { invocation: "diff".to_string(), stderr: "bad".to_string() }.into_failure(10),
        ClassifiedGitError::General("git diff failed: bad".to_string())
    );
    assert_eq!(
        GitError::NotAWorktree("/w".to_string()).message(10),
        "/w is not inside a git worktree"
    );
}
