use silent_cartographer::commands::{
    diff_reconstructible, impact_reference, impact_seed_changes, index_language, resolve_workspace,
    sources_outside_git,
    build_accounting_line, build_outcome_line, cache_verdict, content_bound_misuse, detect_language,
    hook_install_plan, is_discovered_path, parse_position, post_commit_hook_script, render_cache_report,
    render_doctor_report, render_hook_report, revert_changes, run_doctor, seed_mode_label, shell_quote,
    validate_chunk_params, workspace_handoff_notice, workspace_relation, BuildOutcome, CacheOutcome, CacheVerdict, HookOutcome,
    IndexerStatus, Presence, ProbeReport,
};
use silent_cartographer::exit::Failure;
use silent_cartographer::git::SeedMode;
use silent_cartographer::graph::chunk::ChunkParams;
use silent_cartographer::graph::content_hash;
use silent_cartographer::graph::join::{AlignmentRule, JoinAccounting};
use silent_cartographer::graph::store::{HeaderRead, StoreOpenError};
use silent_cartographer::graph::syntax::Language;
use silent_cartographer::query::{ChangeKind, FileChange, WorkspaceRelation};

fn change(kind: ChangeKind, pre_path: Option<&str>, post_path: Option<&str>) -> FileChange {
    FileChange::new(kind, pre_path.map(str::to_string), post_path.map(str::to_string))
}

fn pairs(items: &[(&str, &str)]) -> Vec<(String, String)> {
    items.iter().map(|(a, b)| (a.to_string(), b.to_string())).collect()
}

fn lookup<'a>(set: &'a [(String, String)], path: &str) -> Option<&'a String> {
    set.iter().find(|(p, _)| p == path).map(|(_, t)| t)
}

#[test]
fn revert_changes_undoes_each_change_kind() {
    let sources = pairs(&[
        ("src/modified.rs", "after"),
        ("src/added.rs", "new content"),
        ("src/renamed_to.rs", "renamed content"),
        ("src/untouched.rs", "unchanged"),
    ]);
    let changes = vec![
        change(ChangeKind::Modified, Some("src/modified.rs"), Some("src/modified.rs")),
        change(ChangeKind::Added, None, Some("src/added.rs")),
        change(ChangeKind::Deleted, Some("src/deleted.rs"), None),
        change(ChangeKind::Deleted, Some("target/deleted.rs"), None),
        change(ChangeKind::Renamed, Some("src/renamed_from.rs"), Some("src/renamed_to.rs")),
    ];
    let pre_contents = pairs(&[
        ("src/modified.rs", "before"),
        ("src/deleted.rs", "deleted content"),
        ("target/deleted.rs", "deleted under target"),
        ("src/renamed_from.rs", "pre-rename content"),
    ]);

    let map = revert_changes(&sources, &changes, &pre_contents, Language::Rust);

    assert_eq!(lookup(&map, "src/modified.rs"), Some(&"before".to_string()));
    assert_eq!(lookup(&map, "src/added.rs"), None, "an added file is dropped");
    assert_eq!(lookup(&map, "src/deleted.rs"), Some(&"deleted content".to_string()));
    assert_eq!(
        lookup(&map, "target/deleted.rs"),
        None,
        "a deleted file under target/ is not restored — build would never have discovered it"
    );
    assert_eq!(lookup(&map, "src/renamed_to.rs"), None, "the post-change path is dropped");
    assert_eq!(lookup(&map, "src/renamed_from.rs"), Some(&"pre-rename content".to_string()));
    assert_eq!(lookup(&map, "src/untouched.rs"), Some(&"unchanged".to_string()));
}

#[test]
fn revert_changes_hash_matches_hand_built_pre_change_set() {
    let sources = pairs(&[("src/modified.rs", "after"), ("src/untouched.rs", "unchanged")]);
    let changes = vec![change(ChangeKind::Modified, Some("src/modified.rs"), Some("src/modified.rs"))];
    let pre_contents = pairs(&[("src/modified.rs", "before")]);

    let reverted = revert_changes(&sources, &changes, &pre_contents, Language::Rust);
    let expected = pairs(&[("src/modified.rs", "before"), ("src/untouched.rs", "unchanged")]);
    assert_eq!(content_hash(&reverted), content_hash(&expected));
}

#[test]
fn reverted_sources_come_out_in_path_order_with_later_duplicates_winning() {
    let sources = pairs(&[("b.rs", "b"), ("a.rs", "first"), ("c.rs", "c"), ("a.rs", "second")]);
    let reverted = revert_changes(&sources, &[], &[], Language::Rust);
    assert_eq!(reverted, pairs(&[("a.rs", "second"), ("b.rs", "b"), ("c.rs", "c")]));
}

#[test]
fn a_pre_change_path_without_known_text_is_not_restored() {
    let sources = pairs(&[("src/kept.rs", "kept")]);
    let changes = vec![change(ChangeKind::Deleted, Some("src/gone.rs"), None)];
    let reverted = revert_changes(&sources, &changes, &[], Language::Rust);
    assert_eq!(reverted, pairs(&[("src/kept.rs", "kept")]));
}

#[test]
fn discovery_rules_follow_extension_and_skipped_directories() {
    assert!(is_discovered_path("src/a.rs", Language::Rust));
    assert!(!is_discovered_path("target/b.rs", Language::Rust));
    assert!(!is_discovered_path(".hidden/c.rs", Language::Rust));
    assert!(!is_discovered_path("src/d.txt", Language::Rust));
    assert!(!is_discovered_path("src/.rs", Language::Rust));
    assert!(is_discovered_path("pkg/mod.py", Language::Python));
    assert!(!is_discovered_path("venv/lib/site.py", Language::Python));
    assert!(!is_discovered_path("pkg/mod.rs", Language::Python));
}

#[test]
fn post_commit_hook_script_shell_quotes_values_containing_a_space() {
    let script = post_commit_hook_script(
        "/home/dev/my project",
        "/home/dev/my project/.c10r/index.db",
        "my project",
    );
    assert_eq!(
        script,
        "#!/bin/sh\nc10r build '/home/dev/my project' --db '/home/dev/my project/.c10r/index.db' \
         --workspace 'my project'\n"
    );
}

#[test]
fn a_single_quote_is_closed_escaped_and_reopened() {
    assert_eq!(shell_quote("it's"), "'it'\\''s'");
    assert_eq!(shell_quote(""), "''");
}

#[test]
fn an_existing_hook_is_never_overwritten() {
    let refused = hook_install_plan("/r/.git/hooks/post-commit", true, "/r", "/r/.c10r/index.db", "r");
    let message = refused.expect_err("an existing hook is refused");
    assert!(message.starts_with("a hook already exists at /r/.git/hooks/post-commit; refusing to overwrite it"));
    let script = hook_install_plan("/r/.git/hooks/post-commit", false, "/r", "/r/.c10r/index.db", "r").unwrap();
    assert_eq!(script, "#!/bin/sh\nc10r build '/r' --db '/r/.c10r/index.db' --workspace 'r'\n");
}

#[test]
fn language_detection_follows_the_manifests() {
    assert_eq!(detect_language(Some(Language::Python), true, false, "/w"), Ok(Language::Python));
    assert_eq!(detect_language(None, true, false, "/w"), Ok(Language::Rust));
    assert_eq!(detect_language(None, false, true, "/w"), Ok(Language::Python));
    assert_eq!(
        detect_language(None, true, true, "/w"),
        Err("both Cargo.toml and pyproject.toml are present in /w; pass --language rust|python to select the backend"
            .to_string())
    );
    assert_eq!(
        detect_language(None, false, false, "/w"),
        Err("no supported project was detected in /w (no Cargo.toml or pyproject.toml); pass --language rust|python to select a backend explicitly"
            .to_string())
    );
}

#[test]
fn the_accounting_line_lists_every_bucket_in_vocabulary_order() {
    let mut accounting = JoinAccounting::zero();
    accounting.accept(AlignmentRule::Exact);
    accounting.accept(AlignmentRule::Exact);
    accounting.accept(AlignmentRule::SuperKeyword);
    accounting.text_mismatch = 4;
    accounting.semantic_only = 5;
    accounting.duplicate_ambiguous = 6;
    accounting.syntax_only = 7;
    assert_eq!(
        build_accounting_line(&accounting),
        "built: aligned=3 (exact=2 crate_root=0 operator_desugar=0 module_span=0 self_keyword=0 \
         module_name=0 self_name=0 module_marker=0 import_alias=0 range_literal=0 use_list_self=0 \
         super_keyword=1) text_mismatch=4 semantic_only=5 duplicate_ambiguous=6 syntax_only=7"
    );
}

#[test]
fn an_already_current_build_says_nothing_was_built() {
    let outcome = BuildOutcome::AlreadyCurrent(JoinAccounting::zero());
    assert!(!outcome.rebuilt());
    assert_eq!(
        build_outcome_line(&outcome),
        "already current: sources, analyzer, and environment match the stored index; nothing built \
         (use --force to build anyway)"
    );
    let rebuilt = BuildOutcome::Rebuilt(JoinAccounting::zero());
    assert!(rebuilt.rebuilt());
    assert!(build_outcome_line(&rebuilt).starts_with("built: aligned=0 (exact=0"));
}

#[test]
fn malformed_chunk_parameters_are_usage_errors() {
    assert_eq!(validate_chunk_params(&ChunkParams { chunk_size: 512, overlap: 64 }), Ok(()));
    assert_eq!(
        validate_chunk_params(&ChunkParams { chunk_size: 4, overlap: 0 }),
        Err(Failure::Usage(
            "--chunk-size 4 leaves no room for content beside a passage's header; the minimum is 8".to_string()
        ))
    );
    assert_eq!(
        validate_chunk_params(&ChunkParams { chunk_size: 16, overlap: 16 }),
        Err(Failure::Usage("--chunk-overlap 16 must be smaller than --chunk-size 16".to_string()))
    );
}

#[test]
fn the_workspace_handoff_notice_names_both_roots_only_on_a_handoff() {
    let notice = workspace_handoff_notice(Some("/projects/first"), Some("/projects/second"))
        .expect("a handoff is disclosed");
    assert!(notice.contains("/projects/first"), "names the recorded root: {notice}");
    assert!(notice.contains("/projects/second"), "names the new root: {notice}");
    assert!(
        workspace_handoff_notice(Some("/projects/first"), Some("/projects/first")).is_none(),
        "rebuilding in place is not a handoff"
    );
    assert!(workspace_handoff_notice(None, Some("/projects/first")).is_none());
}

#[test]
fn doctor_reports_each_indexer_in_fixed_columns() {
    let statuses = run_doctor(ProbeReport::Answered("1.2.3".to_string()), ProbeReport::TimedOut, 10);
    assert_eq!(statuses.len(), 2);
    assert!(statuses[0].is_ready());
    assert_eq!(statuses[1].presence, Presence::Unresponsive);
    assert!(!statuses[1].is_ready());
    let report = render_doctor_report(&statuses);
    assert_eq!(
        report,
        "rust-analyzer  present      1.2.3\nscip-python    unresponsive found but did not respond within 10s; \
         check for a stuck process or a slow filesystem"
    );
    let absent = run_doctor(ProbeReport::Failed, ProbeReport::Failed, 10);
    assert_eq!(absent[0].hint.as_deref(), Some("install: rustup component add rust-analyzer"));
    assert_eq!(absent[1].hint.as_deref(), Some("install: npm install -g @sourcegraph/scip-python"));
}

#[test]
fn a_hostile_version_string_is_sanitized_in_the_doctor_report() {
    let status = IndexerStatus {
        name: "tool".to_string(),
        presence: Presence::Present,
        version: Some("1.0\u{1b}[31m\n".to_string()),
        hint: None,
    };
    assert_eq!(render_doctor_report(&[status]), "tool           present      1.0\u{fffd}[31m\u{fffd}");
}

#[test]
fn cache_removes_only_its_own_store() {
    assert_eq!(cache_verdict("/w/index.db", false, &HeaderRead::NotFound), CacheVerdict::NothingToRemove);
    assert_eq!(
        cache_verdict("/w/notes.txt", true, &HeaderRead::Read(b"plain text".to_vec())),
        CacheVerdict::Refuse(Failure::UnrecognizedStore(
            "/w/notes.txt is not a c10r index store, so c10r will not remove it — if you mean to delete it: rm /w/notes.txt"
                .to_string()
        ))
    );
    let mut header = vec![0u8; 100];
    header[..16].copy_from_slice(b"SQLite format 3\0");
    header[68..72].copy_from_slice(&0x6331_3072i32.to_be_bytes());
    assert_eq!(cache_verdict("/w/index.db", true, &HeaderRead::Read(header)), CacheVerdict::Remove);
    assert!(matches!(
        cache_verdict(
            "/w/dir",
            true,
            &HeaderRead::Failed {
                kind: silent_cartographer::graph::store::ExamineFailure::Other,
                message: "denied".to_string()
            }
        ),
        CacheVerdict::Unreadable(StoreOpenError::UnreadableStore { .. })
    ));
}

#[test]
fn cache_and_hook_reports_name_their_paths() {
    assert_eq!(
        render_cache_report(&CacheOutcome { path: "/w/index.db".to_string(), removed: true }),
        "removed index at /w/index.db"
    );
    assert_eq!(
        render_cache_report(&CacheOutcome { path: "/w/index.db".to_string(), removed: false }),
        "nothing to remove at /w/index.db"
    );
    assert_eq!(
        render_hook_report(&HookOutcome { path: "/r/.git/hooks/post-commit".to_string() }),
        "installed hook at /r/.git/hooks/post-commit"
    );
}

#[test]
fn positions_split_at_the_last_colon() {
    assert_eq!(parse_position("src/a:b.rs:42"), Ok(("src/a:b.rs".to_string(), 42)));
    assert_eq!(parse_position("x.rs:+7"), Ok(("x.rs".to_string(), 7)));
    assert_eq!(
        parse_position("no-offset"),
        Err(Failure::Usage("position must be `path:byte_offset`".to_string()))
    );
    assert_eq!(
        parse_position("x.rs:-1"),
        Err(Failure::Usage("invalid byte offset in x.rs:-1".to_string()))
    );
    assert_eq!(
        parse_position("x.rs:99999999999999999999999"),
        Err(Failure::Usage("invalid byte offset in x.rs:99999999999999999999999".to_string()))
    );
}

#[test]
fn content_bounds_outside_content_details_are_refused() {
    assert_eq!(
        content_bound_misuse("--max-lines"),
        Failure::Usage(
            "`--max-lines` applies only to content-bearing details; details that accept it: signature, interface, body"
                .to_string()
        )
    );
}

#[test]
fn seed_modes_have_category_labels() {
    assert_eq!(seed_mode_label(&SeedMode::WorkingTree), "working_tree");
    assert_eq!(seed_mode_label(&SeedMode::Staged), "staged");
    assert_eq!(seed_mode_label(&SeedMode::Revspec("HEAD~1".to_string())), "range");
}

// A store recorded for one root, asked from a root that does not resolve: the comparison cannot be
// made and is disclosed as unknown, never implied to match.
#[test]
fn an_unevaluable_workspace_comparison_is_disclosed_as_unknown() {
    let relation = workspace_relation(Some("/projects/ws"), None);
    assert_eq!(
        relation,
        Some(WorkspaceRelation::Unknown),
        "an unresolvable root leaves the relationship unknown, never implied to match"
    );
}

// A store with no recorded build cannot be compared either, and is likewise disclosed as unknown.
#[test]
fn a_store_without_metadata_is_disclosed_as_unknown() {
    let relation = workspace_relation(None, Some("/tmp/some/workspace"));
    assert_eq!(relation, Some(WorkspaceRelation::Unknown));
}

#[test]
fn a_matching_root_reports_no_relation_and_a_moved_one_names_the_recorded_root() {
    assert_eq!(workspace_relation(Some("/projects/ws"), Some("/projects/ws")), None);
    assert_eq!(
        workspace_relation(Some("/projects/ws"), Some("/elsewhere/ws")),
        Some(WorkspaceRelation::Mismatched { recorded_root: "/projects/ws".to_string() })
    );
}

#[test]
fn impact_seeds_only_from_discoverable_pre_change_paths() {
    let changes = vec![
        change(ChangeKind::Modified, Some("src/lib.rs"), Some("src/lib.rs")),
        change(ChangeKind::Modified, Some("README.md"), Some("README.md")),
        change(ChangeKind::Added, None, Some("src/new.rs")),
        change(ChangeKind::Modified, Some("target/gen.rs"), Some("target/gen.rs")),
    ];
    let seeds = impact_seed_changes(&changes, Language::Rust);
    assert_eq!(seeds, vec![change(ChangeKind::Modified, Some("src/lib.rs"), Some("src/lib.rs"))]);
}

#[test]
fn sources_git_does_not_know_need_their_own_copy_step() {
    let sources = pairs(&[("src/a.rs", "a"), ("src/b.rs", "b"), ("src/c.rs", "c")]);
    let known = vec!["src/b.rs".to_string()];
    assert_eq!(sources_outside_git(&sources, &known), vec!["src/a.rs".to_string(), "src/c.rs".to_string()]);
}

#[test]
fn reconstructibility_follows_the_seed_mode() {
    let changes = vec![change(ChangeKind::Modified, Some("src/a.rs"), Some("src/a.rs"))];
    let none: Vec<String> = Vec::new();
    assert!(diff_reconstructible(&SeedMode::WorkingTree, &changes, &none, None, None, &none, Language::Rust));
    let unstaged = vec!["src/a.rs".to_string()];
    assert!(!diff_reconstructible(&SeedMode::Staged, &changes, &unstaged, None, None, &none, Language::Rust));
    assert!(diff_reconstructible(&SeedMode::Staged, &changes, &vec!["src/z.rs".to_string()], None, None, &none, Language::Rust));
    let range = SeedMode::Revspec("A..B".to_string());
    assert!(diff_reconstructible(&range, &changes, &none, None, None, &none, Language::Rust));
    assert!(diff_reconstructible(&range, &changes, &none, Some("b1"), Some("b1"), &vec!["notes.md".to_string()], Language::Rust));
    assert!(!diff_reconstructible(&range, &changes, &none, Some("b1"), Some("c2"), &none, Language::Rust));
    assert!(!diff_reconstructible(&range, &changes, &none, Some("b1"), Some("b1"), &vec!["src/x.rs".to_string()], Language::Rust));
}

#[test]
fn the_impact_reference_binds_mode_base_paths_and_patch_digest() {
    let paths = vec!["src".to_string(), "lib".to_string()];
    let r = impact_reference(&SeedMode::Staged, "abc123", &paths, "");
    assert_eq!(
        r,
        "staged\u{1f}abc123\u{1f}src\u{1f}lib\u{1f}e3b0c44298fc1c149afbf4c8996fb92427ae41e4649b934ca495991b7852b855"
    );
    let other = impact_reference(&SeedMode::Staged, "abc123", &paths, "diff --git a/x b/x\n");
    assert_ne!(r, other);
}

#[test]
fn the_workspace_identity_is_supplied_or_the_root_directory_name() {
    assert_eq!(resolve_workspace(Some("named"), "/home/u/proj", Some("proj")).unwrap().as_str(), "named");
    assert_eq!(resolve_workspace(None, "/home/u/proj", Some("proj")).unwrap().as_str(), "proj");
    let err = resolve_workspace(None, "/", None).unwrap_err();
    assert!(err.contains("pass --workspace <name>"), "{err}");
    assert!(err.contains("workspace root / "), "{err}");
}

#[test]
fn a_scip_python_index_is_python_and_anything_else_rust() {
    assert_eq!(index_language("scip-python"), Language::Python);
    assert_eq!(index_language("rust-analyzer"), Language::Rust);
}

#[test]
fn the_content_hash_is_independent_of_discovery_order() {
    let a = pairs(&[("src/b.rs", "fn b() {}"), ("src/a.rs", "fn a() {}"), ("src/c.rs", "")]);
    let b = pairs(&[("src/c.rs", ""), ("src/a.rs", "fn a() {}"), ("src/b.rs", "fn b() {}")]);
    assert_eq!(content_hash(&a), content_hash(&b));
    let edited = pairs(&[("src/c.rs", ""), ("src/a.rs", "fn a() { }"), ("src/b.rs", "fn b() {}")]);
    assert_ne!(content_hash(&a), content_hash(&edited));
    // Path, then a zero byte, then text, then a zero byte, per document in path order.
    assert_eq!(
        content_hash(&pairs(&[("a", "b")])),
        "8fb20ef63ced4145fc2e983ffe597d1dcff39154c3bf21f0fa9dde6a0c50fdc9"
    );
}
