use timelapse::cmd::branch::RemoteBranchInfo;
use timelapse::cmd::fetch::{
    auto_stash_entry, auto_stash_step, check_popped, show_fetched, show_reapplied, show_update, sync_plan, AutoStashStep, Popped,
    SyncPlan,
};
use timelapse::cmd::merge::{
    abort_target, check_resolved, conflict_labels, create_merge_checkpoint, is_recorded, merge_action, start_merge, AbortError,
    MergeAction, MergeOutcome, MergeState,
};
use timelapse::cmd::publish::{
    bookmark_display, bookmark_name, check_unpublished, checkpoint_range, publish_request, publishing_line,
    requested_checkpoints, show_published, PublishError, PublishRequest, RangeError,
};
use timelapse::cmd::pull::{plan_reapply, reapply_stash, show_import, show_synced};
use timelapse::cmd::push::{
    can_push_directly, push_error, resolve_bookmark, show_results, BranchPushResult, BranchPushStatus,
};
use timelapse::cmd::restore::{
    disposition, is_extra, is_passed_over, is_yes, plan_restore, planned_targets, show_outcome, DeleteResult, Disposition,
    RestoreResult,
};
use timelapse::hash::git::hash_blob;
use timelapse::hash::hash_bytes;
use timelapse::ids::id_text;
use timelapse::ipc::{IpcResponse, ReplyError};
use timelapse::journal::{Checkpoint, CheckpointMeta, CheckpointReason, History};
use timelapse::tree::{Entry, Tree};
use timelapse::ui::Span;

fn text(line: &Vec<Span>) -> String {
    line.iter().map(|s| s.text.clone()).collect()
}

fn page(lines: &Vec<Vec<Span>>) -> Vec<String> {
    lines.iter().map(text).collect()
}

fn checkpoint(id: u128, parent: Option<u128>) -> Checkpoint {
    Checkpoint {
        id,
        parent,
        root_tree: hash_bytes(b""),
        ts_unix_ms: 0,
        reason: CheckpointReason::Manual,
        touched_paths: vec![],
        meta: CheckpointMeta { files_changed: 0, bytes_added: 0, bytes_removed: 0 },
    }
}

fn line(n: u128) -> History {
    let records = (1..=n).map(|i| checkpoint(i, if i == 1 { None } else { Some(i - 1) })).collect();
    History { records, head: Some(n) }
}

fn short(id: u128) -> String {
    id_text(id)[..8].to_string()
}

fn entry(content: &[u8]) -> Entry {
    Entry::file(0o644, hash_blob(content))
}

fn remote(name: &str, local: Option<&str>, there: Option<&str>, diverged: bool) -> RemoteBranchInfo {
    RemoteBranchInfo {
        name: name.to_string(),
        local_commit_id: local.map(|s| s.to_string()),
        remote_commit_id: there.map(|s| s.to_string()),
        is_diverged: diverged,
        commits_ahead: 0,
        commits_behind: 0,
    }
}

#[test]
fn fetched_branches_are_listed() {
    let branches = vec![
        remote("a", Some("0123456789abcdef"), Some("0123456789abcdef"), false),
        remote("b", Some("1"), Some("2"), true),
        remote("c", Some("1"), Some("2"), false),
        remote("d", None, None, false),
    ];
    assert_eq!(
        page(&show_fetched(&branches)),
        [
            "",
            "Remote branches:",
            "  a 0123456789ab (up to date)",
            "  b 2 (diverged)",
            "  c 2 (updated)",
            "  d ??? (new)",
        ]
    );
    assert_eq!(page(&show_fetched(&vec![])), ["No remote branches found"]);
    assert_eq!(text(&show_update("main", "0123456789abcdef")), "  Updating main to 0123456789ab");
}

#[test]
fn only_branches_that_can_move_are_synced() {
    let branches = vec![
        remote("same", Some("1"), Some("1"), false),
        remote("moved", Some("1"), Some("2"), false),
        remote("split", Some("1"), Some("2"), true),
        remote("fresh", None, Some("3"), false),
        remote("gone", Some("1"), None, false),
    ];
    assert!(matches!(sync_plan(&branches, "same"), SyncPlan::UpToDate));
    assert!(matches!(sync_plan(&branches, "moved"), SyncPlan::Update { commit } if commit == "2"));
    assert!(matches!(sync_plan(&branches, "split"), SyncPlan::UpToDate));
    assert!(matches!(sync_plan(&branches, "fresh"), SyncPlan::Update { commit } if commit == "3"));
    assert!(matches!(sync_plan(&branches, "gone"), SyncPlan::UpToDate));
    assert!(matches!(sync_plan(&branches, "other"), SyncPlan::Missing));
}

#[test]
fn pending_changes_are_asked_for_with_growing_delays() {
    let delays: Vec<u64> = (0..5)
        .map(|i| match auto_stash_step(i, IpcResponse::CheckpointFlushed(None)) {
            AutoStashStep::Wait { delay_ms, again } => {
                assert_eq!(again, i < 4);
                delay_ms
            }
            other => panic!("{:?}", other),
        })
        .collect();
    assert_eq!(delays, vec![50, 100, 200, 400, 400]);
    let made = IpcResponse::CheckpointFlushed(Some(id_text(8)));
    assert!(matches!(auto_stash_step(0, made), AutoStashStep::Stash { checkpoint_id: 8 }));
    let odd = IpcResponse::CheckpointFlushed(Some("odd".to_string()));
    assert!(matches!(auto_stash_step(0, odd), AutoStashStep::BadId { id } if id == "odd"));
    let failed = IpcResponse::Error("e".to_string());
    assert!(matches!(auto_stash_step(0, failed), AutoStashStep::Failed(ReplyError::Daemon(_))));
    assert!(matches!(auto_stash_step(0, IpcResponse::Done), AutoStashStep::Failed(ReplyError::Unexpected)));
    let saved = auto_stash_entry(8, Some(7), 99, "fetch");
    assert_eq!(saved.message, Some("Auto-stash before fetch".to_string()));
    assert_eq!((saved.checkpoint_id, saved.base_checkpoint_id, saved.created_at_ms), (8, Some(7), 99));
}

#[test]
fn a_stash_is_put_back_only_where_it_is_the_same() {
    assert_eq!(check_popped(Some(4), 4), Popped::Expected);
    assert_eq!(check_popped(Some(5), 4), Popped::Changed);
    assert_eq!(check_popped(None, 4), Popped::Nothing);
    let fine = RestoreResult { files_restored: 3, files_deleted: 0, errors: vec![] };
    assert_eq!(page(&show_reapplied(&fine)), ["  ✓ Re-applied 3 files"]);
    let errors = (0..4).map(|i| format!("e{}", i)).collect();
    let bad = RestoreResult { files_restored: 3, files_deleted: 0, errors };
    assert_eq!(
        page(&show_reapplied(&bad)),
        ["  ⚠ Re-applied 3 files with 4 errors", "    e0", "    e1", "    e2"]
    );
}

#[test]
fn local_changes_win_over_pulled_ones() {
    let mut stash = Tree::new();
    stash.insert("both", entry(b"mine"));
    stash.insert("mine", entry(b"mine"));
    stash.insert("equal", entry(b"same"));
    stash.insert(".git/config", entry(b"x"));
    stash.insert(".jj/x", entry(b"x"));
    let mut current = Tree::new();
    current.insert("both", entry(b"theirs"));
    current.insert("equal", entry(b"same"));
    let mut plan = plan_reapply("/r", &stash, &current);
    plan.sort_by(|a, b| a.path.cmp(&b.path));
    let seen: Vec<(&str, &str, bool)> =
        plan.iter().map(|p| (p.path.as_str(), p.target.as_str(), p.conflict)).collect();
    assert_eq!(seen, vec![("both", "/r/both", true), ("equal", "/r/equal", false), ("mine", "/r/mine", false)]);
    assert_eq!(plan[0].entry, entry(b"mine"));
    assert_eq!(
        page(&reapply_stash(&plan)),
        [
            "✓ Re-applied 3 files from stash",
            "! 1 files had both local and remote changes (local wins):",
            "  both",
        ]
    );
}

#[test]
fn many_conflicts_are_cut_short() {
    let mut stash = Tree::new();
    let mut current = Tree::new();
    for i in 0..7 {
        stash.insert(&format!("f{}", i), entry(b"a"));
        current.insert(&format!("f{}", i), entry(b"b"));
    }
    let lines = page(&reapply_stash(&plan_reapply("/r", &stash, &current)));
    assert_eq!(lines.len(), 8);
    assert_eq!(lines[7], "  ... and 2 more");
}

#[test]
fn imports_are_reported() {
    assert_eq!(
        page(&show_import(true, "abc", 5 << 100)),
        [format!("✓ Already up to date (checkpoint {})", short(5 << 100))]
    );
    let fresh = page(&show_import(false, "0123456789abcdef", 5 << 100));
    assert_eq!(fresh[2], format!("✓ Imported 0123456789ab as checkpoint {}", short(5 << 100)));
    let bad = RestoreResult { files_restored: 1, files_deleted: 0, errors: vec!["x".to_string()] };
    assert_eq!(page(&show_synced(&bad)), ["✓ Synced 1 files", "! 1 errors during sync", "  x"]);
}

#[test]
fn pushes_choose_their_bookmark() {
    let s = |t: &str| Some(t.to_string());
    assert_eq!(resolve_bookmark(s("b"), "main".to_string(), true), None);
    assert_eq!(resolve_bookmark(s("b"), "main".to_string(), false), s("b"));
    assert_eq!(resolve_bookmark(None, "main".to_string(), false), s("main"));
    assert!(can_push_directly(&s("m"), &s("m"), &s("1"), &s("1")));
    assert!(!can_push_directly(&s("m"), &s("n"), &s("1"), &s("1")));
    assert!(!can_push_directly(&s("m"), &s("m"), &None, &None));
    assert!(!can_push_directly(&None, &None, &s("1"), &s("1")));
    assert!(push_error("hint: fetch first", false).starts_with("Push aborted"));
    assert_eq!(push_error("hint: fetch first", true), "hint: fetch first");
    assert_eq!(push_error("no network", false), "no network");
}

#[test]
fn pushes_report_every_branch() {
    let result = |name: &str, status| BranchPushResult {
        name: name.to_string(),
        status,
        old_commit: None,
        new_commit: Some("0123456789abcdef".to_string()),
    };
    let fine = vec![result("a", BranchPushStatus::Pushed), result("b", BranchPushStatus::UpToDate)];
    let (lines, success) = show_results(&fine, false, false);
    assert!(success);
    assert_eq!(
        page(&lines),
        [
            "Using bookmark: a",
            "✓ Pushed 1 bookmark(s) to remote",
            "  a (new) → 0123456789ab",
            "  b (up to date)",
        ]
    );
    let bad = vec![
        result("c", BranchPushStatus::Diverged),
        result("d", BranchPushStatus::Rejected("why".to_string())),
        result("e", BranchPushStatus::Skipped),
    ];
    let (lines, success) = show_results(&bad, true, false);
    assert!(!success);
    assert_eq!(page(&lines), ["  c DIVERGED (use --force)", "  d REJECTED: why", "  e (skipped)"]);
    let (lines, success) = show_results(&vec![result("b", BranchPushStatus::UpToDate)], true, true);
    assert!(success);
    assert_eq!(page(&lines)[0], "✓ Already up to date");
}

#[test]
fn entries_are_restored_inside_the_repository_only() {
    assert!(matches!(disposition("/r", b".tl/x", false), Disposition::Protected));
    assert!(matches!(disposition("/r", b".jj/x", true), Disposition::Protected));
    assert!(matches!(disposition("/r", b".jj/x", false), Disposition::Write { .. }));
    assert!(matches!(disposition("/r", b"/etc/passwd", true), Disposition::Escapes { path } if path == "/etc/passwd"));
    assert!(matches!(disposition("/r", b"/r/in", true), Disposition::Write { target, .. } if target == "/r/in"));
    assert!(matches!(disposition("r", b"/r/in", true), Disposition::Escapes { .. }));
    assert!(matches!(disposition("r", b"in", true), Disposition::Write { target, .. } if target == "r/in"));
    assert!(matches!(disposition("", b"/etc", true), Disposition::Write { target, .. } if target == "/etc"));
    assert!(matches!(
        disposition("/r", &[0xff], true),
        Disposition::BadName { message } if message == "invalid utf-8 sequence of 1 bytes from index 0"
    ));
    assert!(matches!(disposition("/r", b"a/b", true), Disposition::Write { target, .. } if target == "/r/a/b"));
}

#[test]
fn every_entry_is_planned_once() {
    let mut tree = Tree::new();
    tree.insert("a", entry(b"1"));
    tree.insert(".git/b", entry(b"2"));
    let plan = plan_restore("/r", &tree, true);
    assert_eq!(plan.len(), 2);
    let written: Vec<Entry> =
        plan.iter().filter(|p| matches!(p.0, Disposition::Write { .. })).map(|p| p.1).collect();
    assert_eq!(written, vec![entry(b"1")]);
}

#[test]
fn restores_count_files_and_errors() {
    let mut result = RestoreResult::default();
    let write = Disposition::Write { path: "p".to_string(), target: "/r/p".to_string() };
    result.record(&write, None);
    result.record(&write, Some("denied"));
    result.record(&Disposition::Protected, None);
    result.record(&Disposition::Escapes { path: "/x".to_string() }, None);
    result.record(&Disposition::BadName { message: "m".to_string() }, None);
    let mut deleted = DeleteResult::default();
    deleted.record("/r/q".to_string(), None);
    deleted.record("/r/s".to_string(), Some("busy".to_string()));
    result.add_deletions(&deleted);
    assert_eq!((result.files_restored, result.files_deleted), (1, 1));
    assert_eq!(
        result.errors,
        ["p: denied", "Path escapes repository: /x", "Invalid UTF-8 in path: m", "Failed to delete /r/s: busy"]
    );
    assert_eq!(page(&show_outcome(&result))[..2], ["⚠ Restored 1 files with 4 errors", ""]);
    let fine = RestoreResult { files_restored: 12, files_deleted: 0, errors: vec![] };
    assert_eq!(page(&show_outcome(&fine))[0], "✓ Restored 12 files successfully");
    let errors = (0..12).map(|i| i.to_string()).collect();
    let many = page(&show_outcome(&RestoreResult { files_restored: 0, files_deleted: 0, errors }));
    assert_eq!(many[13], "  ... and 2 more");
}

#[test]
fn extra_files_are_those_not_in_the_tree() {
    let mut tree = Tree::new();
    tree.insert("a//b", Entry::file(0o644, hash_blob(b"1")));
    tree.insert("d", Entry::file(0o644, hash_blob(b"2")));
    tree.insert(".tl/x", Entry::file(0o644, hash_blob(b"3")));
    let plan = plan_restore("/r", &tree, true);
    let mut planned = planned_targets(&plan);
    planned.sort();
    assert_eq!(planned, ["/r/a//b", "/r/d"]);
    let mut result = RestoreResult::default();
    for (d, _entry) in &plan {
        result.record(d, Some("denied"));
    }
    assert_eq!(result.errors.len(), 2);
    assert!(!is_extra("/r/a/b", &planned));
    assert!(!is_extra("/r/d", &planned));
    assert!(is_extra("/r/a/c", &planned));
    assert!(tree.holds_name(b"d"));
    assert!(!tree.holds_name(b"\xff"));
    assert!(is_passed_over("/r/.git"));
    assert!(is_passed_over("/r/sub/.jj"));
    assert!(!is_passed_over("/r/.github"));
    assert!(is_yes(" y\n"));
    assert!(is_yes("Y"));
    assert!(!is_yes("yes"));
    assert!(!is_yes(""));
}

#[test]
fn references_to_publish_are_ranges_or_single() {
    let range = |r: &str| match publish_request(r) {
        PublishRequest::Range { start, end } => Some((start, end)),
        _ => None,
    };
    let pair = |a: &str, b: &str| Some((a.to_string(), b.to_string()));
    assert_eq!(range("HEAD~10..HEAD"), pair("HEAD~10", "HEAD"));
    assert_eq!(range("HEAD~10"), pair("HEAD~10", "HEAD"));
    assert_eq!(range("a...b"), pair("a", ".b"));
    assert!(matches!(publish_request("a..b..c"), PublishRequest::InvalidRange));
    assert!(matches!(publish_request("HEAD"), PublishRequest::Single { .. }));
    assert!(matches!(publish_request("HEAD~"), PublishRequest::Single { .. }));
}

#[test]
fn ranges_run_from_parent_to_child() {
    let history = line(5);
    let ids = |a, b| checkpoint_range(&history, a, b).map(|v| v.iter().map(|c| c.id).collect::<Vec<_>>());
    assert_eq!(ids(2, 4), Ok(vec![2, 3, 4]));
    assert_eq!(ids(3, 3), Ok(vec![3]));
    assert_eq!(ids(4, 2), Err(RangeError::IncludesRoot));
    assert_eq!(ids(1, 9), Err(RangeError::Missing));
    let cut = History { records: vec![checkpoint(2, Some(1))], head: Some(2) };
    assert_eq!(checkpoint_range(&cut, 7, 2).map(|v| v.len()), Err(RangeError::Missing));
    let circle = History { records: vec![checkpoint(1, Some(2)), checkpoint(2, Some(1))], head: Some(2) };
    assert_eq!(checkpoint_range(&circle, 7, 2).map(|v| v.len()), Err(RangeError::Endless));
}

#[test]
fn requested_checkpoints_are_found() {
    let history = line(5);
    let pins = vec![];
    let ids = |r: &str| {
        requested_checkpoints(&history, &pins, &publish_request(r)).map(|v| v.iter().map(|c| c.id).collect::<Vec<_>>())
    };
    assert_eq!(ids("HEAD"), Ok(vec![5]));
    assert_eq!(ids("HEAD~2"), Ok(vec![3, 4, 5]));
    assert_eq!(ids("HEAD~3..HEAD~1"), Ok(vec![2, 3, 4]));
    assert_eq!(ids("nothing"), Err(PublishError::Unknown));
    assert_eq!(ids("nothing..HEAD"), Err(PublishError::StartUnknown));
    assert_eq!(ids("HEAD..nothing"), Err(PublishError::EndUnknown));
    assert_eq!(ids("HEAD..HEAD~1"), Err(PublishError::Range(RangeError::IncludesRoot)));
    assert_eq!(ids("a..b..c"), Err(PublishError::InvalidRange));
}

#[test]
fn nothing_is_published_twice() {
    let commits = vec![None, Some("0123456789abcdef".to_string())];
    assert!(check_unpublished(&vec![1, 2], &commits, true).is_none());
    assert!(check_unpublished(&vec![1, 2], &vec![None, None], false).is_none());
    let warning = page(&check_unpublished(&vec![1, 2], &commits, false).unwrap());
    assert_eq!(warning[0], "Warning: The following checkpoints are already published:");
    assert_eq!(warning[1], format!("  {} → 0123456789ab", short(2)));
    assert_eq!(warning.len(), 4);
}

#[test]
fn publications_are_reported() {
    assert_eq!(bookmark_name(None), "HEAD");
    assert_eq!(bookmark_display("HEAD"), "snap/HEAD");
    assert_eq!(bookmark_display("snap/x"), "snap/x");
    assert_eq!(text(&publishing_line(5)), "Publishing checkpoints to JJ...");
    assert_eq!(text(&publishing_line(6)), "Publishing 6 checkpoints to JJ...");
    let lines = page(&show_published("main", &vec![1, 2], &vec!["abc".to_string()]));
    assert_eq!(
        lines,
        [
            "✓ Updated bookmark: snap/main".to_string(),
            "".to_string(),
            "✓ Published 1 checkpoint(s)".to_string(),
            format!("  {} → abc", short(1)),
        ]
    );
}

#[test]
fn merges_begin_end_and_are_given_up() {
    let b = || Some("main".to_string());
    assert!(matches!(merge_action(b(), true, true, true), MergeAction::Abort));
    assert!(matches!(merge_action(None, true, false, false), MergeAction::NothingToAbort));
    assert!(matches!(merge_action(b(), false, true, true), MergeAction::Complete));
    assert!(matches!(merge_action(b(), false, true, false), MergeAction::NothingToComplete));
    assert!(matches!(merge_action(None, false, false, true), MergeAction::BranchMissing));
    assert!(matches!(merge_action(b(), false, false, true), MergeAction::InProgress));
    assert!(matches!(merge_action(b(), false, false, false), MergeAction::Begin { branch } if branch == "main"));
}

#[test]
fn a_merge_with_conflicts_is_remembered() {
    let outcome = MergeOutcome {
        is_clean: false,
        ours_commit_id: "o".to_string(),
        theirs_commit_id: "t".to_string(),
        base_commit_id: Some("b".to_string()),
        conflicts: vec!["x".to_string()],
    };
    let (lines, state) = start_merge(&outcome, "main", &checkpoint(3, None));
    assert_eq!(page(&lines)[..4], ["", "! Merge has 1 conflicts:", "", "  ✗ x"]);
    let state = state.unwrap();
    assert!(state.in_progress);
    assert_eq!(state.theirs_branch, "main");
    assert_eq!(state.pre_merge_checkpoint, id_text(3));
    assert_eq!(abort_target(&state, &line(4)).unwrap().id, 3);
    assert!(matches!(abort_target(&state, &line(2)), Err(AbortError::NotFound)));
    let odd = MergeState { pre_merge_checkpoint: "odd".to_string(), ..state };
    assert!(matches!(abort_target(&odd, &line(4)), Err(AbortError::InvalidId)));
    let clean = MergeOutcome { is_clean: true, conflicts: vec![], ..outcome };
    let (lines, state) = start_merge(&clean, "main", &checkpoint(3, None));
    assert!(state.is_none());
    assert_eq!(page(&lines)[0], "✓ Merge completed cleanly (no conflicts)");
    assert_eq!(conflict_labels("main").1, "REMOTE (main)");
}

#[test]
fn a_merge_ends_when_no_conflict_is_left() {
    let paths = vec!["a".to_string(), "b".to_string()];
    assert!(check_resolved(&paths, &vec![false, false]).is_none());
    let left = page(&check_resolved(&paths, &vec![false, true]).unwrap());
    assert_eq!(left[..2], ["✗ 1 file(s) still have conflicts:", "  ✗ b"]);
    assert!(!is_recorded(".git"));
    assert!(is_recorded("src"));
}

#[test]
fn a_merged_directory_is_recorded_whole() {
    let files = vec![
        ("a".to_string(), 0o100644, hash_blob(b"1")),
        ("b".to_string(), 0o100755, hash_blob(b"2")),
        ("a".to_string(), 0o100644, hash_blob(b"3")),
    ];
    let (tree, draft) = create_merge_checkpoint(Some(9), &files);
    assert_eq!(tree.len(), 2);
    assert_eq!(tree.get("a"), Some(&Entry::file(0o644, hash_blob(b"3"))));
    assert_eq!(tree.get("b"), Some(&Entry::executable(hash_blob(b"2"))));
    assert_eq!(draft.root_tree, tree.hash());
    assert_eq!((draft.parent, draft.reason, draft.meta.files_changed), (Some(9), CheckpointReason::Manual, 3));
}
