use timelapse::cmd::branch::{branch_action, list_branches, BranchAction, BranchArgsError, LocalBranchInfo, RemoteBranchInfo};
use timelapse::cmd::config::{config_action, split_assignment, ConfigAction};
use timelapse::cmd::diff::show_diff;
use timelapse::cmd::gc::{retained_checkpoints, show_metrics, show_policy, GcMetrics};
use timelapse::cmd::init::{git_step, jj_step, primary_remote, print_success_summary, GitStep, JjStep};
use timelapse::cmd::log::{
    count_planned, display, display_checkpoint_compact, grep, summary_plan, LogOptions, SummaryPlan,
};
use timelapse::cmd::pins::{checkpoint_to_pin, show_flush, show_pinned, show_unpinned, PinError};
use timelapse::cmd::status::{print_remote_status, status_page, RemoteState};
use timelapse::hash::git::hash_blob;
use timelapse::hash::hash_bytes;
use timelapse::ids::id_text;
use timelapse::ipc::DaemonStatus;
use timelapse::journal::{Checkpoint, CheckpointMeta, CheckpointReason, History, RefError};
use timelapse::system_config::GcConfig;
use timelapse::tree::{Entry, Tree, TreeDiff};
use timelapse::ui::{Span, Style};

fn text(line: &Vec<Span>) -> String {
    line.iter().map(|s| s.text.clone()).collect()
}

fn page(lines: &Vec<Vec<Span>>) -> Vec<String> {
    lines.iter().map(text).collect()
}

fn checkpoint(id: u128, parent: Option<u128>, paths: &[&str]) -> Checkpoint {
    Checkpoint {
        id,
        parent,
        root_tree: hash_bytes(b""),
        ts_unix_ms: 1000,
        reason: CheckpointReason::FsBatch,
        touched_paths: paths.iter().map(|p| p.to_string()).collect(),
        meta: CheckpointMeta { files_changed: 4, bytes_added: 0, bytes_removed: 0 },
    }
}

fn short(id: u128) -> String {
    id_text(id)[..8].to_string()
}

#[test]
fn the_full_timeline_shows_changes_and_pins() {
    let cps = vec![
        checkpoint(3 << 100, Some(2 << 100), &["a", "b", "c", "d", "e"]),
        checkpoint(2 << 100, Some(1), &[]),
    ];
    let pins = vec![("z".to_string(), 3u128 << 100), ("a".to_string(), 3 << 100)];
    let summaries = vec![Some((1, 0, 2)), None];
    let lines = page(&display(&LogOptions::new(Some(2)), &cps, &summaries, &pins, Some(4000), 7));
    assert_eq!(
        lines,
        vec![
            "Checkpoint History".to_string(),
            "━".repeat(50),
            "".to_string(),
            format!("{} {:15} [FsBatch] 2 modified, 1 added   📌 a, z", short(3 << 100), "3 seconds ago"),
            "  M a".to_string(),
            "  M b".to_string(),
            "  M c".to_string(),
            "  ... and 2 more".to_string(),
            "".to_string(),
            format!("{} {:15} [FsBatch] 4", short(2 << 100), "3 seconds ago"),
            "".to_string(),
            "Showing 2 of 7 total checkpoints".to_string(),
            "Use 'tl log --limit 4' to see more".to_string(),
        ]
    );
    let lines = page(&display(&LogOptions::new(None), &cps, &vec![Some((0, 0, 0)), None], &pins, Some(4000), 2));
    assert!(lines[3].contains("] no changes"));
    assert_eq!(lines.last().unwrap(), "Total: 2 checkpoints");
    let lines = page(&display(&LogOptions::new(None), &vec![], &vec![], &pins, None, 0));
    assert_eq!(lines[0], "No checkpoints yet");
}

#[test]
fn the_timeline_has_short_forms() {
    let cps = vec![checkpoint(2 << 100, Some(1 << 100), &["x", "y"]), checkpoint(1 << 100, None, &[])];
    let pins = vec![("p".to_string(), 2u128 << 100)];
    let none = vec![None, None];
    let mut options = LogOptions::new(None);
    options.oneline = true;
    assert_eq!(
        page(&display(&options, &cps, &none, &pins, Some(1000), 2)),
        vec![
            format!("{} (p) FsBatch - x (+1 more) [0 seconds ago]", short(2 << 100)),
            format!("{} FsBatch - no changes [0 seconds ago]", short(1 << 100)),
        ]
    );
    options.oneline = false;
    options.graph = true;
    assert_eq!(
        page(&display(&options, &cps, &none, &pins, Some(1000), 2)),
        vec![
            format!("│ {} (p) FsBatch - 0 seconds ago", short(2 << 100)),
            "│".to_string(),
            format!("* {} FsBatch - 0 seconds ago", short(1 << 100)),
        ]
    );
    assert_eq!(options.shown(), 20);
    assert_eq!(
        text(&display_checkpoint_compact(&cps[0], true, Some(61_000))),
        format!("{} 1 minutes ago fs - 4 files", short(2 << 100))
    );
    assert_eq!(text(&display_checkpoint_compact(&cps[0], false, None)), "in the future fs - 4 files");
}

#[test]
fn changes_are_counted_against_the_listed_parent() {
    let cps = vec![checkpoint(5, Some(3), &["src/a"]), checkpoint(4, Some(9), &[]), checkpoint(3, None, &["doc/b"])];
    assert_eq!(summary_plan(&cps, 0), SummaryPlan::Against { position: 2 });
    assert_eq!(summary_plan(&cps, 1), SummaryPlan::Unlisted);
    assert_eq!(summary_plan(&cps, 2), SummaryPlan::CountAll);
    let found: Vec<u128> = grep(&cps, "src").iter().map(|c| c.id).collect();
    assert_eq!(found, vec![5]);
    assert_eq!(grep(&cps, "/").len(), 2);
}

fn remote(name: &str, local: Option<&str>, there: Option<&str>) -> RemoteBranchInfo {
    RemoteBranchInfo {
        name: name.to_string(),
        local_commit_id: local.map(|s| s.to_string()),
        remote_commit_id: there.map(|s| s.to_string()),
        is_diverged: false,
        commits_ahead: 0,
        commits_behind: 0,
    }
}

#[test]
fn branches_are_listed_with_their_state() {
    let local = vec![
        LocalBranchInfo {
            name: "main".to_string(),
            commit_id: "0123456789abcdef".to_string(),
            remote_commit_id: Some("fedcba9876543210".to_string()),
            has_remote: true,
        },
        LocalBranchInfo { name: "dev".to_string(), commit_id: "12".to_string(), remote_commit_id: None, has_remote: true },
        LocalBranchInfo { name: "own".to_string(), commit_id: "34".to_string(), remote_commit_id: None, has_remote: false },
    ];
    let mut diverged = remote("main", Some("1"), Some("2"));
    diverged.is_diverged = true;
    let updates = vec![diverged, remote("dev", Some("1"), None)];
    let only = vec![remote("far", Some("9"), Some("8"))];
    let locals = vec![
        "Local branches:".to_string(),
        "  main 0123456789ab differs (remote: fedcba987654)".to_string(),
        "  dev 12 ✓ synced".to_string(),
        "  own 34 local only".to_string(),
        "".to_string(),
    ];
    assert_eq!(page(&list_branches(&local, &only, &updates, false, false)), locals);
    let all = page(&list_branches(&local, &only, &updates, true, true));
    assert_eq!(all[..5], locals[..]);
    assert_eq!(all[5..], ["Remote branches (origin):", "  main 2 diverged", "  dev ??? tracked", ""]);
    let remotes = page(&list_branches(&vec![], &only, &updates, true, false));
    assert_eq!(remotes, ["Remote branches (origin):", "  far 8 not tracked", ""]);
    assert_eq!(page(&list_branches(&vec![], &vec![], &updates, true, false))[0], "No remote branches");
    assert_eq!(page(&list_branches(&vec![], &only, &updates, false, false))[0], "No local branches");
}

#[test]
fn a_branch_and_its_checkpoint_come_together() {
    let s = |t: &str| Some(t.to_string());
    assert!(matches!(branch_action(None, None, None), Ok(BranchAction::List)));
    assert!(matches!(branch_action(None, s("b"), s("c")), Ok(BranchAction::Create { .. })));
    assert!(matches!(branch_action(s("d"), s("b"), s("c")), Ok(BranchAction::Delete { .. })));
    assert!(matches!(branch_action(s("d"), s("b"), None), Err(BranchArgsError::CheckpointMissing)));
    assert!(matches!(branch_action(None, None, s("c")), Err(BranchArgsError::BranchMissing)));
    assert_eq!(BranchArgsError::CheckpointMissing.message(), "--create requires --at <checkpoint>");
}

#[test]
fn the_status_names_daemon_checkpoint_and_store() {
    let status = DaemonStatus {
        running: true,
        pid: 42,
        start_time_ms: 0,
        checkpoints_created: 3,
        last_checkpoint_time: Some(1000),
        watcher_paths: 2,
        checkpoints_skipped: 0,
    };
    let latest = checkpoint(9 << 100, None, &["1", "2", "3", "4", "5", "6"]);
    let lines = page(&status_page("/r", &status, Some(&latest), 8, 2048, 61_000));
    assert_eq!(lines[3], "Repository:    /r");
    assert_eq!(
        lines[5..12],
        [
            "Daemon:        Running ✓",
            "  PID:         42",
            "  Uptime:      1 minute",
            "  Checkpoints: 3 created",
            "  Last:        1 minutes ago",
            "  Watching:    2 paths",
            "",
        ]
    );
    assert_eq!(lines[13], format!("  ID:          {}", short(9 << 100)));
    assert_eq!(lines[14], "  Time:        1 minutes ago (1970-01-01 00:00:01)");
    assert_eq!(lines[18], "    - 1");
    assert_eq!(lines[23], "    ... and 1 more");
    assert_eq!(lines[25..], ["Storage:", "  Checkpoints: 8", "  Total size:  2.00 KB", ""]);
    let none = page(&status_page("/r", &status, None, 0, 0, 0));
    assert!(none.contains(&"  No checkpoints yet".to_string()));
}

#[test]
fn the_remote_status_names_every_branch() {
    let mut ahead = remote("a", Some("1"), Some("2"));
    ahead.commits_ahead = 3;
    let mut behind = remote("b", Some("1"), Some("2"));
    behind.commits_behind = 4;
    let mut diverged = remote("c", Some("1"), Some("2"));
    diverged.is_diverged = true;
    let branches = vec![
        ahead,
        behind,
        diverged,
        remote("d", Some("1"), Some("1")),
        remote("e", Some("1"), None),
        remote("f", None, Some("1")),
        remote("g", None, None),
        remote("h", Some("1"), Some("2")),
    ];
    let lines = page(&print_remote_status(&RemoteState::Known { url: "u".to_string(), branches }));
    assert_eq!(lines[3], "Remote:  origin (u)");
    assert_eq!(
        lines[5..],
        [
            "Branches:",
            "  a 1 ↑3 ahead",
            "  b 1 ↓4 behind",
            "  c 1 ↑ ↓ diverged",
            "  d 1 ✓ up to date",
            "  e 1 ↑ local only",
            "  f (none) ↓ remote only",
            "  g (none) (unknown)",
            "  h 1 differs from remote",
            "",
        ]
    );
    assert_eq!(page(&print_remote_status(&RemoteState::NoWorkspace)).len(), 1);
    assert_eq!(page(&print_remote_status(&RemoteState::NotConfigured))[3], "Remote:  origin (not configured)");
    let failed = RemoteState::LoadFailed { url: "u".to_string(), message: "m".to_string() };
    assert_eq!(page(&print_remote_status(&failed)).last().unwrap(), "Error: m");
    let failed = RemoteState::BranchesFailed { url: "u".to_string(), message: "m".to_string() };
    assert_eq!(page(&print_remote_status(&failed)).last().unwrap(), "Error fetching remote status: m");
    let empty = RemoteState::Known { url: "u".to_string(), branches: vec![] };
    assert_eq!(page(&print_remote_status(&empty))[5], "  No local branches tracked");
}

#[test]
fn differences_are_listed_by_kind() {
    let a = Entry::file(0o644, hash_blob(b"a"));
    let b = Entry::file(0o644, hash_blob(b"b"));
    let mut old = Tree::new();
    old.insert("gone", a);
    old.insert("same", a);
    old.insert("mod", a);
    let mut new = Tree::new();
    new.insert("same", a);
    new.insert("mod", b);
    new.insert("fresh", b);
    let diff = TreeDiff::diff(&old, &new);
    let lines = page(&show_diff((1 << 100, 0), (2 << 100, 0), &diff, Some(5000)));
    assert_eq!(lines[0], "Diff Summary");
    assert_eq!(lines[3], format!("From: {} 5 seconds ago", short(1 << 100)));
    assert_eq!(
        lines[6..],
        [
            "A Added (1 files)",
            "  + fresh",
            "",
            "D Removed (1 files)",
            "  - gone",
            "",
            "M Modified (1 files)",
            "  ~ mod",
            "",
            "Total: 1 added, 1 removed, 1 modified",
        ]
    );
    let same = TreeDiff::diff(&old, &old);
    assert_eq!(page(&show_diff((1, 0), (1, 0), &same, None)).last().unwrap(), "No changes between checkpoints");
}

#[test]
fn paths_that_are_no_text_are_shown_as_such() {
    let entry = Entry::file(0o644, hash_blob(b"a"));
    let diff = TreeDiff { added: vec![(vec![0xff, 0xfe], entry)], removed: vec![], modified: vec![] };
    let lines = page(&show_diff((1, 0), (2, 0), &diff, None));
    assert_eq!(lines[7], "  + <invalid utf8>");
}

#[test]
fn collections_report_policy_and_outcome() {
    let policy = GcConfig { retain_count: 10, retain_hours: 5, retain_pins: false }.to_retention_policy();
    assert_eq!(
        page(&show_policy(&policy)),
        ["Retention policy:", "  Keep last 10 checkpoints", "  Keep all within 5 hours", "  Retain pins: no", ""]
    );
    let clean = GcMetrics { checkpoints_deleted: 0, trees_deleted: 0, blobs_deleted: 0, bytes_freed: 9 };
    assert_eq!(page(&show_metrics(&clean))[3], "No garbage found - repository is already clean");
    let some = GcMetrics { checkpoints_deleted: 1, trees_deleted: 2, blobs_deleted: 3, bytes_freed: 1024 };
    assert_eq!(
        page(&show_metrics(&some))[3..],
        [
            "Checkpoints deleted: 1",
            "Trees deleted:       2",
            "Blobs deleted:       3",
            "",
            "Space freed:         1.00 KB",
        ]
    );
}

#[test]
fn setting_up_creates_what_is_missing() {
    assert_eq!(git_step(true, true), GitStep::Detected);
    assert_eq!(git_step(false, true), GitStep::Skipped);
    assert_eq!(git_step(false, false), GitStep::Create);
    assert_eq!(jj_step(false, true, true), JjStep::Detected);
    assert_eq!(jj_step(false, false, true), JjStep::Skipped);
    assert_eq!(jj_step(false, false, false), JjStep::Refused);
    assert_eq!(jj_step(true, false, false), JjStep::Create);
    let pair = |a: &str, b: &str| (a.to_string(), b.to_string());
    assert_eq!(primary_remote(&vec![pair("up", "1"), pair("origin", "2")]), Some(1));
    assert_eq!(primary_remote(&vec![pair("up", "1")]), Some(0));
    assert_eq!(primary_remote(&vec![]), None);
}

#[test]
fn the_summary_of_a_setup_names_what_was_there() {
    let lines = page(&print_success_summary("/r", false, true, true, true));
    assert_eq!(lines[1], "━".repeat(50));
    assert_eq!(lines[2], "✓ Timelapse initialized successfully!");
    assert_eq!(
        lines[4..13],
        [
            "VCS Stack:",
            "  ✓ Git repository (existing)",
            "  ✓ JJ workspace (created)",
            "  ✓ Timelapse store (created)",
            "",
            "Directory structure:",
            "  /r/.git/          (git repository)",
            "  /r/.jj/           (jj workspace)",
            "  /r/.tl/           (timelapse store)",
        ]
    );
    let bare = page(&print_success_summary("/r", false, false, false, false));
    assert!(!bare.iter().any(|l| l.contains(".jj")));
    assert_eq!(bare.last().unwrap(), "Happy coding! Your changes are now being tracked.");
}

#[test]
fn configuration_arguments_have_an_order() {
    let s = |t: &str| Some(t.to_string());
    assert!(matches!(config_action(true, true, true, s("k"), s("a=b")), ConfigAction::Example));
    assert!(matches!(config_action(false, true, true, s("k"), None), ConfigAction::Path { create: true }));
    assert!(matches!(config_action(false, false, false, s("k"), s("a=b")), ConfigAction::Get { .. }));
    assert!(matches!(config_action(false, false, false, None, s("ab")), ConfigAction::InvalidFormat));
    assert!(matches!(config_action(false, false, false, None, None), ConfigAction::List));
    assert_eq!(split_assignment("a=b=c"), Some(("a".to_string(), "b=c".to_string())));
    assert_eq!(split_assignment("=x"), Some(("".to_string(), "x".to_string())));
    assert!(matches!(
        config_action(false, false, false, None, s("a=b")),
        ConfigAction::Assign { key, value } if key == "a" && value == "b"
    ));
}

#[test]
fn pins_name_recorded_checkpoints() {
    let history = History { records: vec![checkpoint(7 << 100, None, &[])], head: Some(7 << 100) };
    let pins = vec![("old".to_string(), 99u128)];
    assert_eq!(checkpoint_to_pin(&history, &pins, &id_text(7 << 100)), Ok(7 << 100));
    assert_eq!(checkpoint_to_pin(&history, &pins, "old"), Err(PinError::NotFound { id: 99 }));
    assert_eq!(checkpoint_to_pin(&history, &pins, "nope"), Err(PinError::Reference(RefError::Unknown)));
    assert_eq!(text(&show_pinned("v1", 7 << 100)), format!("✓ Created pin 'v1' → {}", short(7 << 100)));
    assert_eq!(text(&show_unpinned(&pins, "old").unwrap()), format!("✓ Removed pin 'old' (was {})", short(99)));
    assert!(show_unpinned(&pins, "new").is_none());
}

#[test]
fn checkpoints_on_demand_are_reported() {
    let id = Some("01HXKJ7NVQW3".to_string());
    assert_eq!(page(&show_flush(false, &id)), ["✓ Created checkpoint: 01HXKJ7N"]);
    assert_eq!(page(&show_flush(true, &id))[0], "✓ Created restore point: 01HXKJ7N");
    assert_eq!(page(&show_flush(false, &None))[0], "No pending changes to checkpoint");
    assert_eq!(show_flush(false, &id)[0][2].style, Style::BrightCyan);
}

#[test]
fn collections_keep_what_the_policy_names() {
    let hour = 3_600_000;
    let mut records: Vec<Checkpoint> = (1..=5).map(|i| checkpoint(i, None, &[])).collect();
    records[1].ts_unix_ms = 9 * hour;
    let history = History { records, head: Some(5) };
    let pins = vec![("v1".to_string(), 3u128)];
    let mut config = GcConfig { retain_count: 1, retain_hours: 1, retain_pins: true };
    let kept = |c: &GcConfig| retained_checkpoints(&history, &pins, &vec![4], &c.to_retention_policy(), 10 * hour);
    assert_eq!(kept(&config), [false, true, true, true, true]);
    config.retain_pins = false;
    assert_eq!(kept(&config), [false, true, false, true, true]);
    config.retain_count = 9;
    assert_eq!(kept(&config), [true; 5]);
}

#[test]
fn changes_are_counted_by_plan() {
    let mut old = Tree::new();
    old.insert("a", Entry::file(0o644, hash_blob(b"1")));
    old.insert("b", Entry::file(0o644, hash_blob(b"1")));
    let mut new = Tree::new();
    new.insert("a", Entry::file(0o644, hash_blob(b"2")));
    new.insert("c", Entry::file(0o644, hash_blob(b"1")));
    new.insert("d", Entry::file(0o644, hash_blob(b"1")));
    let against = SummaryPlan::Against { position: 1 };
    assert_eq!(count_planned(SummaryPlan::CountAll, None, Some(&new)), Some((3, 0, 0)));
    assert_eq!(count_planned(against, Some(&old), Some(&new)), Some((2, 1, 1)));
    assert_eq!(count_planned(against, None, Some(&new)), None);
    assert_eq!(count_planned(SummaryPlan::CountAll, None, None), None);
    assert_eq!(count_planned(SummaryPlan::Unlisted, Some(&old), Some(&new)), None);
}
