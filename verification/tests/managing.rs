use timelapse::cmd::remote::{
    add_next, git_arguments as remote_arguments, list_remotes, refusal_message, remote_url, validate_name, validate_new,
    validate_url, AddNext, AddStage, RemoteArgsError, RemoteRequest,
};
use timelapse::cmd::stash::{
    clear_plan, list_stashes, resolve_stash, sorted_stashes, stash_name, stash_pins, ClearPlan, StashRefError,
};
use timelapse::cmd::tag::{
    after_probe, create_step, git_arguments as tag_arguments, list_tags, push_request, show_created, tag_target, TagRequest,
    TagStep, TagTarget,
};
use timelapse::cmd::worktree::{
    added_state, check_removal, check_workspace_name, generate_workspace_path, is_showable, left_state, show_workspace,
    switch_plan, workspace_pin, PlaceError, SwitchPlan, WorkspaceInfo, WorkspaceNameError,
};
use timelapse::hash::hash_bytes;
use timelapse::ids::id_text;
use timelapse::journal::{Checkpoint, CheckpointMeta, CheckpointReason, History};
use timelapse::ui::Span;

fn text(line: &Vec<Span>) -> String {
    line.iter().map(|s| s.text.clone()).collect()
}

fn page(lines: &Vec<Vec<Span>>) -> Vec<String> {
    lines.iter().map(text).collect()
}

fn checkpoint(id: u128, ts_unix_ms: u64, paths: &[&str]) -> Checkpoint {
    Checkpoint {
        id,
        parent: None,
        root_tree: hash_bytes(b""),
        ts_unix_ms,
        reason: CheckpointReason::Manual,
        touched_paths: paths.iter().map(|p| p.to_string()).collect(),
        meta: CheckpointMeta { files_changed: 0, bytes_added: 0, bytes_removed: 0 },
    }
}

fn stashed() -> (History, Vec<(String, u128)>) {
    let records =
        vec![checkpoint(1, 1000, &[]), checkpoint(2, 3000, &["a", "b", "c", "d"]), checkpoint(3, 2000, &["x"])];
    let pin = |n: &str, id| (n.to_string(), id);
    let pins = vec![pin("stash/old", 1u128), pin("release", 1), pin("stash/new", 2), pin("stash/mid", 3)];
    (History { records, head: Some(3) }, pins)
}

#[test]
fn stashes_are_listed_newest_first() {
    let (history, pins) = stashed();
    let names: Vec<String> = sorted_stashes(&history, &pins).into_iter().map(|p| p.0).collect();
    assert_eq!(names, ["stash/new", "stash/mid", "stash/old"]);
    assert_eq!(stash_pins(&pins).len(), 3);
    let (lines, whole) = list_stashes(&history, &pins, Some(4000));
    assert!(whole);
    assert_eq!(
        page(&lines),
        [
            "Stashes:",
            "  stash@{0}: new - 1 seconds ago",
            "      a, b, c (1 more)",
            "  stash@{1}: mid - 2 seconds ago",
            "      x",
            "  stash@{2}: old - 3 seconds ago",
        ]
    );
    let (lines, whole) = list_stashes(&history, &vec![], None);
    assert!(whole);
    assert_eq!(page(&lines), ["No stashes found"]);
    let lost = vec![("stash/lost".to_string(), 77u128)];
    let (lines, whole) = list_stashes(&history, &lost, None);
    assert!(!whole);
    assert_eq!(page(&lines), ["Stashes:"]);
}

#[test]
fn stashes_of_one_moment_keep_their_order() {
    let history = History { records: vec![checkpoint(1, 5, &[]), checkpoint(2, 5, &[])], head: None };
    let pins = vec![("stash/b".to_string(), 2u128), ("stash/a".to_string(), 1)];
    assert_eq!(sorted_stashes(&history, &pins), pins);
}

#[test]
fn stashes_without_a_recorded_checkpoint_keep_their_places() {
    let (history, _pins) = stashed();
    let pin = |n: &str, id| (n.to_string(), id);
    let pair = vec![pin("stash/lost", 77u128), pin("stash/new", 2)];
    assert_eq!(sorted_stashes(&history, &pair), pair);
    let mixed = vec![pin("stash/old", 1u128), pin("stash/lost", 77), pin("stash/new", 2), pin("stash/mid", 3)];
    let names: Vec<String> = sorted_stashes(&history, &mixed).into_iter().map(|p| p.0).collect();
    assert_eq!(names, ["stash/new", "stash/lost", "stash/mid", "stash/old"]);
}

#[test]
fn stashes_are_named_by_place_or_name() {
    let (history, pins) = stashed();
    let named = |r: Option<&str>| resolve_stash(&history, &pins, r);
    assert_eq!(named(None), Ok("stash/new".to_string()));
    assert_eq!(named(Some("stash@{1}")), Ok("stash/mid".to_string()));
    assert_eq!(named(Some("stash@{+2}}")), Ok("stash/old".to_string()));
    assert_eq!(named(Some("stash@{3}")), Err(StashRefError::NotFound { index: 3 }));
    assert_eq!(named(Some("stash@{x}")), Err(StashRefError::InvalidIndex));
    assert_eq!(named(Some("stash/mine")), Ok("stash/mine".to_string()));
    assert_eq!(named(Some("mine")), Ok("stash/mine".to_string()));
    assert_eq!(resolve_stash(&history, &vec![], None), Err(StashRefError::NoStashes));
}

#[test]
fn stashes_without_message_are_named_by_time() {
    assert_eq!(stash_name(Some("work"), 0), "stash/work");
    assert_eq!(stash_name(None, 0), "stash/WIP-19700101-000000");
    assert_eq!(stash_name(None, 1_704_292_205), "stash/WIP-20240103-143005");
    assert_eq!(stash_name(None, 253_402_300_799), "stash/WIP-99991231-235959");
    assert_eq!(stash_name(None, 253_402_300_800), "stash/WIP-+100000101-000000");
    assert_eq!(stash_name(None, 8_210_266_876_799), "stash/WIP-+2621421231-235959");
}

#[test]
fn clearing_asks_first() {
    let (_, pins) = stashed();
    assert!(matches!(clear_plan(&vec![], true), ClearPlan::Nothing));
    assert!(matches!(clear_plan(&pins, false), ClearPlan::Confirm { count: 3 }));
    match clear_plan(&pins, true) {
        ClearPlan::Remove { names } => assert_eq!(names, ["stash/old", "stash/new", "stash/mid"]),
        other => panic!("{:?}", other),
    }
}

#[test]
fn remotes_are_validated() {
    assert_eq!(validate_name(""), Err(RemoteArgsError::NameEmpty));
    assert_eq!(validate_name("a b"), Err(RemoteArgsError::NameInvalid));
    assert_eq!(validate_name("a/b"), Err(RemoteArgsError::NameInvalid));
    assert_eq!(validate_url(""), Err(RemoteArgsError::UrlEmpty));
    assert_eq!(validate_new("a b", ""), Err(RemoteArgsError::NameInvalid));
    assert_eq!(validate_new("a", ""), Err(RemoteArgsError::UrlEmpty));
    assert_eq!(validate_new("a", "u"), Ok(()));
}

#[test]
fn requests_about_remotes_become_arguments() {
    let s = |t: &str| t.to_string();
    let args = |r: RemoteRequest| remote_arguments("/r", &r).join(" ");
    assert_eq!(args(RemoteRequest::List { verbose: true }), "-C /r remote -v");
    assert_eq!(args(RemoteRequest::GetUrl { name: s("o"), push: true }), "-C /r remote get-url --push o");
    assert_eq!(args(RemoteRequest::New { name: s("o"), url: s("u") }), "-C /r remote add o u");
    assert_eq!(args(RemoteRequest::Fetch { name: s("o") }), "-C /r fetch o");
    assert_eq!(args(RemoteRequest::Remove { name: s("o") }), "-C /r remote remove o");
    assert_eq!(args(RemoteRequest::SetUrl { name: s("o"), url: s("u"), push: false }), "-C /r remote set-url o u");
    assert_eq!(args(RemoteRequest::Rename { from: s("o"), to: s("p") }), "-C /r remote rename o p");
}

#[test]
fn refusals_are_explained() {
    let s = |t: &str| t.to_string();
    let gone = "error: No such remote: 'o'";
    assert_eq!(refusal_message(&RemoteRequest::Remove { name: s("o") }, gone), "Remote 'o' not found");
    assert_eq!(refusal_message(&RemoteRequest::Remove { name: s("o") }, "x"), "Git remote remove failed: x");
    let rename = RemoteRequest::Rename { from: s("o"), to: s("p") };
    assert_eq!(refusal_message(&rename, "remote p already exists."), "Remote 'p' already exists");
    assert_eq!(refusal_message(&rename, "x"), "Git remote rename failed: x");
    assert_eq!(refusal_message(&RemoteRequest::New { name: s("o"), url: s("u") }, gone), format!("Git remote add failed: {}", gone));
}

#[test]
fn adding_a_remote_looks_first() {
    assert_eq!(add_next(AddStage::Probe, true, true), AddNext::AlreadyExists);
    assert_eq!(add_next(AddStage::Probe, false, true), AddNext::Run(AddStage::Record));
    assert_eq!(add_next(AddStage::Record, false, true), AddNext::Failed);
    assert_eq!(add_next(AddStage::Record, true, true), AddNext::Run(AddStage::Fetch));
    assert_eq!(add_next(AddStage::Record, true, false), AddNext::Done);
    assert_eq!(add_next(AddStage::Fetch, false, true), AddNext::Done);
}

#[test]
fn remotes_are_listed() {
    let out = "origin\thttps://e.com/r.git (fetch)\norigin\thttps://e.com/r.git (push)\nbroken line\n";
    assert_eq!(
        page(&list_remotes(out, true)),
        ["Remotes:", "  origin https://e.com/r.git (fetch)", "  origin https://e.com/r.git (push)"]
    );
    assert_eq!(page(&list_remotes("origin\nup\n", false)), ["Remotes:", "  origin", "  up"]);
    assert_eq!(page(&list_remotes(" \n", true)), ["No remotes configured"]);
    assert_eq!(remote_url(true, " u \n"), Some("u".to_string()));
    assert_eq!(remote_url(false, "u"), None);
    assert_eq!(remote_url(true, "\n"), None);
}

#[test]
fn requests_about_tags_become_arguments() {
    let s = |t: &str| t.to_string();
    let args = |r: TagRequest| tag_arguments("/r", &r).join(" ");
    assert_eq!(args(TagRequest::List), "-C /r tag -l --sort=-creatordate");
    assert_eq!(args(TagRequest::Probe { name: s("v") }), "-C /r rev-parse refs/tags/v");
    let new = |message, force| TagRequest::New { name: s("v"), target: s("HEAD"), message, force };
    assert_eq!(args(new(None, false)), "-C /r tag v HEAD");
    assert_eq!(args(new(Some(s("m")), true)), "-C /r tag --force -a v -m m HEAD");
    assert_eq!(args(TagRequest::Delete { name: s("v") }), "-C /r tag -d v");
    assert_eq!(args(TagRequest::Show { name: s("v") }), "-C /r show v --no-patch");
    assert_eq!(args(TagRequest::Push { name: s("v") }), "-C /r push origin refs/tags/v");
    assert_eq!(args(push_request(None, true).unwrap()), "-C /r push origin --tags");
    assert!(push_request(None, false).is_none());
    assert!(matches!(push_request(Some(s("v")), false), Some(TagRequest::Push { .. })));
}

#[test]
fn tags_are_not_overwritten_by_accident() {
    assert_eq!(create_step("", true), TagStep::NameEmpty);
    assert_eq!(create_step("v", true), TagStep::Create);
    assert_eq!(create_step("v", false), TagStep::Probe);
    assert_eq!(after_probe(true), TagStep::AlreadyExists);
    assert_eq!(after_probe(false), TagStep::Create);
    assert!(matches!(tag_target(false, false, None), TagTarget::Current));
    assert!(matches!(tag_target(true, false, None), TagTarget::Unknown));
    assert!(matches!(tag_target(true, true, None), TagTarget::Unpublished));
    assert!(matches!(tag_target(true, true, Some("c".to_string())), TagTarget::Commit { .. }));
}

#[test]
fn tags_are_reported() {
    assert_eq!(page(&show_created("v", false, "HEAD")), ["✓ Created tag: v"]);
    assert_eq!(page(&show_created("v", true, "abc")), ["✓ Created annotated tag: v", "  Target: abc"]);
    assert_eq!(page(&list_tags("v2\nv1\n")), ["Tags:", "  v2", "  v1"]);
    assert_eq!(page(&list_tags("")), ["No tags found"]);
}

#[test]
fn workspaces_are_placed_beside_the_repository() {
    let none = vec![];
    assert_eq!(generate_workspace_path("/home/u/proj", "fix", &none), Ok("/home/u/proj-fix".to_string()));
    assert_eq!(generate_workspace_path("/proj", "fix", &none), Ok("/proj-fix".to_string()));
    let taken = vec!["/p/proj-fix".to_string(), "/p/proj-fix-1".to_string()];
    assert_eq!(generate_workspace_path("/p/proj", "fix", &taken), Ok("/p/proj-fix-2".to_string()));
    assert_eq!(generate_workspace_path("/", "fix", &none), Err(PlaceError::NoName));
    let mut all = vec!["/p/proj-fix".to_string()];
    all.extend((1..100).map(|i| format!("/p/proj-fix-{}", i)));
    assert_eq!(generate_workspace_path("/p/proj", "fix", &all), Err(PlaceError::TooMany));
    all.pop();
    assert_eq!(generate_workspace_path("/p/proj", "fix", &all), Ok("/p/proj-fix-99".to_string()));
}

#[test]
fn roots_of_any_form_have_a_place() {
    let none = vec![];
    for (root, place) in [
        ("proj", "proj-fix"),
        ("./proj", "./proj-fix"),
        ("a//b/proj/", "a//b/proj-fix"),
        ("/a/.", "/a-fix"),
        ("/a/b/./", "/a/b-fix"),
        ("../proj", "../proj-fix"),
    ] {
        assert_eq!(generate_workspace_path(root, "fix", &none), Ok(place.to_string()), "{}", root);
        let path = std::path::Path::new(root);
        let name = path.file_name().unwrap().to_str().unwrap();
        assert_eq!(path.parent().unwrap().join(format!("{}-fix", name)), std::path::Path::new(place), "{}", root);
    }
    for root in ["", ".", "..", "/..", "a/..", "//", "/."] {
        assert_eq!(generate_workspace_path(root, "fix", &none), Err(PlaceError::NoName), "{}", root);
        assert!(std::path::Path::new(root).file_name().is_none(), "{}", root);
    }
    let taken = vec!["p/./proj-fix/".to_string(), "/p/proj-fix-1".to_string()];
    assert_eq!(generate_workspace_path("p/proj", "fix", &taken), Ok("p/proj-fix-1".to_string()));
}

#[test]
fn workspace_names_are_single_names() {
    assert_eq!(check_workspace_name("fix"), Ok(()));
    assert_eq!(check_workspace_name(""), Err(WorkspaceNameError::Empty));
    assert_eq!(check_workspace_name("a/b"), Err(WorkspaceNameError::Slash));
    assert_eq!(check_workspace_name("/"), Err(WorkspaceNameError::Slash));
}

#[test]
fn long_paths_are_cut_between_characters() {
    assert!(is_showable("/short"));
    assert!(is_showable(&"a".repeat(31)));
    assert!(is_showable(&"é".repeat(15)));
    assert!(!is_showable(&"é".repeat(16)));
    assert!(is_showable(&("é".repeat(15) + "a")));
}

fn workspace(name: &str, path: &str, is_current: bool, has_changes: bool) -> WorkspaceInfo {
    WorkspaceInfo { name: name.to_string(), path: path.to_string(), is_current, has_changes }
}

#[test]
fn workspaces_are_listed_in_columns() {
    let other = workspace("fix", "/short", false, true);
    assert_eq!(text(&show_workspace(&other, None)), format!("{:<18} {:<30} {:<6} {}", "fix", "/short", "-", "Modified"));
    let long = "/a/very/long/path/to/some/workspace/directory";
    let current = workspace("main", long, true, true);
    let shown = format!("...{}", &long[long.len() - 27..]);
    assert_eq!(
        text(&show_workspace(&current, Some(5 << 100))),
        format!("main (current) {} {}... Working", shown, &id_text(5 << 100)[..8])
    );
    assert!(text(&show_workspace(&workspace("a", "/b", true, false), None)).ends_with("Current"));
    assert!(text(&show_workspace(&workspace("a", "/b", false, false), None)).ends_with("Clean"));
}

#[test]
fn switching_and_removing_look_at_the_list() {
    let list = vec![workspace("a", "/a", true, false), workspace("b", "/b", false, false)];
    assert!(matches!(switch_plan("a", "a", &list), SwitchPlan::Already));
    assert!(matches!(switch_plan("a", "b", &list), SwitchPlan::Switch { position: 1 }));
    match switch_plan("a", "c", &list) {
        SwitchPlan::Unknown { message } => assert_eq!(message, "Workspace 'c' not found.\n  Available: a, b"),
        other => panic!("{:?}", other),
    }
    assert_eq!(check_removal("a", "b", &list), None);
    assert_eq!(
        check_removal("a", "a", &list).unwrap(),
        "Cannot remove current workspace.\n  Switch to another workspace first:\n    tl worktree switch b"
    );
    assert_eq!(
        check_removal("a", "a", &vec![workspace("a", "/a", true, false)]).unwrap(),
        "Cannot remove current workspace.\n  This is the only workspace."
    );
}

#[test]
fn workspaces_remember_where_they_were_left() {
    let fresh = added_state("fix", "/p", Some(3), 50);
    assert_eq!((fresh.created_ms, fresh.last_switched_ms), (50, 50));
    assert_eq!(fresh.auto_pin, Some("ws:fix".to_string()));
    let left = left_state(Some(fresh), "fix", "/root", 9, 70);
    assert_eq!(left.path, "/p");
    assert_eq!((left.created_ms, left.last_switched_ms, left.current_checkpoint), (50, 70, Some(9)));
    assert_eq!(left.auto_pin, Some("ws:fix".to_string()));
    assert_eq!(workspace_pin("fix"), "ws:fix");
    let unknown = left_state(None, "main", "/root", 9, 70);
    assert_eq!((unknown.path, unknown.created_ms), ("/root".to_string(), 70));
}
