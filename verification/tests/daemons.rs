use timelapse::daemon::{
    add_paths, append_answer, calculate_bytes_statistics, collect_workspace_checkpoints, draft_batch, draft_import, flush_answer,
    import_step, initial_root, load_pending_paths, mark_answer, recover_paths, respond, save_pending_paths, start_wait_step, stop_step,
    stop_wait_step, CycleStep, DaemonSupervisor, DaemonView, FlushOutcome, ImportStep, LoopState, PathSizes, Reply, SaveStep,
    StopStep, WaitStep, START_TIMEOUT_SECS,
};
use timelapse::hash::hash_bytes;
use timelapse::ids::id_text;
use timelapse::ipc::{DaemonStatus, IpcRequest, IpcResponse};
use timelapse::journal::{Checkpoint, CheckpointMeta, CheckpointReason, History};
use timelapse::system_config::DaemonConfig;
use timelapse::tree::EntryKind;

fn status() -> DaemonStatus {
    DaemonStatus {
        running: true,
        pid: 1,
        start_time_ms: 0,
        checkpoints_created: 0,
        last_checkpoint_time: None,
        watcher_paths: 0,
        checkpoints_skipped: 0,
    }
}

fn checkpoint(id: u128, parent: Option<u128>) -> Checkpoint {
    Checkpoint {
        id,
        parent,
        root_tree: hash_bytes(&id.to_le_bytes()),
        ts_unix_ms: 0,
        reason: CheckpointReason::FsBatch,
        touched_paths: vec![],
        meta: CheckpointMeta { files_changed: 0, bytes_added: 0, bytes_removed: 0 },
    }
}

fn state() -> LoopState {
    LoopState { pending: vec![], status: status(), last_checkpoint_ms: 0, last_save_ms: 0, last_gc_ms: 0 }
}

fn answer(history: &Result<History, String>, request: IpcRequest) -> IpcResponse {
    let pins = vec![("named".to_string(), 2u128)];
    let view = DaemonView { journal: history, pins: &pins, status: status(), checkpoint_count: 2, store_size_bytes: 99 };
    match respond(&view, request) {
        Reply::Answer(response) => response,
        other => panic!("{:?}", other),
    }
}

fn two() -> Result<History, String> {
    Ok(History { records: vec![checkpoint(1, None), checkpoint(2, Some(1))], head: Some(2) })
}

#[test]
fn requests_about_the_history_are_answered_at_once() {
    let journal = two();
    assert_eq!(answer(&journal, IpcRequest::GetStatus).into_status().unwrap(), status());
    assert_eq!(answer(&journal, IpcRequest::GetHead).into_head().unwrap().unwrap().id, 2);
    assert_eq!(answer(&journal, IpcRequest::GetCheckpointCount).into_count().unwrap(), 2);
    let page = answer(&journal, IpcRequest::GetCheckpoints { limit: Some(1), offset: Some(1) }).into_checkpoints().unwrap();
    assert_eq!(page.len(), 1);
    assert_eq!(page[0].id, 1);
    let refs = vec!["named".to_string(), "HEAD~1".to_string(), "nothing".to_string()];
    let found = answer(&journal, IpcRequest::ResolveCheckpointRefs(refs)).into_resolved().unwrap();
    let ids: Vec<Option<u128>> = found.iter().map(|c| c.as_ref().map(|c| c.id)).collect();
    assert_eq!(ids, vec![Some(2), Some(1), None]);
    let batch = vec![id_text(1), "bad".to_string()];
    let found = answer(&journal, IpcRequest::GetCheckpointBatch(batch));
    assert!(matches!(found, IpcResponse::CheckpointBatch(_) | IpcResponse::Error(_)));
    let (count, listed) = answer(&journal, IpcRequest::GetLogData { limit: None, offset: None }).into_log_data().unwrap();
    assert_eq!((count, listed.len()), (2, 2));
    let (total, ids, size) = answer(&journal, IpcRequest::GetInfoData).into_info().unwrap();
    assert_eq!((total, ids, size), (2, vec![id_text(1), id_text(2)], 99));
    assert!(matches!(answer(&journal, IpcRequest::GetCheckpoint(id_text(1))), IpcResponse::Checkpoint(Some(c)) if c.id == 1));
    assert!(matches!(answer(&journal, IpcRequest::GetCheckpoint(id_text(5))), IpcResponse::Checkpoint(None)));
}

#[test]
fn requests_that_need_work_are_handed_on() {
    let journal = two();
    let pins = vec![];
    let view = DaemonView { journal: &journal, pins: &pins, status: status(), checkpoint_count: 2, store_size_bytes: 0 };
    assert!(matches!(respond(&view, IpcRequest::FlushCheckpoint), Reply::Flush));
    assert!(matches!(respond(&view, IpcRequest::FlushCheckpointFast), Reply::Flush));
    assert!(matches!(respond(&view, IpcRequest::InvalidatePathmap), Reply::MarkPathmapStale));
    let import = IpcRequest::ImportRemoteCommit { commit_id: "abc".to_string(), no_pin: true };
    assert!(matches!(respond(&view, import), Reply::Import { no_pin: true, .. }));
    match respond(&view, IpcRequest::ForceCheckpoint) {
        Reply::Append(draft) => {
            assert_eq!(draft.parent, Some(2));
            assert_eq!(draft.root_tree, hash_bytes(&2u128.to_le_bytes()));
            assert_eq!(draft.reason, CheckpointReason::Manual);
        }
        other => panic!("{:?}", other),
    }
}

#[test]
fn an_unreadable_journal_is_reported() {
    let journal: Result<History, String> = Err("broken".to_string());
    assert!(matches!(answer(&journal, IpcRequest::GetHead), IpcResponse::Error(e) if e.contains("broken")));
}

#[test]
fn outcomes_become_answers() {
    assert!(matches!(flush_answer(FlushOutcome::NotSent), IpcResponse::Error(e) if e == "Daemon shutting down"));
    assert!(matches!(flush_answer(FlushOutcome::Made(None)), IpcResponse::CheckpointFlushed(None)));
    assert!(matches!(flush_answer(FlushOutcome::Made(Some(3))), IpcResponse::CheckpointFlushed(Some(t)) if t == id_text(3)));
    assert!(matches!(append_answer(Ok(4)), IpcResponse::CheckpointFlushed(Some(t)) if t == id_text(4)));
    assert!(matches!(append_answer(Err("x".to_string())), IpcResponse::Error(_)));
    assert!(matches!(mark_answer(Ok(())), IpcResponse::Done));
    assert!(matches!(mark_answer(Err("x".to_string())), IpcResponse::Error(_)));
}

#[test]
fn commits_are_imported_once() {
    let history = two().unwrap();
    assert!(matches!(import_step(&history, Some(1)), ImportStep::AlreadyPresent(c) if c.id == 1));
    assert!(!matches!(import_step(&history, None), ImportStep::AlreadyPresent(_)));
    assert!(!matches!(import_step(&history, Some(9)), ImportStep::AlreadyPresent(_)));
    let draft = draft_import(Some(2), hash_bytes(b"t"), 12);
    assert_eq!(draft.reason, CheckpointReason::Publish);
    assert_eq!(draft.meta.files_changed, 12);
}

#[test]
fn pending_paths_are_each_kept_once() {
    let mut s = state();
    let batch = vec!["a".to_string(), "b".to_string(), "a".to_string()];
    assert_eq!(s.on_batch(&batch, 1000), SaveStep::Keep);
    assert_eq!(s.pending, vec!["a", "b"]);
    assert_eq!(s.status.watcher_paths, 2);
    assert_eq!(s.on_batch(&vec!["c".to_string(), "b".to_string()], 2000), SaveStep::Save);
    assert_eq!(s.pending, vec!["a", "b", "c"]);
    assert_eq!(s.on_batch(&vec!["d".to_string()], 3999), SaveStep::Keep);
    assert_eq!(s.on_batch(&vec![], 9000), SaveStep::Keep);
}

#[test]
fn checkpoints_wait_for_restores_and_collections() {
    let mut s = state();
    assert_eq!(s.begin_checkpoint(false, false), CycleStep::Nothing);
    assert_eq!(s.checkpoint_deadline(5), None);
    s.on_batch(&vec!["a".to_string()], 0);
    assert_eq!(s.checkpoint_deadline(5), Some(5000));
    assert_eq!(s.begin_checkpoint(true, false), CycleStep::Skip);
    assert_eq!(s.begin_checkpoint(false, true), CycleStep::Skip);
    assert_eq!(s.status.checkpoints_skipped, 2);
    assert_eq!(s.begin_checkpoint(false, false), CycleStep::Create);
    assert_eq!(s.end_checkpoint(false, 77, 10), SaveStep::Save);
    assert_eq!(s.pending, vec!["a"]);
    assert_eq!(s.end_checkpoint(true, 77, 10), SaveStep::Clear);
    assert!(s.pending.is_empty());
    assert_eq!(s.status.last_checkpoint_time, Some(77));
    assert_eq!(s.status.checkpoints_created, 1);
}

#[test]
fn collection_is_due_by_number_or_by_time() {
    let config = DaemonConfig::default();
    let mut s = state();
    assert!(!s.gc_due(&config, 5000, 3_599_999));
    assert!(s.gc_due(&config, 5001, 10));
    assert_eq!(s.last_gc_ms, 10);
    assert!(s.gc_due(&config, 0, 3_600_010));
    let off = DaemonConfig { auto_gc_enabled: false, ..config };
    assert!(!s.gc_due(&off, 90_000, 99_000_000));
}

#[test]
fn too_many_crashes_stop_the_daemon() {
    let supervisor = DaemonSupervisor::new("/r".to_string());
    let mut crashes = vec![1000, 2000, 3000, 4000, 5000];
    assert!(!supervisor.may_start(&mut crashes, 6000));
    assert_eq!(crashes.len(), 5);
    assert!(supervisor.may_start(&mut crashes, 61_500));
    assert_eq!(crashes, vec![2000, 3000, 4000, 5000]);
}

#[test]
fn pending_paths_survive_a_restart() {
    let pending = vec!["src/a.rs".to_string(), "b \"quoted\".txt".to_string(), "ü\n".to_string()];
    let text = save_pending_paths(&pending);
    assert_eq!(text, serde_json::to_string(&pending).unwrap());
    assert_eq!(load_pending_paths(&text), pending);
    assert!(load_pending_paths("no json").is_empty());
    assert_eq!(recover_paths(Some(vec!["a".to_string(), "a".to_string()])), vec!["a"]);
    assert!(recover_paths(None).is_empty());
}

#[test]
fn sizes_before_and_after_are_summed() {
    let paths = [
        PathSizes { current: 10, previous: None, previous_len: 5 },
        PathSizes { current: 7, previous: Some(EntryKind::File), previous_len: 3 },
        PathSizes { current: 0, previous: Some(EntryKind::ExecutableFile), previous_len: 20 },
        PathSizes { current: 0, previous: Some(EntryKind::Symlink), previous_len: 40 },
    ];
    assert_eq!(calculate_bytes_statistics(&paths), (17, 23));
}

#[test]
fn batches_become_drafts() {
    let draft = draft_batch(Some(4), hash_bytes(b"tree"), &vec!["x".to_string(), "y".to_string()], 3, 4);
    assert_eq!(draft.touched_paths, vec!["x", "y"]);
    assert_eq!(draft.meta, CheckpointMeta { files_changed: 2, bytes_added: 3, bytes_removed: 4 });
    assert_eq!(draft.reason, CheckpointReason::FsBatch);
}

#[test]
fn a_new_map_starts_at_the_latest_tree() {
    let latest = checkpoint(1, None);
    assert_eq!(initial_root(Some(&latest)), latest.root_tree);
    assert_eq!(initial_root(None).to_hex(), "0".repeat(40));
}

#[test]
fn stopping_looks_at_socket_and_lock() {
    assert_eq!(stop_step(false, true, true), StopStep::NotRunning);
    assert_eq!(stop_step(true, true, false), StopStep::RequestShutdown);
    assert_eq!(stop_step(true, false, true), StopStep::RemoveLeftovers);
    assert_eq!(stop_step(true, false, false), StopStep::Fail);
}

#[test]
fn checkpoints_of_workspaces_are_kept() {
    assert_eq!(collect_workspace_checkpoints(false, &vec![Some(1)]), None);
    assert_eq!(collect_workspace_checkpoints(true, &vec![Some(1), None, Some(2), Some(1)]), Some(vec![1, 2]));
}

#[test]
fn paths_are_added_in_order() {
    let mut paths = vec!["a".to_string()];
    add_paths(&mut paths, &vec!["b".to_string(), "a".to_string()]);
    assert_eq!(paths, vec!["a", "b"]);
}

#[test]
fn a_daemon_is_waited_for() {
    assert_eq!(start_wait_step(0, START_TIMEOUT_SECS, false), WaitStep::Sleep { ms: 100 });
    assert_eq!(start_wait_step(999, START_TIMEOUT_SECS, true), WaitStep::Done);
    assert_eq!(start_wait_step(1000, START_TIMEOUT_SECS, true), WaitStep::GiveUp);
    assert_eq!(start_wait_step(2999, 3, false), WaitStep::Sleep { ms: 100 });
    assert_eq!(start_wait_step(3000, 3, false), WaitStep::GiveUp);
    assert_eq!(start_wait_step(0, 0, true), WaitStep::GiveUp);
    assert_eq!(start_wait_step(u64::MAX, u64::MAX, false), WaitStep::Sleep { ms: 100 });
    assert_eq!(stop_wait_step(0, false), WaitStep::Done);
    assert_eq!(stop_wait_step(6000, false), WaitStep::Done);
    assert_eq!(stop_wait_step(4999, true), WaitStep::Sleep { ms: 100 });
    assert_eq!(stop_wait_step(5000, true), WaitStep::GiveUp);
}
