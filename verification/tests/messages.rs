use timelapse::ipc::{
    connection_step, frame_message, is_transient, message_length, Attempt, Cause, ConnectionStep, DaemonStatus, IpcResponse,
    PrefixRead, ReplyError, ResilientIpcClient, RetryStep, TooLarge, MAX_MESSAGE_SIZE,
};
use timelapse::locks::{daemon_lock_step, is_held, is_stale_lock, process_directory, LockContent, LockProbe, LockStep};
use timelapse::wire::{push_le, read_le};

fn status() -> DaemonStatus {
    DaemonStatus {
        running: true,
        pid: 7,
        start_time_ms: 1,
        checkpoints_created: 2,
        last_checkpoint_time: None,
        watcher_paths: 3,
        checkpoints_skipped: 0,
    }
}

#[test]
fn messages_carry_their_length() {
    let framed = frame_message(b"hello").unwrap();
    assert_eq!(framed, b"\x05\0\0\0hello".to_vec());
    let prefix = [framed[0], framed[1], framed[2], framed[3]];
    assert_eq!(message_length(prefix), Ok(5));
}

#[test]
fn messages_above_the_limit_are_refused() {
    let large = vec![0u8; MAX_MESSAGE_SIZE + 1];
    assert_eq!(frame_message(&large), Err(TooLarge { len: MAX_MESSAGE_SIZE + 1 }));
    assert!(frame_message(&large[1..]).is_ok());
    let prefix = (MAX_MESSAGE_SIZE as u32 + 1).to_le_bytes();
    assert_eq!(message_length(prefix), Err(TooLarge { len: MAX_MESSAGE_SIZE + 1 }));
}

#[test]
fn little_endian_numbers_read_back() {
    let mut out = vec![9u8];
    push_le(&mut out, 0x0102030405060708, 8);
    assert_eq!(out[1..], 0x0102030405060708u64.to_le_bytes());
    assert_eq!(read_le(&out, 1, 8), 0x0102030405060708);
    assert_eq!(read_le(&out, 1, 2), 0x0708);
}

#[test]
fn a_closed_connection_is_no_request() {
    assert!(matches!(connection_step(PrefixRead::Closed), ConnectionStep::Ignore));
    assert!(matches!(connection_step(PrefixRead::Bytes([3, 0, 0, 0])), ConnectionStep::ReadMessage { len: 3 }));
    assert!(!matches!(connection_step(PrefixRead::Bytes([255, 255, 255, 255])), ConnectionStep::ReadMessage { .. }));
}

#[test]
fn answers_are_taken_apart() {
    assert_eq!(IpcResponse::Status(status()).into_status().unwrap().pid, 7);
    assert!(IpcResponse::Done.into_ack().is_ok());
    assert!(matches!(IpcResponse::Head(None).into_head(), Ok(None)));
    assert!(matches!(IpcResponse::CheckpointFlushed(None).into_flushed(), Ok(None)));
    assert!(matches!(IpcResponse::CheckpointFlushed(None).into_forced(), Err(ReplyError::NoCheckpoints)));
    assert_eq!(IpcResponse::CheckpointCount(9).into_count().unwrap(), 9);
    assert!(IpcResponse::Checkpoints(vec![]).into_checkpoints().unwrap().is_empty());
    assert!(IpcResponse::CheckpointBatch(vec![None]).into_batch().unwrap()[0].is_none());
    assert!(IpcResponse::ResolvedCheckpoints(vec![]).into_resolved().unwrap().is_empty());
    let full = IpcResponse::StatusFull { status: status(), head: None, checkpoint_count: 4 };
    assert_eq!(full.into_status_full().unwrap().2, 4);
    assert_eq!(IpcResponse::LogData { count: 6, checkpoints: vec![] }.into_log_data().unwrap().0, 6);
    let info = IpcResponse::InfoData { total_checkpoints: 1, checkpoint_ids: vec!["x".to_string()], store_size_bytes: 2 };
    assert_eq!(info.into_info().unwrap(), (1, vec!["x".to_string()], 2));
}

#[test]
fn other_answers_are_errors() {
    assert!(matches!(IpcResponse::Done.into_status(), Err(ReplyError::Unexpected)));
    let failed = IpcResponse::Error("no".to_string());
    assert!(matches!(failed.into_head(), Err(ReplyError::Daemon(e)) if e == "no"));
}

#[test]
fn attempts_are_limited() {
    let client = ResilientIpcClient::new("/tmp/s".to_string());
    assert_eq!(client.connect_step(0, true), RetryStep::Return);
    assert_eq!(client.connect_step(0, false), RetryStep::WaitAndRetry);
    assert_eq!(client.connect_step(9, false), RetryStep::Fail);
    assert_eq!(client.send_step(0, Attempt::Succeeded), RetryStep::Return);
    assert_eq!(client.send_step(3, Attempt::FailedTransiently), RetryStep::WaitAndRetry);
    assert_eq!(client.send_step(3, Attempt::Failed), RetryStep::Fail);
    assert_eq!(client.send_step(9, Attempt::ConnectFailed), RetryStep::Fail);
}

#[test]
fn some_failures_may_pass() {
    assert!(is_transient(&[Cause::Other, Cause::Elapsed]));
    assert!(is_transient(&[Cause::Other, Cause::TransientIo, Cause::OtherIo]));
    assert!(!is_transient(&[Cause::OtherIo, Cause::TransientIo]));
    assert!(!is_transient(&[]));
}

#[test]
fn locks_of_dead_processes_are_stale() {
    let holder = LockContent { pid: 12, started_at: 5 };
    assert!(!is_stale_lock(Some(holder), true));
    assert!(is_stale_lock(Some(holder), false));
    assert_eq!(daemon_lock_step(true, Some(holder), true), LockStep::Taken);
    assert_ne!(daemon_lock_step(false, Some(holder), true), daemon_lock_step(false, Some(holder), false));
    assert_eq!(process_directory(12), "/proc/12");
    assert!(!is_held(LockProbe::Missing));
    assert!(!is_held(LockProbe::Acquired));
}
