//! Messages between the command line and the daemon: their types, their frames on
//! the socket, what answers a request, and when a failed request is tried again.

use vstd::prelude::*;

use crate::journal::Checkpoint;
use crate::text::append_bytes;
use crate::wire::{push_le, read_le};

verus! {

/// The longest message, 10 MiB.
pub const MAX_MESSAGE_SIZE: usize = 10485760;

/// A request to the daemon.
#[derive(Debug)]
pub enum IpcRequest {
    /// The daemon's status.
    GetStatus,
    /// The latest checkpoint.
    GetHead,
    /// The checkpoint with this identifier.
    GetCheckpoint(String),
    /// A checkpoint of what is pending, now.
    FlushCheckpoint,
    /// A checkpoint of what is pending, without waiting for more.
    FlushCheckpointFast,
    /// A checkpoint even though nothing is pending.
    ForceCheckpoint,
    /// The end of the daemon.
    Shutdown,
    /// A page of the history.
    GetCheckpoints { limit: Option<usize>, offset: Option<usize> },
    /// The number of checkpoints.
    GetCheckpointCount,
    /// The checkpoints with these identifiers.
    GetCheckpointBatch(Vec<String>),
    /// Status, latest checkpoint and number of checkpoints.
    GetStatusFull,
    /// Number of checkpoints and a page of the history.
    GetLogData { limit: Option<usize>, offset: Option<usize> },
    /// The checkpoints that these references name.
    ResolveCheckpointRefs(Vec<String>),
    /// Identifiers of all checkpoints and the size of the store.
    GetInfoData,
    /// The map of paths no longer matches the working directory.
    InvalidatePathmap,
    /// A commit to take over as a checkpoint.
    ImportRemoteCommit { commit_id: String, no_pin: bool },
}

/// An answer of the daemon.
#[derive(Debug)]
pub enum IpcResponse {
    /// The daemon's status.
    Status(DaemonStatus),
    /// The latest checkpoint, if there is one.
    Head(Option<Checkpoint>),
    /// The checkpoint asked for, if it is recorded.
    Checkpoint(Option<Checkpoint>),
    /// The identifier of the new checkpoint; none where nothing was pending.
    CheckpointFlushed(Option<String>),
    /// The request was carried out.
    Done,
    /// A page of the history.
    Checkpoints(Vec<Checkpoint>),
    /// The number of checkpoints.
    CheckpointCount(usize),
    /// The checkpoints asked for, in that order.
    CheckpointBatch(Vec<Option<Checkpoint>>),
    /// Status, latest checkpoint and number of checkpoints.
    StatusFull { status: DaemonStatus, head: Option<Checkpoint>, checkpoint_count: usize },
    /// Number of checkpoints and a page of the history.
    LogData { count: usize, checkpoints: Vec<Checkpoint> },
    /// The checkpoints that the references name, in that order.
    ResolvedCheckpoints(Vec<Option<Checkpoint>>),
    /// Identifiers of all checkpoints and the size of the store.
    InfoData { total_checkpoints: usize, checkpoint_ids: Vec<String>, store_size_bytes: u64 },
    /// The checkpoint of an imported commit.
    ImportedCommit { checkpoint: Checkpoint, already_present: bool },
    /// The request failed.
    Error(String),
}

/// The daemon's status.
#[derive(Debug, Clone, Copy, PartialEq, Eq, Structural)]
pub struct DaemonStatus {
    /// Whether the daemon runs.
    pub running: bool,
    /// Its process.
    pub pid: u32,
    /// When it started, in milliseconds since the start of 1970.
    pub start_time_ms: u64,
    /// Number of checkpoints that it has made.
    pub checkpoints_created: u64,
    /// When it made the last one.
    pub last_checkpoint_time: Option<u64>,
    /// Number of paths with pending changes.
    pub watcher_paths: usize,
    /// Number of checkpoints skipped because of a restore or a garbage collection.
    pub checkpoints_skipped: u64,
}

/// A message that is longer than allowed.
#[derive(Debug, Clone, Copy, PartialEq, Eq, Structural)]
pub struct TooLarge {
    /// Length of the message.
    pub len: usize,
}

/// A message on the socket: its length in four bytes, lowest first, and its bytes.
pub open spec fn frame(payload: Seq<u8>) -> Seq<u8> {
    crate::wire::le_bytes(payload.len(), 4) + payload
}

/// Puts the length in front of a message.
pub fn frame_message(payload: &[u8]) -> (r: Result<Vec<u8>, TooLarge>)
    ensures
        match r {
            Ok(v) => payload@.len() <= MAX_MESSAGE_SIZE && v@ == frame(payload@),
            Err(e) => payload@.len() > MAX_MESSAGE_SIZE && e.len == payload@.len(),
        },
{
    if payload.len() > MAX_MESSAGE_SIZE {
        return Err(TooLarge { len: payload.len() });
    }
    let mut v: Vec<u8> = Vec::new();
    push_le(&mut v, payload.len() as u64, 4);
    append_bytes(&mut v, payload);
    assert(v@ =~= frame(payload@));
    Ok(v)
}

/// The length of the message that follows the four bytes read first.
pub fn message_length(prefix: [u8; 4]) -> (r: Result<usize, TooLarge>)
    ensures
        match r {
            Ok(n) => n == crate::wire::le_value(prefix@) && n <= MAX_MESSAGE_SIZE,
            Err(e) => e.len == crate::wire::le_value(prefix@) && e.len > MAX_MESSAGE_SIZE,
        },
{
    let n: u64 = read_le(prefix.as_slice(), 0, 4);
    proof {
        assert(prefix@.subrange(0, 4) =~= prefix@);
        crate::wire::le_value_bound(prefix@);
        crate::wire::pow256_values();
    }
    let len: usize = n as usize;
    if len > MAX_MESSAGE_SIZE {
        Err(TooLarge { len })
    } else {
        Ok(len)
    }
}

/// A framed message is read back: its first four bytes give the length of the
/// rest, and the rest is the message.
pub proof fn frame_round_trip(payload: Seq<u8>)
    requires
        payload.len() <= MAX_MESSAGE_SIZE,
    ensures
        frame(payload).len() == 4 + payload.len(),
        crate::wire::le_value(frame(payload).take(4)) == payload.len(),
        frame(payload).skip(4) == payload,
{
    crate::wire::pow256_values();
    crate::wire::le_round_trip(payload.len(), 4);
    assert(frame(payload).take(4) =~= crate::wire::le_bytes(payload.len(), 4));
    assert(frame(payload).skip(4) =~= payload);
}

/// What came of reading the first four bytes of a connection.
#[derive(Debug, Clone, Copy)]
pub enum PrefixRead {
    /// The four bytes.
    Bytes([u8; 4]),
    /// The other side closed the connection before sending them.
    Closed,
    /// Reading failed.
    Failed,
}

/// What to do with a connection once its first four bytes were read.
#[derive(Debug, Clone, Copy, PartialEq, Eq, Structural)]
pub enum ConnectionStep {
    /// Read a message of this length and answer it.
    ReadMessage { len: usize },
    /// End without an answer; the other side only looked whether the daemon is there.
    Ignore,
    /// The message is longer than allowed.
    Refuse { len: usize },
    /// Reading failed.
    Fail,
}

/// Decides what to do with a connection.
pub fn connection_step(read: PrefixRead) -> (step: ConnectionStep)
    ensures
        step == (match read {
            PrefixRead::Closed => ConnectionStep::Ignore,
            PrefixRead::Failed => ConnectionStep::Fail,
            PrefixRead::Bytes(b) => {
                let len = crate::wire::le_value(b@) as usize;
                if len > MAX_MESSAGE_SIZE {
                    ConnectionStep::Refuse { len }
                } else {
                    ConnectionStep::ReadMessage { len }
                }
            },
        }),
{
    match read {
        PrefixRead::Closed => ConnectionStep::Ignore,
        PrefixRead::Failed => ConnectionStep::Fail,
        PrefixRead::Bytes(b) => {
            match message_length(b) {
                Ok(len) => ConnectionStep::ReadMessage { len },
                Err(e) => ConnectionStep::Refuse { len: e.len },
            }
        },
    }
}

/// Why an answer does not give what was asked for.
#[derive(Debug)]
pub enum ReplyError {
    /// The daemon reported an error.
    Daemon(String),
    /// There is no checkpoint yet.
    NoCheckpoints,
    /// The answer is not one to this request.
    Unexpected,
}

/// An answer other than the one that was asked for is the daemon's error or is not
/// expected.
pub open spec fn is_refusal(response: IpcResponse, e: ReplyError) -> bool {
    match response {
        IpcResponse::Error(text) => e == ReplyError::Daemon(text),
        _ => e == ReplyError::Unexpected,
    }
}

/// The error in an answer other than the one that was asked for.
fn refusal(response: IpcResponse) -> (e: ReplyError)
    ensures
        is_refusal(response, e),
{
    match response {
        IpcResponse::Error(text) => ReplyError::Daemon(text),
        _ => ReplyError::Unexpected,
    }
}

impl IpcResponse {
    /// The answer to a request for the status.
    pub fn into_status(self) -> (r: Result<DaemonStatus, ReplyError>)
        ensures
            match r {
                Ok(s) => self == IpcResponse::Status(s),
                Err(e) => !(self is Status) && is_refusal(self, e),
            },
    {
        match self {
            IpcResponse::Status(s) => Ok(s),
            other => Err(refusal(other)),
        }
    }

    /// The answer to a request that is only acknowledged: the end of the daemon, or
    /// that the map of paths no longer matches.
    pub fn into_ack(self) -> (r: Result<(), ReplyError>)
        ensures
            match r {
                Ok(()) => self == IpcResponse::Done,
                Err(e) => self != IpcResponse::Done && is_refusal(self, e),
            },
    {
        match self {
            IpcResponse::Done => Ok(()),
            other => Err(refusal(other)),
        }
    }

    /// The answer to a request for the latest checkpoint.
    pub fn into_head(self) -> (r: Result<Option<Checkpoint>, ReplyError>)
        ensures
            match r {
                Ok(c) => self == IpcResponse::Head(c),
                Err(e) => !(self is Head) && is_refusal(self, e),
            },
    {
        match self {
            IpcResponse::Head(c) => Ok(c),
            other => Err(refusal(other)),
        }
    }

    /// The answer to a request to checkpoint what is pending.
    pub fn into_flushed(self) -> (r: Result<Option<String>, ReplyError>)
        ensures
            match r {
                Ok(id) => self == IpcResponse::CheckpointFlushed(id),
                Err(e) => !(self is CheckpointFlushed) && is_refusal(self, e),
            },
    {
        match self {
            IpcResponse::CheckpointFlushed(id) => Ok(id),
            other => Err(refusal(other)),
        }
    }

    /// The answer to a request for a checkpoint even though nothing is pending.
    pub fn into_forced(self) -> (r: Result<String, ReplyError>)
        ensures
            match r {
                Ok(id) => self == IpcResponse::CheckpointFlushed(Some(id)),
                Err(e) => if self is CheckpointFlushed {
                    self == IpcResponse::CheckpointFlushed(None) && e == ReplyError::NoCheckpoints
                } else {
                    is_refusal(self, e)
                },
            },
    {
        match self {
            IpcResponse::CheckpointFlushed(Some(id)) => Ok(id),
            IpcResponse::CheckpointFlushed(None) => Err(ReplyError::NoCheckpoints),
            other => Err(refusal(other)),
        }
    }

    /// The answer to a request for a page of the history.
    pub fn into_checkpoints(self) -> (r: Result<Vec<Checkpoint>, ReplyError>)
        ensures
            match r {
                Ok(v) => self == IpcResponse::Checkpoints(v),
                Err(e) => !(self is Checkpoints) && is_refusal(self, e),
            },
    {
        match self {
            IpcResponse::Checkpoints(v) => Ok(v),
            other => Err(refusal(other)),
        }
    }

    /// The answer to a request for the number of checkpoints.
    pub fn into_count(self) -> (r: Result<usize, ReplyError>)
        ensures
            match r {
                Ok(n) => self == IpcResponse::CheckpointCount(n),
                Err(e) => !(self is CheckpointCount) && is_refusal(self, e),
            },
    {
        match self {
            IpcResponse::CheckpointCount(n) => Ok(n),
            other => Err(refusal(other)),
        }
    }

    /// The answer to a request for several checkpoints.
    pub fn into_batch(self) -> (r: Result<Vec<Option<Checkpoint>>, ReplyError>)
        ensures
            match r {
                Ok(v) => self == IpcResponse::CheckpointBatch(v),
                Err(e) => !(self is CheckpointBatch) && is_refusal(self, e),
            },
    {
        match self {
            IpcResponse::CheckpointBatch(v) => Ok(v),
            other => Err(refusal(other)),
        }
    }

    /// The answer to a request for status, latest checkpoint and number.
    pub fn into_status_full(self) -> (r: Result<(DaemonStatus, Option<Checkpoint>, usize), ReplyError>)
        ensures
            match r {
                Ok((status, head, checkpoint_count)) => self == (IpcResponse::StatusFull {
                    status,
                    head,
                    checkpoint_count,
                }),
                Err(e) => !(self is StatusFull) && is_refusal(self, e),
            },
    {
        match self {
            IpcResponse::StatusFull { status, head, checkpoint_count } => Ok((status, head, checkpoint_count)),
            other => Err(refusal(other)),
        }
    }

    /// The answer to a request for the number of checkpoints and a page.
    pub fn into_log_data(self) -> (r: Result<(usize, Vec<Checkpoint>), ReplyError>)
        ensures
            match r {
                Ok((count, checkpoints)) => self == (IpcResponse::LogData { count, checkpoints }),
                Err(e) => !(self is LogData) && is_refusal(self, e),
            },
    {
        match self {
            IpcResponse::LogData { count, checkpoints } => Ok((count, checkpoints)),
            other => Err(refusal(other)),
        }
    }

    /// The answer to a request to resolve references.
    pub fn into_resolved(self) -> (r: Result<Vec<Option<Checkpoint>>, ReplyError>)
        ensures
            match r {
                Ok(v) => self == IpcResponse::ResolvedCheckpoints(v),
                Err(e) => !(self is ResolvedCheckpoints) && is_refusal(self, e),
            },
    {
        match self {
            IpcResponse::ResolvedCheckpoints(v) => Ok(v),
            other => Err(refusal(other)),
        }
    }

    /// The answer to a request for identifiers and the size of the store.
    pub fn into_info(self) -> (r: Result<(usize, Vec<String>, u64), ReplyError>)
        ensures
            match r {
                Ok((total_checkpoints, checkpoint_ids, store_size_bytes)) => self == (IpcResponse::InfoData {
                    total_checkpoints,
                    checkpoint_ids,
                    store_size_bytes,
                }),
                Err(e) => !(self is InfoData) && is_refusal(self, e),
            },
    {
        match self {
            IpcResponse::InfoData { total_checkpoints, checkpoint_ids, store_size_bytes } => Ok(
                (total_checkpoints, checkpoint_ids, store_size_bytes),
            ),
            other => Err(refusal(other)),
        }
    }

    /// The answer to a request to import a commit.
    pub fn into_imported(self) -> (r: Result<(Checkpoint, bool), ReplyError>)
        ensures
            match r {
                Ok((checkpoint, already_present)) => self == (IpcResponse::ImportedCommit {
                    checkpoint,
                    already_present,
                }),
                Err(e) => !(self is ImportedCommit) && is_refusal(self, e),
            },
    {
        match self {
            IpcResponse::ImportedCommit { checkpoint, already_present } => Ok((checkpoint, already_present)),
            other => Err(refusal(other)),
        }
    }
}

/// A client that tries again while the daemon starts or restarts.
#[derive(Debug)]
pub struct ResilientIpcClient {
    /// Path of the daemon's socket.
    pub socket_path: String,
    /// Number of attempts to connect.
    pub max_retries: usize,
    /// Wait after the first failed attempt, in milliseconds.
    pub initial_backoff_ms: u64,
}

/// Number of attempts to send a request.
pub const SEND_ATTEMPTS: usize = 10;

/// What came of one attempt.
#[derive(Debug, Clone, Copy, PartialEq, Eq, Structural)]
pub enum Attempt {
    /// It succeeded.
    Succeeded,
    /// No connection could be made.
    ConnectFailed,
    /// The request failed; the failure may pass.
    FailedTransiently,
    /// The request failed for good.
    Failed,
}

/// What to do after one attempt.
#[derive(Debug, Clone, Copy, PartialEq, Eq, Structural)]
pub enum RetryStep {
    /// Return what the attempt gave.
    Return,
    /// Wait, let the wait grow, and try again.
    WaitAndRetry,
    /// Return the failure.
    Fail,
}

impl ResilientIpcClient {
    /// A client for the given socket: ten attempts, the first wait of 50 milliseconds.
    pub fn new(socket_path: String) -> (c: Self)
        ensures
            c.socket_path == socket_path,
            c.max_retries == 10,
            c.initial_backoff_ms == 50,
    {
        ResilientIpcClient { socket_path, max_retries: 10, initial_backoff_ms: 50 }
    }

    /// Decides after attempt number `attempt`, counted from 0, to connect.
    pub fn connect_step(&self, attempt: usize, connected: bool) -> (step: RetryStep)
        requires
            attempt < self.max_retries,
        ensures
            step == after_connecting(attempt, self.max_retries, connected),
    {
        if connected {
            RetryStep::Return
        } else if attempt == self.max_retries - 1 {
            RetryStep::Fail
        } else {
            RetryStep::WaitAndRetry
        }
    }

    /// Decides after attempt number `attempt`, counted from 0, to send a request: a
    /// failure to connect and a failure that may pass are tried again, but for the
    /// last attempt.
    pub fn send_step(&self, attempt: usize, outcome: Attempt) -> (step: RetryStep)
        requires
            attempt < SEND_ATTEMPTS,
        ensures
            step == after_sending(attempt, outcome),
    {
        match outcome {
            Attempt::Succeeded => RetryStep::Return,
            Attempt::Failed => RetryStep::Fail,
            _ => if attempt < SEND_ATTEMPTS - 1 {
                RetryStep::WaitAndRetry
            } else {
                RetryStep::Fail
            },
        }
    }
}

/// A cause in the chain of causes of a failure, outermost first.
#[derive(Debug, Clone, Copy, PartialEq, Eq, Structural)]
pub enum Cause {
    /// A time limit ran out.
    Elapsed,
    /// An error of the socket that may pass: a broken pipe, a connection reset or
    /// aborted or not there, an unexpected end, or a time limit.
    TransientIo,
    /// Another error of the socket.
    OtherIo,
    /// Anything else.
    Other,
}

/// The first error of the socket in a chain of causes.
pub open spec fn first_io(causes: Seq<Cause>) -> Option<Cause>
    decreases causes.len(),
{
    if causes.len() == 0 {
        None
    } else if causes[0] == Cause::TransientIo || causes[0] == Cause::OtherIo {
        Some(causes[0])
    } else {
        first_io(causes.drop_first())
    }
}

/// Whether a failure may pass: a time limit ran out somewhere in the chain of
/// causes, or the first error of the socket in it is one that may pass.
pub fn is_transient(causes: &[Cause]) -> (r: bool)
    ensures
        r == may_pass(causes@),
{
    let mut i: usize = 0;
    while i < causes.len()
        invariant
            i <= causes.len(),
            forall|j: int| 0 <= j < i ==> #[trigger] causes@[j] != Cause::Elapsed,
        decreases causes.len() - i,
    {
        if causes[i] == Cause::Elapsed {
            assert(causes@.contains(causes@[i as int]));
            return true;
        }
        i = i + 1;
    }
    let mut k: usize = 0;
    assert(causes@.skip(0) =~= causes@);
    while k < causes.len()
        invariant
            k <= causes.len(),
            !causes@.contains(Cause::Elapsed),
            first_io(causes@) == first_io(causes@.skip(k as int)),
        decreases causes.len() - k,
    {
        assert(causes@.skip(k as int)[0] == causes@[k as int]);
        if causes[k] == Cause::TransientIo {
            return true;
        }
        if causes[k] == Cause::OtherIo {
            return false;
        }
        assert(causes@.skip(k as int).drop_first() =~= causes@.skip(k + 1));
        k = k + 1;
    }
    assert(causes@.skip(k as int) =~= Seq::empty());
    false
}

/// What comes after an attempt to connect.
pub open spec fn after_connecting(attempt: usize, max_retries: usize, connected: bool) -> RetryStep {
    if connected {
        RetryStep::Return
    } else if attempt + 1 < max_retries {
        RetryStep::WaitAndRetry
    } else {
        RetryStep::Fail
    }
}

/// What comes after an attempt to send a request.
pub open spec fn after_sending(attempt: usize, outcome: Attempt) -> RetryStep {
    if outcome == Attempt::Succeeded {
        RetryStep::Return
    } else if outcome != Attempt::Failed && attempt + 1 < SEND_ATTEMPTS {
        RetryStep::WaitAndRetry
    } else {
        RetryStep::Fail
    }
}

/// A failure with these causes may pass.
pub open spec fn may_pass(causes: Seq<Cause>) -> bool {
    causes.contains(Cause::Elapsed) || first_io(causes) == Some(Cause::TransientIo)
}

/// What succeeds is returned at once, what failed for good is not tried again, and anything
/// else is tried until the attempts are used up.
pub proof fn passing_failures_are_tried_again(attempt: usize, max_retries: usize, connected: bool, outcome: Attempt)
    ensures
        after_connecting(attempt, max_retries, connected) == RetryStep::Return <==> connected,
        after_connecting(attempt, max_retries, connected) == RetryStep::WaitAndRetry <==> !connected && attempt + 1
            < max_retries,
        after_sending(attempt, outcome) == RetryStep::Return <==> outcome == Attempt::Succeeded,
        after_sending(attempt, Attempt::Failed) == RetryStep::Fail,
        after_sending(attempt, outcome) == RetryStep::WaitAndRetry <==> (outcome == Attempt::ConnectFailed || outcome
            == Attempt::FailedTransiently) && attempt < 9,
{
}

proof fn lemma_place_of_io(causes: Seq<Cause>) -> (i: int)
    requires
        first_io(causes) == Some(Cause::TransientIo),
    ensures
        0 <= i < causes.len(),
        causes[i] == Cause::TransientIo,
        forall|j: int| 0 <= j < i ==> #[trigger] causes[j] != Cause::OtherIo,
    decreases causes.len(),
{
    if causes[0] == Cause::TransientIo {
        0
    } else {
        let t = causes.drop_first();
        let i = lemma_place_of_io(t);
        assert forall|j: int| 0 <= j < i + 1 implies #[trigger] causes[j] != Cause::OtherIo by {
            if j > 0 {
                assert(t[j - 1] != Cause::OtherIo);
            }
        }
        i + 1
    }
}

proof fn lemma_io_at(causes: Seq<Cause>, i: int)
    requires
        0 <= i < causes.len(),
        causes[i] == Cause::TransientIo,
        forall|j: int| 0 <= j < i ==> #[trigger] causes[j] != Cause::OtherIo,
    ensures
        first_io(causes) == Some(Cause::TransientIo),
    decreases causes.len(),
{
    if i > 0 {
        assert(causes[0] != Cause::OtherIo);
        let t = causes.drop_first();
        assert forall|j: int| 0 <= j < i - 1 implies #[trigger] t[j] != Cause::OtherIo by {
            assert(causes[j + 1] != Cause::OtherIo);
        }
        lemma_io_at(t, i - 1);
    }
}

/// The error at this place is one of the socket that may pass, and none before it is one
/// that may not.
pub open spec fn passes_at(causes: Seq<Cause>, i: int) -> bool {
    0 <= i < causes.len() && causes[i] == Cause::TransientIo && forall|j: int|
        0 <= j < i ==> #[trigger] causes[j] != Cause::OtherIo
}

/// A failure may pass where a time limit ran out, or where its first error of the socket is
/// one that may.
pub proof fn first_socket_error_decides(causes: Seq<Cause>)
    ensures
        may_pass(causes) <==> causes.contains(Cause::Elapsed) || exists|i: int| #[trigger] passes_at(causes, i),
{
    if first_io(causes) == Some(Cause::TransientIo) {
        let i = lemma_place_of_io(causes);
        assert(passes_at(causes, i));
    }
    if exists|i: int| #[trigger] passes_at(causes, i) {
        let i = choose|i: int| #[trigger] passes_at(causes, i);
        lemma_io_at(causes, i);
    }
}

} // verus!
