//! What the daemon decides: restarts after crashes, answers to requests, when
//! checkpoints are made and garbage is collected.

use vstd::prelude::*;

use crate::hash::Sha1Hash;
use crate::ids::{id_text, parse_id};
use crate::ipc::{DaemonStatus, IpcRequest, IpcResponse};
use crate::journal::{resolve_checkpoint, Checkpoint, CheckpointMeta, CheckpointReason, History};
use crate::text::{chars_of, has_prefix, is_text};
use crate::tree::EntryKind;

verus! {

/// Restarts the daemon after a crash, unless it crashes too often.
#[derive(Debug)]
pub struct DaemonSupervisor {
    /// Root of the repository.
    pub repo_root: String,
    /// Number of crashes within the window after which it gives up.
    pub max_restarts: usize,
    /// Length of the window in milliseconds.
    pub restart_window_ms: u64,
}

/// A crash at `t` counts at `now` while the window is not over.
pub open spec fn in_window(t: u64, now: u64, window: u64) -> bool {
    (if t < now { now - t } else { 0 }) < window
}

impl DaemonSupervisor {
    /// A supervisor that gives up after five crashes within a minute.
    pub fn new(repo_root: String) -> (s: Self)
        ensures
            s.repo_root == repo_root,
            s.max_restarts == 5,
            s.restart_window_ms == 60000,
    {
        DaemonSupervisor { repo_root, max_restarts: 5, restart_window_ms: 60000 }
    }

    /// Forgets the crashes outside the window and decides whether the daemon may be
    /// started (again).
    pub fn may_start(&self, crashes: &mut Vec<u64>, now_ms: u64) -> (r: bool)
        ensures
            final(crashes)@ == old(crashes)@.filter(|t: u64| in_window(t, now_ms, self.restart_window_ms)),
            r == (final(crashes)@.len() < self.max_restarts),
    {
        let ghost pred = |t: u64| in_window(t, now_ms, self.restart_window_ms);
        let ghost all = crashes@;
        let mut kept: Vec<u64> = Vec::new();
        let mut i: usize = 0;
        proof {
            reveal(Seq::filter);
            assert(all.take(0) =~= Seq::empty());
        }
        while i < crashes.len()
            invariant
                i <= crashes.len(),
                all == crashes@,
                pred == (|t: u64| in_window(t, now_ms, self.restart_window_ms)),
                kept@ == all.take(i as int).filter(pred),
            decreases crashes.len() - i,
        {
            let t: u64 = crashes[i];
            proof {
                reveal(Seq::filter);
                assert(all.take(i + 1).drop_last() =~= all.take(i as int));
            }
            let age: u64 = if t < now_ms { now_ms - t } else { 0 };
            if age < self.restart_window_ms {
                kept.push(t);
            }
            i = i + 1;
        }
        assert(all.take(all.len() as int) =~= all);
        let start: bool = kept.len() < self.max_restarts;
        *crashes = kept;
        start
    }
}

/// Once as many crashes as allowed lie within the window, the daemon is not started.
pub proof fn too_many_crashes(crashes: Seq<u64>, now: u64, window: u64, max: nat)
    requires
        crashes.len() >= max,
        forall|i: int| 0 <= i < crashes.len() ==> in_window(#[trigger] crashes[i], now, window),
    ensures
        !(crashes.filter(|t: u64| in_window(t, now, window)).len() < max),
    decreases crashes.len(),
{
    lemma_filter_all(crashes, |t: u64| in_window(t, now, window));
}

proof fn lemma_filter_all(s: Seq<u64>, pred: spec_fn(u64) -> bool)
    requires
        forall|i: int| 0 <= i < s.len() ==> pred(#[trigger] s[i]),
    ensures
        s.filter(pred) == s,
    decreases s.len(),
{
    reveal(Seq::filter);
    if s.len() > 0 {
        assert(pred(s[s.len() - 1]));
        assert forall|i: int| 0 <= i < s.drop_last().len() implies pred(#[trigger] s.drop_last()[i]) by {
            assert(s.drop_last()[i] == s[i]);
        }
        lemma_filter_all(s.drop_last(), pred);
        assert(s.drop_last().push(s.last()) =~= s);
    }
}

/// A checkpoint that is to be recorded; the journal gives it its identifier and
/// its time.
#[derive(Debug)]
pub struct CheckpointDraft {
    /// The checkpoint before it.
    pub parent: Option<u128>,
    /// Hash of the tree.
    pub root_tree: Sha1Hash,
    /// Why it is made.
    pub reason: CheckpointReason,
    /// The paths that changed.
    pub touched_paths: Vec<String>,
    /// What changed.
    pub meta: CheckpointMeta,
}

impl CheckpointDraft {
    /// The draft records the given state, with no paths of its own.
    pub open spec fn records(
        self,
        parent: Option<u128>,
        root_tree: Sha1Hash,
        reason: CheckpointReason,
        files_changed: u32,
    ) -> bool {
        &&& self.parent == parent
        &&& self.root_tree == root_tree
        &&& self.reason == reason
        &&& self.touched_paths@.len() == 0
        &&& self.meta == (CheckpointMeta { files_changed, bytes_added: 0, bytes_removed: 0 })
    }
}

/// The checkpoint of a batch of changed paths. The number of files is recorded in
/// 32 bits.
pub fn draft_batch(
    parent: Option<u128>,
    root_tree: Sha1Hash,
    dirty: &Vec<String>,
    bytes_added: u64,
    bytes_removed: u64,
) -> (d: CheckpointDraft)
    ensures
        d.parent == parent,
        d.root_tree == root_tree,
        d.reason == CheckpointReason::FsBatch,
        d.touched_paths@ == dirty@,
        d.meta == (CheckpointMeta {
            files_changed: (dirty@.len() % 0x1_0000_0000) as u32,
            bytes_added,
            bytes_removed,
        }),
{
    let count: u64 = dirty.len() as u64 % 0x1_0000_0000;
    CheckpointDraft {
        parent,
        root_tree,
        reason: CheckpointReason::FsBatch,
        touched_paths: crate::journal::copy_strings(dirty),
        meta: CheckpointMeta { files_changed: count as u32, bytes_added, bytes_removed },
    }
}

/// The checkpoint of an imported commit.
pub fn draft_import(parent: Option<u128>, root_tree: Sha1Hash, files_changed: u32) -> (d: CheckpointDraft)
    ensures
        d.records(parent, root_tree, CheckpointReason::Publish, files_changed),
{
    CheckpointDraft {
        parent,
        root_tree,
        reason: CheckpointReason::Publish,
        touched_paths: Vec::new(),
        meta: CheckpointMeta { files_changed, bytes_added: 0, bytes_removed: 0 },
    }
}

/// What the daemon knows when a request comes in.
pub struct DaemonView<'a> {
    /// The journal, or why it could not be read.
    pub journal: &'a Result<History, String>,
    /// The pins; none where they could not be listed.
    pub pins: &'a Vec<(String, u128)>,
    /// The status.
    pub status: DaemonStatus,
    /// The number of checkpoints.
    pub checkpoint_count: usize,
    /// The size of the store in bytes.
    pub store_size_bytes: u64,
}

/// What the daemon does about a request.
#[derive(Debug)]
pub enum Reply {
    /// Answer at once.
    Answer(IpcResponse),
    /// Make a checkpoint of what is pending and answer with the outcome.
    Flush,
    /// Record this checkpoint and answer with the outcome.
    Append(CheckpointDraft),
    /// Import the commit and answer with the outcome.
    Import { commit_id: String, no_pin: bool },
    /// Note that the map of paths is out of date and answer with the outcome.
    MarkPathmapStale,
    /// Answer, and end the daemon.
    Shutdown,
}

/// The number of checkpoints on a page where the request does not say.
pub const DEFAULT_LIMIT: usize = 20;

/// The limit and the offset of a page.
pub open spec fn page_bounds(limit: Option<usize>, offset: Option<usize>) -> (nat, nat) {
    (
        match limit {
            Some(n) => n as nat,
            None => DEFAULT_LIMIT as nat,
        },
        match offset {
            Some(n) => n as nat,
            None => 0,
        },
    )
}

/// The view of an optional checkpoint.
pub open spec fn opt_view(c: Option<Checkpoint>) -> Option<crate::journal::CheckpointView> {
    match c {
        Some(c) => Some(c@),
        None => None,
    }
}

/// The views of a list of optional checkpoints.
pub open spec fn opt_views(v: Seq<Option<Checkpoint>>) -> Seq<Option<crate::journal::CheckpointView>> {
    v.map_values(|c: Option<Checkpoint>| opt_view(c))
}

/// Copies an optional checkpoint.
fn copy_opt(c: Option<&Checkpoint>) -> (r: Option<Checkpoint>)
    ensures
        opt_view(r) == crate::journal::opt_view(c),
{
    match c {
        Some(c) => Some(c.clone()),
        None => None,
    }
}

/// Copies a list of checkpoints.
fn copy_all(v: &Vec<&Checkpoint>) -> (r: Vec<Checkpoint>)
    ensures
        crate::journal::views(r@) == crate::journal::ref_views(v@),
{
    let mut r: Vec<Checkpoint> = Vec::new();
    let ghost want = crate::journal::ref_views(v@);
    let mut i: usize = 0;
    assert(crate::journal::views(r@) =~= want.take(0));
    while i < v.len()
        invariant
            i <= v.len(),
            want == crate::journal::ref_views(v@),
            crate::journal::views(r@) == want.take(i as int),
        decreases v.len() - i,
    {
        let ghost before = r@;
        let c = v[i].clone();
        r.push(c);
        assert(crate::journal::views(r@) =~= crate::journal::views(before).push(c@));
        i = i + 1;
        assert(crate::journal::views(r@) =~= want.take(i as int));
    }
    assert(crate::journal::views(r@) =~= want);
    r
}

/// A page of the history, or why there is none.
pub open spec fn page_outcome(
    journal: Result<History, String>,
    limit: Option<usize>,
    offset: Option<usize>,
) -> Result<Seq<crate::journal::CheckpointView>, Seq<char>> {
    match journal {
        Ok(h) => Ok(h@.page(page_bounds(limit, offset).1, page_bounds(limit, offset).0)),
        Err(e) => Err(e@),
    }
}

/// Collects a page of the history.
fn page(journal: &Result<History, String>, limit: Option<usize>, offset: Option<usize>) -> (r: Result<
    Vec<Checkpoint>,
    String,
>)
    ensures
        match r {
            Ok(v) => page_outcome(*journal, limit, offset) == Ok::<
                Seq<crate::journal::CheckpointView>,
                Seq<char>,
            >(crate::journal::views(v@)),
            Err(e) => page_outcome(*journal, limit, offset) == Err::<
                Seq<crate::journal::CheckpointView>,
                Seq<char>,
            >(e@),
        },
{
    let limit: usize = match limit {
        Some(n) => n,
        None => DEFAULT_LIMIT,
    };
    let offset: usize = match offset {
        Some(n) => n,
        None => 0,
    };
    match journal {
        Ok(h) => Ok(copy_all(&h.page(offset, limit))),
        Err(e) => Err(e.clone()),
    }
}

/// The checkpoints with the given identifiers, in that order; nothing for a text
/// that is no identifier, for one that is not recorded, and for all where the
/// journal cannot be read.
pub open spec fn batch_outcome(journal: Result<History, String>, ids: Seq<String>) -> Seq<
    Option<crate::journal::CheckpointView>,
> {
    ids.map_values(
        |id: String|
            match (crate::ids::ulid_value(vstd::utf8::encode_utf8(id@)), journal) {
                (Some(n), Ok(h)) => h@.find(n),
                _ => None,
            },
    )
}

/// Collects the checkpoints with the given identifiers.
fn batch(journal: &Result<History, String>, ids: &Vec<String>) -> (r: Vec<Option<Checkpoint>>)
    ensures
        opt_views(r@) == batch_outcome(*journal, ids@),
{
    let mut r: Vec<Option<Checkpoint>> = Vec::new();
    let ghost want = batch_outcome(*journal, ids@);
    let mut i: usize = 0;
    assert(opt_views(r@) =~= want.take(0));
    while i < ids.len()
        invariant
            i <= ids.len(),
            want == batch_outcome(*journal, ids@),
            opt_views(r@) == want.take(i as int),
        decreases ids.len() - i,
    {
        let ghost before = r@;
        let found: Option<Checkpoint> = match parse_id(ids[i].as_str()) {
            Some(n) => match journal {
                Ok(h) => copy_opt(h.get(n)),
                Err(_) => None,
            },
            None => None,
        };
        r.push(found);
        assert(opt_views(r@) =~= opt_views(before).push(opt_view(found)));
        i = i + 1;
        assert(opt_views(r@) =~= want.take(i as int));
    }
    assert(opt_views(r@) =~= want);
    r
}

/// A reference that is looked up among all identifiers: long enough, and neither
/// `HEAD` nor relative to it.
pub open spec fn needs_all_ids(reference: Seq<char>) -> bool {
    &&& reference != "HEAD"@
    &&& !crate::text::begins_with(reference, "HEAD~"@)
    &&& vstd::utf8::encode_utf8(reference).len() >= crate::journal::MIN_PREFIX
}

/// The checkpoints that references name, in that order. Where the journal cannot be
/// read, references that need no look at all identifiers name nothing, and any
/// other one makes the whole request fail.
pub open spec fn resolve_outcome(
    journal: Result<History, String>,
    pins: Seq<(Seq<char>, u128)>,
    refs: Seq<String>,
) -> Result<Seq<Option<crate::journal::CheckpointView>>, Seq<char>> {
    match journal {
        Ok(h) => Ok(refs.map_values(|r: String| crate::journal::named_checkpoint(h@, pins, r@))),
        Err(e) => if exists|i: int| 0 <= i < refs.len() && needs_all_ids((#[trigger] refs[i])@) {
            Err(e@)
        } else {
            Ok(refs.map_values(|r: String| None))
        },
    }
}

/// Resolves references.
fn resolve_all(journal: &Result<History, String>, pins: &Vec<(String, u128)>, refs: &Vec<String>) -> (r: Result<
    Vec<Option<Checkpoint>>,
    String,
>)
    ensures
        match r {
            Ok(v) => resolve_outcome(*journal, crate::journal::pin_views(pins@), refs@) == Ok::<
                Seq<Option<crate::journal::CheckpointView>>,
                Seq<char>,
            >(opt_views(v@)),
            Err(e) => resolve_outcome(*journal, crate::journal::pin_views(pins@), refs@) == Err::<
                Seq<Option<crate::journal::CheckpointView>>,
                Seq<char>,
            >(e@),
        },
{
    let mut v: Vec<Option<Checkpoint>> = Vec::new();
    let mut i: usize = 0;
    match journal {
        Ok(h) => {
            let ghost want = refs@.map_values(
                |r: String| crate::journal::named_checkpoint(h@, crate::journal::pin_views(pins@), r@),
            );
            assert(opt_views(v@) =~= want.take(0));
            while i < refs.len()
                invariant
                    i <= refs.len(),
                    want == refs@.map_values(
                        |r: String| crate::journal::named_checkpoint(h@, crate::journal::pin_views(pins@), r@),
                    ),
                    opt_views(v@) == want.take(i as int),
                decreases refs.len() - i,
            {
                let ghost before = v@;
                let found = copy_opt(resolve_checkpoint(h, pins, refs[i].as_str()));
                v.push(found);
                assert(opt_views(v@) =~= opt_views(before).push(opt_view(found)));
                i = i + 1;
                assert(opt_views(v@) =~= want.take(i as int));
            }
            assert(opt_views(v@) =~= want);
            Ok(v)
        },
        Err(e) => {
            let head_tilde = chars_of("HEAD~");
            let ghost want = refs@.map_values(|r: String| None::<crate::journal::CheckpointView>);
            assert(opt_views(v@) =~= want.take(0));
            while i < refs.len()
                invariant
                    i <= refs.len(),
                    head_tilde@ == "HEAD~"@,
                    want == refs@.map_values(|r: String| None::<crate::journal::CheckpointView>),
                    opt_views(v@) == want.take(i as int),
                    forall|j: int| 0 <= j < i ==> !needs_all_ids((#[trigger] refs@[j])@),
                    *journal == Err::<History, String>(*e),
                decreases refs.len() - i,
            {
                let ghost before = v@;
                let reference = chars_of(refs[i].as_str());
                if !is_text(reference.as_slice(), "HEAD") && !has_prefix(reference.as_slice(), head_tilde.as_slice())
                    && refs[i].as_str().as_bytes().len() >= crate::journal::MIN_PREFIX {
                    assert(needs_all_ids(refs@[i as int]@));
                    return Err(e.clone());
                }
                v.push(None);
                assert(opt_views(v@) =~= opt_views(before).push(None));
                i = i + 1;
                assert(opt_views(v@) =~= want.take(i as int));
            }
            assert(opt_views(v@) =~= want);
            Ok(v)
        },
    }
}

/// The text of why a text is no identifier.
pub open spec fn bad_id_text(id: Seq<char>) -> Seq<char> {
    if vstd::utf8::encode_utf8(id).len() != 26 {
        "invalid length"@
    } else {
        "invalid character"@
    }
}

/// The texts of all identifiers of the history, in order.
pub open spec fn id_texts(ids: Seq<u128>) -> Seq<Seq<char>> {
    ids.map_values(|id: u128| crate::ids::ulid_text(id))
}

/// Writes all identifiers of the history.
fn all_id_texts(h: &History) -> (texts: Vec<String>)
    ensures
        crate::text::texts(texts@) == id_texts(h@.ids()),
{
    let mut texts: Vec<String> = Vec::new();
    let ghost want = id_texts(h@.ids());
    let mut i: usize = 0;
    assert(crate::text::texts(texts@) =~= want.take(0));
    while i < h.records.len()
        invariant
            i <= h.records.len(),
            want == id_texts(h@.ids()),
            crate::text::texts(texts@) == want.take(i as int),
        decreases h.records.len() - i,
    {
        let ghost before = texts@;
        let text = id_text(h.records[i].id);
        texts.push(text);
        assert(crate::text::texts(texts@) =~= crate::text::texts(before).push(text@));
        i = i + 1;
        assert(crate::text::texts(texts@) =~= want.take(i as int));
    }
    assert(crate::text::texts(texts@) =~= want);
    texts
}

/// An answer with an error.
pub open spec fn answers_error(reply: Reply, text: Seq<char>) -> bool {
    reply matches Reply::Answer(IpcResponse::Error(e)) && e@ == text
}

/// What the daemon owes to a request.
pub open spec fn is_owed(view: DaemonView, request: IpcRequest, reply: Reply) -> bool {
    match request {
        IpcRequest::GetStatus => reply == Reply::Answer(IpcResponse::Status(view.status)),
        IpcRequest::GetHead => match *view.journal {
            Ok(h) => reply matches Reply::Answer(IpcResponse::Head(c)) && opt_view(c) == h@.latest(),
            Err(e) => answers_error(reply, e@),
        },
        IpcRequest::GetCheckpoint(id) => match crate::ids::ulid_value(vstd::utf8::encode_utf8(id@)) {
            None => answers_error(reply, bad_id_text(id@)),
            Some(n) => match *view.journal {
                Ok(h) => reply matches Reply::Answer(IpcResponse::Checkpoint(c)) && opt_view(c) == h@.find(n),
                Err(e) => answers_error(reply, e@),
            },
        },
        IpcRequest::FlushCheckpoint => reply == Reply::Flush,
        IpcRequest::FlushCheckpointFast => reply == Reply::Flush,
        IpcRequest::ForceCheckpoint => match *view.journal {
            Ok(h) => match h@.latest() {
                Some(head) => reply matches Reply::Append(d) && d.records(
                    Some(head.id),
                    head.root_tree,
                    CheckpointReason::Manual,
                    0,
                ),
                None => answers_error(
                    reply,
                    "No checkpoints exist yet. Make a change first to create initial checkpoint."@,
                ),
            },
            Err(e) => answers_error(reply, e@),
        },
        IpcRequest::Shutdown => reply == Reply::Shutdown,
        IpcRequest::GetCheckpoints { limit, offset } => match page_outcome(*view.journal, limit, offset) {
            Ok(p) => reply matches Reply::Answer(IpcResponse::Checkpoints(v)) && crate::journal::views(v@) == p,
            Err(e) => answers_error(reply, e),
        },
        IpcRequest::GetCheckpointCount => reply == Reply::Answer(IpcResponse::CheckpointCount(view.checkpoint_count)),
        IpcRequest::GetCheckpointBatch(ids) => reply matches Reply::Answer(IpcResponse::CheckpointBatch(v))
            && opt_views(v@) == batch_outcome(*view.journal, ids@),
        IpcRequest::GetStatusFull => match *view.journal {
            Ok(h) => reply matches Reply::Answer(IpcResponse::StatusFull { status, head, checkpoint_count }) && status
                == view.status && opt_view(head) == h@.latest() && checkpoint_count == view.checkpoint_count,
            Err(e) => answers_error(reply, e@),
        },
        IpcRequest::GetLogData { limit, offset } => match page_outcome(*view.journal, limit, offset) {
            Ok(p) => reply matches Reply::Answer(IpcResponse::LogData { count, checkpoints }) && count
                == view.checkpoint_count && crate::journal::views(checkpoints@) == p,
            Err(e) => answers_error(reply, e),
        },
        IpcRequest::ResolveCheckpointRefs(refs) => match resolve_outcome(
            *view.journal,
            crate::journal::pin_views(view.pins@),
            refs@,
        ) {
            Ok(p) => reply matches Reply::Answer(IpcResponse::ResolvedCheckpoints(v)) && opt_views(v@) == p,
            Err(e) => answers_error(reply, e),
        },
        IpcRequest::GetInfoData => match *view.journal {
            Ok(h) => reply matches Reply::Answer(
                IpcResponse::InfoData { total_checkpoints, checkpoint_ids, store_size_bytes },
            ) && total_checkpoints == view.checkpoint_count && crate::text::texts(checkpoint_ids@) == id_texts(h@.ids())
                && store_size_bytes == view.store_size_bytes,
            Err(e) => answers_error(reply, e@),
        },
        IpcRequest::InvalidatePathmap => reply == Reply::MarkPathmapStale,
        IpcRequest::ImportRemoteCommit { commit_id, no_pin } => reply == (Reply::Import { commit_id, no_pin }),
    }
}

/// Decides what to do about a request.
pub fn respond(view: &DaemonView, request: IpcRequest) -> (reply: Reply)
    ensures
        is_owed(*view, request, reply),
{
    match request {
        IpcRequest::GetStatus => Reply::Answer(IpcResponse::Status(view.status)),
        IpcRequest::GetHead => match view.journal {
            Ok(h) => Reply::Answer(IpcResponse::Head(copy_opt(h.latest()))),
            Err(e) => Reply::Answer(IpcResponse::Error(e.clone())),
        },
        IpcRequest::GetCheckpoint(id) => match parse_id(id.as_str()) {
            None => {
                if id.as_str().as_bytes().len() != 26 {
                    Reply::Answer(IpcResponse::Error("invalid length".to_owned()))
                } else {
                    Reply::Answer(IpcResponse::Error("invalid character".to_owned()))
                }
            },
            Some(n) => match view.journal {
                Ok(h) => Reply::Answer(IpcResponse::Checkpoint(copy_opt(h.get(n)))),
                Err(e) => Reply::Answer(IpcResponse::Error(e.clone())),
            },
        },
        IpcRequest::FlushCheckpoint => Reply::Flush,
        IpcRequest::FlushCheckpointFast => Reply::Flush,
        IpcRequest::ForceCheckpoint => match view.journal {
            Ok(h) => match h.latest() {
                Some(head) => Reply::Append(
                    CheckpointDraft {
                        parent: Some(head.id),
                        root_tree: head.root_tree,
                        reason: CheckpointReason::Manual,
                        touched_paths: Vec::new(),
                        meta: CheckpointMeta { files_changed: 0, bytes_added: 0, bytes_removed: 0 },
                    },
                ),
                None => Reply::Answer(
                    IpcResponse::Error(
                        "No checkpoints exist yet. Make a change first to create initial checkpoint.".to_owned(),
                    ),
                ),
            },
            Err(e) => Reply::Answer(IpcResponse::Error(e.clone())),
        },
        IpcRequest::Shutdown => Reply::Shutdown,
        IpcRequest::GetCheckpoints { limit, offset } => match page(view.journal, limit, offset) {
            Ok(v) => Reply::Answer(IpcResponse::Checkpoints(v)),
            Err(e) => Reply::Answer(IpcResponse::Error(e)),
        },
        IpcRequest::GetCheckpointCount => Reply::Answer(IpcResponse::CheckpointCount(view.checkpoint_count)),
        IpcRequest::GetCheckpointBatch(ids) => Reply::Answer(IpcResponse::CheckpointBatch(batch(view.journal, &ids))),
        IpcRequest::GetStatusFull => match view.journal {
            Ok(h) => Reply::Answer(
                IpcResponse::StatusFull {
                    status: view.status,
                    head: copy_opt(h.latest()),
                    checkpoint_count: view.checkpoint_count,
                },
            ),
            Err(e) => Reply::Answer(IpcResponse::Error(e.clone())),
        },
        IpcRequest::GetLogData { limit, offset } => match page(view.journal, limit, offset) {
            Ok(checkpoints) => Reply::Answer(IpcResponse::LogData { count: view.checkpoint_count, checkpoints }),
            Err(e) => Reply::Answer(IpcResponse::Error(e)),
        },
        IpcRequest::ResolveCheckpointRefs(refs) => match resolve_all(view.journal, view.pins, &refs) {
            Ok(v) => Reply::Answer(IpcResponse::ResolvedCheckpoints(v)),
            Err(e) => Reply::Answer(IpcResponse::Error(e)),
        },
        IpcRequest::GetInfoData => match view.journal {
            Ok(h) => Reply::Answer(
                IpcResponse::InfoData {
                    total_checkpoints: view.checkpoint_count,
                    checkpoint_ids: all_id_texts(h),
                    store_size_bytes: view.store_size_bytes,
                },
            ),
            Err(e) => Reply::Answer(IpcResponse::Error(e.clone())),
        },
        IpcRequest::InvalidatePathmap => Reply::MarkPathmapStale,
        IpcRequest::ImportRemoteCommit { commit_id, no_pin } => Reply::Import { commit_id, no_pin },
    }
}

/// What came of a request for a checkpoint of what is pending.
#[derive(Debug)]
pub enum FlushOutcome {
    /// The daemon no longer takes requests.
    NotSent,
    /// The daemon dropped the request.
    Cancelled,
    /// The checkpoint was made, or there was nothing to record.
    Made(Option<u128>),
    /// Making it failed.
    Failed(String),
}

/// The answer to a request for a checkpoint of what is pending.
pub fn flush_answer(outcome: FlushOutcome) -> (r: IpcResponse)
    ensures
        match outcome {
            FlushOutcome::NotSent => r matches IpcResponse::Error(e) && e@ == "Daemon shutting down"@,
            FlushOutcome::Cancelled => r matches IpcResponse::Error(e) && e@ == "Flush request cancelled"@,
            FlushOutcome::Made(None) => r == IpcResponse::CheckpointFlushed(None),
            FlushOutcome::Made(Some(id)) => r matches IpcResponse::CheckpointFlushed(Some(t)) && t@
                == crate::ids::ulid_text(id),
            FlushOutcome::Failed(e) => r == IpcResponse::Error(e),
        },
{
    match outcome {
        FlushOutcome::NotSent => IpcResponse::Error("Daemon shutting down".to_owned()),
        FlushOutcome::Cancelled => IpcResponse::Error("Flush request cancelled".to_owned()),
        FlushOutcome::Made(None) => IpcResponse::CheckpointFlushed(None),
        FlushOutcome::Made(Some(id)) => IpcResponse::CheckpointFlushed(Some(id_text(id))),
        FlushOutcome::Failed(e) => IpcResponse::Error(e),
    }
}

/// The answer once a checkpoint was to be recorded.
pub fn append_answer(outcome: Result<u128, String>) -> (r: IpcResponse)
    ensures
        match outcome {
            Ok(id) => r matches IpcResponse::CheckpointFlushed(Some(t)) && t@ == crate::ids::ulid_text(id),
            Err(e) => r matches IpcResponse::Error(t) && t@ == "Failed to create checkpoint: "@ + e@,
        },
{
    match outcome {
        Ok(id) => IpcResponse::CheckpointFlushed(Some(id_text(id))),
        Err(e) => {
            let mut t = "Failed to create checkpoint: ".to_owned();
            t.append(e.as_str());
            IpcResponse::Error(t)
        },
    }
}

/// The answer once the map of paths was to be marked as out of date.
pub fn mark_answer(outcome: Result<(), String>) -> (r: IpcResponse)
    ensures
        match outcome {
            Ok(()) => r == IpcResponse::Done,
            Err(e) => r matches IpcResponse::Error(t) && t@ == "Failed to mark pathmap stale: "@ + e@,
        },
{
    match outcome {
        Ok(()) => IpcResponse::Done,
        Err(e) => {
            let mut t = "Failed to mark pathmap stale: ".to_owned();
            t.append(e.as_str());
            IpcResponse::Error(t)
        },
    }
}

/// What to do about a commit that is to be imported.
#[derive(Debug)]
pub enum ImportStep {
    /// It was imported before, as this checkpoint.
    AlreadyPresent(Checkpoint),
    /// Import it as a checkpoint after the given one.
    Import { parent: Option<u128> },
}

/// Decides about a commit that is to be imported: `existing` is the checkpoint to
/// which it was mapped before. A mapping to a checkpoint that is not recorded does
/// not count.
pub fn import_step(history: &History, existing: Option<u128>) -> (step: ImportStep)
    ensures
        match step {
            ImportStep::AlreadyPresent(c) => existing is Some && history@.find(existing->0) == Some(c@),
            ImportStep::Import { parent } => {
                &&& existing is None || history@.find(existing->0) is None
                &&& parent == (match history@.latest() {
                    Some(c) => Some(c.id),
                    None => None,
                })
            },
        },
{
    match existing {
        Some(id) => match history.get(id) {
            Some(c) => {
                return ImportStep::AlreadyPresent(c.clone());
            },
            None => {},
        },
        None => {},
    }
    ImportStep::Import {
        parent: match history.latest() {
            Some(c) => Some(c.id),
            None => None,
        },
    }
}

/// The daemon's changing state.
#[derive(Debug)]
pub struct LoopState {
    /// Paths with changes that no checkpoint records yet, each once.
    pub pending: Vec<String>,
    /// The status that is reported.
    pub status: DaemonStatus,
    /// When the last checkpoint was made, in milliseconds of a clock that only
    /// advances.
    pub last_checkpoint_ms: u64,
    /// When the pending paths were last saved.
    pub last_save_ms: u64,
    /// When garbage collection was last considered.
    pub last_gc_ms: u64,
}

/// Pending paths are saved at most this often, in milliseconds.
pub const SAVE_INTERVAL_MS: u64 = 2000;

/// No path occurs twice.
pub open spec fn no_repeats(paths: Seq<Seq<char>>) -> bool {
    forall|i: int, j: int| 0 <= i < j < paths.len() ==> #[trigger] paths[i] != #[trigger] paths[j]
}

/// The milliseconds from `t` to `now`.
pub open spec fn elapsed(t: u64, now: u64) -> int {
    if t < now {
        now - t
    } else {
        0
    }
}

fn elapsed_ms(t: u64, now: u64) -> (r: u64)
    ensures
        r == elapsed(t, now),
{
    if t < now {
        now - t
    } else {
        0
    }
}

/// Adds a path unless it is there.
pub open spec fn with_path(paths: Seq<Seq<char>>, path: Seq<char>) -> Seq<Seq<char>> {
    if paths.contains(path) {
        paths
    } else {
        paths.push(path)
    }
}

/// Adds each of the paths that is not there.
pub open spec fn with_paths(paths: Seq<Seq<char>>, more: Seq<Seq<char>>) -> Seq<Seq<char>>
    decreases more.len(),
{
    if more.len() == 0 {
        paths
    } else {
        with_path(with_paths(paths, more.drop_last()), more.last())
    }
}

/// Adding paths loses none, adds each, adds nothing else and repeats none.
pub proof fn with_paths_is_union(paths: Seq<Seq<char>>, more: Seq<Seq<char>>)
    ensures
        forall|p: Seq<char>| #[trigger]
            with_paths(paths, more).contains(p) <==> paths.contains(p) || more.contains(p),
        no_repeats(paths) ==> no_repeats(with_paths(paths, more)),
    decreases more.len(),
{
    if more.len() > 0 {
        let before = with_paths(paths, more.drop_last());
        let after = with_paths(paths, more);
        with_paths_is_union(paths, more.drop_last());
        assert forall|p: Seq<char>| #[trigger] after.contains(p) <==> paths.contains(p) || more.contains(p) by {
            if more.contains(p) {
                let i = choose|i: int| 0 <= i < more.len() && more[i] == p;
                if i < more.len() - 1 {
                    assert(more.drop_last()[i] == p);
                    assert(more.drop_last().contains(p));
                }
            }
            if more.drop_last().contains(p) {
                let i = choose|i: int| 0 <= i < more.drop_last().len() && more.drop_last()[i] == p;
                assert(more[i] == p);
            }
            if before.contains(p) {
                let i = choose|i: int| 0 <= i < before.len() && before[i] == p;
                assert(after[i] == p);
            }
            if p == more.last() && !before.contains(p) {
                assert(after[before.len() as int] == p);
            }
            if after.contains(p) && !before.contains(p) {
                let i = choose|i: int| 0 <= i < after.len() && after[i] == p;
                if i < before.len() {
                    assert(before[i] == p);
                }
                assert(more[more.len() - 1] == p);
            }
        }
        if no_repeats(paths) {
            assert forall|i: int, j: int| 0 <= i < j < after.len() implies #[trigger] after[i] != #[trigger] after[j] by {
                if j == before.len() {
                    assert(before.contains(before[i]));
                }
            }
        }
    }
}

/// Adds a path unless it is there.
fn add_path(paths: &mut Vec<String>, path: &String)
    ensures
        crate::text::texts(final(paths)@) == with_path(crate::text::texts(old(paths)@), path@),
{
    let ghost before = crate::text::texts(paths@);
    let wanted = chars_of(path.as_str());
    let mut i: usize = 0;
    while i < paths.len()
        invariant
            i <= paths.len(),
            wanted@ == path@,
            paths@ == old(paths)@,
            before == crate::text::texts(paths@),
            forall|j: int| 0 <= j < i ==> #[trigger] before[j] != path@,
        decreases paths.len() - i,
    {
        assert(before[i as int] == paths@[i as int]@);
        if crate::text::same_chars(chars_of(paths[i].as_str()).as_slice(), wanted.as_slice()) {
            return;
        }
        i = i + 1;
    }
    paths.push(path.clone());
    assert(crate::text::texts(paths@) =~= before.push(path@));
}

/// Adds each of the paths that is not there.
pub fn add_paths(paths: &mut Vec<String>, more: &Vec<String>)
    ensures
        crate::text::texts(final(paths)@) == with_paths(
            crate::text::texts(old(paths)@),
            crate::text::texts(more@),
        ),
{
    let ghost before = crate::text::texts(paths@);
    let ghost all = crate::text::texts(more@);
    let mut i: usize = 0;
    assert(all.take(0) =~= Seq::empty());
    while i < more.len()
        invariant
            i <= more.len(),
            before == crate::text::texts(old(paths)@),
            all == crate::text::texts(more@),
            crate::text::texts(paths@) == with_paths(before, all.take(i as int)),
        decreases more.len() - i,
    {
        add_path(paths, &more[i]);
        assert(all.take(i + 1).drop_last() =~= all.take(i as int));
        assert(all.take(i + 1).last() == more@[i as int]@);
        i = i + 1;
    }
    assert(all.take(all.len() as int) =~= all);
}

/// Whether a checkpoint may be made.
#[derive(Debug, Clone, Copy, PartialEq, Eq, Structural)]
pub enum CycleStep {
    /// A restore or a garbage collection is in progress.
    Skip,
    /// Nothing is pending.
    Nothing,
    /// Make a checkpoint of the pending paths.
    Create,
}

/// What to do with the saved copy of the pending paths.
#[derive(Debug, Clone, Copy, PartialEq, Eq, Structural)]
pub enum SaveStep {
    /// Leave it.
    Keep,
    /// Write it anew.
    Save,
    /// Remove it.
    Clear,
}

impl LoopState {
    /// No pending path occurs twice.
    pub open spec fn wf(self) -> bool {
        no_repeats(crate::text::texts(self.pending@))
    }

    /// Takes in the paths that the watcher reports. The pending paths are saved at
    /// most every two seconds.
    pub fn on_batch(&mut self, batch: &Vec<String>, now_ms: u64) -> (step: SaveStep)
        requires
            old(self).wf(),
        ensures
            final(self).wf(),
            crate::text::texts(final(self).pending@) == with_paths(
                crate::text::texts(old(self).pending@),
                crate::text::texts(batch@),
            ),
            batch@.len() == 0 ==> *final(self) == *old(self) && step == SaveStep::Keep,
            batch@.len() > 0 ==> {
                &&& final(self).status == (DaemonStatus {
                    watcher_paths: final(self).pending@.len() as usize,
                    ..old(self).status
                })
                &&& step == (if elapsed(old(self).last_save_ms, now_ms) >= SAVE_INTERVAL_MS {
                    SaveStep::Save
                } else {
                    SaveStep::Keep
                })
                &&& final(self).last_save_ms == (if step == SaveStep::Save { now_ms } else { old(self).last_save_ms })
            },
            final(self).last_checkpoint_ms == old(self).last_checkpoint_ms,
            final(self).last_gc_ms == old(self).last_gc_ms,
    {
        proof {
            with_paths_is_union(crate::text::texts(self.pending@), crate::text::texts(batch@));
        }
        if batch.len() == 0 {
            assert(crate::text::texts(batch@) =~= Seq::empty());
            return SaveStep::Keep;
        }
        add_paths(&mut self.pending, batch);
        self.status.watcher_paths = self.pending.len();
        proof {
            let all = crate::text::texts(self.pending@);
            assert(all.contains(crate::text::texts(batch@)[0])) by {
                assert(crate::text::texts(batch@).contains(crate::text::texts(batch@)[0]));
            }
        }
        if elapsed_ms(self.last_save_ms, now_ms) >= SAVE_INTERVAL_MS && self.pending.len() > 0 {
            self.last_save_ms = now_ms;
            SaveStep::Save
        } else {
            SaveStep::Keep
        }
    }

    /// Decides, when a checkpoint is due or asked for, whether to make one; a skipped
    /// one is counted.
    pub fn begin_checkpoint(&mut self, restore_held: bool, gc_held: bool) -> (step: CycleStep)
        requires
            old(self).status.checkpoints_skipped < u64::MAX,
        ensures
            step == cycle_step(restore_held, gc_held, crate::text::texts(old(self).pending@)),
            final(self).pending == old(self).pending,
            final(self).status == (if step == CycleStep::Skip {
                DaemonStatus {
                    checkpoints_skipped: (old(self).status.checkpoints_skipped + 1) as u64,
                    ..old(self).status
                }
            } else {
                old(self).status
            }),
            final(self).last_checkpoint_ms == old(self).last_checkpoint_ms,
            final(self).last_save_ms == old(self).last_save_ms,
            final(self).last_gc_ms == old(self).last_gc_ms,
    {
        if restore_held || gc_held {
            self.status.checkpoints_skipped = self.status.checkpoints_skipped + 1;
            CycleStep::Skip
        } else if self.pending.len() == 0 {
            CycleStep::Nothing
        } else {
            CycleStep::Create
        }
    }

    /// Takes note of the outcome of making a checkpoint: after a success nothing is
    /// pending any more; after a failure everything is still pending and is saved.
    pub fn end_checkpoint(&mut self, made: bool, wall_ms: u64, now_ms: u64) -> (step: SaveStep)
        requires
            old(self).wf(),
            old(self).status.checkpoints_created < u64::MAX,
        ensures
            final(self).wf(),
            made ==> {
                &&& step == SaveStep::Clear
                &&& final(self).pending@.len() == 0
                &&& final(self).status == (DaemonStatus {
                    checkpoints_created: (old(self).status.checkpoints_created + 1) as u64,
                    last_checkpoint_time: Some(wall_ms),
                    ..old(self).status
                })
                &&& final(self).last_checkpoint_ms == now_ms
                &&& final(self).last_save_ms == old(self).last_save_ms
                &&& final(self).last_gc_ms == old(self).last_gc_ms
            },
            !made ==> step == SaveStep::Save && *final(self) == *old(self),
    {
        if made {
            self.status.checkpoints_created = self.status.checkpoints_created + 1;
            self.status.last_checkpoint_time = Some(wall_ms);
            self.pending = Vec::new();
            self.last_checkpoint_ms = now_ms;
            SaveStep::Clear
        } else {
            SaveStep::Save
        }
    }

    /// Decides whether garbage is to be collected: where that is enabled, when there
    /// are more checkpoints than the threshold or the interval has passed. The
    /// interval then begins anew.
    pub fn gc_due(
        &mut self,
        config: &crate::system_config::DaemonConfig,
        checkpoint_count: usize,
        now_ms: u64,
    ) -> (r: bool)
        ensures
            r == gc_is_due(*config, checkpoint_count, old(self).last_gc_ms, now_ms),
            final(self).last_gc_ms == (if r { now_ms } else { old(self).last_gc_ms }),
            final(self).pending == old(self).pending,
            final(self).status == old(self).status,
            final(self).last_checkpoint_ms == old(self).last_checkpoint_ms,
            final(self).last_save_ms == old(self).last_save_ms,
    {
        let passed: bool = elapsed_ms(self.last_gc_ms, now_ms) as u128 >= config.auto_gc_interval_secs as u128 * 1000;
        if config.auto_gc_enabled && (checkpoint_count > config.auto_gc_checkpoint_threshold || passed) {
            self.last_gc_ms = now_ms;
            true
        } else {
            false
        }
    }

    /// Whether the checkpoint timer runs, and when it fires: only while something is
    /// pending.
    pub fn checkpoint_deadline(&self, interval_secs: u64) -> (r: Option<u128>)
        ensures
            r == deadline(crate::text::texts(self.pending@), self.last_checkpoint_ms, interval_secs),
    {
        if self.pending.len() > 0 {
            Some(self.last_checkpoint_ms as u128 + interval_secs as u128 * 1000)
        } else {
            None
        }
    }
}

/// What is known of a changed path.
#[derive(Debug, Clone, Copy, PartialEq, Eq, Structural)]
pub struct PathSizes {
    /// Length of the file now; 0 where there is no regular file.
    pub current: u64,
    /// What the path was at the last checkpoint.
    pub previous: Option<EntryKind>,
    /// Length of its blob; 0 where that is not known.
    pub previous_len: u64,
}

impl PathSizes {
    /// The length that counts for the last checkpoint: that of a file.
    pub open spec fn before(self) -> nat {
        match self.previous {
            Some(EntryKind::File) => self.previous_len as nat,
            Some(EntryKind::ExecutableFile) => self.previous_len as nat,
            _ => 0,
        }
    }
}

/// The sum of the lengths of the files now.
pub open spec fn bytes_now(paths: Seq<PathSizes>) -> nat
    decreases paths.len(),
{
    if paths.len() == 0 {
        0
    } else {
        bytes_now(paths.drop_last()) + paths.last().current as nat
    }
}

/// The sum of the lengths of the files at the last checkpoint.
pub open spec fn bytes_before(paths: Seq<PathSizes>) -> nat
    decreases paths.len(),
{
    if paths.len() == 0 {
        0
    } else {
        bytes_before(paths.drop_last()) + paths.last().before()
    }
}

proof fn lemma_sums_grow(paths: Seq<PathSizes>, i: int)
    requires
        0 <= i <= paths.len(),
    ensures
        bytes_now(paths.take(i)) <= bytes_now(paths),
        bytes_before(paths.take(i)) <= bytes_before(paths),
    decreases paths.len() - i,
{
    if i < paths.len() {
        lemma_sums_grow(paths, i + 1);
        assert(paths.take(i + 1).drop_last() =~= paths.take(i));
    } else {
        assert(paths.take(i) =~= paths);
    }
}

/// The bytes that changed paths add and remove: the lengths of new and modified
/// files now, and the lengths of deleted and modified files at the last checkpoint.
pub fn calculate_bytes_statistics(paths: &[PathSizes]) -> (r: (u64, u64))
    requires
        bytes_now(paths@) <= u64::MAX,
        bytes_before(paths@) <= u64::MAX,
    ensures
        r.0 == bytes_now(paths@),
        r.1 == bytes_before(paths@),
{
    let mut added: u64 = 0;
    let mut removed: u64 = 0;
    let mut i: usize = 0;
    assert(paths@.take(0) =~= Seq::empty());
    while i < paths.len()
        invariant
            i <= paths.len(),
            bytes_now(paths@) <= u64::MAX,
            bytes_before(paths@) <= u64::MAX,
            added == bytes_now(paths@.take(i as int)),
            removed == bytes_before(paths@.take(i as int)),
        decreases paths.len() - i,
    {
        proof {
            lemma_sums_grow(paths@, i + 1);
            assert(paths@.take(i + 1).drop_last() =~= paths@.take(i as int));
        }
        let before: u64 = match paths[i].previous {
            Some(EntryKind::File) => paths[i].previous_len,
            Some(EntryKind::ExecutableFile) => paths[i].previous_len,
            _ => 0,
        };
        added = added + paths[i].current;
        removed = removed + before;
        i = i + 1;
    }
    assert(paths@.take(paths@.len() as int) =~= paths@);
    (added, removed)
}

/// The tree hash with which a new map of paths begins: that of the latest
/// checkpoint, or 20 zero bytes.
pub fn initial_root(latest: Option<&Checkpoint>) -> (h: Sha1Hash)
    ensures
        match latest {
            Some(c) => h == c.root_tree,
            None => h@ == Seq::new(20, |i: int| 0u8),
        },
{
    match latest {
        Some(c) => c.root_tree,
        None => {
            let zero: [u8; 20] = [0u8;20];
            assert(zero@ =~= Seq::new(20, |i: int| 0u8));
            Sha1Hash::from_bytes(zero)
        },
    }
}

/// What to do about a request to stop the daemon.
#[derive(Debug, Clone, Copy, PartialEq, Eq, Structural)]
pub enum StopStep {
    /// There is no socket: the daemon does not run.
    NotRunning,
    /// The daemon answers: ask it to end and wait for its lock to go.
    RequestShutdown,
    /// Nothing answers and the lock is left over: remove socket and lock.
    RemoveLeftovers,
    /// Nothing answers though the lock's holder is alive.
    Fail,
}

/// Decides about a request to stop the daemon.
pub fn stop_step(socket_exists: bool, connected: bool, lock_stale: bool) -> (step: StopStep)
    ensures
        step == step_to_stop(socket_exists, connected, lock_stale),
{
    if !socket_exists {
        StopStep::NotRunning
    } else if connected {
        StopStep::RequestShutdown
    } else if lock_stale {
        StopStep::RemoveLeftovers
    } else {
        StopStep::Fail
    }
}

/// How long to wait for a daemon to come up, in seconds, where nothing else is said.
pub const START_TIMEOUT_SECS: u64 = 1;

/// How long to wait for a daemon to end, in milliseconds.
pub const STOP_TIMEOUT_MS: u64 = 5000;

/// How long to sleep between two looks at the daemon, in milliseconds.
pub const POLL_MS: u64 = 100;

/// What comes next while the daemon is waited for.
#[derive(Debug, Clone, Copy, PartialEq, Eq, Structural)]
pub enum WaitStep {
    /// It has come up, or it has ended.
    Done,
    /// The time is over.
    GiveUp,
    /// Look again later.
    Sleep {
        /// How much later, in milliseconds.
        ms: u64,
    },
}

/// Decides what comes next while a daemon is waited for that was started.
pub fn start_wait_step(elapsed_ms: u64, timeout_secs: u64, running: bool) -> (step: WaitStep)
    ensures
        step == wait_for_start(elapsed_ms, timeout_secs, running),
{
    if elapsed_ms / 1000 >= timeout_secs {
        WaitStep::GiveUp
    } else if running {
        WaitStep::Done
    } else {
        WaitStep::Sleep { ms: POLL_MS }
    }
}

/// Decides what comes next while a daemon is waited for that was asked to end: it holds
/// its lock until then.
pub fn stop_wait_step(elapsed_ms: u64, lock_exists: bool) -> (step: WaitStep)
    ensures
        step == wait_for_stop(elapsed_ms, lock_exists),
{
    if !lock_exists {
        WaitStep::Done
    } else if elapsed_ms < STOP_TIMEOUT_MS {
        WaitStep::Sleep { ms: POLL_MS }
    } else {
        WaitStep::GiveUp
    }
}

/// Adds an identifier unless it is there.
pub open spec fn with_id(ids: Seq<u128>, id: u128) -> Seq<u128> {
    if ids.contains(id) {
        ids
    } else {
        ids.push(id)
    }
}

/// The current checkpoints of the workspaces, each once.
pub open spec fn workspace_ids(states: Seq<Option<u128>>) -> Seq<u128>
    decreases states.len(),
{
    if states.len() == 0 {
        Seq::empty()
    } else {
        match states.last() {
            Some(id) => with_id(workspace_ids(states.drop_last()), id),
            None => workspace_ids(states.drop_last()),
        }
    }
}

/// Collects the checkpoints that garbage collection has to keep because a workspace
/// stands on them; `None` where there are no workspaces.
pub fn collect_workspace_checkpoints(detected: bool, states: &Vec<Option<u128>>) -> (r: Option<Vec<u128>>)
    ensures
        match r {
            Some(ids) => detected && ids@ == workspace_ids(states@),
            None => !detected,
        },
{
    if !detected {
        return None;
    }
    let mut ids: Vec<u128> = Vec::new();
    let mut i: usize = 0;
    assert(states@.take(0) =~= Seq::empty());
    while i < states.len()
        invariant
            i <= states.len(),
            ids@ == workspace_ids(states@.take(i as int)),
        decreases states.len() - i,
    {
        assert(states@.take(i + 1).drop_last() =~= states@.take(i as int));
        match states[i] {
            Some(id) => {
                let mut known: bool = false;
                let mut k: usize = 0;
                while k < ids.len() && !known
                    invariant
                        k <= ids.len(),
                        known ==> ids@.contains(id),
                        !known ==> forall|j: int| 0 <= j < k ==> #[trigger] ids@[j] != id,
                    decreases ids.len() - k,
                {
                    if ids[k] == id {
                        assert(ids@[k as int] == id);
                        known = true;
                    }
                    k = k + 1;
                }
                if !known {
                    assert(!ids@.contains(id));
                    ids.push(id);
                }
            },
            None => {},
        }
        i = i + 1;
    }
    assert(states@.take(states@.len() as int) =~= states@);
    Some(ids)
}

/// Every checkpoint on which a workspace stands is kept.
pub proof fn workspace_checkpoints_are_kept(states: Seq<Option<u128>>, i: int)
    requires
        0 <= i < states.len(),
        states[i] is Some,
    ensures
        workspace_ids(states).contains(states[i]->0),
    decreases states.len(),
{
    let shorter = states.drop_last();
    if i < states.len() - 1 {
        workspace_checkpoints_are_kept(shorter, i);
        let ids = workspace_ids(shorter);
        let k = choose|k: int| 0 <= k < ids.len() && ids[k] == states[i]->0;
        assert(workspace_ids(states)[k] == states[i]->0);
    } else {
        let ids = workspace_ids(shorter);
        let id = states[i]->0;
        if !ids.contains(id) {
            assert(workspace_ids(states)[ids.len() as int] == id);
        }
    }
}

/// The JSON text of a list of strings.
pub uninterp spec fn strings_json(strings: Seq<Seq<char>>) -> Seq<char>;

/// The list of strings in a JSON text, or `None` where the text is none.
pub uninterp spec fn json_strings(text: Seq<char>) -> Option<Seq<Seq<char>>>;

/// `serde_json::to_string` of a list of strings: it does not fail, the text depends
/// on the strings alone, and it reads back as the list.
#[verifier::external_body]
fn json_from_strings(strings: &Vec<String>) -> (text: String)
    ensures
        text@ == strings_json(crate::text::texts(strings@)),
        json_strings(text@) == Some(crate::text::texts(strings@)),
{
    serde_json::to_string(strings).unwrap()
}

/// `serde_json::from_str` as a list of strings: the result depends on the text
/// alone.
#[verifier::external_body]
fn json_to_strings(text: &str) -> (r: Option<Vec<String>>)
    ensures
        match r {
            Some(v) => json_strings(text@) == Some(crate::text::texts(v@)),
            None => json_strings(text@) is None,
        },
{
    serde_json::from_str::<Vec<String>>(text).ok()
}

/// The pending paths that were saved: each path of the list once, and none where
/// the text is no list.
pub open spec fn recovered(saved: Option<Seq<Seq<char>>>) -> Seq<Seq<char>> {
    match saved {
        Some(paths) => with_paths(Seq::empty(), paths),
        None => Seq::empty(),
    }
}

/// The text under which the pending paths are saved; reading it back gives the
/// same paths.
pub fn save_pending_paths(pending: &Vec<String>) -> (text: String)
    ensures
        text@ == strings_json(crate::text::texts(pending@)),
        no_repeats(crate::text::texts(pending@)) ==> recovered(json_strings(text@)) == crate::text::texts(pending@),
{
    proof {
        if no_repeats(crate::text::texts(pending@)) {
            lemma_recover(crate::text::texts(pending@));
        }
    }
    json_from_strings(pending)
}

proof fn lemma_recover(paths: Seq<Seq<char>>)
    requires
        no_repeats(paths),
    ensures
        with_paths(Seq::empty(), paths) == paths,
    decreases paths.len(),
{
    if paths.len() > 0 {
        let shorter = paths.drop_last();
        assert forall|i: int, j: int| 0 <= i < j < shorter.len() implies #[trigger] shorter[i] != #[trigger] shorter[j] by {
            assert(shorter[i] == paths[i] && shorter[j] == paths[j]);
        }
        lemma_recover(shorter);
        let last = paths[paths.len() - 1];
        if shorter.contains(last) {
            let i = choose|i: int| 0 <= i < shorter.len() && shorter[i] == last;
            assert(paths[i] == last);
        }
        assert(shorter.push(last) =~= paths);
    } else {
        assert(paths =~= Seq::empty());
    }
}

/// The paths of a saved list, each once; none where there is no list.
pub fn recover_paths(saved: Option<Vec<String>>) -> (paths: Vec<String>)
    ensures
        crate::text::texts(paths@) == recovered(
            match saved {
                Some(v) => Some(crate::text::texts(v@)),
                None => None,
            },
        ),
{
    let mut paths: Vec<String> = Vec::new();
    assert(crate::text::texts(paths@) =~= Seq::empty());
    match saved {
        Some(v) => {
            add_paths(&mut paths, &v);
        },
        None => {},
    }
    paths
}

/// The pending paths saved in a text; none where the text is no list of paths.
pub fn load_pending_paths(text: &str) -> (paths: Vec<String>)
    ensures
        crate::text::texts(paths@) == recovered(json_strings(text@)),
{
    recover_paths(json_to_strings(text))
}

/// A collection is due: it is allowed, and there are too many checkpoints or the last one
/// was long ago.
pub open spec fn gc_is_due(
    config: crate::system_config::DaemonConfig,
    checkpoint_count: usize,
    last_gc_ms: u64,
    now_ms: u64,
) -> bool {
    config.auto_gc_enabled && (checkpoint_count > config.auto_gc_checkpoint_threshold || elapsed(last_gc_ms, now_ms)
        >= config.auto_gc_interval_secs * 1000)
}

/// What comes of a cycle: nothing is recorded while a restore or a collection holds its
/// lock, nor where nothing changed.
pub open spec fn cycle_step(restore_held: bool, gc_held: bool, pending: Seq<Seq<char>>) -> CycleStep {
    if restore_held || gc_held {
        CycleStep::Skip
    } else if pending.len() == 0 {
        CycleStep::Nothing
    } else {
        CycleStep::Create
    }
}

/// When the next checkpoint is made, where something changed.
pub open spec fn deadline(pending: Seq<Seq<char>>, last_checkpoint_ms: u64, interval_secs: u64) -> Option<u128> {
    if pending.len() > 0 {
        Some((last_checkpoint_ms + interval_secs * 1000) as u128)
    } else {
        None
    }
}

/// How a daemon is stopped.
pub open spec fn step_to_stop(socket_exists: bool, connected: bool, lock_stale: bool) -> StopStep {
    if !socket_exists {
        StopStep::NotRunning
    } else if connected {
        StopStep::RequestShutdown
    } else if lock_stale {
        StopStep::RemoveLeftovers
    } else {
        StopStep::Fail
    }
}

/// What comes next while a daemon is waited for that was started.
pub open spec fn wait_for_start(elapsed_ms: u64, timeout_secs: u64, running: bool) -> WaitStep {
    if elapsed_ms >= timeout_secs * 1000 {
        WaitStep::GiveUp
    } else if running {
        WaitStep::Done
    } else {
        WaitStep::Sleep { ms: POLL_MS }
    }
}

/// What comes next while a daemon is waited for that was asked to end.
pub open spec fn wait_for_stop(elapsed_ms: u64, lock_exists: bool) -> WaitStep {
    if !lock_exists {
        WaitStep::Done
    } else if elapsed_ms < STOP_TIMEOUT_MS {
        WaitStep::Sleep { ms: POLL_MS }
    } else {
        WaitStep::GiveUp
    }
}

/// No collection is due where it is switched off; where it is switched on, one is due
/// exactly when there are more checkpoints than the threshold or the interval has passed
/// since the last.
pub proof fn collections_are_due(
    config: crate::system_config::DaemonConfig,
    checkpoint_count: usize,
    last_gc_ms: u64,
    now_ms: u64,
)
    requires
        last_gc_ms <= now_ms,
    ensures
        !config.auto_gc_enabled ==> !gc_is_due(config, checkpoint_count, last_gc_ms, now_ms),
        config.auto_gc_enabled && checkpoint_count > config.auto_gc_checkpoint_threshold ==> gc_is_due(
            config,
            checkpoint_count,
            last_gc_ms,
            now_ms,
        ),
        config.auto_gc_enabled && now_ms >= last_gc_ms + config.auto_gc_interval_secs * 1000 ==> gc_is_due(
            config,
            checkpoint_count,
            last_gc_ms,
            now_ms,
        ),
        checkpoint_count <= config.auto_gc_checkpoint_threshold && now_ms < last_gc_ms + config.auto_gc_interval_secs
            * 1000 ==> !gc_is_due(config, checkpoint_count, last_gc_ms, now_ms),
{
}

/// A checkpoint is made exactly where something changed and neither a restore nor a
/// collection is going on; it is due one interval after the last, in either order of
/// changes and time.
pub proof fn changes_are_recorded(
    restore_held: bool,
    gc_held: bool,
    pending: Seq<Seq<char>>,
    last_checkpoint_ms: u64,
    interval_secs: u64,
)
    ensures
        cycle_step(restore_held, gc_held, pending) == CycleStep::Create <==> !restore_held && !gc_held && pending.len()
            > 0,
        cycle_step(restore_held, gc_held, pending) == CycleStep::Skip <==> restore_held || gc_held,
        deadline(pending, last_checkpoint_ms, interval_secs) is Some <==> pending.len() > 0,
        pending.len() > 0 ==> deadline(pending, last_checkpoint_ms, interval_secs)->0 - last_checkpoint_ms
            == interval_secs * 1000,
{
    assert(interval_secs * 1000 <= u64::MAX * 1000);
}

/// A crash counts exactly as long as less than the window has passed since it.
pub proof fn crashes_count_within_the_window(t: u64, now: u64, window: u64)
    requires
        window > 0,
    ensures
        in_window(t, now, window) <==> now < t + window,
{
}

/// Crashes that are older than the window do not keep the daemon from starting.
pub proof fn old_crashes_are_forgotten(crashes: Seq<u64>, now: u64, window: u64)
    requires
        forall|i: int| 0 <= i < crashes.len() ==> #[trigger] crashes[i] + window <= now,
    ensures
        crashes.filter(|t: u64| in_window(t, now, window)).len() == 0,
    decreases crashes.len(),
{
    reveal(Seq::filter);
    if crashes.len() > 0 {
        let t = crashes.drop_last();
        assert forall|i: int| 0 <= i < t.len() implies #[trigger] t[i] + window <= now by {
            assert(t[i] == crashes[i]);
        }
        old_crashes_are_forgotten(t, now, window);
        assert(crashes[crashes.len() - 1] + window <= now);
    }
}

/// A daemon that answers is asked to end, one that left its files behind is cleaned up
/// after, and only a socket that nobody serves while the lock is live is a failure.
pub proof fn daemon_is_stopped_where_it_answers(socket_exists: bool, connected: bool, lock_stale: bool)
    ensures
        step_to_stop(socket_exists, connected, lock_stale) == StopStep::RequestShutdown <==> socket_exists
            && connected,
        step_to_stop(socket_exists, connected, lock_stale) == StopStep::NotRunning <==> !socket_exists,
        step_to_stop(socket_exists, connected, lock_stale) == StopStep::RemoveLeftovers <==> socket_exists
            && !connected && lock_stale,
        step_to_stop(socket_exists, connected, lock_stale) == StopStep::Fail <==> socket_exists && !connected
            && !lock_stale,
{
}

/// Waiting ends well once the daemon is there, or gone, and is given up once the time is
/// over; until then it sleeps a tenth of a second at a time.
pub proof fn waiting_ends(elapsed_ms: u64, timeout_secs: u64, there: bool)
    ensures
        wait_for_start(elapsed_ms, timeout_secs, there) == WaitStep::GiveUp <==> elapsed_ms >= timeout_secs * 1000,
        wait_for_start(elapsed_ms, timeout_secs, there) == WaitStep::Done <==> there && elapsed_ms < timeout_secs * 1000,
        wait_for_stop(elapsed_ms, there) == WaitStep::Done <==> !there,
        wait_for_stop(elapsed_ms, there) == WaitStep::GiveUp <==> there && elapsed_ms >= 5000,
        wait_for_start(elapsed_ms, timeout_secs, there) is Sleep ==> wait_for_start(
            elapsed_ms,
            timeout_secs,
            there,
        )->ms == 100,
        wait_for_stop(elapsed_ms, there) is Sleep ==> wait_for_stop(elapsed_ms, there)->ms == 100,
{
}

/// New paths come after those that were pending, in their order.
pub proof fn pending_paths_stay_in_front(paths: Seq<Seq<char>>, more: Seq<Seq<char>>)
    ensures
        with_paths(paths, more).len() >= paths.len(),
        with_paths(paths, more).take(paths.len() as int) == paths,
        no_repeats(paths + more) ==> with_paths(paths, more) == paths + more,
    decreases more.len(),
{
    if more.len() == 0 {
        assert(paths.take(paths.len() as int) =~= paths);
        assert(paths + more =~= paths);
    } else {
        let front = more.drop_last();
        pending_paths_stay_in_front(paths, front);
        let before = with_paths(paths, front);
        let all = with_paths(paths, more);
        assert(all.take(paths.len() as int) =~= before.take(paths.len() as int));
        if no_repeats(paths + more) {
            let whole = paths + more;
            let shorter = paths + front;
            assert(whole.drop_last() =~= shorter);
            assert forall|i: int, j: int| 0 <= i < j < shorter.len() implies #[trigger] shorter[i]
                != #[trigger] shorter[j] by {
                assert(whole[i] != whole[j]);
            }
            if before.contains(more.last()) {
                let k = choose|k: int| 0 <= k < before.len() && before[k] == more.last();
                assert(whole[k] != whole[whole.len() - 1]);
            }
            assert(all =~= whole);
        }
    }
}

/// The bytes of a change are the sums over its paths: those of two lists are those of both,
/// each file counts with its length, and a link, a directory or a path that was not there
/// counted nothing before.
pub proof fn bytes_are_summed(a: Seq<PathSizes>, b: Seq<PathSizes>, p: PathSizes)
    ensures
        bytes_now(a + b) == bytes_now(a) + bytes_now(b),
        bytes_before(a + b) == bytes_before(a) + bytes_before(b),
        bytes_now(seq![p]) == p.current,
        bytes_before(seq![p]) == (if p.previous == Some(EntryKind::File) || p.previous == Some(
            EntryKind::ExecutableFile,
        ) {
            p.previous_len as nat
        } else {
            0
        }),
    decreases b.len(),
{
    if b.len() == 0 {
        assert(a + b =~= a);
    } else {
        bytes_are_summed(a, b.drop_last(), p);
        assert((a + b).drop_last() =~= a + b.drop_last());
    }
    assert(seq![p].drop_last() =~= Seq::empty());
    reveal_with_fuel(bytes_now, 2);
    reveal_with_fuel(bytes_before, 2);
}

/// The checkpoints that workspaces stand on are collected once each, and no others.
pub proof fn only_workspace_checkpoints_are_kept(states: Seq<Option<u128>>, id: u128)
    ensures
        workspace_ids(states).contains(id) <==> states.contains(Some(id)),
        forall|i: int, j: int|
            0 <= i < j < workspace_ids(states).len() ==> #[trigger] workspace_ids(states)[i]
                != #[trigger] workspace_ids(states)[j],
    decreases states.len(),
{
    if states.len() > 0 {
        let front = states.drop_last();
        let before = workspace_ids(front);
        let all = workspace_ids(states);
        only_workspace_checkpoints_are_kept(front, id);
        if states.last() is Some {
            let x = states.last()->0;
            only_workspace_checkpoints_are_kept(front, x);
            if before.contains(id) {
                let k = choose|k: int| 0 <= k < before.len() && before[k] == id;
                assert(all[k] == id);
            }
            if id == x && !before.contains(x) {
                assert(all[all.len() - 1] == id);
            }
            if all.contains(id) && id != x {
                let k = choose|k: int| 0 <= k < all.len() && all[k] == id;
                assert(before[k] == id);
            }
        }
        if states.contains(Some(id)) {
            let k = choose|k: int| 0 <= k < states.len() && states[k] == Some(id);
            if k < front.len() {
                assert(front[k] == Some(id));
            }
        }
        if front.contains(Some(id)) {
            let k = choose|k: int| 0 <= k < front.len() && front[k] == Some(id);
            assert(states[k] == Some(id));
        }
        if states.last() == Some(id) {
            assert(states[states.len() - 1] == Some(id));
        }
    }
}

/// A page is of twenty checkpoints from the latest on, unless the request says otherwise.
pub proof fn pages_have_bounds(h: History, limit: Option<usize>, offset: Option<usize>, n: usize)
    ensures
        page_outcome(Ok(h), limit, offset) is Ok,
        page_outcome(Ok(h), None, offset) == page_outcome(Ok(h), Some(20), offset),
        page_outcome(Ok(h), limit, None) == page_outcome(Ok(h), limit, Some(0)),
        page_outcome(Ok(h), Some(n), offset)->Ok_0.len() <= n,
        forall|i: int|
            0 <= i < page_outcome(Ok(h), Some(n), Some(0))->Ok_0.len() ==> Some(
                #[trigger] page_outcome(Ok(h), Some(n), Some(0))->Ok_0[i],
            ) == h@.ancestor(i as nat),
{
    crate::journal::page_holds_the_generations(h@, 0, n as nat);
    crate::journal::page_holds_the_generations(
        h@,
        match offset {
            Some(n) => n as nat,
            None => 0,
        },
        n as nat,
    );
}

/// What the daemon answers of a journal that can be read: the latest checkpoint, the one
/// with a full identifier, each of several references, and all identifiers in order.
pub proof fn answers_come_from_the_journal(
    view: DaemonView,
    h: History,
    i: int,
    id: String,
    reply: Reply,
)
    requires
        *view.journal == Ok::<History, String>(h),
        0 <= i < h@.records.len(),
        id@ == crate::ids::ulid_text(h@.records[i].id),
        forall|j: int| 0 <= j < i ==> (#[trigger] h@.records[j]).id != h@.records[i].id,
    ensures
        is_owed(view, IpcRequest::GetHead, reply) ==> reply is Answer && reply->Answer_0 is Head && (h@.head == Some(
            h@.records[i].id,
        ) ==> opt_view(reply->Answer_0->Head_0) == Some(h@.records[i])),
        is_owed(view, IpcRequest::GetCheckpoint(id), reply) ==> reply is Answer && reply->Answer_0 is Checkpoint
            && opt_view(reply->Answer_0->Checkpoint_0) == Some(h@.records[i]),
        is_owed(view, IpcRequest::GetInfoData, reply) ==> reply is Answer && reply->Answer_0 is InfoData
            && reply->Answer_0->checkpoint_ids@.len() == h@.records.len() && crate::text::texts(
            reply->Answer_0->checkpoint_ids@,
        )[i] == id@,
        is_owed(view, IpcRequest::ForceCheckpoint, reply) && h@.head == Some(h@.records[i].id) ==> reply is Append
            && reply->Append_0.parent == Some(h@.records[i].id) && reply->Append_0.root_tree
            == h@.records[i].root_tree && reply->Append_0.reason == CheckpointReason::Manual,
{
    let c = h@.records[i];
    crate::ids::id_round_trip(c.id);
    crate::journal::found_record_has_the_id(h@, c.id);
    let k = choose|k: int|
        0 <= k < h@.records.len() && h@.find(c.id) == Some(#[trigger] h@.records[k]) && h@.records[k].id == c.id
            && forall|j: int| 0 <= j < k ==> (#[trigger] h@.records[j]).id != c.id;
    if k < i {
        assert(h@.records[k].id != c.id);
    }
    if i < k {
        assert(h@.records[i].id != c.id);
    }
    assert(id_texts(h@.ids())[i] == crate::ids::ulid_text(c.id));
    if is_owed(view, IpcRequest::GetInfoData, reply) {
        let texts = crate::text::texts(reply->Answer_0->checkpoint_ids@);
        assert(texts == id_texts(h@.ids()));
        assert(texts.len() == reply->Answer_0->checkpoint_ids@.len());
        assert(id_texts(h@.ids()).len() == h@.records.len());
    }
}

/// Each reference that is asked for is resolved by itself, in order; without a journal
/// that can be read, references that need its identifiers are refused and the others name
/// nothing.
pub proof fn references_are_resolved_in_order(
    journal: Result<History, String>,
    pins: Seq<(Seq<char>, u128)>,
    refs: Seq<String>,
    i: int,
)
    requires
        0 <= i < refs.len(),
    ensures
        journal is Ok ==> resolve_outcome(journal, pins, refs) is Ok && resolve_outcome(journal, pins, refs)->Ok_0.len()
            == refs.len() && resolve_outcome(journal, pins, refs)->Ok_0[i] == crate::journal::named_checkpoint(
            journal->Ok_0@,
            pins,
            refs[i]@,
        ),
        journal is Err && refs[i]@ != "HEAD"@ && !crate::text::begins_with(refs[i]@, "HEAD~"@)
            && vstd::utf8::encode_utf8(refs[i]@).len() >= 4 ==> resolve_outcome(journal, pins, refs) == Err::<
            Seq<Option<crate::journal::CheckpointView>>,
            Seq<char>,
        >(journal->Err_0@),
        resolve_outcome(journal, pins, refs) is Ok && journal is Err ==> resolve_outcome(
            journal,
            pins,
            refs,
        )->Ok_0[i] is None,
{
    if journal is Err && refs[i]@ != "HEAD"@ && !crate::text::begins_with(refs[i]@, "HEAD~"@)
        && vstd::utf8::encode_utf8(refs[i]@).len() >= 4 {
        assert(needs_all_ids(refs[i]@));
    }
}

/// Each identifier that is asked for in a batch is answered with its record, in order.
pub proof fn batches_are_answered_in_order(h: History, ids: Seq<String>, i: int, n: u128)
    requires
        0 <= i < ids.len(),
        ids[i]@ == crate::ids::ulid_text(n),
    ensures
        batch_outcome(Ok(h), ids).len() == ids.len(),
        batch_outcome(Ok(h), ids)[i] == h@.find(n),
{
    crate::ids::id_round_trip(n);
}

} // verus!
