//! Fetching from the remote and bringing the working directory up to date.

use vstd::prelude::*;

use crate::cmd::branch::{short_commit_or, RemoteBranchInfo, COMMIT_CHARS};
use crate::cmd::restore::RestoreResult;
use crate::ids::parse_id;
use crate::ipc::{IpcResponse, ReplyError};
use crate::text::{chars_of, same_chars};
use crate::ui::{add_blank, add_line, add_text, blank, concat, counted_text, no_lines, put, Span, SpanView, Style};

verus! {

/// What the fetch did to a branch. A branch that the remote has no commit for is up
/// to date where its own commit is empty.
pub open spec fn fetch_status(b: RemoteBranchInfo) -> SpanView {
    match b.local_commit_id {
        Some(local) => {
            let remote = match b.remote_commit_id {
                Some(r) => r@,
                None => Seq::<char>::empty(),
            };
            if local@ == remote {
                crate::ui::styled("up to date"@, Style::Dimmed)
            } else if b.is_diverged {
                crate::ui::styled("diverged"@, Style::Red)
            } else {
                crate::ui::styled("updated"@, Style::Green)
            }
        },
        None => crate::ui::styled("new"@, Style::Cyan),
    }
}

/// A fetched branch.
pub open spec fn fetched_line(b: RemoteBranchInfo) -> Seq<SpanView> {
    seq![
        crate::ui::plain("  "@),
        crate::ui::styled(b.name@, Style::Cyan),
        crate::ui::plain(" "@),
        crate::ui::styled(crate::cmd::branch::commit_or(b.remote_commit_id, "???"@), Style::Dimmed),
        crate::ui::plain(" ("@),
        fetch_status(b),
        crate::ui::plain(")"@),
    ]
}

fn fetched_line_of(b: &RemoteBranchInfo) -> (l: Vec<Span>)
    ensures
        crate::ui::line(l@) == fetched_line(*b),
{
    let mut l = blank();
    put(&mut l, "  ", Style::Plain);
    put(&mut l, b.name.as_str(), Style::Cyan);
    put(&mut l, " ", Style::Plain);
    put(&mut l, short_commit_or(&b.remote_commit_id, "???").as_str(), Style::Dimmed);
    put(&mut l, " (", Style::Plain);
    match &b.local_commit_id {
        Some(local) => {
            let x = chars_of(local.as_str());
            let y: Vec<char> = match &b.remote_commit_id {
                Some(r) => chars_of(r.as_str()),
                None => Vec::new(),
            };
            if same_chars(x.as_slice(), y.as_slice()) {
                put(&mut l, "up to date", Style::Dimmed);
            } else if b.is_diverged {
                put(&mut l, "diverged", Style::Red);
            } else {
                put(&mut l, "updated", Style::Green);
            }
        },
        None => put(&mut l, "new", Style::Cyan),
    }
    put(&mut l, ")", Style::Plain);
    assert(crate::ui::line(l@) =~= fetched_line(*b));
    l
}

/// The listing of fetched branches.
pub open spec fn fetched_page(branches: Seq<RemoteBranchInfo>) -> Seq<Seq<SpanView>> {
    if branches.len() > 0 {
        seq![crate::ui::empty_line(), seq![crate::ui::styled("Remote branches:"@, Style::Plain)]] + branches.map_values(
            |b: RemoteBranchInfo| fetched_line(b),
        )
    } else {
        seq![seq![crate::ui::styled("No remote branches found"@, Style::Dimmed)]]
    }
}

/// Shows what was fetched.
pub fn show_fetched(branches: &Vec<RemoteBranchInfo>) -> (p: Vec<Vec<Span>>)
    ensures
        crate::ui::page(p@) == fetched_page(branches@),
{
    let mut p = no_lines();
    if branches.len() == 0 {
        add_text(&mut p, "No remote branches found", Style::Dimmed);
        assert(crate::ui::page(p@) =~= fetched_page(branches@));
        return p;
    }
    let ghost title = seq![crate::ui::empty_line(), seq![crate::ui::styled("Remote branches:"@, Style::Plain)]];
    let ghost rows = branches@.map_values(|b: RemoteBranchInfo| fetched_line(b));
    add_blank(&mut p);
    add_text(&mut p, "Remote branches:", Style::Plain);
    let mut i: usize = 0;
    assert(crate::ui::page(p@) =~= title + rows.take(0));
    while i < branches.len()
        invariant
            i <= branches.len(),
            rows == branches@.map_values(|b: RemoteBranchInfo| fetched_line(b)),
            crate::ui::page(p@) == title + rows.take(i as int),
        decreases branches.len() - i,
    {
        let l = fetched_line_of(&branches[i]);
        add_line(&mut p, l);
        i = i + 1;
        assert(crate::ui::page(p@) =~= title + rows.take(i as int));
    }
    assert(rows.take(rows.len() as int) =~= rows);
    p
}

/// The branch has a commit on the remote that the working directory can go to: it
/// has none of its own, or another that has not diverged.
pub open spec fn needs_sync(b: RemoteBranchInfo) -> bool {
    match (b.local_commit_id, b.remote_commit_id) {
        (Some(local), Some(remote)) => local@ != remote@ && !b.is_diverged,
        (None, Some(_)) => true,
        _ => false,
    }
}

/// How the working directory is brought up to date.
#[derive(Debug)]
pub enum SyncPlan {
    /// The remote does not have the branch.
    Missing,
    /// There is nothing to do.
    UpToDate,
    /// The files of a commit are written.
    Update {
        /// The commit.
        commit: String,
    },
}

/// The first branch with the given name.
pub open spec fn find_branch(branches: Seq<RemoteBranchInfo>, name: Seq<char>) -> Option<RemoteBranchInfo>
    decreases branches.len(),
{
    if branches.len() == 0 {
        None
    } else if branches[0].name@ == name {
        Some(branches[0])
    } else {
        find_branch(branches.drop_first(), name)
    }
}

/// Decides how the working directory is brought up to date with the named branch.
pub fn sync_plan(branches: &Vec<RemoteBranchInfo>, name: &str) -> (plan: SyncPlan)
    ensures
        match find_branch(branches@, name@) {
            None => plan == SyncPlan::Missing,
            Some(b) => if needs_sync(b) {
                plan matches SyncPlan::Update { commit } && commit@ == b.remote_commit_id->0@
            } else {
                plan == SyncPlan::UpToDate
            },
        },
{
    let wanted = chars_of(name);
    let mut i: usize = 0;
    assert(branches@.skip(0) =~= branches@);
    while i < branches.len()
        invariant
            i <= branches.len(),
            wanted@ == name@,
            find_branch(branches@, name@) == find_branch(branches@.skip(i as int), name@),
        decreases branches.len() - i,
    {
        assert(branches@.skip(i as int)[0] == branches@[i as int]);
        let b = &branches[i];
        let have = chars_of(b.name.as_str());
        if same_chars(have.as_slice(), wanted.as_slice()) {
            return match (&b.local_commit_id, &b.remote_commit_id) {
                (Some(local), Some(remote)) => {
                    let x = chars_of(local.as_str());
                    let y = chars_of(remote.as_str());
                    if !same_chars(x.as_slice(), y.as_slice()) && !b.is_diverged {
                        SyncPlan::Update { commit: remote.clone() }
                    } else {
                        SyncPlan::UpToDate
                    }
                },
                (None, Some(remote)) => SyncPlan::Update { commit: remote.clone() },
                _ => SyncPlan::UpToDate,
            };
        }
        assert(branches@.skip(i as int).drop_first() =~= branches@.skip(i + 1));
        i = i + 1;
    }
    assert(branches@.skip(i as int) =~= Seq::empty());
    SyncPlan::Missing
}

/// How often the daemon is asked for pending changes before the working directory
/// counts as clean.
pub const STASH_ATTEMPTS: u32 = 5;

/// How long to wait after the given attempt: 50 milliseconds, twice as long each
/// time, at most 400.
pub open spec fn stash_delay(attempt: nat) -> nat
    decreases attempt,
{
    if attempt == 0 {
        50
    } else {
        let twice = 2 * stash_delay((attempt - 1) as nat);
        if twice < 400 {
            twice
        } else {
            400
        }
    }
}

/// What follows an answer to the request for pending changes.
#[derive(Debug)]
pub enum AutoStashStep {
    /// The changes are in this checkpoint: stash it.
    Stash {
        /// Identifier of the checkpoint.
        checkpoint_id: u128,
    },
    /// Nothing is pending: wait, and ask again where attempts are left.
    Wait {
        /// How long to wait.
        delay_ms: u64,
        /// Whether attempts are left.
        again: bool,
    },
    /// The daemon named a checkpoint that is none.
    BadId {
        /// What it named.
        id: String,
    },
    /// The request failed.
    Failed(ReplyError),
}

/// Decides what follows an answer to the request for pending changes.
pub fn auto_stash_step(attempt: u32, reply: IpcResponse) -> (step: AutoStashStep)
    requires
        attempt < STASH_ATTEMPTS,
    ensures
        match reply {
            IpcResponse::CheckpointFlushed(Some(id)) => match crate::ids::ulid_value(vstd::utf8::encode_utf8(id@)) {
                Some(checkpoint_id) => step == (AutoStashStep::Stash { checkpoint_id }),
                None => step == (AutoStashStep::BadId { id }),
            },
            IpcResponse::CheckpointFlushed(None) => step matches AutoStashStep::Wait { delay_ms, again } && delay_ms
                == stash_delay(attempt as nat) && again == (attempt + 1 < STASH_ATTEMPTS),
            IpcResponse::Error(e) => step == AutoStashStep::Failed(ReplyError::Daemon(e)),
            _ => step == AutoStashStep::Failed(ReplyError::Unexpected),
        },
{
    match reply {
        IpcResponse::CheckpointFlushed(Some(id)) => match parse_id(id.as_str()) {
            Some(checkpoint_id) => AutoStashStep::Stash { checkpoint_id },
            None => AutoStashStep::BadId { id },
        },
        IpcResponse::CheckpointFlushed(None) => {
            let mut delay_ms: u64 = 50;
            let mut i: u32 = 0;
            while i < attempt
                invariant
                    i <= attempt,
                    delay_ms == stash_delay(i as nat),
                    delay_ms <= 400,
                decreases attempt - i,
            {
                delay_ms = if delay_ms * 2 < 400 { delay_ms * 2 } else { 400 };
                i = i + 1;
            }
            AutoStashStep::Wait { delay_ms, again: attempt + 1 < STASH_ATTEMPTS }
        },
        IpcResponse::Error(e) => AutoStashStep::Failed(ReplyError::Daemon(e)),
        _ => AutoStashStep::Failed(ReplyError::Unexpected),
    }
}

/// Saved changes.
#[derive(Debug)]
pub struct StashEntry {
    /// The checkpoint that holds them.
    pub checkpoint_id: u128,
    /// When they were saved, in milliseconds since the start of 1970.
    pub created_at_ms: u64,
    /// What they are.
    pub message: Option<String>,
    /// The checkpoint they were made on.
    pub base_checkpoint_id: Option<u128>,
}

/// The entry for changes saved before a command.
pub fn auto_stash_entry(checkpoint_id: u128, base: Option<u128>, now_ms: u64, command: &str) -> (e: StashEntry)
    ensures
        e.checkpoint_id == checkpoint_id,
        e.created_at_ms == now_ms,
        e.message matches Some(m) && m@ == "Auto-stash before "@ + command@,
        e.base_checkpoint_id == base,
{
    StashEntry {
        checkpoint_id,
        created_at_ms: now_ms,
        message: Some(concat("Auto-stash before ", command)),
        base_checkpoint_id: base,
    }
}

/// What the entry taken from the stash means.
#[derive(Debug, Clone, Copy, PartialEq, Eq, Structural)]
pub enum Popped {
    /// It is the one that was put there.
    Expected,
    /// It is another one.
    Changed,
    /// The stash is empty.
    Nothing,
}

/// Compares the entry taken from the stash with the one that was put there.
pub fn check_popped(popped: Option<u128>, expected: u128) -> (r: Popped)
    ensures
        r == popped_as(popped, expected),
{
    match popped {
        Some(id) => if id == expected {
            Popped::Expected
        } else {
            Popped::Changed
        },
        None => Popped::Nothing,
    }
}

/// An error of putting changes back.
pub open spec fn reapply_error(error: Seq<char>) -> Seq<SpanView> {
    seq![crate::ui::plain("    "@), crate::ui::styled(error, Style::Red)]
}

/// The outcome of putting changes back: the first three errors.
pub open spec fn reapplied(files: nat, errors: Seq<Seq<char>>) -> Seq<Seq<SpanView>> {
    if errors.len() == 0 {
        seq![
            seq![
                crate::ui::plain("  "@),
                crate::ui::styled("✓"@, Style::Green),
                crate::ui::plain(" Re-applied "@ + crate::text::decimal(files) + " files"@),
            ],
        ]
    } else {
        let shown = if errors.len() < 3 {
            errors
        } else {
            errors.take(3)
        };
        seq![
            seq![
                crate::ui::plain("  "@),
                crate::ui::styled("⚠"@, Style::Yellow),
                crate::ui::plain(
                    " Re-applied "@ + crate::text::decimal(files) + " files with "@ + crate::text::decimal(errors.len())
                        + " errors"@,
                ),
            ],
        ] + shown.map_values(|e: Seq<char>| reapply_error(e))
    }
}

/// Shows the outcome of putting changes back.
pub fn show_reapplied(result: &RestoreResult) -> (p: Vec<Vec<Span>>)
    ensures
        crate::ui::page(p@) == reapplied(result.files_restored as nat, result.messages()),
{
    let ghost errors = result.messages();
    let n: usize = result.errors.len();
    let mut p = no_lines();
    let mut l = blank();
    put(&mut l, "  ", Style::Plain);
    if n == 0 {
        put(&mut l, "✓", Style::Green);
        put(&mut l, counted_text(" Re-applied ", result.files_restored as u64, " files").as_str(), Style::Plain);
        add_line(&mut p, l);
        assert(crate::ui::page(p@) =~~= reapplied(result.files_restored as nat, errors));
        return p;
    }
    put(&mut l, "⚠", Style::Yellow);
    let mut s = counted_text(" Re-applied ", result.files_restored as u64, " files with ");
    s.append(crate::text::decimal_string(n as u64).as_str());
    s.append(" errors");
    put(&mut l, s.as_str(), Style::Plain);
    add_line(&mut p, l);
    let ghost head = crate::ui::page(p@);
    let ghost rows = errors.map_values(|e: Seq<char>| reapply_error(e));
    let mut i: usize = 0;
    assert(crate::ui::page(p@) =~= head + rows.take(0));
    while i < n && i < 3
        invariant
            i <= n,
            i <= 3,
            n == result.errors.len(),
            errors == result.messages(),
            rows == errors.map_values(|e: Seq<char>| reapply_error(e)),
            crate::ui::page(p@) == head + rows.take(i as int),
        decreases n - i,
    {
        let mut l = blank();
        put(&mut l, "    ", Style::Plain);
        put(&mut l, result.errors[i].as_str(), Style::Red);
        assert(crate::ui::line(l@) =~= reapply_error(errors[i as int]));
        add_line(&mut p, l);
        i = i + 1;
        assert(crate::ui::page(p@) =~= head + rows.take(i as int));
    }
    proof {
        let shown = if errors.len() < 3 {
            errors
        } else {
            errors.take(3)
        };
        assert(rows.take(i as int) =~= shown.map_values(|e: Seq<char>| reapply_error(e)));
        assert(crate::ui::page(p@) =~~= reapplied(result.files_restored as nat, errors));
    }
    p
}

/// Shows that a branch is brought up to a commit.
pub fn show_update(name: &str, commit: &str) -> (l: Vec<Span>)
    ensures
        crate::ui::line(l@) == seq![
            crate::ui::plain("  Updating "@),
            crate::ui::styled(name@, Style::Cyan),
            crate::ui::plain(" to "@),
            crate::ui::styled(crate::ui::clip(commit@, COMMIT_CHARS as nat), Style::Green),
        ],
{
    let mut l = blank();
    put(&mut l, "  Updating ", Style::Plain);
    put(&mut l, name, Style::Cyan);
    put(&mut l, " to ", Style::Plain);
    put(&mut l, crate::ui::clipped(commit, COMMIT_CHARS).as_str(), Style::Green);
    l
}

/// A local branch is brought forward exactly where the remote has a commit that it lacks
/// and the two have not diverged.
pub proof fn branches_are_synced_where_behind(b: RemoteBranchInfo)
    ensures
        b.remote_commit_id is None ==> !needs_sync(b),
        b.remote_commit_id is Some && b.local_commit_id is None ==> needs_sync(b),
        b.remote_commit_id is Some && b.local_commit_id is Some && b.local_commit_id->0@ == b.remote_commit_id->0@
            ==> !needs_sync(b),
        b.remote_commit_id is Some && b.local_commit_id is Some && b.is_diverged ==> !needs_sync(b),
        b.remote_commit_id is Some && b.local_commit_id is Some && b.local_commit_id->0@ != b.remote_commit_id->0@
            && !b.is_diverged ==> needs_sync(b),
{
}

/// The branch with a name is the first that has it; there is none exactly where no branch
/// has it.
pub proof fn found_branch_has_the_name(branches: Seq<RemoteBranchInfo>, name: Seq<char>)
    ensures
        find_branch(branches, name) is None <==> forall|j: int|
            0 <= j < branches.len() ==> (#[trigger] branches[j]).name@ != name,
        find_branch(branches, name) is Some ==> exists|i: int|
            0 <= i < branches.len() && find_branch(branches, name) == Some(#[trigger] branches[i]) && branches[i].name@
                == name && forall|j: int| 0 <= j < i ==> (#[trigger] branches[j]).name@ != name,
    decreases branches.len(),
{
    if branches.len() > 0 {
        if branches[0].name@ == name {
            assert(find_branch(branches, name) == Some(branches[0]));
        } else {
            let t = branches.drop_first();
            found_branch_has_the_name(t, name);
            if find_branch(t, name) is Some {
                let i = choose|i: int|
                    0 <= i < t.len() && find_branch(t, name) == Some(#[trigger] t[i]) && t[i].name@ == name && forall|
                        j: int,
                    |
                        0 <= j < i ==> (#[trigger] t[j]).name@ != name;
                assert(branches[i + 1] == t[i]);
                assert forall|j: int| 0 <= j < i + 1 implies (#[trigger] branches[j]).name@ != name by {
                    if j > 0 {
                        assert(branches[j] == t[j - 1]);
                    }
                }
            } else {
                assert forall|j: int| 0 <= j < branches.len() implies (#[trigger] branches[j]).name@ != name by {
                    if j > 0 {
                        assert(branches[j] == t[j - 1]);
                    }
                }
            }
        }
    }
}

/// The time between two attempts starts at 50 milliseconds and doubles, up to 400.
pub proof fn delays_double(attempt: nat)
    ensures
        stash_delay(0) == 50,
        attempt < 3 ==> stash_delay(attempt + 1) == 2 * stash_delay(attempt),
        attempt >= 3 ==> stash_delay(attempt) == 400,
        50 <= stash_delay(attempt) <= 400,
    decreases attempt,
{
    reveal_with_fuel(stash_delay, 5);
    if attempt > 3 {
        delays_double((attempt - 1) as nat);
    }
}

/// How a fetched branch is described: new without a local commit, up to date where both
/// commits are the same, diverged where the two have parted, and else updated.
pub proof fn fetched_branches_are_described(b: RemoteBranchInfo)
    ensures
        b.local_commit_id is None ==> fetch_status(b).text == "new"@,
        b.local_commit_id is Some && b.remote_commit_id is Some && b.local_commit_id->0@ == b.remote_commit_id->0@
            ==> fetch_status(b).text == "up to date"@,
        b.local_commit_id is Some && b.remote_commit_id is Some && b.local_commit_id->0@ != b.remote_commit_id->0@
            ==> fetch_status(b).text == (if b.is_diverged { "diverged"@ } else { "updated"@ }),
{
}

/// What was taken from the stash.
pub open spec fn popped_as(popped: Option<u128>, expected: u128) -> Popped {
    match popped {
        Some(id) => if id == expected {
            Popped::Expected
        } else {
            Popped::Changed
        },
        None => Popped::Nothing,
    }
}

/// What is taken from the stash is the expected only where it is the very checkpoint that
/// was put there.
pub proof fn only_the_own_stash_is_expected(popped: Option<u128>, expected: u128)
    ensures
        popped_as(popped, expected) == Popped::Expected <==> popped == Some(expected),
        popped_as(popped, expected) == Popped::Nothing <==> popped is None,
{
}

} // verus!
