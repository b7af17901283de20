//! Listing, creating and deleting branches.

use vstd::prelude::*;

use crate::ui::{add_blank, add_line, add_page, add_text, blank, clipped, no_lines, put, Span, SpanView, Style};

verus! {

/// A branch of this repository.
#[derive(Debug)]
pub struct LocalBranchInfo {
    /// Its name.
    pub name: String,
    /// The commit it is at.
    pub commit_id: String,
    /// The commit that the remote has, where it is another.
    pub remote_commit_id: Option<String>,
    /// Whether the remote has the branch.
    pub has_remote: bool,
}

/// A branch as the remote has it.
#[derive(Debug)]
pub struct RemoteBranchInfo {
    /// Its name.
    pub name: String,
    /// The commit of the local branch of that name.
    pub local_commit_id: Option<String>,
    /// The commit that the remote has.
    pub remote_commit_id: Option<String>,
    /// Whether neither commit descends from the other.
    pub is_diverged: bool,
    /// Number of commits that only the local branch has.
    pub commits_ahead: usize,
    /// Number of commits that only the remote has.
    pub commits_behind: usize,
}

/// The number of characters of a commit, which is written in hexadecimal digits, that
/// are shown.
pub const COMMIT_CHARS: usize = 12;

/// The first characters of a commit, or a text in its place.
pub open spec fn commit_or(commit: Option<String>, missing: Seq<char>) -> Seq<char> {
    match commit {
        Some(c) => crate::ui::clip(c@, COMMIT_CHARS as nat),
        None => missing,
    }
}

/// The first characters of a commit, or a text in its place.
pub fn short_commit_or(commit: &Option<String>, missing: &str) -> (s: String)
    ensures
        s@ == commit_or(*commit, missing@),
{
    match commit {
        Some(c) => clipped(c.as_str(), COMMIT_CHARS),
        None => missing.to_owned(),
    }
}

/// What the branch command does.
#[derive(Debug)]
pub enum BranchAction {
    /// Deletes a branch.
    Delete {
        /// Name of the branch.
        name: String,
    },
    /// Creates a branch.
    Create {
        /// Name of the branch.
        name: String,
        /// Reference to the checkpoint it starts at.
        checkpoint: String,
    },
    /// Lists branches.
    List,
}

/// Why the arguments of the branch command are refused.
#[derive(Debug, Clone, Copy, PartialEq, Eq, Structural)]
pub enum BranchArgsError {
    /// A branch to create without a checkpoint.
    CheckpointMissing,
    /// A checkpoint without a branch to create.
    BranchMissing,
}

impl BranchArgsError {
    /// The message shown to the user.
    pub fn message(&self) -> (s: &'static str)
        ensures
            s@ == (match *self {
                BranchArgsError::CheckpointMissing => "--create requires --at <checkpoint>"@,
                BranchArgsError::BranchMissing => "--at requires --create <branch-name>"@,
            }),
    {
        match self {
            BranchArgsError::CheckpointMissing => "--create requires --at <checkpoint>",
            BranchArgsError::BranchMissing => "--at requires --create <branch-name>",
        }
    }
}

/// Decides what the branch command does: a branch and a checkpoint to create it at
/// come together or not at all, and to delete comes before to create.
pub fn branch_action(delete: Option<String>, create: Option<String>, at: Option<String>) -> (r: Result<
    BranchAction,
    BranchArgsError,
>)
    ensures
        r == action_of(delete, create, at),
{
    match (create, at) {
        (Some(name), Some(checkpoint)) => match delete {
            Some(gone) => Ok(BranchAction::Delete { name: gone }),
            None => Ok(BranchAction::Create { name, checkpoint }),
        },
        (Some(_), None) => Err(BranchArgsError::CheckpointMissing),
        (None, Some(_)) => Err(BranchArgsError::BranchMissing),
        (None, None) => match delete {
            Some(gone) => Ok(BranchAction::Delete { name: gone }),
            None => Ok(BranchAction::List),
        },
    }
}

/// How a local branch stands to the remote.
pub open spec fn local_status(b: LocalBranchInfo) -> Seq<SpanView> {
    match b.remote_commit_id {
        Some(id) => seq![
            crate::ui::styled("differs"@, Style::Yellow),
            crate::ui::plain(" (remote: "@),
            crate::ui::styled(crate::ui::clip(id@, COMMIT_CHARS as nat), Style::Dimmed),
            crate::ui::plain(")"@),
        ],
        None => if b.has_remote {
            seq![crate::ui::styled("✓ synced"@, Style::Green)]
        } else {
            seq![crate::ui::styled("local only"@, Style::Cyan)]
        },
    }
}

/// A local branch in the listing.
pub open spec fn local_line(b: LocalBranchInfo) -> Seq<SpanView> {
    seq![
        crate::ui::plain("  "@),
        crate::ui::styled(b.name@, Style::Cyan),
        crate::ui::plain(" "@),
        crate::ui::styled(crate::ui::clip(b.commit_id@, COMMIT_CHARS as nat), Style::Dimmed),
        crate::ui::plain(" "@),
    ] + local_status(b)
}

fn local_line_of(b: &LocalBranchInfo) -> (l: Vec<Span>)
    ensures
        crate::ui::line(l@) == local_line(*b),
{
    let mut l = blank();
    put(&mut l, "  ", Style::Plain);
    put(&mut l, b.name.as_str(), Style::Cyan);
    put(&mut l, " ", Style::Plain);
    put(&mut l, clipped(b.commit_id.as_str(), COMMIT_CHARS).as_str(), Style::Dimmed);
    put(&mut l, " ", Style::Plain);
    match &b.remote_commit_id {
        Some(id) => {
            put(&mut l, "differs", Style::Yellow);
            put(&mut l, " (remote: ", Style::Plain);
            put(&mut l, clipped(id.as_str(), COMMIT_CHARS).as_str(), Style::Dimmed);
            put(&mut l, ")", Style::Plain);
        },
        None => {
            if b.has_remote {
                put(&mut l, "✓ synced", Style::Green);
            } else {
                put(&mut l, "local only", Style::Cyan);
            }
        },
    }
    assert(crate::ui::line(l@) =~= local_line(*b));
    l
}

/// How a branch of the remote stands to the local ones.
pub open spec fn tracking(b: RemoteBranchInfo) -> SpanView {
    if b.local_commit_id is Some {
        if b.is_diverged {
            crate::ui::styled("diverged"@, Style::Red)
        } else {
            crate::ui::styled("tracked"@, Style::Dimmed)
        }
    } else {
        crate::ui::styled("not tracked"@, Style::Yellow)
    }
}

/// A branch of the remote in the listing.
pub open spec fn remote_line(b: RemoteBranchInfo) -> Seq<SpanView> {
    seq![
        crate::ui::plain("  "@),
        crate::ui::styled(b.name@, Style::Cyan),
        crate::ui::plain(" "@),
        crate::ui::styled(commit_or(b.remote_commit_id, "???"@), Style::Dimmed),
        crate::ui::plain(" "@),
        tracking(b),
    ]
}

fn remote_line_of(b: &RemoteBranchInfo) -> (l: Vec<Span>)
    ensures
        crate::ui::line(l@) == remote_line(*b),
{
    let mut l = blank();
    put(&mut l, "  ", Style::Plain);
    put(&mut l, b.name.as_str(), Style::Cyan);
    put(&mut l, " ", Style::Plain);
    put(&mut l, short_commit_or(&b.remote_commit_id, "???").as_str(), Style::Dimmed);
    put(&mut l, " ", Style::Plain);
    match &b.local_commit_id {
        Some(_) => {
            if b.is_diverged {
                put(&mut l, "diverged", Style::Red);
            } else {
                put(&mut l, "tracked", Style::Dimmed);
            }
        },
        None => put(&mut l, "not tracked", Style::Yellow),
    }
    assert(crate::ui::line(l@) =~= remote_line(*b));
    l
}

/// The listing of local branches.
pub open spec fn local_part(local: Seq<LocalBranchInfo>) -> Seq<Seq<SpanView>> {
    if local.len() > 0 {
        seq![seq![crate::ui::styled("Local branches:"@, Style::Bold)]] + local.map_values(
            |b: LocalBranchInfo| local_line(b),
        ) + seq![crate::ui::empty_line()]
    } else {
        crate::ui::empty_page()
    }
}

fn local_part_of(local: &Vec<LocalBranchInfo>) -> (p: Vec<Vec<Span>>)
    ensures
        crate::ui::page(p@) == local_part(local@),
{
    let mut p = no_lines();
    if local.len() == 0 {
        return p;
    }
    let ghost title = seq![seq![crate::ui::styled("Local branches:"@, Style::Bold)]];
    let ghost rows = local@.map_values(|b: LocalBranchInfo| local_line(b));
    add_text(&mut p, "Local branches:", Style::Bold);
    let mut i: usize = 0;
    assert(crate::ui::page(p@) =~= title + rows.take(0));
    while i < local.len()
        invariant
            i <= local.len(),
            rows == local@.map_values(|b: LocalBranchInfo| local_line(b)),
            crate::ui::page(p@) == title + rows.take(i as int),
        decreases local.len() - i,
    {
        let l = local_line_of(&local[i]);
        add_line(&mut p, l);
        i = i + 1;
        assert(crate::ui::page(p@) =~= title + rows.take(i as int));
    }
    add_blank(&mut p);
    assert(crate::ui::page(p@) =~= local_part(local@));
    p
}

/// The listing of branches of the remote.
pub open spec fn remote_part(remote: Seq<RemoteBranchInfo>) -> Seq<Seq<SpanView>> {
    if remote.len() > 0 {
        seq![seq![crate::ui::styled("Remote branches (origin):"@, Style::Bold)]] + remote.map_values(
            |b: RemoteBranchInfo| remote_line(b),
        ) + seq![crate::ui::empty_line()]
    } else {
        seq![seq![crate::ui::styled("No remote branches"@, Style::Dimmed)], crate::ui::empty_line()]
    }
}

fn remote_part_of(remote: &Vec<RemoteBranchInfo>) -> (p: Vec<Vec<Span>>)
    ensures
        crate::ui::page(p@) == remote_part(remote@),
{
    let mut p = no_lines();
    if remote.len() == 0 {
        add_text(&mut p, "No remote branches", Style::Dimmed);
        add_blank(&mut p);
        assert(crate::ui::page(p@) =~= remote_part(remote@));
        return p;
    }
    let ghost title = seq![seq![crate::ui::styled("Remote branches (origin):"@, Style::Bold)]];
    let ghost rows = remote@.map_values(|b: RemoteBranchInfo| remote_line(b));
    add_text(&mut p, "Remote branches (origin):", Style::Bold);
    let mut i: usize = 0;
    assert(crate::ui::page(p@) =~= title + rows.take(0));
    while i < remote.len()
        invariant
            i <= remote.len(),
            rows == remote@.map_values(|b: RemoteBranchInfo| remote_line(b)),
            crate::ui::page(p@) == title + rows.take(i as int),
        decreases remote.len() - i,
    {
        let l = remote_line_of(&remote[i]);
        add_line(&mut p, l);
        i = i + 1;
        assert(crate::ui::page(p@) =~= title + rows.take(i as int));
    }
    add_blank(&mut p);
    assert(crate::ui::page(p@) =~= remote_part(remote@));
    p
}

/// What is known of a branch that only the remote has.
pub open spec fn untracked(b: RemoteBranchInfo) -> RemoteBranchInfo {
    RemoteBranchInfo { local_commit_id: None, is_diverged: false, commits_ahead: 0, commits_behind: 0, ..b }
}

fn untracked_branches(branches: &Vec<RemoteBranchInfo>) -> (out: Vec<RemoteBranchInfo>)
    ensures
        out@ == branches@.map_values(|b: RemoteBranchInfo| untracked(b)),
{
    let ghost all = branches@.map_values(|b: RemoteBranchInfo| untracked(b));
    let mut out: Vec<RemoteBranchInfo> = Vec::new();
    let mut i: usize = 0;
    while i < branches.len()
        invariant
            i <= branches.len(),
            all == branches@.map_values(|b: RemoteBranchInfo| untracked(b)),
            out@ == all.take(i as int),
        decreases branches.len() - i,
    {
        let remote: Option<String> = match &branches[i].remote_commit_id {
            Some(c) => Some(c.clone()),
            None => None,
        };
        out.push(
            RemoteBranchInfo {
                name: branches[i].name.clone(),
                local_commit_id: None,
                remote_commit_id: remote,
                is_diverged: false,
                commits_ahead: 0,
                commits_behind: 0,
            },
        );
        i = i + 1;
        assert(out@ =~= all.take(i as int));
    }
    assert(all.take(all.len() as int) =~= all);
    out
}

/// The lines shown where there is no local branch and no other was asked for.
pub open spec fn no_branches() -> Seq<Seq<SpanView>> {
    seq![
        seq![crate::ui::styled("No local branches"@, Style::Dimmed)],
        crate::ui::empty_line(),
        seq![crate::ui::styled("Create one with:"@, Style::Dimmed)],
        seq![crate::ui::styled("  tl publish HEAD"@, Style::Plain)],
    ]
}

/// The listing of branches. With `show_all` the remote's part lists `updates`, every
/// branch of the remote; with `show_remote` alone it lists `remote_only`.
pub open spec fn branch_page(
    local: Seq<LocalBranchInfo>,
    remote_only: Seq<RemoteBranchInfo>,
    updates: Seq<RemoteBranchInfo>,
    show_remote: bool,
    show_all: bool,
) -> Seq<Seq<SpanView>> {
    if show_all {
        local_part(local) + remote_part(updates)
    } else if show_remote {
        local_part(local) + remote_part(remote_only.map_values(|b: RemoteBranchInfo| untracked(b)))
    } else if local.len() == 0 {
        no_branches()
    } else {
        local_part(local)
    }
}

/// Lists branches.
pub fn list_branches(
    local: &Vec<LocalBranchInfo>,
    remote_only: &Vec<RemoteBranchInfo>,
    updates: &Vec<RemoteBranchInfo>,
    show_remote: bool,
    show_all: bool,
) -> (p: Vec<Vec<Span>>)
    ensures
        crate::ui::page(p@) == branch_page(local@, remote_only@, updates@, show_remote, show_all),
{
    if local.len() == 0 && !show_remote && !show_all {
        let mut p = no_lines();
        add_text(&mut p, "No local branches", Style::Dimmed);
        add_blank(&mut p);
        add_text(&mut p, "Create one with:", Style::Dimmed);
        add_text(&mut p, "  tl publish HEAD", Style::Plain);
        assert(crate::ui::page(p@) =~= no_branches());
        return p;
    }
    let mut p = local_part_of(local);
    if show_all {
        let more = remote_part_of(updates);
        add_page(&mut p, more);
    } else if show_remote {
        let bare = untracked_branches(remote_only);
        let more = remote_part_of(&bare);
        add_page(&mut p, more);
    }
    p
}

/// What the branch command does.
pub open spec fn action_of(delete: Option<String>, create: Option<String>, at: Option<String>) -> Result<
    BranchAction,
    BranchArgsError,
> {
    match (create, at) {
        (Some(_), None) => Err::<BranchAction, BranchArgsError>(BranchArgsError::CheckpointMissing),
        (None, Some(_)) => Err::<BranchAction, BranchArgsError>(BranchArgsError::BranchMissing),
        (created, _) => Ok::<BranchAction, BranchArgsError>(
            match delete {
                Some(name) => BranchAction::Delete { name },
                None => match created {
                    Some(name) => BranchAction::Create { name, checkpoint: at->0 },
                    None => BranchAction::List,
                },
            },
        ),
    }
}

/// A branch is created under its name at the checkpoint that is given with it, deleted
/// where that is asked for, and nothing is changed where neither is.
pub proof fn branches_are_created_at_a_checkpoint(delete: Option<String>, create: Option<String>, at: Option<String>)
    ensures
        action_of(delete, create, at) is Err <==> (create is Some) != (at is Some),
        delete is Some && (create is Some) == (at is Some) ==> action_of(delete, create, at) == Ok::<
            BranchAction,
            BranchArgsError,
        >(BranchAction::Delete { name: delete->0 }),
        delete is None && create is Some && at is Some ==> action_of(delete, create, at) == Ok::<
            BranchAction,
            BranchArgsError,
        >(BranchAction::Create { name: create->0, checkpoint: at->0 }),
        delete is None && create is None && at is None ==> action_of(delete, create, at) == Ok::<
            BranchAction,
            BranchArgsError,
        >(BranchAction::List),
{
}

/// A local branch is shown as synced only where the remote has it at the same commit.
pub proof fn branches_are_shown_as_they_stand(l: LocalBranchInfo, r: RemoteBranchInfo)
    ensures
        l.remote_commit_id is Some ==> local_status(l)[0].text == "differs"@,
        l.remote_commit_id is None && l.has_remote ==> local_status(l)[0].text == "✓ synced"@,
        l.remote_commit_id is None && !l.has_remote ==> local_status(l)[0].text == "local only"@,
        r.local_commit_id is None ==> tracking(r).text == "not tracked"@,
        r.local_commit_id is Some && r.is_diverged ==> tracking(r).text == "diverged"@,
        r.local_commit_id is Some && !r.is_diverged ==> tracking(r).text == "tracked"@,
        local_line(l)[1].text == l.name@,
        remote_line(r)[1].text == r.name@,
        r.remote_commit_id is Some && r.remote_commit_id->0@.len() >= 12 ==> remote_line(r)[3].text
            == r.remote_commit_id->0@.take(12),
{
    if r.remote_commit_id is Some && r.remote_commit_id->0@.len() == 12 {
        assert(r.remote_commit_id->0@.take(12) =~= r.remote_commit_id->0@);
    }
}

/// Each branch has its own line, in order.
pub proof fn each_branch_is_listed(local: Seq<LocalBranchInfo>, remote: Seq<RemoteBranchInfo>)
    ensures
        local.len() > 0 ==> local_part(local).len() == local.len() + 2,
        forall|k: int| 0 <= k < local.len() ==> #[trigger] local_part(local)[k + 1] == local_line(local[k]),
        remote.len() > 0 ==> remote_part(remote).len() == remote.len() + 2,
        forall|k: int| 0 <= k < remote.len() ==> #[trigger] remote_part(remote)[k + 1] == remote_line(remote[k]),
        branch_page(local, remote, remote, false, true) == local_part(local) + remote_part(remote),
        local.len() > 0 ==> branch_page(local, remote, remote, false, false) == local_part(local),
{
}

} // verus!
