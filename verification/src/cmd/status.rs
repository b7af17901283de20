//! The status of the daemon, of the store and of the remote.

use vstd::prelude::*;

use crate::cmd::branch::{short_commit_or, RemoteBranchInfo};
use crate::format::{format_absolute_time, format_duration, format_relative_to, format_size};
use crate::ids::short_id;
use crate::ipc::DaemonStatus;
use crate::journal::{reason_name, Checkpoint, CheckpointView};
use crate::text::{chars_of, same_chars};
use crate::ui::{
    add_blank, add_line, add_page, add_text, blank, counted_text, concat, no_lines, put, put_number, Span, SpanView, Style,
};

verus! {

/// A label and a text behind it.
pub open spec fn labelled(label: Seq<char>, text: Seq<char>, style: Style) -> Seq<SpanView> {
    seq![crate::ui::plain(label), crate::ui::styled(text, style)]
}

fn add_labelled(p: &mut Vec<Vec<Span>>, label: &str, text: &str, style: Style)
    ensures
        crate::ui::page(final(p)@) == crate::ui::page(old(p)@).push(labelled(label@, text@, style)),
{
    let mut l = blank();
    put(&mut l, label, Style::Plain);
    put(&mut l, text, style);
    assert(crate::ui::line(l@) =~= labelled(label@, text@, style));
    add_line(p, l);
}

/// The seconds for which the daemon has run.
pub open spec fn uptime(now_ms: u64, start_ms: u64) -> nat {
    if now_ms >= start_ms {
        ((now_ms - start_ms) / 1000) as nat
    } else {
        0
    }
}

/// What is shown of the daemon.
pub open spec fn daemon_part(status: DaemonStatus, now_ms: u64) -> Seq<Seq<SpanView>> {
    let last = match status.last_checkpoint_time {
        Some(ts) => seq![labelled("  Last:        "@, crate::format::relative_time(Some(now_ms), ts), Style::Plain)],
        None => crate::ui::empty_page(),
    };
    seq![
        labelled("Daemon:        "@, "Running ✓"@, Style::Green),
        labelled("  PID:         "@, crate::text::decimal(status.pid as nat), Style::Plain),
        labelled(
            "  Uptime:      "@,
            crate::format::duration_text(uptime(now_ms, status.start_time_ms)),
            Style::Plain,
        ),
        labelled("  Checkpoints: "@, crate::text::decimal(status.checkpoints_created as nat) + " created"@, Style::Plain),
    ] + last + seq![
        labelled("  Watching:    "@, crate::text::decimal(status.watcher_paths as nat) + " paths"@, Style::Plain),
        crate::ui::empty_line(),
    ]
}

fn daemon_part_of(status: &DaemonStatus, now_ms: u64) -> (p: Vec<Vec<Span>>)
    ensures
        crate::ui::page(p@) == daemon_part(*status, now_ms),
{
    let mut p = no_lines();
    add_labelled(&mut p, "Daemon:        ", "Running ✓", Style::Green);
    add_labelled(&mut p, "  PID:         ", crate::text::decimal_string(status.pid as u64).as_str(), Style::Plain);
    let secs: u64 = if now_ms >= status.start_time_ms { (now_ms - status.start_time_ms) / 1000 } else { 0 };
    add_labelled(&mut p, "  Uptime:      ", format_duration(secs).as_str(), Style::Plain);
    let created = concat(crate::text::decimal_string(status.checkpoints_created).as_str(), " created");
    add_labelled(&mut p, "  Checkpoints: ", created.as_str(), Style::Plain);
    match status.last_checkpoint_time {
        Some(ts) => {
            let last = format_relative_to(Some(now_ms), ts);
            add_labelled(&mut p, "  Last:        ", last.as_str(), Style::Plain);
        },
        None => {},
    }
    let paths = concat(crate::text::decimal_string(status.watcher_paths as u64).as_str(), " paths");
    add_labelled(&mut p, "  Watching:    ", paths.as_str(), Style::Plain);
    add_blank(&mut p);
    assert(crate::ui::page(p@) =~= daemon_part(*status, now_ms));
    p
}

/// A changed path of the latest checkpoint.
pub open spec fn changed_line(path: Seq<char>) -> Seq<SpanView> {
    seq![crate::ui::plain("    - "@), crate::ui::plain(path)]
}

/// The first five changed paths, and how many more there are.
pub open spec fn changed_lines(paths: Seq<Seq<char>>) -> Seq<Seq<SpanView>> {
    if paths.len() == 0 {
        crate::ui::empty_page()
    } else if paths.len() <= 5 {
        seq![seq![crate::ui::styled("  Changed:"@, Style::Plain)]] + paths.map_values(|p: Seq<char>| changed_line(p))
    } else {
        seq![seq![crate::ui::styled("  Changed:"@, Style::Plain)]] + paths.take(5).map_values(
            |p: Seq<char>| changed_line(p),
        ) + seq![
            seq![
                crate::ui::styled(
                    "    ... and "@ + crate::text::decimal((paths.len() - 5) as nat) + " more"@,
                    Style::Plain,
                ),
            ],
        ]
    }
}

fn changed_lines_of(paths: &Vec<String>) -> (p: Vec<Vec<Span>>)
    ensures
        crate::ui::page(p@) == changed_lines(crate::text::texts(paths@)),
{
    let ghost all = crate::text::texts(paths@);
    let ghost title = seq![seq![crate::ui::styled("  Changed:"@, Style::Plain)]];
    let ghost rows = all.map_values(|p: Seq<char>| changed_line(p));
    let n: usize = paths.len();
    let mut p = no_lines();
    if n == 0 {
        return p;
    }
    add_text(&mut p, "  Changed:", Style::Plain);
    let mut i: usize = 0;
    assert(crate::ui::page(p@) =~= title + rows.take(0));
    while i < n && i < 5
        invariant
            i <= n,
            i <= 5,
            n == paths.len(),
            all == crate::text::texts(paths@),
            rows == all.map_values(|p: Seq<char>| changed_line(p)),
            crate::ui::page(p@) == title + rows.take(i as int),
        decreases n - i,
    {
        let mut l = blank();
        put(&mut l, "    - ", Style::Plain);
        put(&mut l, paths[i].as_str(), Style::Plain);
        assert(crate::ui::line(l@) =~= changed_line(all[i as int]));
        add_line(&mut p, l);
        i = i + 1;
        assert(crate::ui::page(p@) =~= title + rows.take(i as int));
    }
    if n > 5 {
        assert(rows.take(5) =~= all.take(5).map_values(|p: Seq<char>| changed_line(p)));
        add_text(&mut p, counted_text("    ... and ", (n - 5) as u64, " more").as_str(), Style::Plain);
        assert(crate::ui::page(p@) =~= changed_lines(all));
    } else {
        assert(rows.take(n as int) =~= rows);
    }
    p
}

/// What is shown of the latest checkpoint.
pub open spec fn latest_part(latest: Option<CheckpointView>, now_ms: u64) -> Seq<Seq<SpanView>> {
    match latest {
        Some(cp) => seq![
            labelled("  ID:          "@, crate::ids::ulid_text(cp.id).take(8), Style::Yellow),
            seq![
                crate::ui::plain("  Time:        "@),
                crate::ui::plain(crate::format::relative_time(Some(now_ms), cp.ts_unix_ms)),
                crate::ui::plain(" ("@),
                crate::ui::styled(crate::format::absolute_text(cp.ts_unix_ms), Style::Dimmed),
                crate::ui::plain(")"@),
            ],
            labelled("  Files:       "@, crate::text::decimal(cp.meta.files_changed as nat), Style::Plain),
            labelled("  Reason:      "@, crate::journal::reason_title(cp.reason), Style::Plain),
        ] + changed_lines(cp.touched_paths),
        None => seq![labelled("  "@, "No checkpoints yet"@, Style::Dimmed)],
    }
}

fn latest_part_of(latest: Option<&Checkpoint>, now_ms: u64) -> (p: Vec<Vec<Span>>)
    ensures
        crate::ui::page(p@) == latest_part(crate::journal::opt_view(latest), now_ms),
{
    let mut p = no_lines();
    match latest {
        Some(cp) => {
            add_labelled(&mut p, "  ID:          ", short_id(cp.id).as_str(), Style::Yellow);
            let mut l = blank();
            put(&mut l, "  Time:        ", Style::Plain);
            put(&mut l, format_relative_to(Some(now_ms), cp.ts_unix_ms).as_str(), Style::Plain);
            put(&mut l, " (", Style::Plain);
            put(&mut l, format_absolute_time(cp.ts_unix_ms).as_str(), Style::Dimmed);
            put(&mut l, ")", Style::Plain);
            add_line(&mut p, l);
            let files = crate::text::decimal_string(cp.meta.files_changed as u64);
            add_labelled(&mut p, "  Files:       ", files.as_str(), Style::Plain);
            add_labelled(&mut p, "  Reason:      ", reason_name(cp.reason), Style::Plain);
            let paths = changed_lines_of(&cp.touched_paths);
            add_page(&mut p, paths);
        },
        None => {
            add_labelled(&mut p, "  ", "No checkpoints yet", Style::Dimmed);
        },
    }
    assert(crate::ui::page(p@) =~~= latest_part(crate::journal::opt_view(latest), now_ms));
    p
}

/// What is shown of the store.
pub open spec fn storage_part(count: nat, total_size: nat) -> Seq<Seq<SpanView>> {
    seq![
        seq![crate::ui::styled("Storage:"@, Style::Plain)],
        labelled("  Checkpoints: "@, crate::text::decimal(count), Style::Plain),
        labelled("  Total size:  "@, crate::format::size_text(total_size), Style::Plain),
        crate::ui::empty_line(),
    ]
}

/// The lines above the status.
pub open spec fn status_title(root: Seq<char>) -> Seq<Seq<SpanView>> {
    seq![
        seq![crate::ui::styled("Repository Status"@, Style::Bold)],
        seq![crate::ui::styled(crate::ui::rule(), Style::Plain)],
        crate::ui::empty_line(),
        labelled("Repository:    "@, root, Style::Cyan),
        crate::ui::empty_line(),
    ]
}

/// Shows the status of the repository at a given moment.
pub fn status_page(
    root: &str,
    status: &DaemonStatus,
    latest: Option<&Checkpoint>,
    count: usize,
    total_size: u64,
    now_ms: u64,
) -> (p: Vec<Vec<Span>>)
    ensures
        crate::ui::page(p@) == status_title(root@) + daemon_part(*status, now_ms) + seq![
            seq![crate::ui::styled("Latest checkpoint:"@, Style::Plain)],
        ] + latest_part(crate::journal::opt_view(latest), now_ms) + seq![crate::ui::empty_line()] + storage_part(
            count as nat,
            total_size as nat,
        ),
{
    let mut p = no_lines();
    add_text(&mut p, "Repository Status", Style::Bold);
    add_text(&mut p, "━━━━━━━━━━━━━━━━━━━━━━━━━━━━━━━━━━━━━━━━━━━━━━━━━━", Style::Plain);
    add_blank(&mut p);
    add_labelled(&mut p, "Repository:    ", root, Style::Cyan);
    add_blank(&mut p);
    assert(crate::ui::page(p@) =~= status_title(root@));
    let daemon = daemon_part_of(status, now_ms);
    add_page(&mut p, daemon);
    let ghost before = crate::ui::page(p@);
    add_text(&mut p, "Latest checkpoint:", Style::Plain);
    assert(crate::ui::page(p@) =~= before + seq![seq![crate::ui::styled("Latest checkpoint:"@, Style::Plain)]]);
    let checkpoint = latest_part_of(latest, now_ms);
    add_page(&mut p, checkpoint);
    let ghost before = crate::ui::page(p@);
    add_blank(&mut p);
    assert(crate::ui::page(p@) =~= before + seq![crate::ui::empty_line()]);
    let ghost before = crate::ui::page(p@);
    add_text(&mut p, "Storage:", Style::Plain);
    add_labelled(&mut p, "  Checkpoints: ", crate::text::decimal_string(count as u64).as_str(), Style::Plain);
    add_labelled(&mut p, "  Total size:  ", format_size(total_size).as_str(), Style::Plain);
    add_blank(&mut p);
    assert(crate::ui::page(p@) =~= before + storage_part(count as nat, total_size as nat));
    p
}

/// How a branch stands to the remote.
pub open spec fn branch_status(b: RemoteBranchInfo) -> Seq<SpanView> {
    match (b.local_commit_id, b.remote_commit_id) {
        (Some(local), Some(remote)) => if local@ == remote@ {
            seq![crate::ui::styled("✓ up to date"@, Style::Green)]
        } else if b.is_diverged {
            seq![
                crate::ui::styled("↑"@, Style::Yellow),
                crate::ui::plain(" "@),
                crate::ui::styled("↓"@, Style::Yellow),
                crate::ui::plain(" "@),
                crate::ui::styled("diverged"@, Style::BoldRed),
            ]
        } else if b.commits_ahead > 0 {
            seq![
                crate::ui::styled("↑"@, Style::Green),
                crate::ui::plain(crate::text::decimal(b.commits_ahead as nat)),
                crate::ui::plain(" "@),
                crate::ui::styled("ahead"@, Style::Green),
            ]
        } else if b.commits_behind > 0 {
            seq![
                crate::ui::styled("↓"@, Style::Yellow),
                crate::ui::plain(crate::text::decimal(b.commits_behind as nat)),
                crate::ui::plain(" "@),
                crate::ui::styled("behind"@, Style::Yellow),
            ]
        } else {
            seq![crate::ui::styled("differs from remote"@, Style::Yellow)]
        },
        (Some(_), None) => seq![
            crate::ui::styled("↑"@, Style::Green),
            crate::ui::plain(" "@),
            crate::ui::styled("local only"@, Style::Cyan),
        ],
        (None, Some(_)) => seq![
            crate::ui::styled("↓"@, Style::Yellow),
            crate::ui::plain(" "@),
            crate::ui::styled("remote only"@, Style::Yellow),
        ],
        (None, None) => seq![crate::ui::styled("(unknown)"@, Style::Dimmed)],
    }
}

/// Puts how a branch stands to the remote at the end of a line.
pub fn format_branch_status(l: &mut Vec<Span>, b: &RemoteBranchInfo)
    ensures
        crate::ui::line(final(l)@) == crate::ui::line(old(l)@) + branch_status(*b),
{
    let ghost start = crate::ui::line(l@);
    match (&b.local_commit_id, &b.remote_commit_id) {
        (Some(local), Some(remote)) => {
            let x = chars_of(local.as_str());
            let y = chars_of(remote.as_str());
            if same_chars(x.as_slice(), y.as_slice()) {
                put(l, "✓ up to date", Style::Green);
            } else if b.is_diverged {
                put(l, "↑", Style::Yellow);
                put(l, " ", Style::Plain);
                put(l, "↓", Style::Yellow);
                put(l, " ", Style::Plain);
                put(l, "diverged", Style::BoldRed);
            } else if b.commits_ahead > 0 {
                put(l, "↑", Style::Green);
                put_number(l, b.commits_ahead as u64, Style::Plain);
                put(l, " ", Style::Plain);
                put(l, "ahead", Style::Green);
            } else if b.commits_behind > 0 {
                put(l, "↓", Style::Yellow);
                put_number(l, b.commits_behind as u64, Style::Plain);
                put(l, " ", Style::Plain);
                put(l, "behind", Style::Yellow);
            } else {
                put(l, "differs from remote", Style::Yellow);
            }
        },
        (Some(_), None) => {
            put(l, "↑", Style::Green);
            put(l, " ", Style::Plain);
            put(l, "local only", Style::Cyan);
        },
        (None, Some(_)) => {
            put(l, "↓", Style::Yellow);
            put(l, " ", Style::Plain);
            put(l, "remote only", Style::Yellow);
        },
        (None, None) => {
            put(l, "(unknown)", Style::Dimmed);
        },
    }
    assert(crate::ui::line(l@) =~= start + branch_status(*b));
}

/// A branch in the status of the remote.
pub open spec fn branch_line(b: RemoteBranchInfo) -> Seq<SpanView> {
    seq![
        crate::ui::plain("  "@),
        crate::ui::styled(b.name@, Style::Cyan),
        crate::ui::plain(" "@),
        crate::ui::styled(crate::cmd::branch::commit_or(b.local_commit_id, "(none)"@), Style::Dimmed),
        crate::ui::plain(" "@),
    ] + branch_status(b)
}

/// What could be found out of the remote.
#[derive(Debug)]
pub enum RemoteState {
    /// There is no workspace.
    NoWorkspace,
    /// No remote is configured.
    NotConfigured,
    /// The workspace cannot be loaded.
    LoadFailed {
        /// Address of the remote.
        url: String,
        /// What went wrong.
        message: String,
    },
    /// The branches cannot be read.
    BranchesFailed {
        /// Address of the remote.
        url: String,
        /// What went wrong.
        message: String,
    },
    /// The branches of the remote.
    Known {
        /// Address of the remote.
        url: String,
        /// The branches.
        branches: Vec<RemoteBranchInfo>,
    },
}

/// The lines above the status of the remote.
pub open spec fn remote_title() -> Seq<Seq<SpanView>> {
    seq![
        seq![crate::ui::styled("Remote Status"@, Style::Bold)],
        seq![crate::ui::styled(crate::ui::rule(), Style::Plain)],
        crate::ui::empty_line(),
    ]
}

/// The line with the address of the remote, and an empty one.
pub open spec fn remote_address(url: Seq<char>) -> Seq<Seq<SpanView>> {
    seq![
        seq![
            crate::ui::plain("Remote:  "@),
            crate::ui::styled("origin"@, Style::Cyan),
            crate::ui::plain(" ("@),
            crate::ui::styled(url, Style::Dimmed),
            crate::ui::plain(")"@),
        ],
        crate::ui::empty_line(),
    ]
}

/// What is shown of the branches of the remote.
pub open spec fn branches_part(branches: Seq<RemoteBranchInfo>) -> Seq<Seq<SpanView>> {
    if branches.len() == 0 {
        seq![
            labelled("  "@, "No local branches tracked"@, Style::Dimmed),
            crate::ui::empty_line(),
            seq![crate::ui::styled("Publish a checkpoint first:"@, Style::Dimmed)],
            seq![crate::ui::styled("  tl publish HEAD"@, Style::Plain)],
        ]
    } else {
        seq![seq![crate::ui::styled("Branches:"@, Style::Plain)]] + branches.map_values(
            |b: RemoteBranchInfo| branch_line(b),
        ) + seq![crate::ui::empty_line()]
    }
}

/// The status of the remote.
pub open spec fn remote_status(state: RemoteState) -> Seq<Seq<SpanView>> {
    match state {
        RemoteState::NoWorkspace => seq![
            seq![crate::ui::styled("Remote: No JJ workspace (run 'tl init' first)"@, Style::Dimmed)],
        ],
        RemoteState::NotConfigured => remote_title() + seq![
            seq![
                crate::ui::plain("Remote:  "@),
                crate::ui::styled("origin"@, Style::Cyan),
                crate::ui::plain(" "@),
                crate::ui::styled("(not configured)"@, Style::Yellow),
            ],
            crate::ui::empty_line(),
            seq![crate::ui::styled("No git remote configured. Add one with:"@, Style::Dimmed)],
            seq![crate::ui::styled("  git remote add origin <url>"@, Style::Plain)],
        ],
        RemoteState::LoadFailed { url, message } => remote_title() + remote_address(url@) + seq![
            seq![crate::ui::styled("Error:"@, Style::Red), crate::ui::plain(" "@), crate::ui::plain(message@)],
        ],
        RemoteState::BranchesFailed { url, message } => remote_title() + remote_address(url@) + seq![
            seq![
                crate::ui::styled("Error fetching remote status:"@, Style::Red),
                crate::ui::plain(" "@),
                crate::ui::plain(message@),
            ],
        ],
        RemoteState::Known { url, branches } => remote_title() + remote_address(url@) + branches_part(branches@),
    }
}

fn remote_title_of(p: &mut Vec<Vec<Span>>)
    ensures
        crate::ui::page(final(p)@) == crate::ui::page(old(p)@) + remote_title(),
{
    let ghost start = crate::ui::page(p@);
    add_text(p, "Remote Status", Style::Bold);
    add_text(p, "━━━━━━━━━━━━━━━━━━━━━━━━━━━━━━━━━━━━━━━━━━━━━━━━━━", Style::Plain);
    add_blank(p);
    assert(crate::ui::page(p@) =~= start + remote_title());
}

fn remote_address_of(p: &mut Vec<Vec<Span>>, url: &str)
    ensures
        crate::ui::page(final(p)@) == crate::ui::page(old(p)@) + remote_address(url@),
{
    let ghost start = crate::ui::page(p@);
    let mut l = blank();
    put(&mut l, "Remote:  ", Style::Plain);
    put(&mut l, "origin", Style::Cyan);
    put(&mut l, " (", Style::Plain);
    put(&mut l, url, Style::Dimmed);
    put(&mut l, ")", Style::Plain);
    add_line(p, l);
    add_blank(p);
    assert(crate::ui::page(p@) =~~= start + remote_address(url@));
}

fn branches_part_of(branches: &Vec<RemoteBranchInfo>) -> (p: Vec<Vec<Span>>)
    ensures
        crate::ui::page(p@) == branches_part(branches@),
{
    let mut p = no_lines();
    if branches.len() == 0 {
        add_labelled(&mut p, "  ", "No local branches tracked", Style::Dimmed);
        add_blank(&mut p);
        add_text(&mut p, "Publish a checkpoint first:", Style::Dimmed);
        add_text(&mut p, "  tl publish HEAD", Style::Plain);
        assert(crate::ui::page(p@) =~= branches_part(branches@));
        return p;
    }
    let ghost title = seq![seq![crate::ui::styled("Branches:"@, Style::Plain)]];
    let ghost rows = branches@.map_values(|b: RemoteBranchInfo| branch_line(b));
    add_text(&mut p, "Branches:", Style::Plain);
    let mut i: usize = 0;
    assert(crate::ui::page(p@) =~= title + rows.take(0));
    while i < branches.len()
        invariant
            i <= branches.len(),
            rows == branches@.map_values(|b: RemoteBranchInfo| branch_line(b)),
            crate::ui::page(p@) == title + rows.take(i as int),
        decreases branches.len() - i,
    {
        let b = &branches[i];
        let mut l = blank();
        put(&mut l, "  ", Style::Plain);
        put(&mut l, b.name.as_str(), Style::Cyan);
        put(&mut l, " ", Style::Plain);
        put(&mut l, short_commit_or(&b.local_commit_id, "(none)").as_str(), Style::Dimmed);
        put(&mut l, " ", Style::Plain);
        format_branch_status(&mut l, b);
        assert(crate::ui::line(l@) =~= branch_line(branches@[i as int]));
        add_line(&mut p, l);
        i = i + 1;
        assert(crate::ui::page(p@) =~= title + rows.take(i as int));
    }
    add_blank(&mut p);
    assert(crate::ui::page(p@) =~= branches_part(branches@));
    p
}

/// Shows the status of the remote.
pub fn print_remote_status(state: &RemoteState) -> (p: Vec<Vec<Span>>)
    ensures
        crate::ui::page(p@) == remote_status(*state),
{
    let mut p = no_lines();
    match state {
        RemoteState::NoWorkspace => {
            add_text(&mut p, "Remote: No JJ workspace (run 'tl init' first)", Style::Dimmed);
            assert(crate::ui::page(p@) =~= remote_status(*state));
        },
        RemoteState::NotConfigured => {
            remote_title_of(&mut p);
            let mut l = blank();
            put(&mut l, "Remote:  ", Style::Plain);
            put(&mut l, "origin", Style::Cyan);
            put(&mut l, " ", Style::Plain);
            put(&mut l, "(not configured)", Style::Yellow);
            add_line(&mut p, l);
            add_blank(&mut p);
            add_text(&mut p, "No git remote configured. Add one with:", Style::Dimmed);
            add_text(&mut p, "  git remote add origin <url>", Style::Plain);
            assert(crate::ui::page(p@) =~~= remote_status(*state));
        },
        RemoteState::LoadFailed { url, message } => {
            remote_title_of(&mut p);
            remote_address_of(&mut p, url.as_str());
            let mut l = blank();
            put(&mut l, "Error:", Style::Red);
            put(&mut l, " ", Style::Plain);
            put(&mut l, message.as_str(), Style::Plain);
            add_line(&mut p, l);
            assert(crate::ui::page(p@) =~~= remote_status(*state));
        },
        RemoteState::BranchesFailed { url, message } => {
            remote_title_of(&mut p);
            remote_address_of(&mut p, url.as_str());
            let mut l = blank();
            put(&mut l, "Error fetching remote status:", Style::Red);
            put(&mut l, " ", Style::Plain);
            put(&mut l, message.as_str(), Style::Plain);
            add_line(&mut p, l);
            assert(crate::ui::page(p@) =~~= remote_status(*state));
        },
        RemoteState::Known { url, branches } => {
            remote_title_of(&mut p);
            remote_address_of(&mut p, url.as_str());
            let more = branches_part_of(branches);
            add_page(&mut p, more);
            assert(crate::ui::page(p@) =~= remote_status(*state));
        },
    }
    p
}

/// How a branch stands to its remote: at the same commit it is up to date, else diverged,
/// ahead or behind, with the number of commits; without a commit on one side it is on the
/// other only.
pub proof fn branch_status_tells_which_side_is_ahead(b: RemoteBranchInfo)
    ensures
        ({
            let both = b.local_commit_id is Some && b.remote_commit_id is Some;
            let same = both && b.local_commit_id->0@ == b.remote_commit_id->0@;
            &&& same ==> branch_status(b).last().text == "✓ up to date"@
            &&& both && !same && b.is_diverged ==> branch_status(b).last().text == "diverged"@
            &&& both && !same && !b.is_diverged && b.commits_ahead > 0 ==> branch_status(b).last().text == "ahead"@
                && branch_status(b)[1].text == crate::text::decimal(b.commits_ahead as nat)
            &&& both && !same && !b.is_diverged && b.commits_ahead == 0 && b.commits_behind > 0 ==> branch_status(
                b,
            ).last().text == "behind"@ && branch_status(b)[1].text == crate::text::decimal(b.commits_behind as nat)
            &&& b.local_commit_id is Some && b.remote_commit_id is None ==> branch_status(b).last().text
                == "local only"@
            &&& b.local_commit_id is None && b.remote_commit_id is Some ==> branch_status(b).last().text
                == "remote only"@
        }),
{
}

/// The time that the daemon has been running is counted in whole seconds.
pub proof fn uptime_is_counted_in_seconds(now_ms: u64, start_ms: u64)
    ensures
        start_ms <= now_ms ==> uptime(now_ms, start_ms) * 1000 <= now_ms - start_ms < uptime(now_ms, start_ms) * 1000
            + 1000,
        start_ms > now_ms ==> uptime(now_ms, start_ms) == 0,
{
}

/// Of the paths that changed at most five are named, and the others counted.
pub proof fn at_most_five_changes_are_named(paths: Seq<Seq<char>>)
    ensures
        paths.len() == 0 ==> changed_lines(paths).len() == 0,
        0 < paths.len() <= 5 ==> changed_lines(paths).len() == paths.len() + 1,
        paths.len() > 5 ==> changed_lines(paths).len() == 7 && changed_lines(paths)[6][0].text == "    ... and "@
            + crate::text::decimal((paths.len() - 5) as nat) + " more"@,
        forall|k: int|
            0 <= k < paths.len() && k < 5 ==> (#[trigger] changed_lines(paths)[k + 1])[1].text == paths[k],
{
}

/// What is shown of the latest checkpoint: the beginning of its identifier, its times, its
/// number of files and why it was made.
pub proof fn latest_checkpoint_is_shown(cp: CheckpointView, now_ms: u64)
    ensures
        latest_part(Some(cp), now_ms)[0][1].text == crate::ids::ulid_text(cp.id).take(8),
        latest_part(Some(cp), now_ms)[1][1].text == crate::format::relative_time(Some(now_ms), cp.ts_unix_ms),
        latest_part(Some(cp), now_ms)[1][3].text == crate::format::absolute_text(cp.ts_unix_ms),
        latest_part(Some(cp), now_ms)[2][1].text == crate::text::decimal(cp.meta.files_changed as nat),
        latest_part(Some(cp), now_ms)[3][1].text == crate::journal::reason_title(cp.reason),
        latest_part(Some(cp), now_ms).len() == 4 + changed_lines(cp.touched_paths).len(),
        latest_part(None, now_ms).len() == 1,
{
}

/// What is shown of the daemon: its process, how long it runs, the checkpoints that it made
/// and the paths that it watches.
pub proof fn daemon_is_shown(status: DaemonStatus, now_ms: u64)
    ensures
        ({
            let part = daemon_part(status, now_ms);
            &&& part[1][1].text == crate::text::decimal(status.pid as nat)
            &&& part[2][1].text == crate::format::duration_text(uptime(now_ms, status.start_time_ms))
            &&& part[3][1].text == crate::text::decimal(status.checkpoints_created as nat) + " created"@
            &&& status.last_checkpoint_time is Some ==> part.len() == 7 && part[4][1].text
                == crate::format::relative_time(Some(now_ms), status.last_checkpoint_time->0) && part[5][1].text
                == crate::text::decimal(status.watcher_paths as nat) + " paths"@
            &&& status.last_checkpoint_time is None ==> part.len() == 6 && part[4][1].text == crate::text::decimal(
                status.watcher_paths as nat,
            ) + " paths"@
        }),
{
}

} // verus!
