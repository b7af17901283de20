//! Merging a branch into the working directory.

use vstd::prelude::*;

use crate::daemon::CheckpointDraft;
use crate::hash::Sha1Hash;
use crate::ids::{id_text, parse_id};
use crate::journal::{copy_strings, Checkpoint, CheckpointMeta, CheckpointReason, CheckpointView, History, HistoryView};
use crate::text::chars_of;
use crate::tree::{Entry, Tree};
use crate::ui::{add_blank, add_line, add_text, blank, concat, counted_text, no_lines, put, put_number, Span, SpanView, Style};

verus! {

/// What the merge command does.
#[derive(Debug)]
pub enum MergeAction {
    /// Gives the merge up.
    Abort,
    /// Completes the merge.
    Complete,
    /// Begins to merge a branch.
    Begin {
        /// The branch.
        branch: String,
    },
    /// There is no merge to give up.
    NothingToAbort,
    /// There is no merge to complete.
    NothingToComplete,
    /// No branch is named.
    BranchMissing,
    /// Another merge is not complete.
    InProgress,
}

/// Decides what the merge command does. To give up comes before to complete, and
/// both before a branch.
pub fn merge_action(branch: Option<String>, abort: bool, complete: bool, in_progress: bool) -> (a: MergeAction)
    ensures
        a == action_of(branch, abort, complete, in_progress),
{
    if abort {
        if in_progress {
            MergeAction::Abort
        } else {
            MergeAction::NothingToAbort
        }
    } else if complete {
        if in_progress {
            MergeAction::Complete
        } else {
            MergeAction::NothingToComplete
        }
    } else {
        match branch {
            None => MergeAction::BranchMissing,
            Some(b) => if in_progress {
                MergeAction::InProgress
            } else {
                MergeAction::Begin { branch: b }
            },
        }
    }
}

/// A merge that is not complete.
#[derive(Debug)]
pub struct MergeState {
    /// Whether it is still going on.
    pub in_progress: bool,
    /// The local commit.
    pub ours_commit: String,
    /// The commit that is merged.
    pub theirs_commit: String,
    /// The branch that is merged.
    pub theirs_branch: String,
    /// The commit that both descend from.
    pub base_commit: Option<String>,
    /// The paths with conflicts.
    pub conflicts: Vec<String>,
    /// The checkpoint before the merge.
    pub pre_merge_checkpoint: String,
}

/// What merging two commits led to.
#[derive(Debug)]
pub struct MergeOutcome {
    /// Whether there is no conflict.
    pub is_clean: bool,
    /// The local commit.
    pub ours_commit_id: String,
    /// The commit that is merged.
    pub theirs_commit_id: String,
    /// The commit that both descend from.
    pub base_commit_id: Option<String>,
    /// The paths with conflicts.
    pub conflicts: Vec<String>,
}

/// A path with conflicts.
pub open spec fn conflict_line(path: Seq<char>) -> Seq<SpanView> {
    seq![
        crate::ui::plain("  "@),
        crate::ui::styled("✗"@, Style::Red),
        crate::ui::plain(" "@),
        crate::ui::plain(path),
    ]
}

/// One line for each path.
pub open spec fn conflict_lines(paths: Seq<Seq<char>>) -> Seq<Seq<SpanView>> {
    paths.map_values(|p: Seq<char>| conflict_line(p))
}

fn add_conflicts(p: &mut Vec<Vec<Span>>, paths: &Vec<String>)
    ensures
        crate::ui::page(final(p)@) == crate::ui::page(old(p)@) + conflict_lines(crate::text::texts(paths@)),
{
    let ghost all = crate::text::texts(paths@);
    let ghost start = crate::ui::page(p@);
    let mut i: usize = 0;
    assert(crate::ui::page(p@) =~= start + conflict_lines(all).take(0));
    while i < paths.len()
        invariant
            i <= paths.len(),
            all == crate::text::texts(paths@),
            crate::ui::page(p@) == start + conflict_lines(all).take(i as int),
        decreases paths.len() - i,
    {
        let mut l = blank();
        put(&mut l, "  ", Style::Plain);
        put(&mut l, "✗", Style::Red);
        put(&mut l, " ", Style::Plain);
        put(&mut l, paths[i].as_str(), Style::Plain);
        assert(crate::ui::line(l@) =~= conflict_line(all[i as int]));
        add_line(p, l);
        i = i + 1;
        assert(crate::ui::page(p@) =~= start + conflict_lines(all).take(i as int));
    }
    assert(conflict_lines(all).take(all.len() as int) =~= conflict_lines(all));
}

/// What is shown of a merge that has begun.
pub open spec fn merge_page(is_clean: bool, paths: Seq<Seq<char>>) -> Seq<Seq<SpanView>> {
    if is_clean {
        seq![
            seq![
                crate::ui::styled("✓"@, Style::Green),
                crate::ui::plain(" Merge completed cleanly (no conflicts)"@),
            ],
            crate::ui::empty_line(),
            seq![
                crate::ui::styled(
                    "Working directory updated. The daemon will create a checkpoint."@,
                    Style::Dimmed,
                ),
            ],
        ]
    } else {
        seq![
            crate::ui::empty_line(),
            seq![
                crate::ui::styled("!"@, Style::Yellow),
                crate::ui::plain(" Merge has "@),
                crate::ui::styled(crate::text::decimal(paths.len()), Style::Red),
                crate::ui::plain(" conflicts:"@),
            ],
            crate::ui::empty_line(),
        ] + conflict_lines(paths) + merge_help()
    }
}

/// How to go on after conflicts.
pub open spec fn merge_help() -> Seq<Seq<SpanView>> {
    seq![
        crate::ui::empty_line(),
        seq![crate::ui::styled("To resolve:"@, Style::Bold)],
        seq![crate::ui::styled("  1. Edit the conflicted files to resolve the conflicts"@, Style::Plain)],
        seq![crate::ui::styled("  2. Run 'tl resolve --list' to check resolution status"@, Style::Plain)],
        seq![crate::ui::styled("  3. Run 'tl merge --continue' to complete the merge"@, Style::Plain)],
        crate::ui::empty_line(),
        seq![crate::ui::styled("To abort:"@, Style::Dimmed)],
        seq![crate::ui::styled("  Run 'tl merge --abort' to restore pre-merge state"@, Style::Plain)],
    ]
}

/// Shows a merge that has begun, and makes the state to remember where there are
/// conflicts.
pub fn start_merge(outcome: &MergeOutcome, branch: &str, current: &Checkpoint) -> (r: (
    Vec<Vec<Span>>,
    Option<MergeState>,
))
    ensures
        crate::ui::page(r.0@) == merge_page(outcome.is_clean, crate::text::texts(outcome.conflicts@)),
        match r.1 {
            None => outcome.is_clean,
            Some(s) => {
                &&& !outcome.is_clean
                &&& s.in_progress
                &&& s.ours_commit@ == outcome.ours_commit_id@
                &&& s.theirs_commit@ == outcome.theirs_commit_id@
                &&& s.theirs_branch@ == branch@
                &&& s.base_commit == outcome.base_commit_id
                &&& s.conflicts@ == outcome.conflicts@
                &&& s.pre_merge_checkpoint@ == crate::ids::ulid_text(current.id)
            },
        },
{
    let ghost paths = crate::text::texts(outcome.conflicts@);
    let mut p = no_lines();
    if outcome.is_clean {
        let mut l = blank();
        put(&mut l, "✓", Style::Green);
        put(&mut l, " Merge completed cleanly (no conflicts)", Style::Plain);
        add_line(&mut p, l);
        add_blank(&mut p);
        add_text(&mut p, "Working directory updated. The daemon will create a checkpoint.", Style::Dimmed);
        assert(crate::ui::page(p@) =~~= merge_page(true, paths));
        return (p, None);
    }
    add_blank(&mut p);
    let mut l = blank();
    put(&mut l, "!", Style::Yellow);
    put(&mut l, " Merge has ", Style::Plain);
    put_number(&mut l, outcome.conflicts.len() as u64, Style::Red);
    put(&mut l, " conflicts:", Style::Plain);
    add_line(&mut p, l);
    add_blank(&mut p);
    add_conflicts(&mut p, &outcome.conflicts);
    let ghost before = crate::ui::page(p@);
    add_blank(&mut p);
    add_text(&mut p, "To resolve:", Style::Bold);
    add_text(&mut p, "  1. Edit the conflicted files to resolve the conflicts", Style::Plain);
    add_text(&mut p, "  2. Run 'tl resolve --list' to check resolution status", Style::Plain);
    add_text(&mut p, "  3. Run 'tl merge --continue' to complete the merge", Style::Plain);
    add_blank(&mut p);
    add_text(&mut p, "To abort:", Style::Dimmed);
    add_text(&mut p, "  Run 'tl merge --abort' to restore pre-merge state", Style::Plain);
    assert(crate::ui::page(p@) =~= before + merge_help());
    assert(crate::ui::page(p@) =~~= merge_page(false, paths));
    let base: Option<String> = match &outcome.base_commit_id {
        Some(b) => Some(b.clone()),
        None => None,
    };
    let state = MergeState {
        in_progress: true,
        ours_commit: outcome.ours_commit_id.clone(),
        theirs_commit: outcome.theirs_commit_id.clone(),
        theirs_branch: branch.to_owned(),
        base_commit: base,
        conflicts: copy_strings(&outcome.conflicts),
        pre_merge_checkpoint: id_text(current.id),
    };
    (p, Some(state))
}

/// The labels of the two sides of a conflict.
pub fn conflict_labels(branch: &str) -> (labels: (String, String))
    ensures
        labels.0@ == "LOCAL (your changes)"@,
        labels.1@ == "REMOTE ("@ + branch@ + ")"@,
{
    let mut theirs = concat("REMOTE (", branch);
    theirs.append(")");
    ("LOCAL (your changes)".to_owned(), theirs)
}

/// Why a merge cannot be given up.
#[derive(Debug, Clone, Copy, PartialEq, Eq, Structural)]
pub enum AbortError {
    /// The remembered checkpoint is no identifier.
    InvalidId,
    /// The checkpoint is not recorded.
    NotFound,
}

/// The checkpoint to return to where a merge is given up.
pub open spec fn abort_to(remembered: Seq<char>, h: HistoryView) -> Result<CheckpointView, AbortError> {
    match crate::ids::ulid_value(vstd::utf8::encode_utf8(remembered)) {
        None => Err(AbortError::InvalidId),
        Some(id) => match h.find(id) {
            None => Err(AbortError::NotFound),
            Some(c) => Ok(c),
        },
    }
}

/// Finds the checkpoint to return to where a merge is given up.
pub fn abort_target<'a>(state: &MergeState, history: &'a History) -> (r: Result<&'a Checkpoint, AbortError>)
    ensures
        match abort_to(state.pre_merge_checkpoint@, history@) {
            Ok(c) => r matches Ok(found) && found@ == c,
            Err(e) => r == Err::<&Checkpoint, AbortError>(e),
        },
{
    match parse_id(state.pre_merge_checkpoint.as_str()) {
        None => Err(AbortError::InvalidId),
        Some(id) => match history.get(id) {
            None => Err(AbortError::NotFound),
            Some(c) => Ok(c),
        },
    }
}

/// A merge that is given up returns to the checkpoint that was the latest when it
/// began.
pub proof fn abort_returns_to_start(h: HistoryView, id: u128)
    requires
        h.find(id) is Some,
    ensures
        abort_to(crate::ids::ulid_text(id), h) == (Ok::<CheckpointView, AbortError>(h.find(id)->0)),
{
    crate::ids::id_round_trip(id);
}

/// The paths that still hold conflict markers.
pub open spec fn unresolved(paths: Seq<Seq<char>>, marked: Seq<bool>) -> Seq<Seq<char>>
    recommends
        paths.len() == marked.len(),
    decreases paths.len(),
{
    if paths.len() == 0 {
        Seq::empty()
    } else {
        let before = unresolved(paths.drop_last(), marked.drop_last());
        if marked.last() {
            before.push(paths.last())
        } else {
            before
        }
    }
}

/// What is shown where conflicts remain.
pub open spec fn unresolved_page(paths: Seq<Seq<char>>) -> Seq<Seq<SpanView>> {
    seq![
        seq![
            crate::ui::styled("✗"@, Style::Red),
            crate::ui::plain(" "@ + crate::text::decimal(paths.len()) + " file(s) still have conflicts:"@),
        ],
    ] + conflict_lines(paths) + seq![
        crate::ui::empty_line(),
        seq![crate::ui::styled("Resolve the conflicts and run 'tl merge --continue' again."@, Style::Plain)],
    ]
}

/// What is shown where a merge cannot be completed because conflicts remain;
/// `marked` says of each path whether its file still holds conflict markers.
pub fn check_resolved(conflicts: &Vec<String>, marked: &Vec<bool>) -> (r: Option<Vec<Vec<Span>>>)
    requires
        conflicts.len() == marked.len(),
    ensures
        ({
            let left = unresolved(crate::text::texts(conflicts@), marked@);
            if left.len() == 0 {
                r is None
            } else {
                r matches Some(p) && crate::ui::page(p@) == unresolved_page(left)
            }
        }),
        r is None <==> forall|i: int| 0 <= i < marked@.len() ==> !#[trigger] marked@[i],
{
    let ghost all = crate::text::texts(conflicts@);
    let mut left: Vec<String> = Vec::new();
    let mut i: usize = 0;
    assert(all.take(0) =~= Seq::empty());
    assert(crate::text::texts(left@) =~= Seq::empty());
    while i < conflicts.len()
        invariant
            i <= conflicts.len(),
            conflicts.len() == marked.len(),
            all == crate::text::texts(conflicts@),
            crate::text::texts(left@) == unresolved(all.take(i as int), marked@.take(i as int)),
        decreases conflicts.len() - i,
    {
        let ghost before = left@;
        assert(all.take(i + 1).drop_last() =~= all.take(i as int));
        assert(marked@.take(i + 1).drop_last() =~= marked@.take(i as int));
        if marked[i] {
            left.push(conflicts[i].clone());
            assert(crate::text::texts(left@) =~= crate::text::texts(before).push(conflicts@[i as int]@));
        }
        i = i + 1;
    }
    assert(all.take(all.len() as int) =~= all);
    assert(marked@.take(all.len() as int) =~= marked@);
    let ghost rest = crate::text::texts(left@);
    proof {
        marked_paths_are_unresolved(all, marked@);
    }
    if left.len() == 0 {
        return None;
    }
    let mut p = no_lines();
    let mut l = blank();
    put(&mut l, "✗", Style::Red);
    put(&mut l, counted_text(" ", left.len() as u64, " file(s) still have conflicts:").as_str(), Style::Plain);
    add_line(&mut p, l);
    add_conflicts(&mut p, &left);
    add_blank(&mut p);
    add_text(&mut p, "Resolve the conflicts and run 'tl merge --continue' again.", Style::Plain);
    assert(crate::ui::page(p@) =~~= unresolved_page(rest));
    Some(p)
}

proof fn lemma_unresolved(paths: Seq<Seq<char>>, marked: Seq<bool>)
    requires
        paths.len() == marked.len(),
    ensures
        unresolved(paths, marked) == Seq::new(marked.len(), |i: int| i).filter(|i: int| marked[i]).map_values(
            |i: int| paths[i],
        ),
    decreases paths.len(),
{
    let pred = |i: int| marked[i];
    let all = Seq::new(marked.len(), |i: int| i);
    reveal(Seq::filter);
    if paths.len() > 0 {
        let front = marked.drop_last();
        let before = Seq::new(front.len(), |i: int| i);
        let pred0 = |i: int| front[i];
        lemma_unresolved(paths.drop_last(), front);
        assert(all.drop_last() =~= before);
        lemma_same_filter(before, pred0, pred);
        let chosen = before.filter(pred);
        assert(all.last() == marked.len() - 1);
        assert(before.filter(pred0).map_values(|i: int| paths.drop_last()[i]) =~= chosen.map_values(
            |i: int| paths[i],
        )) by {
            lemma_filter_holds(before, pred);
        }
        if marked.last() {
            assert(all.filter(pred) =~= chosen.push(all.last()));
            assert(all.filter(pred).map_values(|i: int| paths[i]) =~= chosen.map_values(|i: int| paths[i]).push(
                paths.last(),
            ));
        } else {
            assert(all.filter(pred) =~= chosen);
        }
    } else {
        assert(all.filter(pred) =~= Seq::empty());
        assert(unresolved(paths, marked) =~= all.filter(pred).map_values(|i: int| paths[i]));
    }
}

proof fn lemma_same_filter(s: Seq<int>, p: spec_fn(int) -> bool, q: spec_fn(int) -> bool)
    requires
        forall|i: int| 0 <= i < s.len() ==> p(#[trigger] s[i]) == q(s[i]),
    ensures
        s.filter(p) == s.filter(q),
    decreases s.len(),
{
    reveal(Seq::filter);
    if s.len() > 0 {
        lemma_same_filter(s.drop_last(), p, q);
        assert(p(s[s.len() - 1]) == q(s[s.len() - 1]));
    }
}

proof fn lemma_filter_holds(s: Seq<int>, p: spec_fn(int) -> bool)
    ensures
        forall|j: int| 0 <= j < s.filter(p).len() ==> s.contains(#[trigger] s.filter(p)[j]) && p(s.filter(p)[j]),
    decreases s.len(),
{
    reveal(Seq::filter);
    if s.len() > 0 {
        let t = s.drop_last();
        lemma_filter_holds(t, p);
        assert forall|j: int| 0 <= j < s.filter(p).len() implies s.contains(#[trigger] s.filter(p)[j]) && p(
            s.filter(p)[j],
        ) by {
            if j < t.filter(p).len() {
                let x = t.filter(p)[j];
                assert(t.contains(x));
                let k = choose|k: int| 0 <= k < t.len() && t[k] == x;
                assert(s[k] == x);
            } else {
                assert(s[s.len() - 1] == s.filter(p)[j]);
            }
        }
    }
}

/// The paths that are left are those whose files still hold markers, in their order: none
/// is left exactly when no file holds any, each marked path is left, and as many are left
/// as are marked.
pub proof fn marked_paths_are_unresolved(paths: Seq<Seq<char>>, marked: Seq<bool>)
    requires
        paths.len() == marked.len(),
    ensures
        unresolved(paths, marked) == Seq::new(marked.len(), |i: int| i).filter(|i: int| marked[i]).map_values(
            |i: int| paths[i],
        ),
        unresolved(paths, marked).len() == 0 <==> forall|i: int| 0 <= i < marked.len() ==> !#[trigger] marked[i],
        unresolved(paths, marked).len() == marked.filter(|m: bool| m).len(),
        forall|i: int| 0 <= i < marked.len() && #[trigger] marked[i] ==> unresolved(paths, marked).contains(paths[i]),
        forall|k: int|
            0 <= k < unresolved(paths, marked).len() ==> exists|i: int|
                0 <= i < marked.len() && #[trigger] marked[i] && paths[i] == #[trigger] unresolved(paths, marked)[k],
    decreases paths.len(),
{
    lemma_unresolved(paths, marked);
    let left = unresolved(paths, marked);
    reveal(Seq::filter);
    if paths.len() > 0 {
        let front = paths.drop_last();
        let flags = marked.drop_last();
        marked_paths_are_unresolved(front, flags);
        let before = unresolved(front, flags);
        let n = paths.len() - 1;
        assert forall|i: int| 0 <= i < marked.len() && #[trigger] marked[i] implies left.contains(paths[i]) by {
            if i < n {
                assert(flags[i]);
                assert(front[i] == paths[i]);
                assert(before.contains(paths[i]));
                let k = choose|k: int| 0 <= k < before.len() && before[k] == paths[i];
                assert(left[k] == paths[i]);
            } else {
                assert(left[left.len() - 1] == paths[i]);
            }
        }
        assert forall|k: int| 0 <= k < left.len() implies exists|i: int|
            0 <= i < marked.len() && #[trigger] marked[i] && paths[i] == #[trigger] left[k] by {
            if k < before.len() {
                assert(before[k] == left[k]);
                let i = choose|i: int| 0 <= i < flags.len() && #[trigger] flags[i] && front[i] == before[k];
                assert(marked[i] && paths[i] == left[k]);
            } else {
                assert(marked[n] && paths[n] == left[k]);
            }
        }
        if left.len() == 0 {
            assert forall|i: int| 0 <= i < marked.len() implies !#[trigger] marked[i] by {
                if marked[i] {
                    assert(left.contains(paths[i]));
                }
            }
        }
        if forall|i: int| 0 <= i < marked.len() ==> !#[trigger] marked[i] {
            assert(!marked[n]);
            assert forall|i: int| 0 <= i < flags.len() implies !#[trigger] flags[i] by {
                assert(!marked[i]);
            }
        }
    }
}

/// What is shown where conflicts remain: their number, one line for each path, in order,
/// and what to do.
pub proof fn unresolved_page_names_each_path(paths: Seq<Seq<char>>)
    ensures
        unresolved_page(paths).len() == paths.len() + 3,
        unresolved_page(paths)[0][1].text == " "@ + crate::text::decimal(paths.len())
            + " file(s) still have conflicts:"@,
        forall|k: int|
            0 <= k < paths.len() ==> (#[trigger] unresolved_page(paths)[k + 1]).len() == 4 && unresolved_page(
                paths,
            )[k + 1][3].text == paths[k],
{
}

/// Whether a file or directory of the given name is recorded after a merge: hidden
/// ones are not.
pub fn is_recorded(name: &str) -> (r: bool)
    ensures
        r == !is_hidden(name@),
{
    let chars = chars_of(name);
    !(chars.len() > 0 && chars[0] == '.')
}

/// A regular file with the given mode and content.
pub open spec fn is_file_entry(e: Entry, mode: u32, hash: Sha1Hash) -> bool {
    &&& e.blob_hash == hash
    &&& e.mode == (if mode & 0o111 != 0 { crate::tree::MODE_EXECUTABLE } else { crate::tree::MODE_FILE })
    &&& e.canonical()
}

/// The tree of the files found in the working directory, each with its path, its
/// mode and the hash of its content.
pub open spec fn holds_files(tree: Map<Seq<u8>, Entry>, files: Seq<(String, u32, Sha1Hash)>) -> bool {
    &&& forall|k: Seq<u8>| #[trigger]
        tree.contains_key(k) <==> exists|i: int|
            0 <= i < files.len() && vstd::utf8::encode_utf8((#[trigger] files[i]).0@) == k
    &&& forall|i: int|
        0 <= i < files.len() && is_last(files, i) ==> is_file_entry(
            tree[vstd::utf8::encode_utf8((#[trigger] files[i]).0@)],
            files[i].1,
            files[i].2,
        )
}

/// No later file has the same path.
pub open spec fn is_last(files: Seq<(String, u32, Sha1Hash)>, i: int) -> bool {
    forall|j: int| i < j < files.len() ==> (#[trigger] files[j]).0@ != files[i].0@
}

/// The tree of a merged working directory and the checkpoint that records it.
pub fn create_merge_checkpoint(parent: Option<u128>, files: &Vec<(String, u32, Sha1Hash)>) -> (r: (
    Tree,
    CheckpointDraft,
))
    requires
        files.len() <= u32::MAX,
    ensures
        holds_files(r.0@, files@),
        r.1.records(parent, r.1.root_tree, CheckpointReason::Manual, files.len() as u32),
        r.1.root_tree@ == crate::hash::sha1_of(crate::tree::tree_object(r.0@)),
{
    let mut tree = Tree::new();
    let mut i: usize = 0;
    while i < files.len()
        invariant
            i <= files.len(),
            holds_files(tree@, files@.take(i as int)),
        decreases files.len() - i,
    {
        let ghost before = tree@;
        let ghost seen = files@.take(i as int);
        let ghost next = files@.take(i + 1);
        let ghost key = vstd::utf8::encode_utf8(files@[i as int].0@);
        let entry = Entry::file(files[i].1, files[i].2);
        tree.insert(files[i].0.as_str(), entry);
        proof {
            assert forall|k: Seq<u8>| #[trigger] tree@.contains_key(k) <==> exists|j: int|
                0 <= j < next.len() && vstd::utf8::encode_utf8((#[trigger] next[j]).0@) == k by {
                if before.contains_key(k) {
                    let j = choose|j: int| 0 <= j < seen.len() && vstd::utf8::encode_utf8((#[trigger] seen[j]).0@) == k;
                    assert(next[j] == seen[j]);
                }
                if k == key {
                    assert(next[i as int] == files@[i as int]);
                }
                if exists|j: int| 0 <= j < next.len() && vstd::utf8::encode_utf8((#[trigger] next[j]).0@) == k {
                    let j = choose|j: int| 0 <= j < next.len() && vstd::utf8::encode_utf8((#[trigger] next[j]).0@) == k;
                    if j < i {
                        assert(seen[j] == next[j]);
                    }
                }
            }
            assert forall|j: int| 0 <= j < next.len() && is_last(next, j) implies is_file_entry(
                tree@[vstd::utf8::encode_utf8((#[trigger] next[j]).0@)],
                next[j].1,
                next[j].2,
            ) by {
                if j < i {
                    assert(next[j] == seen[j]);
                    assert(next[i as int].0@ != next[j].0@);
                    vstd::utf8::encode_utf8_decode_utf8(next[j].0@);
                    vstd::utf8::encode_utf8_decode_utf8(next[i as int].0@);
                    assert(is_last(seen, j)) by {
                        assert forall|k: int| j < k < seen.len() implies (#[trigger] seen[k]).0@ != seen[j].0@ by {
                            assert(next[k] == seen[k]);
                        }
                    }
                }
            }
        }
        i = i + 1;
    }
    assert(files@.take(files@.len() as int) =~= files@);
    let hash = tree.hash();
    let draft = CheckpointDraft {
        parent,
        root_tree: hash,
        reason: CheckpointReason::Manual,
        touched_paths: Vec::new(),
        meta: CheckpointMeta { files_changed: files.len() as u32, bytes_added: 0, bytes_removed: 0 },
    };
    (tree, draft)
}

/// What the merge command does.
pub open spec fn action_of(branch: Option<String>, abort: bool, complete: bool, in_progress: bool) -> MergeAction {
    if abort {
        if in_progress {
            MergeAction::Abort
        } else {
            MergeAction::NothingToAbort
        }
    } else if complete {
        if in_progress {
            MergeAction::Complete
        } else {
            MergeAction::NothingToComplete
        }
    } else {
        match branch {
            None => MergeAction::BranchMissing,
            Some(b) => if in_progress {
                MergeAction::InProgress
            } else {
                MergeAction::Begin { branch: b }
            },
        }
    }
}

/// A merge is begun only where none is going on, and completed or given up only where one
/// is; to give up comes before to complete.
pub proof fn one_merge_at_a_time(branch: Option<String>, abort: bool, complete: bool, in_progress: bool)
    ensures
        action_of(branch, abort, complete, in_progress) is Begin <==> !abort && !complete && branch is Some
            && !in_progress,
        action_of(branch, abort, complete, in_progress) is Begin ==> action_of(
            branch,
            abort,
            complete,
            in_progress,
        )->branch == branch->0,
        action_of(branch, abort, complete, in_progress) is Abort <==> abort && in_progress,
        action_of(branch, abort, complete, in_progress) is Complete <==> !abort && complete && in_progress,
        action_of(branch, abort, complete, in_progress) is InProgress <==> !abort && !complete && branch is Some
            && in_progress,
        action_of(branch, abort, complete, in_progress) is NothingToAbort <==> abort && !in_progress,
        action_of(branch, abort, complete, in_progress) is NothingToComplete <==> !abort && complete && !in_progress,
{
}

/// Each conflict of a merge has its own line, with its path, in order, and a clean merge
/// shows none.
pub proof fn conflicts_are_listed(paths: Seq<Seq<char>>)
    ensures
        merge_page(false, paths).len() == paths.len() + 11,
        merge_page(false, paths)[1][2].text == crate::text::decimal(paths.len()),
        forall|k: int| 0 <= k < paths.len() ==> (#[trigger] merge_page(false, paths)[k + 3])[3].text == paths[k],
        merge_page(true, paths).len() == 3,
{
}

/// The name is that of a hidden file or directory.
pub open spec fn is_hidden(name: Seq<char>) -> bool {
    name.len() > 0 && name[0] == '.'
}

/// A name is hidden exactly where a dot stands at its beginning.
pub proof fn hidden_names_begin_with_a_dot(rest: Seq<char>, c: char)
    ensures
        is_hidden(seq![c] + rest) <==> c == '.',
        !is_hidden(Seq::empty()),
{
    assert((seq![c] + rest)[0] == c);
}

} // verus!
