//! Pulling from the remote: local changes are put aside before and put back after.

use vstd::prelude::*;
use vstd::string::StringSliceAdditionalSpecFns;

use crate::cmd::branch::COMMIT_CHARS;
use crate::cmd::restore::{is_protected_path, RestoreResult};
use crate::ids::short_id;
use crate::paths::path_under;
use crate::text::{chars_of, utf8_text};
use crate::tree::{Entry, Tree};
use crate::ui::{add_blank, add_line, add_text, blank, clipped, counted_text, no_lines, put, put_number, Span, SpanView, Style};

verus! {

/// A file that is put back.
#[derive(Debug)]
pub struct Reapply {
    /// Its path in the tree.
    pub path: String,
    /// The file to write.
    pub target: String,
    /// Its entry.
    pub entry: Entry,
    /// Whether the pulled state has other contents for it.
    pub conflict: bool,
}

/// A file that is put back.
pub struct ReapplyView {
    pub path: Seq<char>,
    pub target: Seq<char>,
    pub entry: Entry,
    pub conflict: bool,
}

impl View for Reapply {
    type V = ReapplyView;

    open spec fn view(&self) -> ReapplyView {
        ReapplyView { path: self.path@, target: self.target@, entry: self.entry, conflict: self.conflict }
    }
}

/// The files that are put back.
pub open spec fn reapply_views(v: Seq<Reapply>) -> Seq<ReapplyView> {
    v.map_values(|r: Reapply| r@)
}

/// An entry whose path is UTF-8 and not in a protected directory is put back.
pub open spec fn is_put_back(path: Seq<u8>) -> bool {
    vstd::utf8::valid_utf8(path) && !crate::cmd::restore::is_protected(vstd::utf8::decode_utf8(path), true)
}

/// Both trees have the path, with different contents.
pub open spec fn in_conflict(path: Seq<u8>, entry: Entry, current: Map<Seq<u8>, Entry>) -> bool {
    current.contains_key(path) && current[path].blob_hash@ != entry.blob_hash@
}

/// The files that are put back on the pulled state, in the order in which the
/// entries are listed. Where both sides have a file, the local one wins, and the
/// file is marked where the contents differ.
pub open spec fn put_back(
    root: Seq<char>,
    items: Seq<(Vec<u8>, Entry)>,
    current: Map<Seq<u8>, Entry>,
) -> Seq<ReapplyView>
    decreases items.len(),
{
    if items.len() == 0 {
        Seq::empty()
    } else {
        let before = put_back(root, items.drop_last(), current);
        let path = items.last().0@;
        let entry = items.last().1;
        if is_put_back(path) {
            let text = vstd::utf8::decode_utf8(path);
            before.push(
                ReapplyView {
                    path: text,
                    target: crate::paths::under(root, text),
                    entry,
                    conflict: in_conflict(path, entry, current),
                },
            )
        } else {
            before
        }
    }
}

/// Decides which files of a stash are put back on the pulled state.
pub fn plan_reapply(root: &str, stash: &Tree, current: &Tree) -> (plan: Vec<Reapply>)
    ensures
        exists|items: Seq<(Vec<u8>, Entry)>| #[trigger]
            crate::tree::lists(stash@, items) && reapply_views(plan@) == put_back(root@, items, current@),
{
    let items = stash.entries_with_paths();
    let mut plan: Vec<Reapply> = Vec::new();
    let mut i: usize = 0;
    assert(items@.take(0) =~= Seq::empty());
    assert(reapply_views(plan@) =~= Seq::empty());
    while i < items.len()
        invariant
            i <= items.len(),
            reapply_views(plan@) == put_back(root@, items@.take(i as int), current@),
        decreases items.len() - i,
    {
        let ghost before = plan@;
        let ghost next = items@.take(i + 1);
        let ghost path = items@[i as int].0@;
        proof {
            assert(next.drop_last() =~= items@.take(i as int));
        }
        let entry: Entry = items[i].1;
        match utf8_text(items[i].0.as_slice()) {
            Ok(text) => {
                let chars = chars_of(text.as_str());
                if !is_protected_path(chars.as_slice(), true) {
                    let name = text.as_str();
                    proof {
                        vstd::utf8::decode_utf8_encode_utf8(path);
                        assert(name.spec_bytes() == path);
                    }
                    let conflict: bool = match current.get(name) {
                        Some(e) => e.blob_hash != entry.blob_hash,
                        None => false,
                    };
                    let target = path_under(root, text.as_str());
                    plan.push(Reapply { path: text, target, entry, conflict });
                    assert(reapply_views(plan@) =~= reapply_views(before).push(plan@.last()@));
                }
            },
            Err(_) => {},
        }
        i = i + 1;
    }
    assert(items@.take(items@.len() as int) =~= items@);
    plan
}

/// The paths of the files that both sides changed.
pub open spec fn conflicts(plan: Seq<ReapplyView>) -> Seq<Seq<char>>
    decreases plan.len(),
{
    if plan.len() == 0 {
        Seq::empty()
    } else {
        let before = conflicts(plan.drop_last());
        if plan.last().conflict {
            before.push(plan.last().path)
        } else {
            before
        }
    }
}

fn conflicts_of(plan: &Vec<Reapply>) -> (paths: Vec<String>)
    ensures
        crate::text::texts(paths@) == conflicts(reapply_views(plan@)),
{
    let ghost all = reapply_views(plan@);
    let mut paths: Vec<String> = Vec::new();
    let mut i: usize = 0;
    assert(all.take(0) =~= Seq::empty());
    assert(crate::text::texts(paths@) =~= Seq::empty());
    while i < plan.len()
        invariant
            i <= plan.len(),
            all == reapply_views(plan@),
            crate::text::texts(paths@) == conflicts(all.take(i as int)),
        decreases plan.len() - i,
    {
        let ghost before = paths@;
        assert(all.take(i + 1).drop_last() =~= all.take(i as int));
        assert(all.take(i + 1).last() == plan@[i as int]@);
        if plan[i].conflict {
            paths.push(plan[i].path.clone());
            assert(crate::text::texts(paths@) =~= crate::text::texts(before).push(plan@[i as int].path@));
        }
        i = i + 1;
    }
    assert(all.take(all.len() as int) =~= all);
    paths
}

/// A file that both sides changed.
pub open spec fn conflict_line(path: Seq<char>) -> Seq<SpanView> {
    seq![crate::ui::plain("  "@), crate::ui::styled(path, Style::Dimmed)]
}

/// The files that both sides changed: the first five, and how many more there are.
pub open spec fn conflict_lines(paths: Seq<Seq<char>>) -> Seq<Seq<SpanView>> {
    let head = seq![
        seq![
            crate::ui::styled("!"@, Style::Yellow),
            crate::ui::plain(
                " "@ + crate::text::decimal(paths.len()) + " files had both local and remote changes (local wins):"@,
            ),
        ],
    ];
    if paths.len() == 0 {
        crate::ui::empty_page()
    } else if paths.len() <= 5 {
        head + paths.map_values(|p: Seq<char>| conflict_line(p))
    } else {
        head + paths.take(5).map_values(|p: Seq<char>| conflict_line(p)) + seq![
            seq![
                crate::ui::styled(
                    "  ... and "@ + crate::text::decimal((paths.len() - 5) as nat) + " more"@,
                    Style::Plain,
                ),
            ],
        ]
    }
}

/// The outcome of putting a stash back on the pulled state.
pub open spec fn put_back_page(plan: Seq<ReapplyView>) -> Seq<Seq<SpanView>> {
    seq![
        seq![
            crate::ui::styled("✓"@, Style::Green),
            crate::ui::plain(" Re-applied "@),
            crate::ui::styled(crate::text::decimal(plan.len()), Style::Green),
            crate::ui::plain(" files from stash"@),
        ],
    ] + conflict_lines(conflicts(plan))
}

/// Shows the outcome of putting back all files of a plan.
pub fn reapply_stash(plan: &Vec<Reapply>) -> (p: Vec<Vec<Span>>)
    ensures
        crate::ui::page(p@) == put_back_page(reapply_views(plan@)),
{
    let mut p = no_lines();
    let mut l = blank();
    put(&mut l, "✓", Style::Green);
    put(&mut l, " Re-applied ", Style::Plain);
    put_number(&mut l, plan.len() as u64, Style::Green);
    put(&mut l, " files from stash", Style::Plain);
    add_line(&mut p, l);
    let ghost first = crate::ui::page(p@);
    assert(first =~~= seq![
        seq![
            crate::ui::styled("✓"@, Style::Green),
            crate::ui::plain(" Re-applied "@),
            crate::ui::styled(crate::text::decimal(plan@.len()), Style::Green),
            crate::ui::plain(" files from stash"@),
        ],
    ]);
    let paths = conflicts_of(plan);
    let n: usize = paths.len();
    let ghost all = crate::text::texts(paths@);
    if n > 0 {
        let mut l = blank();
        put(&mut l, "!", Style::Yellow);
        put(
            &mut l,
            counted_text(" ", n as u64, " files had both local and remote changes (local wins):").as_str(),
            Style::Plain,
        );
        add_line(&mut p, l);
        let ghost head = crate::ui::page(p@);
        let ghost rows = all.map_values(|p: Seq<char>| conflict_line(p));
        let mut i: usize = 0;
        assert(crate::ui::page(p@) =~= head + rows.take(0));
        while i < n && i < 5
            invariant
                i <= n,
                i <= 5,
                n == paths.len(),
                all == crate::text::texts(paths@),
                rows == all.map_values(|p: Seq<char>| conflict_line(p)),
                crate::ui::page(p@) == head + rows.take(i as int),
            decreases n - i,
        {
            let mut l = blank();
            put(&mut l, "  ", Style::Plain);
            put(&mut l, paths[i].as_str(), Style::Dimmed);
            assert(crate::ui::line(l@) =~= conflict_line(all[i as int]));
            add_line(&mut p, l);
            i = i + 1;
            assert(crate::ui::page(p@) =~= head + rows.take(i as int));
        }
        if n > 5 {
            assert(rows.take(5) =~= all.take(5).map_values(|p: Seq<char>| conflict_line(p)));
            add_text(&mut p, counted_text("  ... and ", (n - 5) as u64, " more").as_str(), Style::Plain);
        } else {
            assert(rows.take(n as int) =~= rows);
        }
    }
    assert(crate::ui::page(p@) =~~= first + conflict_lines(all));
    p
}

/// Putting a stash back never loses a local change: every entry of the stash whose
/// path is UTF-8 and unprotected is put back with its own content.
pub proof fn local_changes_survive(
    root: Seq<char>,
    items: Seq<(Vec<u8>, Entry)>,
    current: Map<Seq<u8>, Entry>,
    i: int,
)
    requires
        0 <= i < items.len(),
        is_put_back(items[i].0@),
    ensures
        exists|j: int|
            0 <= j < put_back(root, items, current).len() && (#[trigger] put_back(root, items, current)[j]).path
                == vstd::utf8::decode_utf8(items[i].0@) && put_back(root, items, current)[j].entry == items[i].1,
    decreases items.len(),
{
    let all = put_back(root, items, current);
    if i == items.len() - 1 {
        assert(all.last().path == vstd::utf8::decode_utf8(items[i].0@));
    } else {
        local_changes_survive(root, items.drop_last(), current, i);
        let before = put_back(root, items.drop_last(), current);
        let j = choose|j: int|
            0 <= j < before.len() && (#[trigger] before[j]).path == vstd::utf8::decode_utf8(items[i].0@) && before[j].entry
                == items[i].1;
        assert(all[j] == before[j]);
    }
}

/// What importing the remote's commit led to.
pub open spec fn import_page(already_present: bool, commit: Seq<char>, id: u128) -> Seq<Seq<SpanView>> {
    let short = crate::ui::styled(crate::ids::ulid_text(id).take(8), Style::BrightCyan);
    if already_present {
        seq![
            seq![
                crate::ui::styled("✓"@, Style::Green),
                crate::ui::plain(" Already up to date (checkpoint "@),
                short,
                crate::ui::plain(")"@),
            ],
        ]
    } else {
        seq![
            crate::ui::empty_line(),
            seq![crate::ui::styled("Importing remote changes..."@, Style::Dimmed)],
            seq![
                crate::ui::styled("✓"@, Style::Green),
                crate::ui::plain(" Imported "@),
                crate::ui::styled(crate::ui::clip(commit, COMMIT_CHARS as nat), Style::BrightYellow),
                crate::ui::plain(" as checkpoint "@),
                short,
            ],
            crate::ui::empty_line(),
            seq![crate::ui::styled("Syncing working directory..."@, Style::Dimmed)],
        ]
    }
}

/// Shows what importing the remote's commit led to. The working directory is
/// brought to the checkpoint only where it was not already present.
pub fn show_import(already_present: bool, commit: &str, id: u128) -> (p: Vec<Vec<Span>>)
    ensures
        crate::ui::page(p@) == import_page(already_present, commit@, id),
{
    let mut p = no_lines();
    let short = short_id(id);
    if already_present {
        let mut l = blank();
        put(&mut l, "✓", Style::Green);
        put(&mut l, " Already up to date (checkpoint ", Style::Plain);
        put(&mut l, short.as_str(), Style::BrightCyan);
        put(&mut l, ")", Style::Plain);
        add_line(&mut p, l);
    } else {
        add_blank(&mut p);
        add_text(&mut p, "Importing remote changes...", Style::Dimmed);
        let mut l = blank();
        put(&mut l, "✓", Style::Green);
        put(&mut l, " Imported ", Style::Plain);
        put(&mut l, clipped(commit, COMMIT_CHARS).as_str(), Style::BrightYellow);
        put(&mut l, " as checkpoint ", Style::Plain);
        put(&mut l, short.as_str(), Style::BrightCyan);
        add_line(&mut p, l);
        add_blank(&mut p);
        add_text(&mut p, "Syncing working directory...", Style::Dimmed);
    }
    assert(crate::ui::page(p@) =~~= import_page(already_present, commit@, id));
    p
}

/// The outcome of writing the files of the imported checkpoint: the first three
/// errors.
pub open spec fn synced_page(files: nat, errors: Seq<Seq<char>>) -> Seq<Seq<SpanView>> {
    let first = seq![
        crate::ui::styled("✓"@, Style::Green),
        crate::ui::plain(" Synced "@),
        crate::ui::styled(crate::text::decimal(files), Style::Green),
        crate::ui::plain(" files"@),
    ];
    if errors.len() == 0 {
        seq![first]
    } else {
        let shown = if errors.len() < 3 {
            errors
        } else {
            errors.take(3)
        };
        seq![
            first,
            seq![
                crate::ui::styled("!"@, Style::Yellow),
                crate::ui::plain(" "@ + crate::text::decimal(errors.len()) + " errors during sync"@),
            ],
        ] + shown.map_values(|e: Seq<char>| conflict_line(e))
    }
}

/// Shows the outcome of writing the files of the imported checkpoint.
pub fn show_synced(result: &RestoreResult) -> (p: Vec<Vec<Span>>)
    ensures
        crate::ui::page(p@) == synced_page(result.files_restored as nat, result.messages()),
{
    let ghost errors = result.messages();
    let n: usize = result.errors.len();
    let mut p = no_lines();
    let mut l = blank();
    put(&mut l, "✓", Style::Green);
    put(&mut l, " Synced ", Style::Plain);
    put_number(&mut l, result.files_restored as u64, Style::Green);
    put(&mut l, " files", Style::Plain);
    add_line(&mut p, l);
    if n == 0 {
        assert(crate::ui::page(p@) =~~= synced_page(result.files_restored as nat, errors));
        return p;
    }
    let mut l = blank();
    put(&mut l, "!", Style::Yellow);
    put(&mut l, counted_text(" ", n as u64, " errors during sync").as_str(), Style::Plain);
    add_line(&mut p, l);
    let ghost head = crate::ui::page(p@);
    let ghost rows = errors.map_values(|e: Seq<char>| conflict_line(e));
    let mut i: usize = 0;
    assert(crate::ui::page(p@) =~= head + rows.take(0));
    while i < n && i < 3
        invariant
            i <= n,
            i <= 3,
            n == result.errors.len(),
            errors == result.messages(),
            rows == errors.map_values(|e: Seq<char>| conflict_line(e)),
            crate::ui::page(p@) == head + rows.take(i as int),
        decreases n - i,
    {
        let mut l = blank();
        put(&mut l, "  ", Style::Plain);
        put(&mut l, result.errors[i].as_str(), Style::Dimmed);
        assert(crate::ui::line(l@) =~= conflict_line(errors[i as int]));
        add_line(&mut p, l);
        i = i + 1;
        assert(crate::ui::page(p@) =~= head + rows.take(i as int));
    }
    proof {
        let shown = if errors.len() < 3 {
            errors
        } else {
            errors.take(3)
        };
        assert(rows.take(i as int) =~= shown.map_values(|e: Seq<char>| conflict_line(e)));
        assert(crate::ui::page(p@) =~~= synced_page(result.files_restored as nat, errors));
    }
    p
}

/// What is put back: each file of the stash whose path is UTF-8 and not inside a directory
/// that is left alone, once and in order, below the root, with its own content; it is in
/// conflict exactly where the directory holds another content under that path.
pub proof fn files_are_put_back(
    root: Seq<char>,
    items: Seq<(Vec<u8>, Entry)>,
    current: Map<Seq<u8>, Entry>,
)
    ensures
        put_back(root, items, current).len() == items.filter(|e: (Vec<u8>, Entry)| is_put_back(e.0@)).len(),
        forall|k: int|
            0 <= k < put_back(root, items, current).len() ==> {
                let e = items.filter(|e: (Vec<u8>, Entry)| is_put_back(e.0@))[k];
                let r = #[trigger] put_back(root, items, current)[k];
                &&& r.path == vstd::utf8::decode_utf8(e.0@)
                &&& r.target == crate::paths::under(root, r.path)
                &&& r.entry == e.1
                &&& r.conflict <==> current.contains_key(e.0@) && current[e.0@].blob_hash@ != e.1.blob_hash@
            },
    decreases items.len(),
{
    reveal(Seq::filter);
    if items.len() > 0 {
        files_are_put_back(root, items.drop_last(), current);
    }
}

/// A path is put back unless its first name is that of a directory that is left alone.
pub proof fn inner_paths_are_not_put_back(path: Seq<char>)
    ensures
        is_put_back(vstd::utf8::encode_utf8(path)) <==> !exists|i: int|
            0 <= i < path.len() && #[trigger] path[i] == '/' && (path.take(i) == seq!['.', 't', 'l'] || path.take(i)
                == seq!['.', 'g', 'i', 't'] || path.take(i) == seq!['.', 'j', 'j']),
{
    vstd::utf8::encode_utf8_decode_utf8(path);
    vstd::utf8::encode_utf8_valid_utf8(path);
    crate::cmd::restore::inner_directories_are_passed_over(path, true);
}

/// The conflicts that are shown are the paths in conflict, in order.
pub proof fn conflicts_are_shown(plan: Seq<ReapplyView>)
    ensures
        conflicts(plan) == plan.filter(|r: ReapplyView| r.conflict).map_values(|r: ReapplyView| r.path),
    decreases plan.len(),
{
    reveal(Seq::filter);
    let f = |r: ReapplyView| r.path;
    let pred = |r: ReapplyView| r.conflict;
    if plan.len() > 0 {
        conflicts_are_shown(plan.drop_last());
        assert(plan.filter(pred).map_values(f) =~= conflicts(plan));
    } else {
        assert(plan.filter(pred).map_values(f) =~= conflicts(plan));
    }
}

/// Of the conflicts at most five are named, and their number is always shown.
pub proof fn at_most_five_conflicts_are_named(paths: Seq<Seq<char>>)
    ensures
        paths.len() == 0 ==> conflict_lines(paths).len() == 0,
        0 < paths.len() <= 5 ==> conflict_lines(paths).len() == paths.len() + 1,
        paths.len() > 5 ==> conflict_lines(paths).len() == 7,
        forall|k: int|
            0 <= k < paths.len() && k < 5 ==> (#[trigger] conflict_lines(paths)[k + 1])[1].text == paths[k],
{
}

} // verus!
