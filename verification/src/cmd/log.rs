//! The timeline of checkpoints.

use vstd::prelude::*;

use crate::format::format_relative_to;
use crate::ids::short_id;
use crate::journal::{pins_of, reason_name, reason_word, Checkpoint, CheckpointView};
use crate::order::sort_texts;
use crate::text::{chars_of, contains_chars, decimal_string};
use crate::tree::{count_changes, Entry, Tree};
use crate::ui::{
    add_blank, add_line, add_page, add_text, blank, counted_text, joined_texts, no_lines, padded_to, put, put_number, Span,
    SpanView, Style,
};

verus! {

/// What the timeline shows and how.
#[derive(Debug)]
pub struct LogOptions {
    /// Number of checkpoints to show.
    pub limit: Option<usize>,
    /// One line for each checkpoint.
    pub oneline: bool,
    /// With the line of descent drawn.
    pub graph: bool,
    /// Only checkpoints of this author. Checkpoints record no author, so nothing is
    /// filtered.
    pub author_filter: Option<String>,
    /// Only checkpoints that touched a path with this text in it.
    pub grep_filter: Option<String>,
}

/// The number of checkpoints shown where none is asked for.
pub const DEFAULT_LIMIT: usize = 20;

impl LogOptions {
    /// The options of a plain listing.
    pub fn new(limit: Option<usize>) -> (o: Self)
        ensures
            o == (LogOptions { limit, oneline: false, graph: false, author_filter: None, grep_filter: None }),
    {
        LogOptions { limit, oneline: false, graph: false, author_filter: None, grep_filter: None }
    }

    /// The number of checkpoints to ask for.
    pub fn shown(&self) -> (n: usize)
        ensures
            n == (match self.limit {
                Some(n) => n,
                None => DEFAULT_LIMIT,
            }),
    {
        match self.limit {
            Some(n) => n,
            None => DEFAULT_LIMIT,
        }
    }
}

/// The checkpoint touched a path with the given text in it.
pub open spec fn mentions(cp: CheckpointView, pattern: Seq<char>) -> bool {
    exists|i: int|
        0 <= i < cp.touched_paths.len() && crate::text::occurs_in(pattern, #[trigger] cp.touched_paths[i])
}

fn has_mention(cp: &Checkpoint, pattern: &[char]) -> (r: bool)
    ensures
        r == mentions(cp@, pattern@),
{
    let mut i: usize = 0;
    while i < cp.touched_paths.len()
        invariant
            i <= cp.touched_paths.len(),
            forall|j: int| 0 <= j < i ==> !crate::text::occurs_in(pattern@, #[trigger] cp@.touched_paths[j]),
        decreases cp.touched_paths.len() - i,
    {
        assert(cp@.touched_paths[i as int] == cp.touched_paths@[i as int]@);
        let path = chars_of(cp.touched_paths[i].as_str());
        if contains_chars(path.as_slice(), pattern) {
            return true;
        }
        i = i + 1;
    }
    false
}

/// The checkpoints that mention the given text, in their order.
pub open spec fn mentioning(cps: Seq<CheckpointView>, pattern: Seq<char>) -> Seq<CheckpointView> {
    cps.filter(|c: CheckpointView| mentions(c, pattern))
}

/// Keeps the checkpoints that touched a path with the given text in it.
pub fn grep(cps: &Vec<Checkpoint>, pattern: &str) -> (kept: Vec<Checkpoint>)
    ensures
        crate::journal::views(kept@) == mentioning(crate::journal::views(cps@), pattern@),
{
    let ghost all = crate::journal::views(cps@);
    let wanted = chars_of(pattern);
    let mut kept: Vec<Checkpoint> = Vec::new();
    let mut i: usize = 0;
    proof {
        reveal(Seq::filter);
        assert(all.take(0) =~= Seq::empty());
        assert(crate::journal::views(kept@) =~= Seq::empty());
    }
    while i < cps.len()
        invariant
            i <= cps.len(),
            wanted@ == pattern@,
            all == crate::journal::views(cps@),
            crate::journal::views(kept@) == mentioning(all.take(i as int), pattern@),
        decreases cps.len() - i,
    {
        let ghost before = kept@;
        proof {
            reveal(Seq::filter);
            assert(all.take(i + 1).drop_last() =~= all.take(i as int));
            assert(all.take(i + 1).last() == cps@[i as int]@);
        }
        if has_mention(&cps[i], wanted.as_slice()) {
            let c = cps[i].clone();
            kept.push(c);
            assert(crate::journal::views(kept@) =~= crate::journal::views(before).push(c@));
        }
        i = i + 1;
    }
    assert(all.take(all.len() as int) =~= all);
    kept
}

/// What the number of changes of a checkpoint is found from.
#[derive(Debug, Clone, Copy, PartialEq, Eq, Structural)]
pub enum SummaryPlan {
    /// The first checkpoint: every file of its tree was added.
    CountAll,
    /// The difference to the tree of the listed checkpoint at this position.
    Against {
        /// Position in the list.
        position: usize,
    },
    /// The parent is not listed.
    Unlisted,
}

/// `plan` is how the changes of the checkpoint at `i` are counted: the parent is
/// looked for behind it in the list.
pub open spec fn is_plan(cps: Seq<CheckpointView>, i: int, plan: SummaryPlan) -> bool {
    match plan {
        SummaryPlan::CountAll => cps[i].parent is None,
        SummaryPlan::Against { position } => {
            &&& i < position < cps.len()
            &&& cps[i].parent == Some(cps[position as int].id)
            &&& forall|j: int| i < j < position ==> Some((#[trigger] cps[j]).id) != cps[i].parent
        },
        SummaryPlan::Unlisted => {
            &&& cps[i].parent is Some
            &&& forall|j: int| i < j < cps.len() ==> Some((#[trigger] cps[j]).id) != cps[i].parent
        },
    }
}

/// Decides how the changes of a listed checkpoint are counted.
pub fn summary_plan(cps: &Vec<Checkpoint>, i: usize) -> (plan: SummaryPlan)
    requires
        i < cps.len(),
    ensures
        is_plan(crate::journal::views(cps@), i as int, plan),
{
    let ghost all = crate::journal::views(cps@);
    assert(all[i as int] == cps@[i as int]@);
    let parent: u128 = match cps[i].parent {
        None => {
            return SummaryPlan::CountAll;
        },
        Some(p) => p,
    };
    let mut j: usize = i + 1;
    while j < cps.len()
        invariant
            i < j <= cps.len(),
            all == crate::journal::views(cps@),
            all[i as int].parent == Some(parent),
            forall|k: int| i < k < j ==> (#[trigger] all[k]).id != parent,
        decreases cps.len() - j,
    {
        assert(all[j as int] == cps@[j as int]@);
        if cps[j].id == parent {
            return SummaryPlan::Against { position: j };
        }
        j = j + 1;
    }
    SummaryPlan::Unlisted
}

/// What a tree holds, where it could be read.
pub open spec fn held(tree: Option<&Tree>) -> Option<Map<Seq<u8>, Entry>> {
    match tree {
        Some(t) => Some(t@),
        None => None,
    }
}

/// The numbers of paths added, removed and modified, where the plan and the trees give
/// them.
pub open spec fn planned_counts(
    plan: SummaryPlan,
    old: Option<Map<Seq<u8>, Entry>>,
    new: Option<Map<Seq<u8>, Entry>>,
) -> Option<(nat, nat, nat)> {
    match (plan, old, new) {
        (SummaryPlan::CountAll, _, Some(n)) => Some((n.dom().len(), 0, 0)),
        (SummaryPlan::Against { .. }, Some(o), Some(n)) => Some(crate::tree::change_counts(o, n)),
        _ => None,
    }
}

/// Counts the changes of a checkpoint, given its tree and that of its parent, each
/// where it could be read.
pub fn count_planned(plan: SummaryPlan, old: Option<&Tree>, new: Option<&Tree>) -> (c: Option<(usize, usize, usize)>)
    ensures
        counts(c) == planned_counts(plan, held(old), held(new)),
{
    match (plan, old, new) {
        (SummaryPlan::CountAll, _, Some(n)) => Some((n.len(), 0, 0)),
        (SummaryPlan::Against { .. }, Some(o), Some(n)) => Some(count_changes(o, n)),
        _ => None,
    }
}

/// Numbers of paths added, removed and modified.
pub open spec fn counts(summary: Option<(usize, usize, usize)>) -> Option<(nat, nat, nat)> {
    match summary {
        Some(c) => Some((c.0 as nat, c.1 as nat, c.2 as nat)),
        None => None,
    }
}

/// The kinds of changes that occurred, each with its number.
pub open spec fn summary_parts(added: nat, removed: nat, modified: nat) -> Seq<Seq<char>> {
    let m = if modified > 0 {
        seq![crate::text::decimal(modified) + " modified"@]
    } else {
        Seq::empty()
    };
    let a = if added > 0 {
        seq![crate::text::decimal(added) + " added"@]
    } else {
        Seq::empty()
    };
    let r = if removed > 0 {
        seq![crate::text::decimal(removed) + " removed"@]
    } else {
        Seq::empty()
    };
    m + a + r
}

/// The changes of a checkpoint: their numbers where they are known, else the number
/// of files recorded with it.
pub open spec fn summary_span(summary: Option<(nat, nat, nat)>, files_changed: nat) -> SpanView {
    match summary {
        None => crate::ui::plain(crate::text::decimal(files_changed)),
        Some(c) => {
            if c.0 + c.1 + c.2 == 0 {
                crate::ui::styled("no changes"@, Style::Dimmed)
            } else {
                crate::ui::plain(crate::ui::join(summary_parts(c.0, c.1, c.2), ", "@))
            }
        },
    }
}

fn put_summary(l: &mut Vec<Span>, summary: Option<(usize, usize, usize)>, files_changed: u32)
    ensures
        crate::ui::line(final(l)@) == crate::ui::line(old(l)@).push(
            summary_span(counts(summary), files_changed as nat),
        ),
{
    match summary {
        None => put_number(l, files_changed as u64, Style::Plain),
        Some((added, removed, modified)) => {
            if added == 0 && removed == 0 && modified == 0 {
                put(l, "no changes", Style::Dimmed);
            } else {
                let mut parts: Vec<String> = Vec::new();
                if modified > 0 {
                    let mut s = decimal_string(modified as u64);
                    s.append(" modified");
                    parts.push(s);
                }
                if added > 0 {
                    let mut s = decimal_string(added as u64);
                    s.append(" added");
                    parts.push(s);
                }
                if removed > 0 {
                    let mut s = decimal_string(removed as u64);
                    s.append(" removed");
                    parts.push(s);
                }
                assert(crate::text::texts(parts@) =~= summary_parts(added as nat, removed as nat, modified as nat));
                let text = joined_texts(&parts, ", ");
                put(l, text.as_str(), Style::Plain);
            }
        },
    }
}

/// The names pinned to a checkpoint, sorted.
pub open spec fn sorted_pins(pins: Seq<(Seq<char>, u128)>, id: u128) -> Seq<Seq<char>> {
    crate::order::sorted_texts(crate::journal::pin_names(pins, id))
}

/// The names pinned to a checkpoint, each in brackets.
pub open spec fn bracketed(names: Seq<Seq<char>>) -> Seq<SpanView>
    decreases names.len(),
{
    if names.len() == 0 {
        crate::ui::empty_line()
    } else {
        bracketed(names.drop_last()).push(crate::ui::plain("("@)).push(
            crate::ui::styled(names.last(), Style::Cyan),
        ).push(crate::ui::plain(") "@))
    }
}

fn put_bracketed(l: &mut Vec<Span>, names: &Vec<String>)
    ensures
        crate::ui::line(final(l)@) == crate::ui::line(old(l)@) + bracketed(crate::text::texts(names@)),
{
    let ghost all = crate::text::texts(names@);
    let ghost start = crate::ui::line(l@);
    let mut i: usize = 0;
    assert(all.take(0) =~= Seq::empty());
    assert(start + bracketed(all.take(0)) =~= start);
    while i < names.len()
        invariant
            i <= names.len(),
            all == crate::text::texts(names@),
            crate::ui::line(l@) == start + bracketed(all.take(i as int)),
        decreases names.len() - i,
    {
        put(l, "(", Style::Plain);
        put(l, names[i].as_str(), Style::Cyan);
        put(l, ") ", Style::Plain);
        proof {
            let next = all.take(i + 1);
            assert(next.drop_last() =~= all.take(i as int));
            assert(next.last() == names@[i as int]@);
            assert(crate::ui::line(l@) =~= start + bracketed(next));
        }
        i = i + 1;
    }
    assert(all.take(all.len() as int) =~= all);
}

/// What changed in a checkpoint, in short: its first path and how many follow.
pub open spec fn first_path(paths: Seq<Seq<char>>) -> Seq<SpanView> {
    if paths.len() == 0 {
        seq![crate::ui::plain("no changes"@)]
    } else if paths.len() == 1 {
        seq![crate::ui::styled(paths[0], Style::Dimmed)]
    } else {
        seq![
            crate::ui::styled(paths[0], Style::Dimmed),
            crate::ui::plain(" (+"@ + crate::text::decimal((paths.len() - 1) as nat) + " more)"@),
        ]
    }
}

/// A checkpoint on one line.
pub open spec fn oneline(cp: CheckpointView, pins: Seq<(Seq<char>, u128)>, now: Option<u64>) -> Seq<SpanView> {
    seq![crate::ui::styled(crate::ids::ulid_text(cp.id).take(8), Style::Yellow), crate::ui::plain(" "@)] + bracketed(
        sorted_pins(pins, cp.id),
    ) + seq![
        crate::ui::styled(crate::journal::reason_title(cp.reason), Style::Cyan),
        crate::ui::plain(" - "@),
    ] + first_path(cp.touched_paths) + seq![
        crate::ui::plain(" ["@),
        crate::ui::styled(crate::format::relative_time(now, cp.ts_unix_ms), Style::Dimmed),
        crate::ui::plain("]"@),
    ]
}

fn oneline_of(cp: &Checkpoint, pins: &Vec<(String, u128)>, now: Option<u64>) -> (l: Vec<Span>)
    ensures
        crate::ui::line(l@) == oneline(cp@, crate::journal::pin_views(pins@), now),
{
    let ghost paths = cp@.touched_paths;
    let mut l = blank();
    put(&mut l, short_id(cp.id).as_str(), Style::Yellow);
    put(&mut l, " ", Style::Plain);
    let names = sort_texts(&pins_of(pins, cp.id));
    put_bracketed(&mut l, &names);
    put(&mut l, reason_name(cp.reason), Style::Cyan);
    put(&mut l, " - ", Style::Plain);
    let n: usize = cp.touched_paths.len();
    if n > 0 {
        assert(paths[0] == cp.touched_paths@[0]@);
        put(&mut l, cp.touched_paths[0].as_str(), Style::Dimmed);
        if n > 1 {
            let more = counted_text(" (+", (n - 1) as u64, " more)");
            put(&mut l, more.as_str(), Style::Plain);
        }
    } else {
        put(&mut l, "no changes", Style::Plain);
    }
    put(&mut l, " [", Style::Plain);
    put(&mut l, format_relative_to(now, cp.ts_unix_ms).as_str(), Style::Dimmed);
    put(&mut l, "]", Style::Plain);
    assert(crate::ui::line(l@) =~= oneline(cp@, crate::journal::pin_views(pins@), now));
    l
}

/// The lines of the one-line listing.
pub open spec fn oneline_page(cps: Seq<CheckpointView>, pins: Seq<(Seq<char>, u128)>, now: Option<u64>) -> Seq<
    Seq<SpanView>,
> {
    cps.map_values(|c: CheckpointView| oneline(c, pins, now))
}

/// Shows each checkpoint on one line.
pub fn display_oneline(cps: &Vec<Checkpoint>, pins: &Vec<(String, u128)>, now: Option<u64>) -> (p: Vec<Vec<Span>>)
    ensures
        crate::ui::page(p@) == oneline_page(crate::journal::views(cps@), crate::journal::pin_views(pins@), now),
{
    let ghost all = crate::journal::views(cps@);
    let ghost names = crate::journal::pin_views(pins@);
    let mut p = no_lines();
    let mut i: usize = 0;
    assert(oneline_page(all, names, now).take(0) =~= crate::ui::empty_page());
    while i < cps.len()
        invariant
            i <= cps.len(),
            all == crate::journal::views(cps@),
            names == crate::journal::pin_views(pins@),
            crate::ui::page(p@) == oneline_page(all, names, now).take(i as int),
        decreases cps.len() - i,
    {
        let l = oneline_of(&cps[i], pins, now);
        add_line(&mut p, l);
        i = i + 1;
        assert(crate::ui::page(p@) =~= oneline_page(all, names, now).take(i as int));
    }
    assert(oneline_page(all, names, now).take(all.len() as int) =~= oneline_page(all, names, now));
    p
}

/// A checkpoint of the graph.
pub open spec fn graph_line(cp: CheckpointView, pins: Seq<(Seq<char>, u128)>, now: Option<u64>) -> Seq<SpanView> {
    seq![
        crate::ui::plain(
            if cp.parent is Some {
                "│ "@
            } else {
                "* "@
            },
        ),
        crate::ui::styled(crate::ids::ulid_text(cp.id).take(8), Style::Yellow),
        crate::ui::plain(" "@),
    ] + bracketed(sorted_pins(pins, cp.id)) + seq![
        crate::ui::styled(crate::journal::reason_title(cp.reason), Style::Cyan),
        crate::ui::plain(" - "@),
        crate::ui::styled(crate::format::relative_time(now, cp.ts_unix_ms), Style::Dimmed),
    ]
}

fn graph_line_of(cp: &Checkpoint, pins: &Vec<(String, u128)>, now: Option<u64>) -> (l: Vec<Span>)
    ensures
        crate::ui::line(l@) == graph_line(cp@, crate::journal::pin_views(pins@), now),
{
    let mut l = blank();
    match cp.parent {
        Some(_) => put(&mut l, "│ ", Style::Plain),
        None => put(&mut l, "* ", Style::Plain),
    }
    put(&mut l, short_id(cp.id).as_str(), Style::Yellow);
    put(&mut l, " ", Style::Plain);
    let names = sort_texts(&pins_of(pins, cp.id));
    put_bracketed(&mut l, &names);
    put(&mut l, reason_name(cp.reason), Style::Cyan);
    put(&mut l, " - ", Style::Plain);
    put(&mut l, format_relative_to(now, cp.ts_unix_ms).as_str(), Style::Dimmed);
    assert(crate::ui::line(l@) =~= graph_line(cp@, crate::journal::pin_views(pins@), now));
    l
}

/// The lines of the graph: between two checkpoints stands a connector.
pub open spec fn graph_page(cps: Seq<CheckpointView>, pins: Seq<(Seq<char>, u128)>, now: Option<u64>) -> Seq<
    Seq<SpanView>,
>
    decreases cps.len(),
{
    if cps.len() == 0 {
        crate::ui::empty_page()
    } else if cps.len() == 1 {
        seq![graph_line(cps[0], pins, now)]
    } else {
        graph_page(cps.drop_last(), pins, now).push(seq![crate::ui::plain("│"@)]).push(
            graph_line(cps.last(), pins, now),
        )
    }
}

/// Shows the checkpoints with their line of descent.
pub fn display_graph(cps: &Vec<Checkpoint>, pins: &Vec<(String, u128)>, now: Option<u64>) -> (p: Vec<Vec<Span>>)
    ensures
        crate::ui::page(p@) == graph_page(crate::journal::views(cps@), crate::journal::pin_views(pins@), now),
{
    let ghost all = crate::journal::views(cps@);
    let ghost names = crate::journal::pin_views(pins@);
    let mut p = no_lines();
    let mut i: usize = 0;
    while i < cps.len()
        invariant
            i <= cps.len(),
            all == crate::journal::views(cps@),
            names == crate::journal::pin_views(pins@),
            crate::ui::page(p@) == graph_page(all.take(i as int), names, now),
        decreases cps.len() - i,
    {
        let ghost next = all.take(i + 1);
        if i > 0 {
            add_text(&mut p, "│", Style::Plain);
        }
        let l = graph_line_of(&cps[i], pins, now);
        add_line(&mut p, l);
        proof {
            assert(next.drop_last() =~= all.take(i as int));
            assert(next.last() == cps@[i as int]@);
            assert(crate::ui::page(p@) =~= graph_page(next, names, now));
        }
        i = i + 1;
    }
    assert(all.take(all.len() as int) =~= all);
    p
}

/// The heading of a checkpoint in the full listing.
pub open spec fn full_heading(
    cp: CheckpointView,
    summary: Option<(nat, nat, nat)>,
    pins: Seq<(Seq<char>, u128)>,
    now: Option<u64>,
) -> Seq<SpanView> {
    let heading = seq![
        crate::ui::styled(crate::ids::ulid_text(cp.id).take(8), Style::Yellow),
        crate::ui::plain(" "@),
        crate::ui::plain(crate::ui::pad_right(crate::format::relative_time(now, cp.ts_unix_ms), 15)),
        crate::ui::plain(" ["@),
        crate::ui::styled(crate::journal::reason_title(cp.reason), Style::Cyan),
        crate::ui::plain("] "@),
        summary_span(summary, cp.meta.files_changed as nat),
    ];
    if crate::journal::pin_names(pins, cp.id).len() > 0 {
        heading.push(crate::ui::plain("   📌 "@)).push(
            crate::ui::styled(crate::ui::join(sorted_pins(pins, cp.id), ", "@), Style::Cyan),
        )
    } else {
        heading
    }
}

/// A touched path in the full listing.
pub open spec fn path_line(path: Seq<char>) -> Seq<SpanView> {
    seq![
        crate::ui::plain("  "@),
        crate::ui::styled("M"@, Style::Yellow),
        crate::ui::plain(" "@),
        crate::ui::plain(path),
    ]
}

/// One line for each path.
pub open spec fn lines_for(paths: Seq<Seq<char>>) -> Seq<Seq<SpanView>> {
    paths.map_values(|p: Seq<char>| path_line(p))
}

/// The first three touched paths, and how many more there are.
pub open spec fn path_lines(paths: Seq<Seq<char>>) -> Seq<Seq<SpanView>> {
    if paths.len() > 3 {
        lines_for(paths.take(3)).push(
            seq![
                crate::ui::plain("  "@),
                crate::ui::styled(
                    "... and "@ + crate::text::decimal((paths.len() - 3) as nat) + " more"@,
                    Style::Dimmed,
                ),
            ],
        )
    } else {
        lines_for(paths)
    }
}

fn path_lines_of(paths: &Vec<String>) -> (p: Vec<Vec<Span>>)
    ensures
        crate::ui::page(p@) == path_lines(crate::text::texts(paths@)),
{
    let ghost all = crate::text::texts(paths@);
    let n: usize = paths.len();
    let mut p = no_lines();
    let mut i: usize = 0;
    assert(lines_for(all.take(0)) =~= crate::ui::empty_page());
    while i < n && i < 3
        invariant
            i <= n,
            i <= 3,
            n == paths.len(),
            all == crate::text::texts(paths@),
            crate::ui::page(p@) == lines_for(all.take(i as int)),
        decreases n - i,
    {
        let mut l = blank();
        put(&mut l, "  ", Style::Plain);
        put(&mut l, "M", Style::Yellow);
        put(&mut l, " ", Style::Plain);
        put(&mut l, paths[i].as_str(), Style::Plain);
        assert(crate::ui::line(l@) =~= path_line(all[i as int]));
        add_line(&mut p, l);
        assert(crate::ui::page(p@) =~= lines_for(all.take(i + 1)));
        i = i + 1;
    }
    assert(n <= 3 ==> all.take(i as int) =~= all);
    if n > 3 {
        let mut l = blank();
        put(&mut l, "  ", Style::Plain);
        put(&mut l, counted_text("... and ", (n - 3) as u64, " more").as_str(), Style::Dimmed);
        add_line(&mut p, l);
    }
    assert(crate::ui::page(p@) =~~= path_lines(all));
    p
}

/// A checkpoint in the full listing.
pub open spec fn full_entry(
    cp: CheckpointView,
    summary: Option<(nat, nat, nat)>,
    pins: Seq<(Seq<char>, u128)>,
    now: Option<u64>,
) -> Seq<Seq<SpanView>> {
    seq![full_heading(cp, summary, pins, now)] + path_lines(cp.touched_paths) + seq![crate::ui::empty_line()]
}

fn full_entry_of(
    cp: &Checkpoint,
    summary: Option<(usize, usize, usize)>,
    pins: &Vec<(String, u128)>,
    now: Option<u64>,
) -> (p: Vec<Vec<Span>>)
    ensures
        crate::ui::page(p@) == full_entry(cp@, counts(summary), crate::journal::pin_views(pins@), now),
{
    let ghost heading = full_heading(cp@, counts(summary), crate::journal::pin_views(pins@), now);
    let mut p = no_lines();
    let mut l = blank();
    put(&mut l, short_id(cp.id).as_str(), Style::Yellow);
    put(&mut l, " ", Style::Plain);
    let time = format_relative_to(now, cp.ts_unix_ms);
    put(&mut l, padded_to(time.as_str(), 15).as_str(), Style::Plain);
    put(&mut l, " [", Style::Plain);
    put(&mut l, reason_name(cp.reason), Style::Cyan);
    put(&mut l, "] ", Style::Plain);
    put_summary(&mut l, summary, cp.meta.files_changed);
    let names = pins_of(pins, cp.id);
    assert(crate::text::texts(names@).len() == names@.len());
    if names.len() > 0 {
        put(&mut l, "   📌 ", Style::Plain);
        let sorted = sort_texts(&names);
        put(&mut l, joined_texts(&sorted, ", ").as_str(), Style::Cyan);
    }
    assert(crate::ui::line(l@) =~= heading);
    add_line(&mut p, l);
    let paths = path_lines_of(&cp.touched_paths);
    add_page(&mut p, paths);
    add_blank(&mut p);
    assert(crate::ui::page(p@) =~= full_entry(cp@, counts(summary), crate::journal::pin_views(pins@), now));
    p
}

/// The first `n` checkpoints of the full listing.
pub open spec fn full_entries(
    cps: Seq<CheckpointView>,
    summaries: Seq<Option<(usize, usize, usize)>>,
    pins: Seq<(Seq<char>, u128)>,
    now: Option<u64>,
    n: nat,
) -> Seq<Seq<SpanView>>
    decreases n,
{
    if n == 0 {
        crate::ui::empty_page()
    } else {
        full_entries(cps, summaries, pins, now, (n - 1) as nat) + full_entry(
            cps[n - 1],
            counts(summaries[n - 1]),
            pins,
            now,
        )
    }
}

/// The lines above the full listing.
pub open spec fn full_title() -> Seq<Seq<SpanView>> {
    seq![
        seq![crate::ui::styled("Checkpoint History"@, Style::Bold)],
        seq![crate::ui::styled(crate::ui::rule(), Style::Plain)],
        crate::ui::empty_line(),
    ]
}

/// The lines below the full listing. Where not all checkpoints are shown, they say
/// how to see twice as many, or all.
pub open spec fn full_footer(limit: nat, count: nat) -> Seq<Seq<SpanView>> {
    if count > limit {
        let more: nat = if count < 2 * limit {
            count
        } else {
            2 * limit
        };
        seq![
            seq![
                crate::ui::styled(
                    "Showing "@ + crate::text::decimal(limit) + " of "@ + crate::text::decimal(count)
                        + " total checkpoints"@,
                    Style::Dimmed,
                ),
            ],
            seq![
                crate::ui::styled(
                    "Use 'tl log --limit "@ + crate::text::decimal(more) + "' to see more"@,
                    Style::Dimmed,
                ),
            ],
        ]
    } else {
        seq![seq![crate::ui::styled("Total: "@ + crate::text::decimal(count) + " checkpoints"@, Style::Dimmed)]]
    }
}

/// Shows the checkpoints in full, each with the changes counted as its summary
/// plan says, or with none where they are not known.
pub fn display_full(
    cps: &Vec<Checkpoint>,
    summaries: &Vec<Option<(usize, usize, usize)>>,
    pins: &Vec<(String, u128)>,
    now: Option<u64>,
    limit: usize,
    count: usize,
) -> (p: Vec<Vec<Span>>)
    requires
        summaries.len() == cps.len(),
    ensures
        crate::ui::page(p@) == full_title() + full_entries(
            crate::journal::views(cps@),
            summaries@,
            crate::journal::pin_views(pins@),
            now,
            cps@.len(),
        ) + full_footer(limit as nat, count as nat),
{
    let ghost all = crate::journal::views(cps@);
    let ghost names = crate::journal::pin_views(pins@);
    let mut p = no_lines();
    add_text(&mut p, "Checkpoint History", Style::Bold);
    add_text(&mut p, "━━━━━━━━━━━━━━━━━━━━━━━━━━━━━━━━━━━━━━━━━━━━━━━━━━", Style::Plain);
    add_blank(&mut p);
    assert(crate::ui::page(p@) =~= full_title() + full_entries(all, summaries@, names, now, 0));
    let mut i: usize = 0;
    while i < cps.len()
        invariant
            i <= cps.len(),
            summaries.len() == cps.len(),
            all == crate::journal::views(cps@),
            names == crate::journal::pin_views(pins@),
            crate::ui::page(p@) == full_title() + full_entries(all, summaries@, names, now, i as nat),
        decreases cps.len() - i,
    {
        let entry = full_entry_of(&cps[i], summaries[i], pins, now);
        add_page(&mut p, entry);
        i = i + 1;
        assert(crate::ui::page(p@) =~= full_title() + full_entries(all, summaries@, names, now, i as nat));
    }
    let ghost shown = crate::ui::page(p@);
    if count > limit {
        let mut s = counted_text("Showing ", limit as u64, " of ");
        s.append(decimal_string(count as u64).as_str());
        s.append(" total checkpoints");
        add_text(&mut p, s.as_str(), Style::Dimmed);
        let more: usize = if count - limit < limit {
            count
        } else {
            limit + limit
        };
        add_text(&mut p, counted_text("Use 'tl log --limit ", more as u64, "' to see more").as_str(), Style::Dimmed);
    } else {
        add_text(&mut p, counted_text("Total: ", count as u64, " checkpoints").as_str(), Style::Dimmed);
    }
    assert(crate::ui::page(p@) =~= shown + full_footer(limit as nat, count as nat));
    p
}

/// A checkpoint in a few words.
pub open spec fn compact(cp: CheckpointView, show_ulid: bool, now: Option<u64>) -> Seq<SpanView> {
    let id = if show_ulid {
        seq![crate::ui::styled(crate::ids::ulid_text(cp.id).take(8), Style::Yellow), crate::ui::plain(" "@)]
    } else {
        crate::ui::empty_line()
    };
    id + seq![
        crate::ui::styled(crate::format::relative_time(now, cp.ts_unix_ms), Style::Dimmed),
        crate::ui::plain(" "@),
        crate::ui::styled(crate::journal::reason_text(cp.reason), Style::Cyan),
        crate::ui::plain(" - "@ + crate::text::decimal(cp.meta.files_changed as nat) + " files"@),
    ]
}

/// Shows a checkpoint in a few words.
pub fn display_checkpoint_compact(cp: &Checkpoint, show_ulid: bool, now: Option<u64>) -> (l: Vec<Span>)
    ensures
        crate::ui::line(l@) == compact(cp@, show_ulid, now),
{
    let mut l = blank();
    if show_ulid {
        put(&mut l, short_id(cp.id).as_str(), Style::Yellow);
        put(&mut l, " ", Style::Plain);
    }
    put(&mut l, format_relative_to(now, cp.ts_unix_ms).as_str(), Style::Dimmed);
    put(&mut l, " ", Style::Plain);
    put(&mut l, reason_word(cp.reason), Style::Cyan);
    put(&mut l, counted_text(" - ", cp.meta.files_changed as u64, " files").as_str(), Style::Plain);
    assert(crate::ui::line(l@) =~= compact(cp@, show_ulid, now));
    l
}

/// The lines shown where there is no checkpoint yet.
pub open spec fn nothing_yet() -> Seq<Seq<SpanView>> {
    seq![
        seq![crate::ui::styled("No checkpoints yet"@, Style::Dimmed)],
        crate::ui::empty_line(),
        seq![crate::ui::styled("Tip: Daemon is running and tracking changes automatically"@, Style::Dimmed)],
    ]
}

/// Shows the timeline as the options ask for.
pub fn display(
    options: &LogOptions,
    cps: &Vec<Checkpoint>,
    summaries: &Vec<Option<(usize, usize, usize)>>,
    pins: &Vec<(String, u128)>,
    now: Option<u64>,
    count: usize,
) -> (p: Vec<Vec<Span>>)
    requires
        summaries.len() == cps.len(),
    ensures
        crate::ui::page(p@) == ({
            let all = crate::journal::views(cps@);
            let names = crate::journal::pin_views(pins@);
            let limit: nat = match options.limit {
                Some(n) => n as nat,
                None => DEFAULT_LIMIT as nat,
            };
            if count == 0 {
                nothing_yet()
            } else if options.oneline {
                oneline_page(all, names, now)
            } else if options.graph {
                graph_page(all, names, now)
            } else {
                full_title() + full_entries(all, summaries@, names, now, cps@.len()) + full_footer(limit, count as nat)
            }
        }),
{
    if count == 0 {
        let mut p = no_lines();
        add_text(&mut p, "No checkpoints yet", Style::Dimmed);
        add_blank(&mut p);
        add_text(&mut p, "Tip: Daemon is running and tracking changes automatically", Style::Dimmed);
        assert(crate::ui::page(p@) =~= nothing_yet());
        p
    } else if options.oneline {
        display_oneline(cps, pins, now)
    } else if options.graph {
        display_graph(cps, pins, now)
    } else {
        display_full(cps, summaries, pins, now, options.shown(), count)
    }
}

/// A checkpoint is kept by a search exactly where one of its paths holds the pattern.
pub proof fn search_keeps_the_mentions(
    cps: Seq<CheckpointView>,
    cp: CheckpointView,
    pattern: Seq<char>,
    k: int,
    before: Seq<char>,
    after: Seq<char>,
)
    ensures
        0 <= k < cp.touched_paths.len() && cp.touched_paths[k] == before + pattern + after ==> mentions(cp, pattern),
        mentions(cp, pattern) ==> exists|i: int|
            0 <= i < cp.touched_paths.len() && crate::text::occurs_in(pattern, #[trigger] cp.touched_paths[i]),
        mentioning(cps, pattern).contains(cp) <==> cps.contains(cp) && mentions(cp, pattern),
{
    crate::text::parts_of_a_text(before, pattern, after);
    let pred = |c: CheckpointView| mentions(c, pattern);
    if mentioning(cps, pattern).contains(cp) {
        cps.lemma_filter_contains_rev(pred, cp);
        let j = choose|j: int| 0 <= j < cps.filter(pred).len() && cps.filter(pred)[j] == cp;
        cps.lemma_filter_pred(pred, j);
    }
    if cps.contains(cp) && pred(cp) {
        let i = choose|i: int| 0 <= i < cps.len() && cps[i] == cp;
        cps.lemma_filter_contains(pred, i);
    }
}

/// Each checkpoint of a short listing has one line, in order, that begins with its short
/// identifier; a graph has a line between each two.
pub proof fn each_checkpoint_has_a_line(cps: Seq<CheckpointView>, pins: Seq<(Seq<char>, u128)>, now: Option<u64>, i: int)
    requires
        0 <= i < cps.len(),
    ensures
        oneline_page(cps, pins, now).len() == cps.len(),
        oneline_page(cps, pins, now)[i][0].text == crate::ids::ulid_text(cps[i].id).take(8),
        graph_page(cps, pins, now).len() == 2 * cps.len() - 1,
        graph_page(cps, pins, now)[2 * i] == graph_line(cps[i], pins, now),
        graph_page(cps, pins, now)[2 * i][1].text == crate::ids::ulid_text(cps[i].id).take(8),
    decreases cps.len(),
{
    let page = graph_page(cps, pins, now);
    if cps.len() > 1 {
        let front = cps.drop_last();
        if i < front.len() {
            each_checkpoint_has_a_line(front, pins, now, i);
            assert(page[2 * i] == graph_page(front, pins, now)[2 * i]);
        } else {
            each_checkpoint_has_a_line(front, pins, now, 0);
        }
    }
    assert(oneline_page(cps, pins, now)[i] == oneline(cps[i], pins, now));
}

/// The full listing has an entry for each checkpoint, one after the other.
pub proof fn each_checkpoint_has_an_entry(
    cps: Seq<CheckpointView>,
    summaries: Seq<Option<(usize, usize, usize)>>,
    pins: Seq<(Seq<char>, u128)>,
    now: Option<u64>,
    i: nat,
    n: nat,
)
    requires
        i < n,
    ensures
        ({
            let before = full_entries(cps, summaries, pins, now, i);
            let entry = full_entry(cps[i as int], counts(summaries[i as int]), pins, now);
            let all = full_entries(cps, summaries, pins, now, n);
            &&& before.len() + entry.len() <= all.len()
            &&& all.subrange(before.len() as int, (before.len() + entry.len()) as int) == entry
        }),
    decreases n,
{
    let before = full_entries(cps, summaries, pins, now, i);
    let entry = full_entry(cps[i as int], counts(summaries[i as int]), pins, now);
    let all = full_entries(cps, summaries, pins, now, n);
    let a = before.len() as int;
    let b = a + entry.len();
    if i == n - 1 {
        assert(all.subrange(a, b) =~= entry);
    } else {
        each_checkpoint_has_an_entry(cps, summaries, pins, now, i, (n - 1) as nat);
        let front = full_entries(cps, summaries, pins, now, (n - 1) as nat);
        assert(all.subrange(a, b) =~= front.subrange(a, b));
    }
}

/// What an entry shows of a checkpoint: the beginning of its identifier, when and why it was
/// made, and at most three of its paths.
pub proof fn entries_describe_their_checkpoint(
    cp: CheckpointView,
    summary: Option<(nat, nat, nat)>,
    pins: Seq<(Seq<char>, u128)>,
    now: Option<u64>,
)
    ensures
        full_entry(cp, summary, pins, now)[0][0].text == crate::ids::ulid_text(cp.id).take(8),
        full_entry(cp, summary, pins, now)[0][4].text == crate::journal::reason_title(cp.reason),
        cp.touched_paths.len() <= 3 ==> full_entry(cp, summary, pins, now).len() == cp.touched_paths.len() + 2,
        cp.touched_paths.len() > 3 ==> full_entry(cp, summary, pins, now).len() == 6,
        forall|k: int|
            0 <= k < cp.touched_paths.len() && k < 3 ==> (#[trigger] full_entry(cp, summary, pins, now)[k + 1])[3].text
                == cp.touched_paths[k],
        crate::journal::pin_names(pins, cp.id).len() > 0 <==> full_entry(cp, summary, pins, now)[0].len() == 9,
{
}

/// What is said of the changes: nothing changed only where all three counts are zero, and
/// each count that is not is named, modified ones first.
pub proof fn summaries_name_each_count(added: nat, removed: nat, modified: nat, files: nat)
    ensures
        summary_span(Some((0, 0, 0)), files).text == "no changes"@,
        modified > 0 ==> summary_parts(added, removed, modified)[0] == crate::text::decimal(modified) + " modified"@,
        added > 0 ==> summary_parts(added, removed, modified).contains(crate::text::decimal(added) + " added"@),
        removed > 0 ==> summary_parts(added, removed, modified).last() == crate::text::decimal(removed)
            + " removed"@,
        summary_parts(added, removed, modified).len() == (if added > 0 { 1int } else { 0 }) + (if removed > 0 {
            1int
        } else {
            0
        }) + (if modified > 0 { 1int } else { 0 }),
        summary_span(None, files).text == crate::text::decimal(files),
{
    let parts = summary_parts(added, removed, modified);
    if added > 0 {
        let k: int = if modified > 0 {
            1
        } else {
            0
        };
        assert(parts[k] == crate::text::decimal(added) + " added"@);
    }
}

/// The changes of a checkpoint without a parent are all its files, added; those of another
/// are the differences to its parent, where both trees are there.
pub proof fn changes_are_counted_against_the_parent(
    cps: Seq<CheckpointView>,
    i: int,
    plan: SummaryPlan,
    old: Option<Map<Seq<u8>, Entry>>,
    new: Option<Map<Seq<u8>, Entry>>,
)
    requires
        0 <= i < cps.len(),
        is_plan(cps, i, plan),
    ensures
        cps[i].parent is None ==> plan is CountAll,
        plan is Against ==> cps[i].parent == Some(cps[plan->position as int].id),
        cps[i].parent is None && new is Some ==> planned_counts(plan, old, new) == Some((new->0.dom().len(), 0nat, 0nat)),
        plan is Against && old is Some && new is Some ==> planned_counts(plan, old, new) == Some(
            crate::tree::change_counts(old->0, new->0),
        ),
        new is None ==> planned_counts(plan, old, new) is None,
        plan is Unlisted ==> planned_counts(plan, old, new) is None,
{
}

/// The listing ends by saying how many of the checkpoints it shows, where there are more.
pub proof fn longer_histories_are_announced(limit: nat, count: nat)
    ensures
        count > limit ==> full_footer(limit, count).len() == 2 && full_footer(limit, count)[0][0].text == "Showing "@
            + crate::text::decimal(limit) + " of "@ + crate::text::decimal(count) + " total checkpoints"@,
        count <= limit ==> full_footer(limit, count).len() == 1 && full_footer(limit, count)[0][0].text == "Total: "@
            + crate::text::decimal(count) + " checkpoints"@,
        limit < count < 2 * limit ==> full_footer(limit, count)[1][0].text == "Use 'tl log --limit "@
            + crate::text::decimal(count) + "' to see more"@,
        count >= 2 * limit && count > limit ==> full_footer(limit, count)[1][0].text == "Use 'tl log --limit "@
            + crate::text::decimal(2 * limit) + "' to see more"@,
{
}

} // verus!
