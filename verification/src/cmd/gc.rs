//! Collecting garbage.

use vstd::prelude::*;

use crate::format::format_size;
use crate::journal::{CheckpointView, History, HistoryView};
use crate::system_config::RetentionPolicy;
use crate::ui::{add_blank, add_line, add_text, blank, no_lines, put, put_number, Span, SpanView, Style};

verus! {

/// What a collection removed.
#[derive(Debug, Clone, Copy, PartialEq, Eq, Structural)]
pub struct GcMetrics {
    /// Number of checkpoints.
    pub checkpoints_deleted: usize,
    /// Number of trees.
    pub trees_deleted: usize,
    /// Number of blobs.
    pub blobs_deleted: usize,
    /// Bytes.
    pub bytes_freed: u64,
}

/// A pin names the checkpoint.
pub open spec fn is_pinned(pins: Seq<(Seq<char>, u128)>, id: u128) -> bool {
    exists|k: int| 0 <= k < pins.len() && (#[trigger] pins[k]).1 == id
}

/// The checkpoint was made within the window before `now`.
pub open spec fn is_recent(c: CheckpointView, window_ms: u64, now_ms: u64) -> bool {
    c.ts_unix_ms + window_ms >= now_ms
}

/// A collection keeps the record at this place: it is one of the last, it was made
/// within the window, it is pinned where pins count, or a workspace stands on it.
pub open spec fn is_retained(
    h: HistoryView,
    pins: Seq<(Seq<char>, u128)>,
    workspaces: Seq<u128>,
    policy: RetentionPolicy,
    now_ms: u64,
    i: int,
) -> bool {
    ||| i + policy.retain_dense_count >= h.records.len()
    ||| is_recent(h.records[i], policy.retain_dense_window_ms, now_ms)
    ||| policy.retain_pins && is_pinned(pins, h.records[i].id)
    ||| workspaces.contains(h.records[i].id)
}

fn names_id(pins: &Vec<(String, u128)>, id: u128) -> (r: bool)
    ensures
        r == is_pinned(crate::journal::pin_views(pins@), id),
{
    let ghost all = crate::journal::pin_views(pins@);
    let mut k: usize = 0;
    while k < pins.len()
        invariant
            k <= pins.len(),
            all == crate::journal::pin_views(pins@),
            forall|j: int| 0 <= j < k ==> (#[trigger] all[j]).1 != id,
        decreases pins.len() - k,
    {
        assert(all[k as int].1 == pins@[k as int].1);
        if pins[k].1 == id {
            return true;
        }
        k = k + 1;
    }
    false
}

fn holds_id(ids: &Vec<u128>, id: u128) -> (r: bool)
    ensures
        r == ids@.contains(id),
{
    let mut k: usize = 0;
    while k < ids.len()
        invariant
            k <= ids.len(),
            forall|j: int| 0 <= j < k ==> #[trigger] ids@[j] != id,
        decreases ids.len() - k,
    {
        if ids[k] == id {
            assert(ids@[k as int] == id);
            return true;
        }
        k = k + 1;
    }
    false
}

/// Decides for each record of the history whether a collection keeps it.
pub fn retained_checkpoints(
    history: &History,
    pins: &Vec<(String, u128)>,
    workspaces: &Vec<u128>,
    policy: &RetentionPolicy,
    now_ms: u64,
) -> (kept: Vec<bool>)
    ensures
        kept@.len() == history@.records.len(),
        forall|i: int|
            0 <= i < kept@.len() ==> #[trigger] kept@[i] == is_retained(
                history@,
                crate::journal::pin_views(pins@),
                workspaces@,
                *policy,
                now_ms,
                i,
            ),
{
    let mut kept: Vec<bool> = Vec::new();
    let total: usize = history.records.len();
    let mut i: usize = 0;
    while i < total
        invariant
            i <= total,
            total == history.records@.len(),
            kept@.len() == i,
            forall|j: int|
                0 <= j < i ==> #[trigger] kept@[j] == is_retained(
                    history@,
                    crate::journal::pin_views(pins@),
                    workspaces@,
                    *policy,
                    now_ms,
                    j,
                ),
        decreases total - i,
    {
        let id: u128 = history.records[i].id;
        let ts: u64 = history.records[i].ts_unix_ms;
        assert(history@.records[i as int] == history.records@[i as int]@);
        let keep: bool = total - i <= policy.retain_dense_count || ts as u128 + policy.retain_dense_window_ms as u128
            >= now_ms as u128 || (policy.retain_pins && names_id(pins, id)) || holds_id(workspaces, id);
        kept.push(keep);
        i = i + 1;
    }
    kept
}

/// Where pins count, no collection removes a pinned checkpoint.
pub proof fn pinned_checkpoints_are_retained(
    h: HistoryView,
    pins: Seq<(Seq<char>, u128)>,
    workspaces: Seq<u128>,
    policy: RetentionPolicy,
    now_ms: u64,
    i: int,
    k: int,
)
    requires
        policy.retain_pins,
        0 <= i < h.records.len(),
        0 <= k < pins.len(),
        pins[k].1 == h.records[i].id,
    ensures
        is_retained(h, pins, workspaces, policy, now_ms, i),
{
}

/// What a collection keeps: each of the last records, as many as the policy says, each
/// that was made within the window, each that is pinned where pins count, each that a
/// workspace stands on, and no other.
pub proof fn last_checkpoints_are_retained(
    h: HistoryView,
    pins: Seq<(Seq<char>, u128)>,
    workspaces: Seq<u128>,
    policy: RetentionPolicy,
    now_ms: u64,
    kept: Seq<bool>,
)
    requires
        kept.len() == h.records.len(),
        forall|i: int|
            0 <= i < kept.len() ==> #[trigger] kept[i] == is_retained(h, pins, workspaces, policy, now_ms, i),
    ensures
        forall|i: int| 0 <= i < kept.len() && kept.len() - policy.retain_dense_count <= i ==> #[trigger] kept[i],
        forall|i: int|
            0 <= i < kept.len() && h.records[i].ts_unix_ms >= now_ms - policy.retain_dense_window_ms
                ==> #[trigger] kept[i],
        forall|i: int, k: int|
            0 <= i < kept.len() && policy.retain_pins && 0 <= k < pins.len() && (#[trigger] pins[k]).1
                == h.records[i].id ==> #[trigger] kept[i],
        forall|i: int, k: int|
            0 <= i < kept.len() && 0 <= k < workspaces.len() && #[trigger] workspaces[k] == h.records[i].id
                ==> #[trigger] kept[i],
        forall|i: int|
            0 <= i < kept.len() - policy.retain_dense_count && h.records[i].ts_unix_ms < now_ms
                - policy.retain_dense_window_ms && (policy.retain_pins ==> forall|k: int|
                0 <= k < pins.len() ==> (#[trigger] pins[k]).1 != h.records[i].id) && (forall|k: int|
                0 <= k < workspaces.len() ==> #[trigger] workspaces[k] != h.records[i].id) ==> !#[trigger] kept[i],
{
}

/// A policy that keeps more records, a longer window or the pins keeps what the other
/// keeps.
pub proof fn larger_policies_retain_more(
    h: HistoryView,
    pins: Seq<(Seq<char>, u128)>,
    workspaces: Seq<u128>,
    small: RetentionPolicy,
    large: RetentionPolicy,
    now_ms: u64,
    i: int,
)
    requires
        small.retain_dense_count <= large.retain_dense_count,
        small.retain_dense_window_ms <= large.retain_dense_window_ms,
        small.retain_pins ==> large.retain_pins,
        is_retained(h, pins, workspaces, small, now_ms, i),
    ensures
        is_retained(h, pins, workspaces, large, now_ms, i),
{
}

/// A number between two texts.
pub open spec fn number_line(before: Seq<char>, n: nat, style: Style, after: Seq<char>) -> Seq<SpanView> {
    seq![crate::ui::plain(before), crate::ui::styled(crate::text::decimal(n), style), crate::ui::plain(after)]
}

fn add_number(p: &mut Vec<Vec<Span>>, before: &str, n: u64, style: Style, after: &str)
    ensures
        crate::ui::page(final(p)@) == crate::ui::page(old(p)@).push(number_line(before@, n as nat, style, after@)),
{
    let mut l = blank();
    put(&mut l, before, Style::Plain);
    put_number(&mut l, n, style);
    put(&mut l, after, Style::Plain);
    assert(crate::ui::line(l@) =~= number_line(before@, n as nat, style, after@));
    add_line(p, l);
}

/// The policy as it is shown, the window in whole hours.
pub open spec fn policy_page(policy: RetentionPolicy) -> Seq<Seq<SpanView>> {
    seq![
        seq![crate::ui::styled("Retention policy:"@, Style::Plain)],
        number_line("  Keep last "@, policy.retain_dense_count as nat, Style::Cyan, " checkpoints"@),
        number_line(
            "  Keep all within "@,
            (policy.retain_dense_window_ms / 3600000) as nat,
            Style::Cyan,
            " hours"@,
        ),
        seq![
            crate::ui::plain("  Retain pins: "@),
            if policy.retain_pins {
                crate::ui::styled("yes"@, Style::Green)
            } else {
                crate::ui::styled("no"@, Style::Red)
            },
        ],
        crate::ui::empty_line(),
    ]
}

/// Shows the policy.
pub fn show_policy(policy: &RetentionPolicy) -> (p: Vec<Vec<Span>>)
    ensures
        crate::ui::page(p@) == policy_page(*policy),
{
    let mut p = no_lines();
    add_text(&mut p, "Retention policy:", Style::Plain);
    add_number(&mut p, "  Keep last ", policy.retain_dense_count as u64, Style::Cyan, " checkpoints");
    add_number(&mut p, "  Keep all within ", policy.retain_dense_window_ms / 3600000, Style::Cyan, " hours");
    let mut l = blank();
    put(&mut l, "  Retain pins: ", Style::Plain);
    if policy.retain_pins {
        put(&mut l, "yes", Style::Green);
    } else {
        put(&mut l, "no", Style::Red);
    }
    add_line(&mut p, l);
    add_blank(&mut p);
    assert(crate::ui::page(p@) =~~= policy_page(*policy));
    p
}

/// What is shown of a collection.
pub open spec fn metrics_page(m: GcMetrics) -> Seq<Seq<SpanView>> {
    let title = seq![
        seq![crate::ui::styled("GC Complete"@, Style::BoldGreen)],
        seq![crate::ui::styled(crate::ui::rule(), Style::Plain)],
        crate::ui::empty_line(),
    ];
    if m.checkpoints_deleted == 0 && m.trees_deleted == 0 && m.blobs_deleted == 0 {
        title + seq![
            seq![crate::ui::styled("No garbage found - repository is already clean"@, Style::Dimmed)],
        ]
    } else {
        title + seq![
            number_line("Checkpoints deleted: "@, m.checkpoints_deleted as nat, Style::Yellow, ""@),
            number_line("Trees deleted:       "@, m.trees_deleted as nat, Style::Yellow, ""@),
            number_line("Blobs deleted:       "@, m.blobs_deleted as nat, Style::Yellow, ""@),
            crate::ui::empty_line(),
            seq![
                crate::ui::plain("Space freed:         "@),
                crate::ui::styled(crate::format::size_text(m.bytes_freed as nat), Style::Green),
            ],
        ]
    }
}

/// Shows what a collection removed.
pub fn show_metrics(m: &GcMetrics) -> (p: Vec<Vec<Span>>)
    ensures
        crate::ui::page(p@) == metrics_page(*m),
{
    let mut p = no_lines();
    add_text(&mut p, "GC Complete", Style::BoldGreen);
    add_text(&mut p, "━━━━━━━━━━━━━━━━━━━━━━━━━━━━━━━━━━━━━━━━━━━━━━━━━━", Style::Plain);
    add_blank(&mut p);
    if m.checkpoints_deleted == 0 && m.trees_deleted == 0 && m.blobs_deleted == 0 {
        add_text(&mut p, "No garbage found - repository is already clean", Style::Dimmed);
    } else {
        add_number(&mut p, "Checkpoints deleted: ", m.checkpoints_deleted as u64, Style::Yellow, "");
        add_number(&mut p, "Trees deleted:       ", m.trees_deleted as u64, Style::Yellow, "");
        add_number(&mut p, "Blobs deleted:       ", m.blobs_deleted as u64, Style::Yellow, "");
        add_blank(&mut p);
        let mut l = blank();
        put(&mut l, "Space freed:         ", Style::Plain);
        put(&mut l, format_size(m.bytes_freed).as_str(), Style::Green);
        add_line(&mut p, l);
    }
    assert(crate::ui::page(p@) =~~= metrics_page(*m));
    p
}

/// The policy is shown with its own numbers, the window in hours.
pub proof fn policy_is_shown_with_its_numbers(policy: RetentionPolicy)
    ensures
        policy_page(policy)[1][1].text == crate::text::decimal(policy.retain_dense_count as nat),
        forall|hours: nat|
            hours * 3600000 <= policy.retain_dense_window_ms < (hours + 1) * 3600000
                ==> policy_page(policy)[2][1].text == #[trigger] crate::text::decimal(hours),
        policy_page(policy)[3][1].text == (if policy.retain_pins { "yes"@ } else { "no"@ }),
{
}

} // verus!
