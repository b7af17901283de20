//! Naming checkpoints, and making them on demand.

use vstd::prelude::*;

use crate::ids::short_id;
use crate::journal::{pinned, resolve_checkpoint_ref, History, HistoryView, RefError};
use crate::ui::{add_line, add_text, blank, clipped, no_lines, put, Span, SpanView, Style};

verus! {

/// Why a checkpoint cannot be pinned.
#[derive(Debug, Clone, Copy, PartialEq, Eq, Structural)]
pub enum PinError {
    /// The reference cannot be resolved.
    Reference(RefError),
    /// The checkpoint is not recorded.
    NotFound {
        /// Identifier of the checkpoint.
        id: u128,
    },
}

/// The checkpoint that a new pin stands for.
pub open spec fn to_pin(h: HistoryView, pins: Seq<(Seq<char>, u128)>, reference: Seq<char>) -> Result<u128, PinError> {
    match crate::journal::named(h, pins, reference) {
        Err(e) => Err(PinError::Reference(e)),
        Ok(id) => if h.find(id) is Some {
            Ok(id)
        } else {
            Err(PinError::NotFound { id })
        },
    }
}

/// Finds the checkpoint that a new pin stands for.
pub fn checkpoint_to_pin(history: &History, pins: &Vec<(String, u128)>, reference: &str) -> (r: Result<u128, PinError>)
    ensures
        r == to_pin(history@, crate::journal::pin_views(pins@), reference@),
{
    match resolve_checkpoint_ref(history, pins, reference) {
        Err(e) => Err(PinError::Reference(e)),
        Ok(id) => match history.get(id) {
            Some(_) => Ok(id),
            None => Err(PinError::NotFound { id }),
        },
    }
}

/// Shows that a pin was made.
pub fn show_pinned(name: &str, id: u128) -> (l: Vec<Span>)
    ensures
        crate::ui::line(l@) == seq![
            crate::ui::styled("✓"@, Style::Green),
            crate::ui::plain(" Created pin '"@),
            crate::ui::styled(name@, Style::Yellow),
            crate::ui::plain("' → "@),
            crate::ui::styled(crate::ids::ulid_text(id).take(8), Style::Cyan),
        ],
{
    let mut l = blank();
    put(&mut l, "✓", Style::Green);
    put(&mut l, " Created pin '", Style::Plain);
    put(&mut l, name, Style::Yellow);
    put(&mut l, "' → ", Style::Plain);
    put(&mut l, short_id(id).as_str(), Style::Cyan);
    l
}

/// Shows that a pin is removed, where there is one of that name.
pub fn show_unpinned(pins: &Vec<(String, u128)>, name: &str) -> (r: Option<Vec<Span>>)
    ensures
        match crate::journal::find_pin(crate::journal::pin_views(pins@), name@) {
            None => r is None,
            Some(id) => r matches Some(l) && crate::ui::line(l@) == seq![
                crate::ui::styled("✓"@, Style::Green),
                crate::ui::plain(" Removed pin '"@),
                crate::ui::styled(name@, Style::Yellow),
                crate::ui::plain("' (was "@),
                crate::ui::styled(crate::ids::ulid_text(id).take(8), Style::Cyan),
                crate::ui::plain(")"@),
            ],
        },
{
    match pinned(pins, name) {
        None => None,
        Some(id) => {
            let mut l = blank();
            put(&mut l, "✓", Style::Green);
            put(&mut l, " Removed pin '", Style::Plain);
            put(&mut l, name, Style::Yellow);
            put(&mut l, "' (was ", Style::Plain);
            put(&mut l, short_id(id).as_str(), Style::Cyan);
            put(&mut l, ")", Style::Plain);
            Some(l)
        },
    }
}

/// A new checkpoint behind a label.
pub open spec fn made_line(label: Seq<char>, id: Seq<char>) -> Seq<SpanView> {
    seq![
        crate::ui::styled("✓"@, Style::Green),
        crate::ui::plain(label),
        crate::ui::styled(crate::ui::clip(id, 8), Style::BrightCyan),
    ]
}

/// What is shown of a checkpoint made on demand. One that is forced is made though
/// nothing is pending.
pub open spec fn flush_page(force: bool, made: Option<Seq<char>>) -> Seq<Seq<SpanView>> {
    match made {
        Some(id) => if force {
            seq![
                made_line(" Created restore point: "@, id),
                seq![
                    crate::ui::styled(
                        "Use 'tl restore' to return to this point if needed."@,
                        Style::Dimmed,
                    ),
                ],
            ]
        } else {
            seq![made_line(" Created checkpoint: "@, id)]
        },
        None => seq![
            seq![crate::ui::styled("No pending changes to checkpoint"@, Style::Dimmed)],
            seq![
                crate::ui::styled("Use 'tl flush --force' to create a restore point anyway."@, Style::Dimmed),
            ],
        ],
    }
}

/// Shows a checkpoint made on demand, or that there was nothing to make it from.
pub fn show_flush(force: bool, made: &Option<String>) -> (p: Vec<Vec<Span>>)
    ensures
        crate::ui::page(p@) == flush_page(force, crate::git_config::opt_text(*made)),
{
    let mut p = no_lines();
    match made {
        Some(id) => {
            let mut l = blank();
            put(&mut l, "✓", Style::Green);
            if force {
                put(&mut l, " Created restore point: ", Style::Plain);
            } else {
                put(&mut l, " Created checkpoint: ", Style::Plain);
            }
            put(&mut l, clipped(id.as_str(), 8).as_str(), Style::BrightCyan);
            add_line(&mut p, l);
            if force {
                add_text(&mut p, "Use 'tl restore' to return to this point if needed.", Style::Dimmed);
            }
        },
        None => {
            add_text(&mut p, "No pending changes to checkpoint", Style::Dimmed);
            add_text(&mut p, "Use 'tl flush --force' to create a restore point anyway.", Style::Dimmed);
        },
    }
    assert(crate::ui::page(p@) =~~= flush_page(force, crate::git_config::opt_text(*made)));
    p
}

/// A pin is set on the checkpoint that the reference names, exactly where it is recorded.
pub proof fn pins_are_set_on_recorded_checkpoints(
    h: HistoryView,
    pins: Seq<(Seq<char>, u128)>,
    reference: Seq<char>,
    id: u128,
)
    ensures
        to_pin(h, pins, reference) == Ok::<u128, PinError>(id) <==> crate::journal::named(h, pins, reference) == Ok::<
            u128,
            RefError,
        >(id) && exists|i: int| 0 <= i < h.records.len() && (#[trigger] h.records[i]).id == id,
        h.find(id) is Some ==> to_pin(h, pins, crate::ids::ulid_text(id)) == Ok::<u128, PinError>(id),
{
    crate::journal::found_record_has_the_id(h, id);
    if h.find(id) is Some {
        crate::journal::full_id_names_checkpoint(h, pins, id);
    }
}

} // verus!
