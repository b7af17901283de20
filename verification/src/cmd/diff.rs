//! The differences between two checkpoints.

use vstd::prelude::*;

use crate::format::format_relative_to;
use crate::ids::short_id;
use crate::text::utf8_text;
use crate::tree::{Entry, TreeDiff};
use crate::ui::{add_blank, add_line, add_page, add_text, blank, counted_text, no_lines, put, put_number, Span, SpanView, Style};

verus! {

/// A path as it is shown.
pub open spec fn path_text(path: Seq<u8>) -> Seq<char> {
    if vstd::utf8::valid_utf8(path) {
        vstd::utf8::decode_utf8(path)
    } else {
        "<invalid utf8>"@
    }
}

fn shown_path(path: &[u8]) -> (s: String)
    ensures
        s@ == path_text(path@),
{
    match utf8_text(path) {
        Ok(s) => s,
        Err(_) => "<invalid utf8>".to_owned(),
    }
}

/// A changed path behind its mark.
pub open spec fn change_line(mark: Seq<char>, style: Style, path: Seq<u8>) -> Seq<SpanView> {
    seq![
        crate::ui::plain("  "@),
        crate::ui::styled(mark, style),
        crate::ui::plain(" "@),
        crate::ui::plain(path_text(path)),
    ]
}

/// The heading of a kind of changes.
pub open spec fn change_title(letter: Seq<char>, style: Style, title: Seq<char>, count: nat) -> Seq<SpanView> {
    seq![crate::ui::styled(letter, style), crate::ui::plain(title + crate::text::decimal(count) + " files)"@)]
}

/// A kind of changes, where there are any.
pub open spec fn change_part(title: Seq<SpanView>, lines: Seq<Seq<SpanView>>) -> Seq<Seq<SpanView>> {
    if lines.len() == 0 {
        crate::ui::empty_page()
    } else {
        seq![title] + lines + seq![crate::ui::empty_line()]
    }
}

fn change_title_of(letter: &str, style: Style, title: &str, count: usize) -> (l: Vec<Span>)
    ensures
        crate::ui::line(l@) == change_title(letter@, style, title@, count as nat),
{
    let mut l = blank();
    put(&mut l, letter, style);
    put(&mut l, counted_text(title, count as u64, " files)").as_str(), Style::Plain);
    assert(crate::ui::line(l@) =~= change_title(letter@, style, title@, count as nat));
    l
}

fn change_line_of(mark: &str, style: Style, path: &[u8]) -> (l: Vec<Span>)
    ensures
        crate::ui::line(l@) == change_line(mark@, style, path@),
{
    let mut l = blank();
    put(&mut l, "  ", Style::Plain);
    put(&mut l, mark, style);
    put(&mut l, " ", Style::Plain);
    put(&mut l, shown_path(path).as_str(), Style::Plain);
    assert(crate::ui::line(l@) =~= change_line(mark@, style, path@));
    l
}

/// The lines of added or removed paths.
pub open spec fn entry_lines(mark: Seq<char>, style: Style, items: Seq<(Vec<u8>, Entry)>) -> Seq<Seq<SpanView>> {
    items.map_values(|e: (Vec<u8>, Entry)| change_line(mark, style, e.0@))
}

fn entries_part(
    letter: &str,
    title_style: Style,
    title: &str,
    mark: &str,
    style: Style,
    items: &Vec<(Vec<u8>, Entry)>,
) -> (p: Vec<Vec<Span>>)
    ensures
        crate::ui::page(p@) == change_part(
            change_title(letter@, title_style, title@, items@.len()),
            entry_lines(mark@, style, items@),
        ),
{
    let mut p = no_lines();
    if items.len() == 0 {
        return p;
    }
    let ghost head = seq![change_title(letter@, title_style, title@, items@.len())];
    let ghost rows = entry_lines(mark@, style, items@);
    let l = change_title_of(letter, title_style, title, items.len());
    add_line(&mut p, l);
    let mut i: usize = 0;
    assert(crate::ui::page(p@) =~= head + rows.take(0));
    while i < items.len()
        invariant
            i <= items.len(),
            rows == entry_lines(mark@, style, items@),
            crate::ui::page(p@) == head + rows.take(i as int),
        decreases items.len() - i,
    {
        let l = change_line_of(mark, style, items[i].0.as_slice());
        assert(crate::ui::line(l@) == rows[i as int]);
        add_line(&mut p, l);
        i = i + 1;
        assert(crate::ui::page(p@) =~= head + rows.take(i as int));
    }
    add_blank(&mut p);
    assert(crate::ui::page(p@) =~= change_part(head[0], rows));
    p
}

/// The lines of modified paths.
pub open spec fn modified_lines(items: Seq<(Vec<u8>, Entry, Entry)>) -> Seq<Seq<SpanView>> {
    items.map_values(|e: (Vec<u8>, Entry, Entry)| change_line("~"@, Style::Yellow, e.0@))
}

fn modified_part(items: &Vec<(Vec<u8>, Entry, Entry)>) -> (p: Vec<Vec<Span>>)
    ensures
        crate::ui::page(p@) == change_part(
            change_title("M"@, Style::BoldYellow, " Modified ("@, items@.len()),
            modified_lines(items@),
        ),
{
    let mut p = no_lines();
    if items.len() == 0 {
        return p;
    }
    let ghost head = seq![change_title("M"@, Style::BoldYellow, " Modified ("@, items@.len())];
    let ghost rows = modified_lines(items@);
    let l = change_title_of("M", Style::BoldYellow, " Modified (", items.len());
    add_line(&mut p, l);
    let mut i: usize = 0;
    assert(crate::ui::page(p@) =~= head + rows.take(0));
    while i < items.len()
        invariant
            i <= items.len(),
            rows == modified_lines(items@),
            crate::ui::page(p@) == head + rows.take(i as int),
        decreases items.len() - i,
    {
        let l = change_line_of("~", Style::Yellow, items[i].0.as_slice());
        assert(crate::ui::line(l@) == rows[i as int]);
        add_line(&mut p, l);
        i = i + 1;
        assert(crate::ui::page(p@) =~= head + rows.take(i as int));
    }
    add_blank(&mut p);
    assert(crate::ui::page(p@) =~= change_part(head[0], rows));
    p
}

/// One end of the comparison.
pub open spec fn end_line(label: Seq<char>, id: u128, ts_ms: u64, now: Option<u64>) -> Seq<SpanView> {
    seq![
        crate::ui::plain(label),
        crate::ui::styled(crate::ids::ulid_text(id).take(8), Style::Yellow),
        crate::ui::plain(" "@),
        crate::ui::styled(crate::format::relative_time(now, ts_ms), Style::Dimmed),
    ]
}

fn end_line_of(label: &str, id: u128, ts_ms: u64, now: Option<u64>) -> (l: Vec<Span>)
    ensures
        crate::ui::line(l@) == end_line(label@, id, ts_ms, now),
{
    let mut l = blank();
    put(&mut l, label, Style::Plain);
    put(&mut l, short_id(id).as_str(), Style::Yellow);
    put(&mut l, " ", Style::Plain);
    put(&mut l, format_relative_to(now, ts_ms).as_str(), Style::Dimmed);
    assert(crate::ui::line(l@) =~= end_line(label@, id, ts_ms, now));
    l
}

/// The numbers of changes.
pub open spec fn total_line(added: nat, removed: nat, modified: nat) -> Seq<SpanView> {
    seq![
        crate::ui::styled("Total: "@, Style::Dimmed),
        crate::ui::styled(crate::text::decimal(added), Style::Green),
        crate::ui::styled(" added, "@, Style::Dimmed),
        crate::ui::styled(crate::text::decimal(removed), Style::Red),
        crate::ui::styled(" removed, "@, Style::Dimmed),
        crate::ui::styled(crate::text::decimal(modified), Style::Yellow),
        crate::ui::styled(" modified"@, Style::Dimmed),
    ]
}

/// The changes between two checkpoints.
pub open spec fn changes_part(d: TreeDiff) -> Seq<Seq<SpanView>> {
    if d.added@.len() + d.removed@.len() + d.modified@.len() == 0 {
        seq![seq![crate::ui::styled("No changes between checkpoints"@, Style::Dimmed)]]
    } else {
        change_part(
            change_title("A"@, Style::BoldGreen, " Added ("@, d.added@.len()),
            entry_lines("+"@, Style::Green, d.added@),
        ) + change_part(
            change_title("D"@, Style::BoldRed, " Removed ("@, d.removed@.len()),
            entry_lines("-"@, Style::Red, d.removed@),
        ) + change_part(
            change_title("M"@, Style::BoldYellow, " Modified ("@, d.modified@.len()),
            modified_lines(d.modified@),
        ) + seq![total_line(d.added@.len(), d.removed@.len(), d.modified@.len())]
    }
}

/// The lines above the changes.
pub open spec fn diff_title(from: Seq<SpanView>, to: Seq<SpanView>) -> Seq<Seq<SpanView>> {
    seq![
        seq![crate::ui::styled("Diff Summary"@, Style::Bold)],
        seq![crate::ui::styled(crate::ui::rule(), Style::Plain)],
        crate::ui::empty_line(),
        from,
        to,
        crate::ui::empty_line(),
    ]
}

/// Shows the changes from one checkpoint to another, each given by its identifier
/// and its time.
pub fn show_diff(from: (u128, u64), to: (u128, u64), d: &TreeDiff, now: Option<u64>) -> (p: Vec<Vec<Span>>)
    ensures
        crate::ui::page(p@) == diff_title(
            end_line("From: "@, from.0, from.1, now),
            end_line("To:   "@, to.0, to.1, now),
        ) + changes_part(*d),
{
    let mut p = no_lines();
    add_text(&mut p, "Diff Summary", Style::Bold);
    add_text(&mut p, "━━━━━━━━━━━━━━━━━━━━━━━━━━━━━━━━━━━━━━━━━━━━━━━━━━", Style::Plain);
    add_blank(&mut p);
    let l = end_line_of("From: ", from.0, from.1, now);
    add_line(&mut p, l);
    let l = end_line_of("To:   ", to.0, to.1, now);
    add_line(&mut p, l);
    add_blank(&mut p);
    let ghost title = diff_title(
        end_line("From: "@, from.0, from.1, now),
        end_line("To:   "@, to.0, to.1, now),
    );
    assert(crate::ui::page(p@) =~= title);
    if d.added.len() == 0 && d.removed.len() == 0 && d.modified.len() == 0 {
        add_text(&mut p, "No changes between checkpoints", Style::Dimmed);
        assert(crate::ui::page(p@) =~= title + changes_part(*d));
        return p;
    }
    let added = entries_part("A", Style::BoldGreen, " Added (", "+", Style::Green, &d.added);
    add_page(&mut p, added);
    let removed = entries_part("D", Style::BoldRed, " Removed (", "-", Style::Red, &d.removed);
    add_page(&mut p, removed);
    let modified = modified_part(&d.modified);
    add_page(&mut p, modified);
    let mut l = blank();
    put(&mut l, "Total: ", Style::Dimmed);
    put_number(&mut l, d.added.len() as u64, Style::Green);
    put(&mut l, " added, ", Style::Dimmed);
    put_number(&mut l, d.removed.len() as u64, Style::Red);
    put(&mut l, " removed, ", Style::Dimmed);
    put_number(&mut l, d.modified.len() as u64, Style::Yellow);
    put(&mut l, " modified", Style::Dimmed);
    assert(crate::ui::line(l@) =~= total_line(d.added@.len(), d.removed@.len(), d.modified@.len()));
    add_line(&mut p, l);
    assert(crate::ui::page(p@) =~= title + changes_part(*d));
    p
}

/// A comparison shows each added path with a plus, each removed one with a minus and each
/// modified one with a tilde, in three parts and in order, and their numbers at the end.
pub proof fn each_change_is_shown(d: TreeDiff)
    ensures
        d.added@.len() + d.removed@.len() + d.modified@.len() == 0 ==> changes_part(d).len() == 1,
        d.added@.len() + d.removed@.len() + d.modified@.len() > 0 ==> ({
            let page = changes_part(d);
            let a = d.added@.len() as int;
            let r = d.removed@.len() as int;
            let m = d.modified@.len() as int;
            let b = if a > 0 { a + 2 } else { 0 };
            let c = if r > 0 { b + r + 2 } else { b };
            let e = if m > 0 { c + m + 2 } else { c };
            &&& page.len() == e + 1
            &&& forall|k: int|
                0 <= k < a ==> (#[trigger] page[k + 1])[1].text == "+"@ && page[k + 1][3].text == path_text(
                    d.added@[k].0@,
                )
            &&& forall|k: int|
                0 <= k < r ==> (#[trigger] page[b + k + 1])[1].text == "-"@ && page[b + k + 1][3].text == path_text(
                    d.removed@[k].0@,
                )
            &&& forall|k: int|
                0 <= k < m ==> (#[trigger] page[c + k + 1])[1].text == "~"@ && page[c + k + 1][3].text == path_text(
                    d.modified@[k].0@,
                )
            &&& page[e][1].text == crate::text::decimal(a as nat)
            &&& page[e][3].text == crate::text::decimal(r as nat)
            &&& page[e][5].text == crate::text::decimal(m as nat)
        }),
{
    if d.added@.len() + d.removed@.len() + d.modified@.len() > 0 {
        let page = changes_part(d);
        let a = d.added@.len() as int;
        let r = d.removed@.len() as int;
        let m = d.modified@.len() as int;
        let b = if a > 0 { a + 2 } else { 0 };
        let c = if r > 0 { b + r + 2 } else { b };
        let e = if m > 0 { c + m + 2 } else { c };
        let x = change_part(
            change_title("A"@, Style::BoldGreen, " Added ("@, d.added@.len()),
            entry_lines("+"@, Style::Green, d.added@),
        );
        let y = change_part(
            change_title("D"@, Style::BoldRed, " Removed ("@, d.removed@.len()),
            entry_lines("-"@, Style::Red, d.removed@),
        );
        let z = change_part(
            change_title("M"@, Style::BoldYellow, " Modified ("@, d.modified@.len()),
            modified_lines(d.modified@),
        );
        assert(x.len() == b);
        assert((x + y).len() == c);
        assert((x + y + z).len() == e);
        assert forall|k: int| 0 <= k < a implies (#[trigger] page[k + 1])[1].text == "+"@ && page[k + 1][3].text
            == path_text(d.added@[k].0@) by {
            assert(page[k + 1] == x[k + 1]);
            assert(x[k + 1] == entry_lines("+"@, Style::Green, d.added@)[k]);
        }
        assert forall|k: int| 0 <= k < r implies (#[trigger] page[b + k + 1])[1].text == "-"@ && page[b + k + 1][3].text
            == path_text(d.removed@[k].0@) by {
            assert(page[b + k + 1] == y[k + 1]);
            assert(y[k + 1] == entry_lines("-"@, Style::Red, d.removed@)[k]);
        }
        assert forall|k: int| 0 <= k < m implies (#[trigger] page[c + k + 1])[1].text == "~"@ && page[c + k + 1][3].text
            == path_text(d.modified@[k].0@) by {
            assert(page[c + k + 1] == z[k + 1]);
            assert(z[k + 1] == modified_lines(d.modified@)[k]);
        }
        assert(page[e] == total_line(d.added@.len(), d.removed@.len(), d.modified@.len()));
    }
}

/// A path is shown as it is where it is UTF-8.
pub proof fn paths_are_shown_as_they_are(path: Seq<char>)
    ensures
        path_text(vstd::utf8::encode_utf8(path)) == path,
{
    vstd::utf8::encode_utf8_decode_utf8(path);
    vstd::utf8::encode_utf8_valid_utf8(path);
}

} // verus!
