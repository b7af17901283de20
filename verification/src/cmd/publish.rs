//! Publishing checkpoints as commits.

use vstd::prelude::*;

use crate::cmd::branch::COMMIT_CHARS;
use crate::ids::short_id;
use crate::journal::{resolve_checkpoint, Checkpoint, CheckpointView, History, HistoryView};
use crate::text::{chars_between, chars_of, contains_chars, has_prefix, stands_at, string_of};
use crate::ui::{add_blank, add_line, add_text, blank, clipped, concat, counted_text, no_lines, put, put_number, Span, SpanView, Style};

verus! {

/// The place at which a text first occurs in another, or the length of the other.
pub open spec fn first_place(s: Seq<char>, p: Seq<char>) -> int
    decreases s.len(),
{
    if s.len() == 0 || crate::text::begins_with(s, p) {
        0
    } else {
        1 + first_place(s.drop_first(), p)
    }
}

/// The two ends of a range `start..end`. A text with no two dots in it, or with more
/// than one pair of them, is no range.
pub open spec fn range_ends(s: Seq<char>) -> Option<(Seq<char>, Seq<char>)> {
    let i = first_place(s, ".."@);
    if i + 2 <= s.len() && !crate::text::occurs_in(".."@, s.skip(i + 2)) {
        Some((s.take(i), s.skip(i + 2)))
    } else {
        None
    }
}

proof fn lemma_first_place(s: Seq<char>, p: Seq<char>, i: int)
    requires
        0 <= i <= s.len(),
        p.len() > 0,
        forall|j: int| 0 <= j < i ==> !crate::text::begins_with(#[trigger] s.skip(j), p),
        i < s.len() ==> crate::text::begins_with(s.skip(i), p),
    ensures
        first_place(s, p) == i,
    decreases s.len(),
{
    if i == 0 {
        assert(s.skip(0) =~= s);
    } else {
        assert(s.skip(0) =~= s);
        assert(!crate::text::begins_with(s.skip(0), p));
        let t = s.drop_first();
        assert forall|j: int| 0 <= j < i - 1 implies !crate::text::begins_with(#[trigger] t.skip(j), p) by {
            assert(t.skip(j) =~= s.skip(j + 1));
        }
        if i < s.len() {
            assert(t.skip(i - 1) =~= s.skip(i));
        }
        lemma_first_place(t, p, i - 1);
    }
}

/// Splits a range into its ends.
fn split_range(s: &[char]) -> (r: Option<(String, String)>)
    ensures
        match r {
            Some((a, b)) => range_ends(s@) == Some((a@, b@)),
            None => range_ends(s@) is None,
        },
{
    let dots = chars_of("..");
    proof {
        reveal_strlit("..");
    }
    let mut i: usize = 0;
    while i < s.len() && !stands_at(s, i, dots.as_slice())
        invariant
            i <= s.len(),
            dots@ == ".."@,
            dots@.len() == 2,
            forall|j: int| 0 <= j < i ==> !crate::text::begins_with(#[trigger] s@.skip(j), ".."@),
        decreases s.len() - i,
    {
        proof {
            let rest = s@.skip(i as int);
            if crate::text::begins_with(rest, ".."@) {
                assert(rest.take(2) =~= s@.subrange(i as int, i + 2));
            }
        }
        i = i + 1;
    }
    proof {
        if i < s.len() {
            assert(s@.skip(i as int).take(2) =~= s@.subrange(i as int, i + 2));
        }
        lemma_first_place(s@, ".."@, i as int);
    }
    if i >= s.len() {
        return None;
    }
    let start = chars_between(s, 0, i);
    let end = chars_between(s, i + 2, s.len());
    assert(start@ =~= s@.take(i as int));
    assert(end@ =~= s@.skip(i + 2));
    if contains_chars(end.as_slice(), dots.as_slice()) {
        return None;
    }
    Some((string_of(start.as_slice()), string_of(end.as_slice())))
}

/// What is to be published.
#[derive(Debug)]
pub enum PublishRequest {
    /// A checkpoint.
    Single {
        /// Reference to it.
        reference: String,
    },
    /// The checkpoints from one to another.
    Range {
        /// Reference to the first.
        start: String,
        /// Reference to the last.
        end: String,
    },
    /// A range that is none.
    InvalidRange,
}

/// `r` is the range that a text denotes.
pub open spec fn is_range(s: Seq<char>, r: PublishRequest) -> bool {
    match range_ends(s) {
        Some((a, b)) => r matches PublishRequest::Range { start, end } && start@ == a && end@ == b,
        None => r is InvalidRange,
    }
}

/// `r` is what a reference asks to publish: two dots make a range, `HEAD~n` is the
/// range from there to the latest checkpoint, and anything else is one checkpoint.
pub open spec fn is_request(reference: Seq<char>, r: PublishRequest) -> bool {
    if crate::text::occurs_in(".."@, reference) {
        is_range(reference, r)
    } else if reference.contains('~') && reference.last() != '~' {
        is_range(reference + "..HEAD"@, r)
    } else {
        r matches PublishRequest::Single { reference: s } && s@ == reference
    }
}

fn range_request(s: &[char]) -> (r: PublishRequest)
    ensures
        is_range(s@, r),
{
    match split_range(s) {
        Some((start, end)) => PublishRequest::Range { start, end },
        None => PublishRequest::InvalidRange,
    }
}

/// Decides what a reference asks to publish.
pub fn publish_request(reference: &str) -> (r: PublishRequest)
    ensures
        is_request(reference@, r),
{
    let chars = chars_of(reference);
    let dots = chars_of("..");
    if contains_chars(chars.as_slice(), dots.as_slice()) {
        return range_request(chars.as_slice());
    }
    assert(chars@.skip(0) =~= chars@);
    proof {
        crate::text::lemma_first_index_range(reference@, '~');
    }
    match crate::text::find_char(chars.as_slice(), 0, '~') {
        Some(i) => {
            assert(reference@[i as int] == '~');
            assert(reference@.contains('~'));
            if chars[chars.len() - 1] != '~' {
                let whole = concat(reference, "..HEAD");
                return range_request(chars_of(whole.as_str()).as_slice());
            }
        },
        None => {
            assert(!reference@.contains('~'));
        },
    }
    PublishRequest::Single { reference: reference.to_owned() }
}

/// Why a range cannot be published.
#[derive(Debug, Clone, Copy, PartialEq, Eq, Structural)]
pub enum RangeError {
    /// A checkpoint of the range is not recorded.
    Missing,
    /// The first checkpoint is not an ancestor of the last.
    IncludesRoot,
    /// The parents lead in a circle that the first checkpoint is not in.
    Endless,
}

/// The checkpoints from `start` to `at`, oldest first, found by going from parent to
/// parent over at most `fuel` checkpoints.
pub open spec fn walk(h: HistoryView, start: u128, at: u128, fuel: nat) -> Result<Seq<CheckpointView>, RangeError>
    decreases fuel,
{
    if fuel == 0 {
        Err(RangeError::Endless)
    } else {
        match h.find(at) {
            None => Err(RangeError::Missing),
            Some(c) => if at == start {
                Ok(seq![c])
            } else {
                match c.parent {
                    None => Err(RangeError::IncludesRoot),
                    Some(p) => match walk(h, start, p, (fuel - 1) as nat) {
                        Ok(older) => Ok(older.push(c)),
                        Err(e) => Err(e),
                    },
                }
            },
        }
    }
}

/// The checkpoints of a range, oldest first.
pub open spec fn range(h: HistoryView, start: u128, end: u128) -> Result<Seq<CheckpointView>, RangeError> {
    walk(h, start, end, h.records.len() + 1)
}

/// The walk continued behind the checkpoints already found, newest first.
spec fn rest_of_walk(done: Seq<CheckpointView>, rest: Result<Seq<CheckpointView>, RangeError>) -> Result<
    Seq<CheckpointView>,
    RangeError,
> {
    match rest {
        Ok(older) => Ok(older + done.reverse()),
        Err(e) => Err(e),
    }
}

/// Collects the checkpoints of a range, oldest first.
pub fn checkpoint_range(history: &History, start: u128, end: u128) -> (r: Result<Vec<Checkpoint>, RangeError>)
    ensures
        match range(history@, start, end) {
            Ok(list) => r matches Ok(v) && crate::journal::views(v@) == list,
            Err(e) => r == Err::<Vec<Checkpoint>, RangeError>(e),
        },
{
    let ghost h = history@;
    let mut newest: Vec<Checkpoint> = Vec::new();
    let mut at: u128 = end;
    let mut fuel: u128 = history.records.len() as u128 + 1;
    let mut done: bool = false;
    proof {
        let w = walk(h, start, end, fuel as nat);
        if w is Ok {
            assert(w->Ok_0 + crate::journal::views(newest@).reverse() =~= w->Ok_0);
        }
        assert(range(h, start, end) == rest_of_walk(crate::journal::views(newest@), w));
    }
    while !done
        invariant
            h == history@,
            done ==> range(h, start, end) == Ok::<Seq<CheckpointView>, RangeError>(
                crate::journal::views(newest@).reverse(),
            ),
            !done ==> range(h, start, end) == rest_of_walk(
                crate::journal::views(newest@),
                walk(h, start, at, fuel as nat),
            ),
        decreases fuel + (if done {
            0int
        } else {
            1int
        }),
    {
        let ghost seen = crate::journal::views(newest@);
        if fuel == 0 {
            return Err(RangeError::Endless);
        }
        let c = match history.get(at) {
            Some(c) => c,
            None => {
                return Err(RangeError::Missing);
            },
        };
        newest.push(c.clone());
        assert(crate::journal::views(newest@) =~= seen.push(c@));
        if at == start {
            done = true;
            assert(seq![c@] + seen.reverse() =~= seen.push(c@).reverse());
        } else {
            match c.parent {
                None => {
                    return Err(RangeError::IncludesRoot);
                },
                Some(p) => {
                    proof {
                        let w = walk(h, start, p, (fuel - 1) as nat);
                        if w is Ok {
                            assert(w->Ok_0.push(c@) + seen.reverse() =~= w->Ok_0 + seen.push(c@).reverse());
                        }
                    }
                    at = p;
                },
            }
            fuel = fuel - 1;
        }
    }
    let ghost all = crate::journal::views(newest@);
    let mut oldest: Vec<Checkpoint> = Vec::new();
    let mut i: usize = newest.len();
    while i > 0
        invariant
            i <= newest.len(),
            all == crate::journal::views(newest@),
            crate::journal::views(oldest@) == all.reverse().take(all.len() - i),
        decreases i,
    {
        let ghost before = oldest@;
        i = i - 1;
        let c = newest[i].clone();
        oldest.push(c);
        assert(crate::journal::views(oldest@) =~= crate::journal::views(before).push(c@));
        assert(all[i as int] == c@);
        assert(crate::journal::views(oldest@) =~= all.reverse().take(all.len() - i));
    }
    assert(all.reverse().take(all.len() as int) =~= all.reverse());
    Ok(oldest)
}

/// A range begins and ends at the checkpoints asked for, and each checkpoint in it
/// is the parent of the next.
pub proof fn range_is_a_line(h: HistoryView, start: u128, end: u128, fuel: nat)
    requires
        walk(h, start, end, fuel) is Ok,
    ensures
        ({
            let list = walk(h, start, end, fuel)->Ok_0;
            &&& list.len() > 0
            &&& Some(list[0]) == h.find(start)
            &&& Some(list.last()) == h.find(end)
            &&& forall|i: int| 0 < i < list.len() ==> h.find((#[trigger] list[i]).parent->0) == Some(list[i - 1])
        }),
    decreases fuel,
{
    let c = h.find(end)->0;
    if end != start {
        range_is_a_line(h, start, c.parent->0, (fuel - 1) as nat);
        let older = walk(h, start, c.parent->0, (fuel - 1) as nat)->Ok_0;
        let list = older.push(c);
        assert forall|i: int| 0 < i < list.len() implies h.find((#[trigger] list[i]).parent->0) == Some(list[i - 1]) by {
            if i < older.len() {
                assert(list[i] == older[i]);
                assert(list[i - 1] == older[i - 1]);
            }
        }
    }
}

/// The parent of each recorded checkpoint is recorded before it, or not at all.
pub open spec fn grows(h: HistoryView) -> bool {
    forall|i: int|
        0 <= i < h.records.len() && (#[trigger] h.records[i]).parent is Some ==> {
            let p = crate::journal::find_record(h.records, h.records[i].parent->0);
            p < i || p >= h.records.len()
        }
}

proof fn lemma_walk_ends(h: HistoryView, start: u128, at: u128, fuel: nat)
    requires
        grows(h),
        crate::journal::find_record(h.records, at) + 1 < fuel || (fuel > 0 && h.find(at) is None),
    ensures
        walk(h, start, at, fuel) != Err::<Seq<CheckpointView>, RangeError>(RangeError::Endless),
    decreases fuel,
{
    let i = crate::journal::find_record(h.records, at);
    lemma_place_is_natural(h.records, at);
    match h.find(at) {
        None => {},
        Some(c) => {
            if at != start && c.parent is Some {
                let p = c.parent->0;
                assert(h.records[i] == c);
                lemma_place_is_natural(h.records, p);
                lemma_walk_ends(h, start, p, (fuel - 1) as nat);
            }
        },
    }
}

/// In a history in which parents are recorded before their children, no range is
/// without an end.
pub proof fn ranges_end(h: HistoryView, start: u128, end: u128)
    requires
        grows(h),
    ensures
        range(h, start, end) != Err::<Seq<CheckpointView>, RangeError>(RangeError::Endless),
{
    lemma_place_is_natural(h.records, end);
    lemma_walk_ends(h, start, end, h.records.len() + 1);
}

proof fn lemma_place_is_natural(records: Seq<CheckpointView>, id: u128)
    ensures
        0 <= crate::journal::find_record(records, id) <= records.len(),
    decreases records.len(),
{
    if records.len() > 0 && records[0].id != id {
        lemma_place_is_natural(records.drop_first(), id);
    }
}

/// Why nothing can be published.
#[derive(Debug, Clone, Copy, PartialEq, Eq, Structural)]
pub enum PublishError {
    /// The range is not of the form `start..end`.
    InvalidRange,
    /// The first checkpoint of the range is not known.
    StartUnknown,
    /// The last checkpoint of the range is not known.
    EndUnknown,
    /// The checkpoint is not known.
    Unknown,
    /// The range cannot be collected.
    Range(RangeError),
}

/// The checkpoints that a request asks to publish, oldest first.
pub open spec fn requested(h: HistoryView, pins: Seq<(Seq<char>, u128)>, r: PublishRequest) -> Result<
    Seq<CheckpointView>,
    PublishError,
> {
    match r {
        PublishRequest::InvalidRange => Err(PublishError::InvalidRange),
        PublishRequest::Single { reference } => match crate::journal::named_checkpoint(h, pins, reference@) {
            Some(c) => Ok(seq![c]),
            None => Err(PublishError::Unknown),
        },
        PublishRequest::Range { start, end } => match (
            crate::journal::named_checkpoint(h, pins, start@),
            crate::journal::named_checkpoint(h, pins, end@),
        ) {
            (None, _) => Err(PublishError::StartUnknown),
            (Some(_), None) => Err(PublishError::EndUnknown),
            (Some(a), Some(b)) => match range(h, a.id, b.id) {
                Ok(list) => Ok(list),
                Err(e) => Err(PublishError::Range(e)),
            },
        },
    }
}

/// Finds the checkpoints that a request asks to publish.
pub fn requested_checkpoints(history: &History, pins: &Vec<(String, u128)>, request: &PublishRequest) -> (r: Result<
    Vec<Checkpoint>,
    PublishError,
>)
    ensures
        match requested(history@, crate::journal::pin_views(pins@), *request) {
            Ok(list) => r matches Ok(v) && crate::journal::views(v@) == list,
            Err(e) => r == Err::<Vec<Checkpoint>, PublishError>(e),
        },
{
    match request {
        PublishRequest::InvalidRange => Err(PublishError::InvalidRange),
        PublishRequest::Single { reference } => match resolve_checkpoint(history, pins, reference.as_str()) {
            Some(c) => {
                let mut v: Vec<Checkpoint> = Vec::new();
                v.push(c.clone());
                assert(crate::journal::views(v@) =~= seq![c@]);
                Ok(v)
            },
            None => Err(PublishError::Unknown),
        },
        PublishRequest::Range { start, end } => {
            let a: u128 = match resolve_checkpoint(history, pins, start.as_str()) {
                Some(c) => c.id,
                None => {
                    return Err(PublishError::StartUnknown);
                },
            };
            let b: u128 = match resolve_checkpoint(history, pins, end.as_str()) {
                Some(c) => c.id,
                None => {
                    return Err(PublishError::EndUnknown);
                },
            };
            match checkpoint_range(history, a, b) {
                Ok(v) => Ok(v),
                Err(e) => Err(PublishError::Range(e)),
            }
        },
    }
}

/// The checkpoints that were published before, each with its commit.
pub open spec fn published(ids: Seq<u128>, commits: Seq<Option<String>>) -> Seq<(u128, Seq<char>)>
    recommends
        ids.len() == commits.len(),
    decreases ids.len(),
{
    if ids.len() == 0 {
        Seq::empty()
    } else {
        let before = published(ids.drop_last(), commits.drop_last());
        match commits.last() {
            Some(c) => before.push((ids.last(), c@)),
            None => before,
        }
    }
}

/// A checkpoint and its commit.
pub open spec fn pair_line(id: u128, commit: Seq<char>) -> Seq<SpanView> {
    seq![
        crate::ui::plain("  "@),
        crate::ui::styled(crate::ids::ulid_text(id).take(8), Style::Yellow),
        crate::ui::plain(" → "@),
        crate::ui::styled(crate::ui::clip(commit, COMMIT_CHARS as nat), Style::Cyan),
    ]
}

fn pair_line_of(id: u128, commit: &str) -> (l: Vec<Span>)
    ensures
        crate::ui::line(l@) == pair_line(id, commit@),
{
    let mut l = blank();
    put(&mut l, "  ", Style::Plain);
    put(&mut l, short_id(id).as_str(), Style::Yellow);
    put(&mut l, " → ", Style::Plain);
    put(&mut l, clipped(commit, COMMIT_CHARS).as_str(), Style::Cyan);
    assert(crate::ui::line(l@) =~= pair_line(id, commit@));
    l
}

/// The warning that checkpoints were published before.
pub open spec fn published_warning(list: Seq<(u128, Seq<char>)>) -> Seq<Seq<SpanView>> {
    seq![
        seq![
            crate::ui::styled("Warning:"@, Style::Yellow),
            crate::ui::plain(" The following checkpoints are already published:"@),
        ],
    ] + list.map_values(|p: (u128, Seq<char>)| pair_line(p.0, p.1)) + seq![
        crate::ui::empty_line(),
        seq![
            crate::ui::styled(
                "Use --compact to squash into a single commit, or select unpublished checkpoints."@,
                Style::Dimmed,
            ),
        ],
    ]
}

/// The warning that stops a publication, if any: without compaction, no checkpoint
/// is published twice.
pub fn check_unpublished(ids: &Vec<u128>, commits: &Vec<Option<String>>, compact: bool) -> (warning: Option<
    Vec<Vec<Span>>,
>)
    requires
        ids.len() == commits.len(),
    ensures
        if compact || published(ids@, commits@).len() == 0 {
            warning is None
        } else {
            warning matches Some(p) && crate::ui::page(p@) == published_warning(published(ids@, commits@))
        },
{
    if compact {
        return None;
    }
    let mut p = no_lines();
    let mut l = blank();
    put(&mut l, "Warning:", Style::Yellow);
    put(&mut l, " The following checkpoints are already published:", Style::Plain);
    add_line(&mut p, l);
    let ghost head = crate::ui::page(p@);
    assert(head =~~= seq![
        seq![
            crate::ui::styled("Warning:"@, Style::Yellow),
            crate::ui::plain(" The following checkpoints are already published:"@),
        ],
    ]);
    let mut any: bool = false;
    let mut i: usize = 0;
    proof {
        assert(ids@.take(0) =~= Seq::empty());
        assert(crate::ui::page(p@) =~= head + published(ids@.take(0), commits@.take(0)).map_values(
            |p: (u128, Seq<char>)| pair_line(p.0, p.1),
        ));
    }
    while i < ids.len()
        invariant
            i <= ids.len(),
            ids.len() == commits.len(),
            any == (published(ids@.take(i as int), commits@.take(i as int)).len() > 0),
            crate::ui::page(p@) == head + published(ids@.take(i as int), commits@.take(i as int)).map_values(
                |p: (u128, Seq<char>)| pair_line(p.0, p.1),
            ),
        decreases ids.len() - i,
    {
        let ghost list = published(ids@.take(i as int), commits@.take(i as int));
        proof {
            assert(ids@.take(i + 1).drop_last() =~= ids@.take(i as int));
            assert(commits@.take(i + 1).drop_last() =~= commits@.take(i as int));
        }
        match &commits[i] {
            Some(c) => {
                any = true;
                let l = pair_line_of(ids[i], c.as_str());
                add_line(&mut p, l);
                assert(crate::ui::page(p@) =~= head + list.push((ids@[i as int], c@)).map_values(
                    |p: (u128, Seq<char>)| pair_line(p.0, p.1),
                ));
            },
            None => {},
        }
        i = i + 1;
    }
    proof {
        assert(ids@.take(ids@.len() as int) =~= ids@);
        assert(commits@.take(ids@.len() as int) =~= commits@);
    }
    if !any {
        return None;
    }
    add_blank(&mut p);
    add_text(
        &mut p,
        "Use --compact to squash into a single commit, or select unpublished checkpoints.",
        Style::Dimmed,
    );
    assert(crate::ui::page(p@) =~= published_warning(published(ids@, commits@)));
    Some(p)
}

/// The bookmark that a publication moves: the one asked for, else `HEAD`.
pub fn bookmark_name(bookmark: Option<String>) -> (name: String)
    ensures
        name@ == (match bookmark {
            Some(b) => b@,
            None => "HEAD"@,
        }),
{
    match bookmark {
        Some(b) => b,
        None => "HEAD".to_owned(),
    }
}

/// A bookmark as it is shown, with the prefix `snap/`.
pub open spec fn bookmark_text(name: Seq<char>) -> Seq<char> {
    if crate::text::begins_with(name, "snap/"@) {
        name
    } else {
        "snap/"@ + name
    }
}

/// A bookmark as it is shown.
pub fn bookmark_display(name: &str) -> (s: String)
    ensures
        s@ == bookmark_text(name@),
{
    let chars = chars_of(name);
    let prefix = chars_of("snap/");
    if has_prefix(chars.as_slice(), prefix.as_slice()) {
        name.to_owned()
    } else {
        concat("snap/", name)
    }
}

/// Showing a bookmark twice adds the prefix once.
pub proof fn bookmark_text_is_idempotent(name: Seq<char>)
    ensures
        bookmark_text(bookmark_text(name)) == bookmark_text(name),
{
    assert(("snap/"@ + name).take("snap/"@.len() as int) =~= "snap/"@);
}

/// The line shown before a publication; the number is given where it is at least
/// six.
pub fn publishing_line(count: usize) -> (l: Vec<Span>)
    ensures
        crate::ui::line(l@) == (if count >= 6 {
            seq![
                crate::ui::styled(
                    "Publishing "@ + crate::text::decimal(count as nat) + " checkpoints to JJ..."@,
                    Style::Dimmed,
                ),
            ]
        } else {
            seq![crate::ui::styled("Publishing checkpoints to JJ..."@, Style::Dimmed)]
        }),
{
    let mut l = blank();
    if count >= 6 {
        put(&mut l, counted_text("Publishing ", count as u64, " checkpoints to JJ...").as_str(), Style::Dimmed);
    } else {
        put(&mut l, "Publishing checkpoints to JJ...", Style::Dimmed);
    }
    l
}

/// The outcome of a publication.
pub open spec fn publish_page(bookmark: Seq<char>, ids: Seq<u128>, commits: Seq<Seq<char>>) -> Seq<Seq<SpanView>> {
    seq![
        seq![
            crate::ui::styled("✓"@, Style::Green),
            crate::ui::plain(" Updated bookmark: "@),
            crate::ui::styled(bookmark_text(bookmark), Style::Yellow),
        ],
        crate::ui::empty_line(),
        seq![
            crate::ui::styled("✓"@, Style::Green),
            crate::ui::plain(" Published "@),
            crate::ui::styled(crate::text::decimal(commits.len()), Style::Green),
            crate::ui::plain(" checkpoint(s)"@),
        ],
    ] + Seq::new(commits.len(), |i: int| pair_line(ids[i], commits[i]))
}

/// Shows the outcome of a publication: the commits stand for the first checkpoints
/// in order.
pub fn show_published(bookmark: &str, ids: &Vec<u128>, commits: &Vec<String>) -> (p: Vec<Vec<Span>>)
    requires
        commits.len() <= ids.len(),
    ensures
        crate::ui::page(p@) == publish_page(bookmark@, ids@, crate::text::texts(commits@)),
{
    let ghost texts = crate::text::texts(commits@);
    let mut p = no_lines();
    let mut l = blank();
    put(&mut l, "✓", Style::Green);
    put(&mut l, " Updated bookmark: ", Style::Plain);
    put(&mut l, bookmark_display(bookmark).as_str(), Style::Yellow);
    add_line(&mut p, l);
    add_blank(&mut p);
    let mut l = blank();
    put(&mut l, "✓", Style::Green);
    put(&mut l, " Published ", Style::Plain);
    put_number(&mut l, commits.len() as u64, Style::Green);
    put(&mut l, " checkpoint(s)", Style::Plain);
    add_line(&mut p, l);
    let ghost head = crate::ui::page(p@);
    let ghost rows = Seq::new(texts.len(), |i: int| pair_line(ids@[i], texts[i]));
    let mut i: usize = 0;
    assert(crate::ui::page(p@) =~= head + rows.take(0));
    while i < commits.len()
        invariant
            i <= commits.len() <= ids.len(),
            texts == crate::text::texts(commits@),
            rows == Seq::new(texts.len(), |i: int| pair_line(ids@[i], texts[i])),
            crate::ui::page(p@) == head + rows.take(i as int),
        decreases commits.len() - i,
    {
        let l = pair_line_of(ids[i], commits[i].as_str());
        assert(crate::ui::line(l@) == rows[i as int]);
        add_line(&mut p, l);
        i = i + 1;
        assert(crate::ui::page(p@) =~= head + rows.take(i as int));
    }
    assert(rows.take(rows.len() as int) =~= rows);
    assert(crate::ui::page(p@) =~~= publish_page(bookmark@, ids@, texts));
    p
}

proof fn lemma_two_dots(a: Seq<char>, b: Seq<char>)
    requires
        forall|j: int| 0 <= j < a.len() - 1 ==> !(#[trigger] a[j] == '.' && a[j + 1] == '.'),
        a.len() > 0 ==> a.last() != '.',
        forall|j: int| 0 <= j < b.len() - 1 ==> !(#[trigger] b[j] == '.' && b[j + 1] == '.'),
    ensures
        range_ends(a + seq!['.', '.'] + b) == Some((a, b)),
        crate::text::occurs_in(".."@, a + seq!['.', '.'] + b),
{
    reveal_strlit("..");
    let p = ".."@;
    assert(p =~= seq!['.', '.']);
    let s = a + seq!['.', '.'] + b;
    let n = a.len() as int;
    assert(s.skip(n).take(2) =~= p);
    assert forall|j: int| 0 <= j < n implies !crate::text::begins_with(#[trigger] s.skip(j), p) by {
        if crate::text::begins_with(s.skip(j), p) {
            assert(s.skip(j).take(2)[0] == s[j]);
            assert(s.skip(j).take(2)[1] == s[j + 1]);
            assert(s[j] == a[j]);
            if j + 1 < n {
                assert(s[j + 1] == a[j + 1]);
            }
        }
    }
    lemma_first_place(s, p, n);
    assert(s.take(n) =~= a);
    assert(s.skip(n + 2) =~= b);
    if crate::text::occurs_in(p, b) {
        let i = choose|i: int| 0 <= i <= b.len() - p.len() && #[trigger] b.subrange(i, i + p.len()) == p;
        assert(b.subrange(i, i + 2)[0] == b[i]);
        assert(b.subrange(i, i + 2)[1] == b[i + 1]);
    }
    assert(s.subrange(n, n + 2) =~= p);
}

/// Two dots between two references ask for the range from one to the other, a reference
/// with a tilde and something after it for the range from there to `HEAD`, and any other
/// for the one checkpoint that it names.
pub proof fn requests_follow_the_dots(a: Seq<char>, b: Seq<char>, r: PublishRequest)
    requires
        forall|j: int| 0 <= j < a.len() - 1 ==> !(#[trigger] a[j] == '.' && a[j + 1] == '.'),
        a.len() > 0 ==> a.last() != '.',
        forall|j: int| 0 <= j < b.len() - 1 ==> !(#[trigger] b[j] == '.' && b[j + 1] == '.'),
    ensures
        is_request(a + seq!['.', '.'] + b, r) ==> r is Range && r->start@ == a && r->end@ == b,
        is_request(a, r) && a.contains('~') && a.last() != '~' ==> r is Range && r->start@ == a && r->end@ == "HEAD"@,
        is_request(a, r) && !a.contains('~') ==> r is Single && r->reference@ == a,
{
    reveal_strlit("..");
    reveal_strlit("..HEAD");
    reveal_strlit("HEAD");
    lemma_two_dots(a, b);
    let head = "HEAD"@;
    assert(a + "..HEAD"@ =~= a + seq!['.', '.'] + head);
    assert forall|j: int| 0 <= j < head.len() - 1 implies !(#[trigger] head[j] == '.' && head[j + 1] == '.') by {}
    lemma_two_dots(a, head);
    let p = ".."@;
    if crate::text::occurs_in(p, a) {
        let i = choose|i: int| 0 <= i <= a.len() - p.len() && #[trigger] a.subrange(i, i + p.len()) == p;
        assert(a.subrange(i, i + 2)[0] == a[i]);
        assert(a.subrange(i, i + 2)[1] == a[i + 1]);
    }
}

/// The range from one checkpoint to another is found where the one is an ancestor of the
/// other: it is the line of ancestors from the later one down to the earlier, reversed.
pub proof fn ancestors_form_the_range(h: HistoryView, start: u128, end: u128, n: nat, fuel: nat)
    requires
        0 < n <= fuel,
        h.line(Some(end), n).len() == n,
        h.line(Some(end), n).last().id == start,
        forall|j: int| 0 <= j < n - 1 ==> (#[trigger] h.line(Some(end), n)[j]).id != start,
    ensures
        walk(h, start, end, fuel) == Ok::<Seq<CheckpointView>, RangeError>(h.line(Some(end), n).reverse()),
    decreases n,
{
    let line = h.line(Some(end), n);
    crate::journal::found_record_has_the_id(h, end);
    assert(h.find(end) is Some);
    let c = h.find(end)->0;
    assert(c.id == end);
    let rest = h.line(c.parent, (n - 1) as nat);
    assert(line == seq![c] + rest);
    assert(line[0] == c);
    if n == 1 {
        assert(end == start);
        assert(rest.len() == 0);
        assert(line.reverse() =~= seq![c]);
    } else {
        assert(line[0].id != start);
        assert(rest.len() == n - 1);
        assert(c.parent is Some);
        let p = c.parent->0;
        assert(rest.last() == line.last());
        assert forall|j: int| 0 <= j < n - 2 implies (#[trigger] h.line(Some(p), (n - 1) as nat)[j]).id != start by {
            assert(line[j + 1] == rest[j]);
        }
        ancestors_form_the_range(h, start, p, (n - 1) as nat, (fuel - 1) as nat);
        assert(line.reverse() =~= rest.reverse().push(c));
    }
}

/// What a request names: a single reference its checkpoint, a range the line from the
/// checkpoint of its start to that of its end; nothing where a reference names nothing.
pub proof fn requests_name_their_checkpoints(h: HistoryView, pins: Seq<(Seq<char>, u128)>, r: PublishRequest)
    ensures
        r is Single && requested(h, pins, r) is Ok ==> requested(h, pins, r)->Ok_0.len() == 1 && Some(
            requested(h, pins, r)->Ok_0[0],
        ) == crate::journal::named_checkpoint(h, pins, r->reference@),
        r is Single ==> (requested(h, pins, r) is Err <==> crate::journal::named_checkpoint(
            h,
            pins,
            r->reference@,
        ) is None),
        r is Range && requested(h, pins, r) is Ok ==> crate::journal::named_checkpoint(h, pins, r->start@) is Some
            && crate::journal::named_checkpoint(h, pins, r->end@) is Some && range(
            h,
            crate::journal::named_checkpoint(h, pins, r->start@)->0.id,
            crate::journal::named_checkpoint(h, pins, r->end@)->0.id,
        ) == Ok::<Seq<CheckpointView>, RangeError>(requested(h, pins, r)->Ok_0),
        r is Range && crate::journal::named_checkpoint(h, pins, r->start@) is None ==> requested(h, pins, r) == Err::<
            Seq<CheckpointView>,
            PublishError,
        >(PublishError::StartUnknown),
        r is InvalidRange ==> requested(h, pins, r) is Err,
{
}

/// The checkpoints that are published already are those with a commit, each with its own,
/// in order.
pub proof fn published_checkpoints_have_commits(ids: Seq<u128>, commits: Seq<Option<String>>)
    requires
        ids.len() == commits.len(),
    ensures
        published(ids, commits).len() == 0 <==> forall|i: int| 0 <= i < commits.len() ==> #[trigger] commits[i] is None,
        published(ids, commits).len() == commits.filter(|c: Option<String>| c is Some).len(),
        forall|i: int|
            0 <= i < commits.len() && #[trigger] commits[i] is Some ==> published(ids, commits).contains(
                (ids[i], commits[i]->0@),
            ),
        forall|k: int|
            0 <= k < published(ids, commits).len() ==> exists|i: int|
                0 <= i < commits.len() && #[trigger] commits[i] is Some && #[trigger] published(ids, commits)[k] == (
                    ids[i],
                    commits[i]->0@,
                ),
    decreases ids.len(),
{
    reveal(Seq::filter);
    let all = published(ids, commits);
    if ids.len() > 0 {
        let n = ids.len() - 1;
        let fi = ids.drop_last();
        let fc = commits.drop_last();
        published_checkpoints_have_commits(fi, fc);
        let before = published(fi, fc);
        assert forall|i: int| 0 <= i < commits.len() && #[trigger] commits[i] is Some implies all.contains(
            (ids[i], commits[i]->0@),
        ) by {
            if i < n {
                assert(fc[i] == commits[i] && fi[i] == ids[i]);
                let k = choose|k: int| 0 <= k < before.len() && before[k] == (ids[i], commits[i]->0@);
                assert(all[k] == before[k]);
            } else {
                assert(all[all.len() - 1] == (ids[i], commits[i]->0@));
            }
        }
        assert forall|k: int| 0 <= k < all.len() implies exists|i: int|
            0 <= i < commits.len() && #[trigger] commits[i] is Some && #[trigger] all[k] == (ids[i], commits[i]->0@) by {
            if k < before.len() {
                assert(before[k] == all[k]);
                let i = choose|i: int|
                    0 <= i < fc.len() && #[trigger] fc[i] is Some && before[k] == (fi[i], fc[i]->0@);
                assert(commits[i] is Some && all[k] == (ids[i], commits[i]->0@));
            } else {
                assert(commits[n] is Some && all[k] == (ids[n], commits[n]->0@));
            }
        }
        if all.len() == 0 {
            assert forall|i: int| 0 <= i < commits.len() implies #[trigger] commits[i] is None by {
                if commits[i] is Some {
                    assert(all.contains((ids[i], commits[i]->0@)));
                }
            }
        }
        if forall|i: int| 0 <= i < commits.len() ==> #[trigger] commits[i] is None {
            assert(commits[n] is None);
            assert forall|i: int| 0 <= i < fc.len() implies #[trigger] fc[i] is None by {
                assert(fc[i] == commits[i]);
            }
        }
    }
}

/// A bookmark has the prefix `snap/` once.
pub proof fn bookmarks_have_the_prefix(name: Seq<char>)
    ensures
        bookmark_text("snap/"@ + name) == "snap/"@ + name,
        !crate::text::begins_with(name, "snap/"@) ==> bookmark_text(name) == "snap/"@ + name,
{
    assert(("snap/"@ + name).take("snap/"@.len() as int) =~= "snap/"@);
}

} // verus!
