//! Pushing to the remote.

use vstd::prelude::*;

use crate::cmd::branch::short_commit_or;
use crate::text::{chars_of, contains_chars, same_chars};
use crate::ui::{add_line, add_text, blank, concat, no_lines, put, put_number, Span, SpanView, Style};

verus! {

/// What a push did with a branch.
#[derive(Debug)]
pub enum BranchPushStatus {
    /// It was pushed.
    Pushed,
    /// The remote already had its commit.
    UpToDate,
    /// The remote has commits that it lacks.
    Diverged,
    /// The remote refused it.
    Rejected(String),
    /// It was left out.
    Skipped,
}

/// A branch and what a push did with it.
#[derive(Debug)]
pub struct BranchPushResult {
    /// Name of the branch.
    pub name: String,
    /// What was done.
    pub status: BranchPushStatus,
    /// The commit that the remote had.
    pub old_commit: Option<String>,
    /// The commit that the remote has now.
    pub new_commit: Option<String>,
}

/// The bookmark to push: none where all are pushed, else the one asked for, else the
/// default branch.
pub fn resolve_bookmark(bookmark: Option<String>, default_branch: String, all: bool) -> (b: Option<String>)
    ensures
        b == bookmark_for(bookmark, default_branch, all),
{
    if all {
        None
    } else {
        match bookmark {
            Some(name) => Some(name),
            None => Some(default_branch),
        }
    }
}

/// The same text is there on both sides.
pub open spec fn same_text(a: Option<String>, b: Option<String>) -> bool {
    a is Some && b is Some && a->0@ == b->0@
}

fn is_same_text(a: &Option<String>, b: &Option<String>) -> (r: bool)
    ensures
        r == same_text(*a, *b),
{
    match (a, b) {
        (Some(x), Some(y)) => {
            let u = chars_of(x.as_str());
            let v = chars_of(y.as_str());
            same_chars(u.as_slice(), v.as_slice())
        },
        _ => false,
    }
}

/// Whether Git itself can push: one bookmark is pushed, it is the branch that is
/// checked out, and it is at the commit that is checked out.
pub fn can_push_directly(
    bookmark: &Option<String>,
    current_branch: &Option<String>,
    git_head: &Option<String>,
    bookmark_head: &Option<String>,
) -> (r: bool)
    ensures
        r == is_direct(*bookmark, *current_branch, *git_head, *bookmark_head),
{
    is_same_text(current_branch, bookmark) && is_same_text(git_head, bookmark_head)
}

/// The message for a push that the remote refused.
pub open spec fn aborted() -> Seq<char> {
    "Push aborted for one or more bookmarks. Use 'tl pull' to sync or '--force' to overwrite the remote."@
}

/// Git reported that the remote has commits that the branch lacks.
pub open spec fn is_refusal(error: Seq<char>) -> bool {
    ||| crate::text::occurs_in("failed to push some refs"@, error)
    ||| crate::text::occurs_in("fetch first"@, error)
    ||| crate::text::occurs_in("non-fast-forward"@, error)
}

/// The message shown for an error of Git's push.
pub fn push_error(error: &str, force: bool) -> (message: String)
    ensures
        message@ == shown_error(error@, force),
{
    let text = chars_of(error);
    let refs = chars_of("failed to push some refs");
    let first = chars_of("fetch first");
    let forward = chars_of("non-fast-forward");
    if !force && (contains_chars(text.as_slice(), refs.as_slice()) || contains_chars(text.as_slice(), first.as_slice())
        || contains_chars(text.as_slice(), forward.as_slice())) {
        "Push aborted for one or more bookmarks. Use 'tl pull' to sync or '--force' to overwrite the remote.".to_owned()
    } else {
        error.to_owned()
    }
}

/// The number of branches that were pushed.
pub open spec fn pushed(results: Seq<BranchPushResult>) -> nat
    decreases results.len(),
{
    if results.len() == 0 {
        0
    } else {
        pushed(results.drop_last()) + (if results.last().status is Pushed {
            1nat
        } else {
            0nat
        })
    }
}

/// Some branch was already up to date.
pub open spec fn any_up_to_date(results: Seq<BranchPushResult>) -> bool {
    exists|i: int| 0 <= i < results.len() && (#[trigger] results[i]).status is UpToDate
}

/// Some branch could not be pushed.
pub open spec fn any_failed(results: Seq<BranchPushResult>) -> bool {
    exists|i: int|
        0 <= i < results.len() && ((#[trigger] results[i]).status is Diverged || results[i].status is Rejected)
}

/// A branch in the results.
pub open spec fn result_line(r: BranchPushResult) -> Seq<SpanView> {
    let name = seq![crate::ui::plain("  "@), crate::ui::styled(r.name@, Style::Cyan), crate::ui::plain(" "@)];
    match r.status {
        BranchPushStatus::Pushed => name + seq![
            crate::ui::styled(crate::cmd::branch::commit_or(r.old_commit, "(new)"@), Style::Dimmed),
            crate::ui::plain(" → "@),
            crate::ui::styled(crate::cmd::branch::commit_or(r.new_commit, "???"@), Style::Green),
        ],
        BranchPushStatus::UpToDate => name + seq![crate::ui::styled("(up to date)"@, Style::Dimmed)],
        BranchPushStatus::Diverged => name + seq![crate::ui::styled("DIVERGED (use --force)"@, Style::Red)],
        BranchPushStatus::Rejected(reason) => name + seq![
            crate::ui::styled("REJECTED:"@, Style::Red),
            crate::ui::plain(" "@),
            crate::ui::plain(reason@),
        ],
        BranchPushStatus::Skipped => name + seq![crate::ui::styled("(skipped)"@, Style::Dimmed)],
    }
}

fn result_line_of(r: &BranchPushResult) -> (l: Vec<Span>)
    ensures
        crate::ui::line(l@) == result_line(*r),
{
    let mut l = blank();
    put(&mut l, "  ", Style::Plain);
    put(&mut l, r.name.as_str(), Style::Cyan);
    put(&mut l, " ", Style::Plain);
    match &r.status {
        BranchPushStatus::Pushed => {
            put(&mut l, short_commit_or(&r.old_commit, "(new)").as_str(), Style::Dimmed);
            put(&mut l, " → ", Style::Plain);
            put(&mut l, short_commit_or(&r.new_commit, "???").as_str(), Style::Green);
        },
        BranchPushStatus::UpToDate => put(&mut l, "(up to date)", Style::Dimmed),
        BranchPushStatus::Diverged => put(&mut l, "DIVERGED (use --force)", Style::Red),
        BranchPushStatus::Rejected(reason) => {
            put(&mut l, "REJECTED:", Style::Red);
            put(&mut l, " ", Style::Plain);
            put(&mut l, reason.as_str(), Style::Plain);
        },
        BranchPushStatus::Skipped => put(&mut l, "(skipped)", Style::Dimmed),
    }
    assert(crate::ui::line(l@) =~= result_line(*r));
    l
}

/// The line that names the bookmark where none was asked for.
pub open spec fn chosen_part(results: Seq<BranchPushResult>, explicit: bool, all: bool) -> Seq<Seq<SpanView>> {
    if !explicit && !all && results.len() > 0 {
        seq![seq![crate::ui::styled("Using bookmark: "@ + results[0].name@, Style::Dimmed)]]
    } else {
        crate::ui::empty_page()
    }
}

/// The line that says how many bookmarks were pushed.
pub open spec fn count_part(results: Seq<BranchPushResult>) -> Seq<Seq<SpanView>> {
    if pushed(results) > 0 {
        seq![
            seq![
                crate::ui::styled("✓"@, Style::Green),
                crate::ui::plain(" Pushed "@),
                crate::ui::styled(crate::text::decimal(pushed(results)), Style::Green),
                crate::ui::plain(" bookmark(s) to remote"@),
            ],
        ]
    } else if any_up_to_date(results) {
        seq![seq![crate::ui::styled("✓"@, Style::Green), crate::ui::plain(" Already up to date"@)]]
    } else {
        crate::ui::empty_page()
    }
}

/// What is shown of a push.
pub open spec fn push_page(results: Seq<BranchPushResult>, explicit: bool, all: bool) -> Seq<Seq<SpanView>> {
    chosen_part(results, explicit, all) + count_part(results) + results.map_values(
        |r: BranchPushResult| result_line(r),
    )
}

/// Shows what a push did, and says whether it succeeded: no branch had diverged and
/// none was refused.
pub fn show_results(results: &Vec<BranchPushResult>, explicit: bool, all: bool) -> (r: (Vec<Vec<Span>>, bool))
    ensures
        crate::ui::page(r.0@) == push_page(results@, explicit, all),
        r.1 == !any_failed(results@),
{
    let mut p = no_lines();
    if !explicit && !all && results.len() > 0 {
        add_text(&mut p, concat("Using bookmark: ", results[0].name.as_str()).as_str(), Style::Dimmed);
    }
    assert(crate::ui::page(p@) =~= chosen_part(results@, explicit, all));
    let mut count: usize = 0;
    let mut current: bool = false;
    let mut fine: bool = true;
    let mut i: usize = 0;
    assert(results@.take(0) =~= Seq::empty());
    while i < results.len()
        invariant
            i <= results.len(),
            count <= i,
            count == pushed(results@.take(i as int)),
            current == (exists|j: int| 0 <= j < i && (#[trigger] results@[j]).status is UpToDate),
            fine == !(exists|j: int|
                0 <= j < i && ((#[trigger] results@[j]).status is Diverged || results@[j].status is Rejected)),
        decreases results.len() - i,
    {
        proof {
            assert(results@.take(i + 1).drop_last() =~= results@.take(i as int));
            assert(results@[i as int] == results[i as int]);
        }
        match &results[i].status {
            BranchPushStatus::Pushed => {
                count = count + 1;
            },
            BranchPushStatus::UpToDate => {
                current = true;
            },
            BranchPushStatus::Diverged => {
                fine = false;
            },
            BranchPushStatus::Rejected(_) => {
                fine = false;
            },
            BranchPushStatus::Skipped => {},
        }
        i = i + 1;
    }
    assert(results@.take(results@.len() as int) =~= results@);
    let ghost before = crate::ui::page(p@);
    if count > 0 {
        let mut l = blank();
        put(&mut l, "✓", Style::Green);
        put(&mut l, " Pushed ", Style::Plain);
        put_number(&mut l, count as u64, Style::Green);
        put(&mut l, " bookmark(s) to remote", Style::Plain);
        add_line(&mut p, l);
    } else if current {
        let mut l = blank();
        put(&mut l, "✓", Style::Green);
        put(&mut l, " Already up to date", Style::Plain);
        add_line(&mut p, l);
    }
    assert(crate::ui::page(p@) =~~= before + count_part(results@));
    let ghost head = crate::ui::page(p@);
    let ghost rows = results@.map_values(|r: BranchPushResult| result_line(r));
    let mut k: usize = 0;
    assert(crate::ui::page(p@) =~= head + rows.take(0));
    while k < results.len()
        invariant
            k <= results.len(),
            rows == results@.map_values(|r: BranchPushResult| result_line(r)),
            crate::ui::page(p@) == head + rows.take(k as int),
        decreases results.len() - k,
    {
        let l = result_line_of(&results[k]);
        add_line(&mut p, l);
        k = k + 1;
        assert(crate::ui::page(p@) =~= head + rows.take(k as int));
    }
    assert(rows.take(rows.len() as int) =~= rows);
    (p, fine)
}

/// The number of bookmarks that were pushed is that of the results that say so.
pub proof fn pushed_bookmarks_are_counted(results: Seq<BranchPushResult>)
    ensures
        pushed(results) == results.filter(|r: BranchPushResult| r.status is Pushed).len(),
    decreases results.len(),
{
    reveal(Seq::filter);
    if results.len() > 0 {
        pushed_bookmarks_are_counted(results.drop_last());
    }
}

/// Two commits or branches are the same exactly where both are there and spelled alike.
pub proof fn texts_are_the_same_where_both_are_there(a: Option<String>, b: Option<String>)
    ensures
        a is None || b is None ==> !same_text(a, b),
        a is Some && b is Some ==> (same_text(a, b) <==> a->0@ == b->0@),
{
}

/// A push is refused where the remote has commits that are not there locally, in each of
/// the words that Git has for it, wherever in the message they stand.
pub proof fn refusals_are_known(before: Seq<char>, after: Seq<char>)
    ensures
        is_refusal(before + "failed to push some refs"@ + after),
        is_refusal(before + "fetch first"@ + after),
        is_refusal(before + "non-fast-forward"@ + after),
{
    crate::text::parts_of_a_text(before, "failed to push some refs"@, after);
    crate::text::parts_of_a_text(before, "fetch first"@, after);
    crate::text::parts_of_a_text(before, "non-fast-forward"@, after);
}

/// A push fails exactly where a bookmark has diverged or was rejected, and each result has
/// its own line, with its name, in order.
pub proof fn each_result_is_shown(results: Seq<BranchPushResult>, explicit: bool, all: bool, i: int)
    requires
        0 <= i < results.len(),
    ensures
        results[i].status is Diverged || results[i].status is Rejected ==> any_failed(results),
        ({
            let page = push_page(results, explicit, all);
            &&& page.len() >= results.len()
            &&& page[page.len() - results.len() + i] == result_line(results[i])
            &&& page[page.len() - results.len() + i][1].text == results[i].name@
        }),
{
    let page = push_page(results, explicit, all);
    let lines = results.map_values(|r: BranchPushResult| result_line(r));
    assert(lines[i] == result_line(results[i]));
}

/// What is said of a push that failed.
pub open spec fn shown_error(error: Seq<char>, force: bool) -> Seq<char> {
    if !force && is_refusal(error) {
        aborted()
    } else {
        error
    }
}

/// Git can push the bookmark itself: it is the current branch, and both are at one commit.
pub open spec fn is_direct(
    bookmark: Option<String>,
    current_branch: Option<String>,
    git_head: Option<String>,
    bookmark_head: Option<String>,
) -> bool {
    same_text(current_branch, bookmark) && same_text(git_head, bookmark_head)
}

/// The bookmark to push; none where all are.
pub open spec fn bookmark_for(bookmark: Option<String>, default_branch: String, all: bool) -> Option<String> {
    if all {
        None::<String>
    } else {
        match bookmark {
            Some(name) => Some(name),
            None => Some(default_branch),
        }
    }
}

/// A push goes to the bookmark that is named, to the default branch where none is, and to
/// all where that is asked for; a refusal is explained unless the push was forced.
pub proof fn pushes_go_where_they_are_sent(
    bookmark: Option<String>,
    default_branch: String,
    all: bool,
    before: Seq<char>,
    after: Seq<char>,
)
    ensures
        bookmark_for(bookmark, default_branch, all) is None <==> all,
        !all && bookmark is Some ==> bookmark_for(bookmark, default_branch, all) == bookmark,
        !all && bookmark is None ==> bookmark_for(bookmark, default_branch, all) == Some(default_branch),
        shown_error(before, true) == before,
        shown_error(before + "non-fast-forward"@ + after, false) == aborted(),
        shown_error(before + "fetch first"@ + after, false) == aborted(),
        !crate::text::occurs_in("failed to push some refs"@, before) && !crate::text::occurs_in(
            "fetch first"@,
            before,
        ) && !crate::text::occurs_in("non-fast-forward"@, before) ==> shown_error(before, false) == before,
{
    refusals_are_known(before, after);
}

/// A bookmark is pushed directly only where it is the current branch and at its commit.
pub proof fn direct_pushes_are_of_the_current_branch(
    bookmark: Option<String>,
    current_branch: Option<String>,
    git_head: Option<String>,
    bookmark_head: Option<String>,
)
    ensures
        is_direct(bookmark, current_branch, git_head, bookmark_head) <==> bookmark is Some && current_branch is Some
            && git_head is Some && bookmark_head is Some && bookmark->0@ == current_branch->0@ && git_head->0@
            == bookmark_head->0@,
{
}

} // verus!
