//! Setting a repository up.

use vstd::prelude::*;

use crate::text::{chars_of, is_text};
use crate::ui::{add_blank, add_line, add_page, add_text, blank, concat, no_lines, put, Span, SpanView, Style};

verus! {

/// What is done about the Git repository.
#[derive(Debug, Clone, Copy, PartialEq, Eq, Structural)]
pub enum GitStep {
    /// It is already there.
    Detected,
    /// It is not wanted.
    Skipped,
    /// It is created.
    Create,
}

/// Decides what is done about the Git repository.
pub fn git_step(exists: bool, skip: bool) -> (s: GitStep)
    ensures
        s == step_for_git(exists, skip),
{
    if exists {
        GitStep::Detected
    } else if skip {
        GitStep::Skipped
    } else {
        GitStep::Create
    }
}

/// What is done about the JJ workspace.
#[derive(Debug, Clone, Copy, PartialEq, Eq, Structural)]
pub enum JjStep {
    /// It is already there.
    Detected,
    /// It is not wanted.
    Skipped,
    /// It cannot be created without a Git repository.
    Refused,
    /// It is created.
    Create,
}

/// Decides what is done about the JJ workspace.
pub fn jj_step(git_exists: bool, jj_exists: bool, skip: bool) -> (s: JjStep)
    ensures
        s == step_for_jj(git_exists, jj_exists, skip),
{
    if jj_exists {
        JjStep::Detected
    } else if skip {
        JjStep::Skipped
    } else if !git_exists {
        JjStep::Refused
    } else {
        JjStep::Create
    }
}

/// The remote that is recorded: the first called `origin`, else the first.
pub open spec fn primary(remotes: Seq<(Seq<char>, Seq<char>)>) -> Option<int> {
    let i = crate::text::first_index(remotes.map_values(|r: (Seq<char>, Seq<char>)| r.0), "origin"@);
    if i < remotes.len() {
        Some(i)
    } else if remotes.len() > 0 {
        Some(0)
    } else {
        None
    }
}

/// Finds the remote that is recorded.
pub fn primary_remote(remotes: &Vec<(String, String)>) -> (r: Option<usize>)
    ensures
        match r {
            Some(i) => i < remotes.len() && primary(crate::git_config::pair_texts(remotes@)) == Some(i as int),
            None => primary(crate::git_config::pair_texts(remotes@)) is None,
        },
{
    let ghost all = crate::git_config::pair_texts(remotes@);
    let ghost names = all.map_values(|r: (Seq<char>, Seq<char>)| r.0);
    let mut i: usize = 0;
    while i < remotes.len()
        invariant
            i <= remotes.len(),
            all == crate::git_config::pair_texts(remotes@),
            names == all.map_values(|r: (Seq<char>, Seq<char>)| r.0),
            forall|j: int| 0 <= j < i ==> #[trigger] names[j] != "origin"@,
        decreases remotes.len() - i,
    {
        assert(names[i as int] == remotes@[i as int].0@);
        let name = chars_of(remotes[i].0.as_str());
        if is_text(name.as_slice(), "origin") {
            proof {
                crate::text::lemma_first_index(names, "origin"@, i as int);
            }
            return Some(i);
        }
        i = i + 1;
    }
    proof {
        crate::text::lemma_first_index(names, "origin"@, i as int);
    }
    if remotes.len() > 0 {
        Some(0)
    } else {
        None
    }
}

/// A part of the setup that is done.
pub open spec fn done_line(text: Seq<char>) -> Seq<SpanView> {
    seq![crate::ui::plain("  "@), crate::ui::styled("✓"@, Style::Green), crate::ui::plain(text)]
}

fn add_done(p: &mut Vec<Vec<Span>>, text: &str)
    ensures
        crate::ui::page(final(p)@) == crate::ui::page(old(p)@).push(done_line(text@)),
{
    let mut l = blank();
    put(&mut l, "  ", Style::Plain);
    put(&mut l, "✓", Style::Green);
    put(&mut l, text, Style::Plain);
    assert(crate::ui::line(l@) =~= done_line(text@));
    add_line(p, l);
}

/// A command to try next.
pub open spec fn next_line(text: Seq<char>) -> Seq<SpanView> {
    seq![crate::ui::plain("  "@), crate::ui::styled("→"@, Style::Cyan), crate::ui::plain(text)]
}

fn add_next(p: &mut Vec<Vec<Span>>, text: &str)
    ensures
        crate::ui::page(final(p)@) == crate::ui::page(old(p)@).push(next_line(text@)),
{
    let mut l = blank();
    put(&mut l, "  ", Style::Plain);
    put(&mut l, "→", Style::Cyan);
    put(&mut l, text, Style::Plain);
    assert(crate::ui::line(l@) =~= next_line(text@));
    add_line(p, l);
}

/// The systems that hold the repository.
pub open spec fn stack_part(git_created: bool, jj_created: bool, jj_exists: bool) -> Seq<Seq<SpanView>> {
    let jj = if jj_created {
        seq![done_line(" JJ workspace (created)"@)]
    } else if jj_exists {
        seq![done_line(" JJ workspace (existing)"@)]
    } else {
        crate::ui::empty_page()
    };
    seq![
        seq![crate::ui::styled("VCS Stack:"@, Style::Plain)],
        done_line(
            if git_created {
                " Git repository (created)"@
            } else {
                " Git repository (existing)"@
            },
        ),
    ] + jj + seq![done_line(" Timelapse store (created)"@), crate::ui::empty_line()]
}

fn stack_part_of(git_created: bool, jj_created: bool, jj_exists: bool) -> (p: Vec<Vec<Span>>)
    ensures
        crate::ui::page(p@) == stack_part(git_created, jj_created, jj_exists),
{
    let mut p = no_lines();
    add_text(&mut p, "VCS Stack:", Style::Plain);
    if git_created {
        add_done(&mut p, " Git repository (created)");
    } else {
        add_done(&mut p, " Git repository (existing)");
    }
    if jj_created {
        add_done(&mut p, " JJ workspace (created)");
    } else if jj_exists {
        add_done(&mut p, " JJ workspace (existing)");
    }
    add_done(&mut p, " Timelapse store (created)");
    add_blank(&mut p);
    assert(crate::ui::page(p@) =~= stack_part(git_created, jj_created, jj_exists));
    p
}

/// A directory of the repository.
pub open spec fn directory_line(root: Seq<char>, text: Seq<char>) -> Seq<SpanView> {
    seq![crate::ui::styled("  "@ + root + text, Style::Plain)]
}

fn add_directory(p: &mut Vec<Vec<Span>>, root: &str, text: &str)
    ensures
        crate::ui::page(final(p)@) == crate::ui::page(old(p)@).push(directory_line(root@, text@)),
{
    let mut s = concat("  ", root);
    s.append(text);
    add_text(p, s.as_str(), Style::Plain);
}

/// The directories of the repository.
pub open spec fn directory_part(root: Seq<char>, git: bool, jj: bool) -> Seq<Seq<SpanView>> {
    let g = if git {
        seq![directory_line(root, "/.git/          (git repository)"@)]
    } else {
        crate::ui::empty_page()
    };
    let j = if jj {
        seq![directory_line(root, "/.jj/           (jj workspace)"@)]
    } else {
        crate::ui::empty_page()
    };
    seq![seq![crate::ui::styled("Directory structure:"@, Style::Plain)]] + g + j + seq![
        directory_line(root, "/.tl/           (timelapse store)"@),
        crate::ui::empty_line(),
    ]
}

fn directory_part_of(root: &str, git: bool, jj: bool) -> (p: Vec<Vec<Span>>)
    ensures
        crate::ui::page(p@) == directory_part(root@, git, jj),
{
    let mut p = no_lines();
    add_text(&mut p, "Directory structure:", Style::Plain);
    if git {
        add_directory(&mut p, root, "/.git/          (git repository)");
    }
    if jj {
        add_directory(&mut p, root, "/.jj/           (jj workspace)");
    }
    add_directory(&mut p, root, "/.tl/           (timelapse store)");
    add_blank(&mut p);
    assert(crate::ui::page(p@) =~= directory_part(root@, git, jj));
    p
}

/// The lines above the summary.
pub open spec fn summary_title() -> Seq<Seq<SpanView>> {
    seq![
        crate::ui::empty_line(),
        seq![crate::ui::styled(crate::ui::rule(), Style::Dimmed)],
        seq![
            crate::ui::styled("✓"@, Style::BoldGreen),
            crate::ui::plain(" Timelapse initialized successfully!"@),
        ],
        crate::ui::empty_line(),
    ]
}

/// The lines below the summary.
pub open spec fn summary_end() -> Seq<Seq<SpanView>> {
    seq![
        seq![crate::ui::styled("Next steps:"@, Style::Plain)],
        next_line(" tl status      - Check daemon and checkpoint status"@),
        next_line(" tl log         - View checkpoint timeline"@),
        next_line(" tl info        - View repository information"@),
        crate::ui::empty_line(),
        seq![crate::ui::styled("Happy coding! Your changes are now being tracked."@, Style::Dimmed)],
    ]
}

/// Shows that a repository was set up: which of its systems were created, and which
/// were there before.
pub fn print_success_summary(root: &str, git_created: bool, git_exists: bool, jj_created: bool, jj_exists: bool) -> (p:
    Vec<Vec<Span>>)
    ensures
        crate::ui::page(p@) == summary_title() + stack_part(git_created, jj_created, jj_exists) + directory_part(
            root@,
            git_created || git_exists,
            jj_created || jj_exists,
        ) + summary_end(),
{
    let mut p = no_lines();
    add_blank(&mut p);
    add_text(&mut p, "━━━━━━━━━━━━━━━━━━━━━━━━━━━━━━━━━━━━━━━━━━━━━━━━━━", Style::Dimmed);
    let mut l = blank();
    put(&mut l, "✓", Style::BoldGreen);
    put(&mut l, " Timelapse initialized successfully!", Style::Plain);
    add_line(&mut p, l);
    add_blank(&mut p);
    assert(crate::ui::page(p@) =~~= summary_title());
    let stack = stack_part_of(git_created, jj_created, jj_exists);
    add_page(&mut p, stack);
    let directories = directory_part_of(root, git_created || git_exists, jj_created || jj_exists);
    add_page(&mut p, directories);
    let ghost before = crate::ui::page(p@);
    add_text(&mut p, "Next steps:", Style::Plain);
    add_next(&mut p, " tl status      - Check daemon and checkpoint status");
    add_next(&mut p, " tl log         - View checkpoint timeline");
    add_next(&mut p, " tl info        - View repository information");
    add_blank(&mut p);
    add_text(&mut p, "Happy coding! Your changes are now being tracked.", Style::Dimmed);
    assert(crate::ui::page(p@) =~= before + summary_end());
    p
}

/// What becomes of the Git repository.
pub open spec fn step_for_git(exists: bool, skip: bool) -> GitStep {
    if exists {
        GitStep::Detected
    } else if skip {
        GitStep::Skipped
    } else {
        GitStep::Create
    }
}

/// What becomes of the JJ workspace.
pub open spec fn step_for_jj(git_exists: bool, jj_exists: bool, skip: bool) -> JjStep {
    if jj_exists {
        JjStep::Detected
    } else if skip {
        JjStep::Skipped
    } else if !git_exists {
        JjStep::Refused
    } else {
        JjStep::Create
    }
}

/// What is there is never created again, nothing is created that is not wanted, and no
/// workspace without a Git repository.
pub proof fn only_missing_parts_are_created(git_exists: bool, jj_exists: bool, skip: bool)
    ensures
        step_for_git(git_exists, skip) == GitStep::Create <==> !git_exists && !skip,
        step_for_git(git_exists, skip) == GitStep::Detected <==> git_exists,
        step_for_jj(git_exists, jj_exists, skip) == JjStep::Create <==> git_exists && !jj_exists && !skip,
        step_for_jj(git_exists, jj_exists, skip) == JjStep::Refused <==> !git_exists && !jj_exists && !skip,
        step_for_jj(git_exists, jj_exists, skip) == JjStep::Detected <==> jj_exists,
{
}

/// The primary remote is the first that is called `origin`, and the first of all where none
/// is.
pub proof fn origin_is_the_primary_remote(remotes: Seq<(Seq<char>, Seq<char>)>, i: int)
    ensures
        primary(remotes) is None <==> remotes.len() == 0,
        0 <= i < remotes.len() && remotes[i].0 == "origin"@ && (forall|j: int|
            0 <= j < i ==> (#[trigger] remotes[j]).0 != "origin"@) ==> primary(remotes) == Some(i),
        remotes.len() > 0 && (forall|j: int| 0 <= j < remotes.len() ==> (#[trigger] remotes[j]).0 != "origin"@)
            ==> primary(remotes) == Some(0int),
{
    let names = remotes.map_values(|r: (Seq<char>, Seq<char>)| r.0);
    crate::text::lemma_first_index_range(names, "origin"@);
    if 0 <= i < remotes.len() && remotes[i].0 == "origin"@ && (forall|j: int|
        0 <= j < i ==> (#[trigger] remotes[j]).0 != "origin"@) {
        assert forall|j: int| 0 <= j < i implies #[trigger] names[j] != "origin"@ by {
            assert(names[j] == remotes[j].0);
        }
        crate::text::lemma_first_index(names, "origin"@, i);
    }
    if forall|j: int| 0 <= j < remotes.len() ==> (#[trigger] remotes[j]).0 != "origin"@ {
        assert forall|j: int| 0 <= j < names.len() implies #[trigger] names[j] != "origin"@ by {
            assert(names[j] == remotes[j].0);
        }
        crate::text::lemma_first_index(names, "origin"@, names.len() as int);
    }
}

} // verus!
