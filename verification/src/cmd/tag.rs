//! Managing the tags of the Git repository.

use vstd::prelude::*;

use crate::cmd::remote::{list_names, push_argument};
use crate::text::{chars_of, is_text};
use crate::ui::{add_line, blank, concat, no_lines, put, Span, SpanView, Style};

verus! {

/// A request to Git about tags.
#[derive(Debug)]
pub enum TagRequest {
    /// All tags, newest first.
    List,
    /// Whether a tag exists.
    Probe {
        /// Name of the tag.
        name: String,
    },
    /// A new tag.
    New {
        /// Name of the tag.
        name: String,
        /// The commit to tag.
        target: String,
        /// Message of an annotated tag.
        message: Option<String>,
        /// Whether an old tag of that name is replaced.
        force: bool,
    },
    /// To delete a tag.
    Delete {
        /// Name of the tag.
        name: String,
    },
    /// What a tag is.
    Show {
        /// Name of the tag.
        name: String,
    },
    /// To push one tag.
    Push {
        /// Name of the tag.
        name: String,
    },
    /// To push all tags.
    PushAll,
}

/// The full name of a tag.
pub open spec fn tag_ref(name: Seq<char>) -> Seq<char> {
    "refs/tags/"@ + name
}

/// The arguments of Git for a request.
pub open spec fn arguments(root: Seq<char>, r: TagRequest) -> Seq<Seq<char>> {
    let base = seq!["-C"@, root];
    match r {
        TagRequest::List => base + seq!["tag"@, "-l"@, "--sort=-creatordate"@],
        TagRequest::Probe { name } => base + seq!["rev-parse"@, tag_ref(name@)],
        TagRequest::New { name, target, message, force } => {
            let start = if force {
                base + seq!["tag"@, "--force"@]
            } else {
                base + seq!["tag"@]
            };
            match message {
                Some(m) => start + seq!["-a"@, name@, "-m"@, m@, target@],
                None => start + seq![name@, target@],
            }
        },
        TagRequest::Delete { name } => base + seq!["tag"@, "-d"@, name@],
        TagRequest::Show { name } => base + seq!["show"@, name@, "--no-patch"@],
        TagRequest::Push { name } => base + seq!["push"@, "origin"@, tag_ref(name@)],
        TagRequest::PushAll => base + seq!["push"@, "origin"@, "--tags"@],
    }
}

/// The arguments of Git for a request.
pub fn git_arguments(root: &str, r: &TagRequest) -> (args: Vec<String>)
    ensures
        crate::text::texts(args@) == arguments(root@, *r),
{
    let mut args: Vec<String> = Vec::new();
    assert(crate::text::texts(args@) =~= Seq::empty());
    push_argument(&mut args, "-C");
    push_argument(&mut args, root);
    match r {
        TagRequest::List => {
            push_argument(&mut args, "tag");
            push_argument(&mut args, "-l");
            push_argument(&mut args, "--sort=-creatordate");
        },
        TagRequest::Probe { name } => {
            push_argument(&mut args, "rev-parse");
            push_argument(&mut args, concat("refs/tags/", name.as_str()).as_str());
        },
        TagRequest::New { name, target, message, force } => {
            push_argument(&mut args, "tag");
            if *force {
                push_argument(&mut args, "--force");
            }
            match message {
                Some(m) => {
                    push_argument(&mut args, "-a");
                    push_argument(&mut args, name.as_str());
                    push_argument(&mut args, "-m");
                    push_argument(&mut args, m.as_str());
                },
                None => {
                    push_argument(&mut args, name.as_str());
                },
            }
            push_argument(&mut args, target.as_str());
        },
        TagRequest::Delete { name } => {
            push_argument(&mut args, "tag");
            push_argument(&mut args, "-d");
            push_argument(&mut args, name.as_str());
        },
        TagRequest::Show { name } => {
            push_argument(&mut args, "show");
            push_argument(&mut args, name.as_str());
            push_argument(&mut args, "--no-patch");
        },
        TagRequest::Push { name } => {
            push_argument(&mut args, "push");
            push_argument(&mut args, "origin");
            push_argument(&mut args, concat("refs/tags/", name.as_str()).as_str());
        },
        TagRequest::PushAll => {
            push_argument(&mut args, "push");
            push_argument(&mut args, "origin");
            push_argument(&mut args, "--tags");
        },
    }
    assert(crate::text::texts(args@) =~= arguments(root@, *r));
    args
}

/// What is to be tagged.
#[derive(Debug)]
pub enum TagTarget {
    /// The current commit.
    Current,
    /// No checkpoint has the given reference.
    Unknown,
    /// The checkpoint was not published.
    Unpublished,
    /// The commit of a checkpoint.
    Commit {
        /// The commit.
        commit: String,
    },
}

/// Finds what is to be tagged: the current commit where no checkpoint is named,
/// else the commit as which the checkpoint was published. `commit` is the commit of
/// the checkpoint that was found.
pub fn tag_target(named: bool, found: bool, commit: Option<String>) -> (t: TagTarget)
    ensures
        t == target_of(named, found, commit),
{
    if !named {
        TagTarget::Current
    } else if !found {
        TagTarget::Unknown
    } else {
        match commit {
            Some(commit) => TagTarget::Commit { commit },
            None => TagTarget::Unpublished,
        }
    }
}

/// What creating a tag begins with.
#[derive(Debug, Clone, Copy, PartialEq, Eq, Structural)]
pub enum TagStep {
    /// The name is empty.
    NameEmpty,
    /// Looks whether the tag exists.
    Probe,
    /// The tag exists.
    AlreadyExists,
    /// Creates the tag.
    Create,
}

/// Decides what creating a tag begins with: whether it exists does not matter where
/// it is replaced.
pub fn create_step(name: &str, force: bool) -> (s: TagStep)
    ensures
        s == first_step(name@, force),
{
    if chars_of(name).len() == 0 {
        TagStep::NameEmpty
    } else if force {
        TagStep::Create
    } else {
        TagStep::Probe
    }
}

/// Decides what follows the look for an old tag.
pub fn after_probe(exists: bool) -> (s: TagStep)
    ensures
        s == step_after_probe(exists),
{
    if exists {
        TagStep::AlreadyExists
    } else {
        TagStep::Create
    }
}

/// What is shown of a new tag.
pub open spec fn created_page(name: Seq<char>, annotated: bool, target: Seq<char>) -> Seq<Seq<SpanView>> {
    let first = seq![
        crate::ui::styled("✓"@, Style::Green),
        crate::ui::plain(
            if annotated {
                " Created annotated tag: "@
            } else {
                " Created tag: "@
            },
        ),
        crate::ui::styled(name, Style::Cyan),
    ];
    if target == "HEAD"@ {
        seq![first]
    } else {
        seq![
            first,
            seq![
                crate::ui::plain("  "@),
                crate::ui::styled("Target"@, Style::Dimmed),
                crate::ui::plain(": "@),
                crate::ui::styled(target, Style::Dimmed),
            ],
        ]
    }
}

/// Shows a new tag.
pub fn show_created(name: &str, annotated: bool, target: &str) -> (p: Vec<Vec<Span>>)
    ensures
        crate::ui::page(p@) == created_page(name@, annotated, target@),
{
    let mut p = no_lines();
    let mut l = blank();
    put(&mut l, "✓", Style::Green);
    if annotated {
        put(&mut l, " Created annotated tag: ", Style::Plain);
    } else {
        put(&mut l, " Created tag: ", Style::Plain);
    }
    put(&mut l, name, Style::Cyan);
    add_line(&mut p, l);
    let chars = chars_of(target);
    if !is_text(chars.as_slice(), "HEAD") {
        let mut l = blank();
        put(&mut l, "  ", Style::Plain);
        put(&mut l, "Target", Style::Dimmed);
        put(&mut l, ": ", Style::Plain);
        put(&mut l, target, Style::Dimmed);
        add_line(&mut p, l);
    }
    assert(crate::ui::page(p@) =~~= created_page(name@, annotated, target@));
    p
}

/// What is to be pushed: all tags, or the one named; nothing where neither is asked
/// for.
pub fn push_request(name: Option<String>, all: bool) -> (r: Option<TagRequest>)
    ensures
        r == push_of(name, all),
{
    if all {
        Some(TagRequest::PushAll)
    } else {
        match name {
            Some(name) => Some(TagRequest::Push { name }),
            None => None,
        }
    }
}

/// Lists the tags that Git printed.
pub fn list_tags(stdout: &str) -> (p: Vec<Vec<Span>>)
    ensures
        crate::ui::page(p@) == crate::cmd::remote::name_page(stdout@, "No tags found"@, "Tags:"@),
{
    list_names(stdout, "No tags found", "Tags:")
}

/// What is to be tagged.
pub open spec fn target_of(named: bool, found: bool, commit: Option<String>) -> TagTarget {
    if !named {
        TagTarget::Current
    } else if !found {
        TagTarget::Unknown
    } else {
        match commit {
            Some(commit) => TagTarget::Commit { commit },
            None => TagTarget::Unpublished,
        }
    }
}

/// What creating a tag begins with.
pub open spec fn first_step(name: Seq<char>, force: bool) -> TagStep {
    if name.len() == 0 {
        TagStep::NameEmpty
    } else if force {
        TagStep::Create
    } else {
        TagStep::Probe
    }
}

/// A tag is set on the current commit only where no checkpoint is named; a checkpoint that
/// is named is tagged by the commit as which it was published, or not at all.
pub proof fn named_checkpoints_are_tagged_by_their_commit(named: bool, found: bool, commit: Option<String>)
    ensures
        target_of(named, found, commit) is Current <==> !named,
        target_of(named, found, commit) is Commit <==> named && found && commit is Some,
        target_of(named, found, commit) is Commit ==> target_of(named, found, commit)->commit == commit->0,
        target_of(named, found, commit) is Unknown <==> named && !found,
        target_of(named, found, commit) is Unpublished <==> named && found && commit is None,
{
}

/// Without force a tag is created only after it was looked for, and never without a name.
pub proof fn tags_are_replaced_by_force_alone(name: Seq<char>, force: bool)
    ensures
        first_step(name, force) == TagStep::Create <==> name.len() > 0 && force,
        first_step(name, force) == TagStep::Probe <==> name.len() > 0 && !force,
        first_step(name, force) == TagStep::NameEmpty <==> name.len() == 0,
{
}

/// Git is always run in the repository, a tag is created under its name and at its target,
/// replaces another only by force, and is annotated exactly where there is a message.
pub proof fn tag_arguments_say_what_is_asked(
    root: Seq<char>,
    name: String,
    target: String,
    message: Option<String>,
    force: bool,
    r: TagRequest,
)
    ensures
        arguments(root, r).len() > 2 && arguments(root, r)[0] == "-C"@ && arguments(root, r)[1] == root,
        ({
            let args = arguments(root, TagRequest::New { name, target, message, force });
            &&& args[2] == "tag"@
            &&& force ==> args[3] == "--force"@
            &&& args.last() == target@
            &&& message is None ==> args == seq!["-C"@, root, "tag"@] + (if force {
                seq!["--force"@]
            } else {
                Seq::<Seq<char>>::empty()
            }) + seq![name@, target@]
            &&& message is Some ==> args == seq!["-C"@, root, "tag"@] + (if force {
                seq!["--force"@]
            } else {
                Seq::<Seq<char>>::empty()
            }) + seq!["-a"@, name@, "-m"@, message->0@, target@]
        }),
        arguments(root, TagRequest::Delete { name }).skip(2) == seq!["tag"@, "-d"@, name@],
        arguments(root, TagRequest::Push { name }).skip(2) == seq!["push"@, "origin"@, "refs/tags/"@ + name@],
        arguments(root, TagRequest::PushAll).skip(2) == seq!["push"@, "origin"@, "--tags"@],
        arguments(root, TagRequest::Probe { name }).skip(2) == seq!["rev-parse"@, "refs/tags/"@ + name@],
        arguments(root, TagRequest::Show { name }).skip(2) == seq!["show"@, name@, "--no-patch"@],
{
    let args = arguments(root, TagRequest::New { name, target, message, force });
    let flag = if force {
        seq!["--force"@]
    } else {
        Seq::<Seq<char>>::empty()
    };
    match message {
        Some(m) => {
            assert(args =~= seq!["-C"@, root, "tag"@] + flag + seq!["-a"@, name@, "-m"@, m@, target@]);
        },
        None => {
            assert(args =~= seq!["-C"@, root, "tag"@] + flag + seq![name@, target@]);
        },
    }
    assert(arguments(root, TagRequest::Delete { name }).skip(2) =~= seq!["tag"@, "-d"@, name@]);
    assert(arguments(root, TagRequest::Push { name }).skip(2) =~= seq!["push"@, "origin"@, "refs/tags/"@ + name@]);
    assert(arguments(root, TagRequest::PushAll).skip(2) =~= seq!["push"@, "origin"@, "--tags"@]);
    assert(arguments(root, TagRequest::Probe { name }).skip(2) =~= seq!["rev-parse"@, "refs/tags/"@ + name@]);
    assert(arguments(root, TagRequest::Show { name }).skip(2) =~= seq!["show"@, name@, "--no-patch"@]);
}

/// What comes after looking whether the tag exists.
pub open spec fn step_after_probe(exists: bool) -> TagStep {
    if exists {
        TagStep::AlreadyExists
    } else {
        TagStep::Create
    }
}

/// Which tags are pushed.
pub open spec fn push_of(name: Option<String>, all: bool) -> Option<TagRequest> {
    if all {
        Some(TagRequest::PushAll)
    } else {
        match name {
            Some(name) => Some(TagRequest::Push { name }),
            None => None,
        }
    }
}

/// A tag that exists is not created again, and only the tags that are asked for are pushed.
pub proof fn existing_tags_are_kept(name: Option<String>, all: bool, exists: bool)
    ensures
        step_after_probe(exists) == TagStep::Create <==> !exists,
        step_after_probe(exists) == TagStep::AlreadyExists <==> exists,
        push_of(name, all) is None <==> !all && name is None,
        all ==> push_of(name, all)->0 is PushAll,
        !all && name is Some ==> push_of(name, all)->0 == (TagRequest::Push { name: name->0 }),
{
}

} // verus!
