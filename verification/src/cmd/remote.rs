//! Managing the remotes of the Git repository.

use vstd::prelude::*;

use crate::text::{chars_of, contains_chars, split_lines, split_words, string_of, trim_chars};
use crate::ui::{add_line, add_text, blank, concat, no_lines, put, Span, SpanView, Style};

verus! {

/// Why the arguments of a command on remotes are refused.
#[derive(Debug, Clone, Copy, PartialEq, Eq, Structural)]
pub enum RemoteArgsError {
    /// The name is empty.
    NameEmpty,
    /// The name holds a space or a slash.
    NameInvalid,
    /// The address is empty.
    UrlEmpty,
}

/// Why a name is refused, if it is.
pub open spec fn name_error(name: Seq<char>) -> Option<RemoteArgsError> {
    if name.len() == 0 {
        Some(RemoteArgsError::NameEmpty)
    } else if name.contains(' ') || name.contains('/') {
        Some(RemoteArgsError::NameInvalid)
    } else {
        None
    }
}

fn holds_char(s: &[char], c: char) -> (r: bool)
    ensures
        r == s@.contains(c),
{
    assert(s@.skip(0) =~= s@);
    proof {
        crate::text::lemma_first_index_range(s@, c);
    }
    match crate::text::find_char(s, 0, c) {
        Some(i) => {
            assert(s@[i as int] == c);
            true
        },
        None => false,
    }
}

/// Tests the name of a remote.
pub fn validate_name(name: &str) -> (r: Result<(), RemoteArgsError>)
    ensures
        r == (match name_error(name@) {
            Some(e) => Err::<(), RemoteArgsError>(e),
            None => Ok::<(), RemoteArgsError>(()),
        }),
{
    let chars = chars_of(name);
    if chars.len() == 0 {
        Err(RemoteArgsError::NameEmpty)
    } else if holds_char(chars.as_slice(), ' ') || holds_char(chars.as_slice(), '/') {
        Err(RemoteArgsError::NameInvalid)
    } else {
        Ok(())
    }
}

/// Tests the address of a remote.
pub fn validate_url(url: &str) -> (r: Result<(), RemoteArgsError>)
    ensures
        r == (if url@.len() == 0 {
            Err::<(), RemoteArgsError>(RemoteArgsError::UrlEmpty)
        } else {
            Ok::<(), RemoteArgsError>(())
        }),
{
    if chars_of(url).len() == 0 {
        Err(RemoteArgsError::UrlEmpty)
    } else {
        Ok(())
    }
}

/// Tests the arguments for a new remote.
pub fn validate_new(name: &str, url: &str) -> (r: Result<(), RemoteArgsError>)
    ensures
        r == (match name_error(name@) {
            Some(e) => Err::<(), RemoteArgsError>(e),
            None => if url@.len() == 0 {
                Err::<(), RemoteArgsError>(RemoteArgsError::UrlEmpty)
            } else {
                Ok::<(), RemoteArgsError>(())
            },
        }),
{
    match validate_name(name) {
        Err(e) => Err(e),
        Ok(()) => validate_url(url),
    }
}

/// A request to Git about remotes.
#[derive(Debug)]
pub enum RemoteRequest {
    /// All remotes, with their addresses where asked for.
    List {
        /// With addresses.
        verbose: bool,
    },
    /// The address of a remote.
    GetUrl {
        /// Name of the remote.
        name: String,
        /// The address to push to.
        push: bool,
    },
    /// A new remote.
    New {
        /// Name of the remote.
        name: String,
        /// Its address.
        url: String,
    },
    /// What a remote has.
    Fetch {
        /// Name of the remote.
        name: String,
    },
    /// To forget a remote.
    Remove {
        /// Name of the remote.
        name: String,
    },
    /// Another address.
    SetUrl {
        /// Name of the remote.
        name: String,
        /// Its new address.
        url: String,
        /// The address to push to.
        push: bool,
    },
    /// Another name.
    Rename {
        /// Name of the remote.
        from: String,
        /// Its new name.
        to: String,
    },
}

/// The arguments of Git for a request.
pub open spec fn arguments(root: Seq<char>, r: RemoteRequest) -> Seq<Seq<char>> {
    let base = seq!["-C"@, root];
    match r {
        RemoteRequest::List { verbose } => if verbose {
            base + seq!["remote"@, "-v"@]
        } else {
            base + seq!["remote"@]
        },
        RemoteRequest::GetUrl { name, push } => if push {
            base + seq!["remote"@, "get-url"@, "--push"@, name@]
        } else {
            base + seq!["remote"@, "get-url"@, name@]
        },
        RemoteRequest::New { name, url } => base + seq!["remote"@, "add"@, name@, url@],
        RemoteRequest::Fetch { name } => base + seq!["fetch"@, name@],
        RemoteRequest::Remove { name } => base + seq!["remote"@, "remove"@, name@],
        RemoteRequest::SetUrl { name, url, push } => if push {
            base + seq!["remote"@, "set-url"@, "--push"@, name@, url@]
        } else {
            base + seq!["remote"@, "set-url"@, name@, url@]
        },
        RemoteRequest::Rename { from, to } => base + seq!["remote"@, "rename"@, from@, to@],
    }
}

/// Puts an argument at the end of a list.
pub fn push_argument(args: &mut Vec<String>, arg: &str)
    ensures
        crate::text::texts(final(args)@) == crate::text::texts(old(args)@).push(arg@),
{
    args.push(arg.to_owned());
    assert(crate::text::texts(args@) =~= crate::text::texts(old(args)@).push(arg@));
}

/// The arguments of Git for a request.
pub fn git_arguments(root: &str, r: &RemoteRequest) -> (args: Vec<String>)
    ensures
        crate::text::texts(args@) == arguments(root@, *r),
{
    let mut args: Vec<String> = Vec::new();
    assert(crate::text::texts(args@) =~= Seq::empty());
    push_argument(&mut args, "-C");
    push_argument(&mut args, root);
    match r {
        RemoteRequest::List { verbose } => {
            push_argument(&mut args, "remote");
            if *verbose {
                push_argument(&mut args, "-v");
            }
        },
        RemoteRequest::GetUrl { name, push } => {
            push_argument(&mut args, "remote");
            push_argument(&mut args, "get-url");
            if *push {
                push_argument(&mut args, "--push");
            }
            push_argument(&mut args, name.as_str());
        },
        RemoteRequest::New { name, url } => {
            push_argument(&mut args, "remote");
            push_argument(&mut args, "add");
            push_argument(&mut args, name.as_str());
            push_argument(&mut args, url.as_str());
        },
        RemoteRequest::Fetch { name } => {
            push_argument(&mut args, "fetch");
            push_argument(&mut args, name.as_str());
        },
        RemoteRequest::Remove { name } => {
            push_argument(&mut args, "remote");
            push_argument(&mut args, "remove");
            push_argument(&mut args, name.as_str());
        },
        RemoteRequest::SetUrl { name, url, push } => {
            push_argument(&mut args, "remote");
            push_argument(&mut args, "set-url");
            if *push {
                push_argument(&mut args, "--push");
            }
            push_argument(&mut args, name.as_str());
            push_argument(&mut args, url.as_str());
        },
        RemoteRequest::Rename { from, to } => {
            push_argument(&mut args, "remote");
            push_argument(&mut args, "rename");
            push_argument(&mut args, from.as_str());
            push_argument(&mut args, to.as_str());
        },
    }
    assert(crate::text::texts(args@) =~= arguments(root@, *r));
    args
}

/// A remote is not known.
pub open spec fn not_found(name: Seq<char>) -> Seq<char> {
    "Remote '"@ + name + "' not found"@
}

/// The message for a request that Git refused with the given words.
pub open spec fn refusal(r: RemoteRequest, stderr: Seq<char>) -> Seq<char> {
    let missing = crate::text::occurs_in("No such remote"@, stderr);
    match r {
        RemoteRequest::List { .. } => "Git remote failed: "@ + stderr,
        RemoteRequest::GetUrl { name, .. } => if missing {
            not_found(name@)
        } else {
            "Git remote get-url failed: "@ + stderr
        },
        RemoteRequest::New { .. } => "Git remote add failed: "@ + stderr,
        RemoteRequest::Fetch { .. } => "Fetch failed: "@ + stderr,
        RemoteRequest::Remove { name } => if missing {
            not_found(name@)
        } else {
            "Git remote remove failed: "@ + stderr
        },
        RemoteRequest::SetUrl { name, .. } => if missing {
            not_found(name@)
        } else {
            "Git remote set-url failed: "@ + stderr
        },
        RemoteRequest::Rename { from, to } => if missing {
            not_found(from@)
        } else if crate::text::occurs_in("already exists"@, stderr) {
            "Remote '"@ + to@ + "' already exists"@
        } else {
            "Git remote rename failed: "@ + stderr
        },
    }
}

fn not_found_text(name: &str) -> (s: String)
    ensures
        s@ == not_found(name@),
{
    let mut s = concat("Remote '", name);
    s.append("' not found");
    s
}

/// The message for a request that Git refused.
pub fn refusal_message(r: &RemoteRequest, stderr: &str) -> (message: String)
    ensures
        message@ == refusal(*r, stderr@),
{
    let words = chars_of(stderr);
    let gone = chars_of("No such remote");
    let missing = contains_chars(words.as_slice(), gone.as_slice());
    match r {
        RemoteRequest::List { .. } => concat("Git remote failed: ", stderr),
        RemoteRequest::GetUrl { name, .. } => if missing {
            not_found_text(name.as_str())
        } else {
            concat("Git remote get-url failed: ", stderr)
        },
        RemoteRequest::New { .. } => concat("Git remote add failed: ", stderr),
        RemoteRequest::Fetch { .. } => concat("Fetch failed: ", stderr),
        RemoteRequest::Remove { name } => if missing {
            not_found_text(name.as_str())
        } else {
            concat("Git remote remove failed: ", stderr)
        },
        RemoteRequest::SetUrl { name, .. } => if missing {
            not_found_text(name.as_str())
        } else {
            concat("Git remote set-url failed: ", stderr)
        },
        RemoteRequest::Rename { from, to } => {
            let taken = chars_of("already exists");
            if missing {
                not_found_text(from.as_str())
            } else if contains_chars(words.as_slice(), taken.as_slice()) {
                let mut s = concat("Remote '", to.as_str());
                s.append("' already exists");
                s
            } else {
                concat("Git remote rename failed: ", stderr)
            }
        },
    }
}

/// A remote with its address: the first three words of a line.
pub open spec fn address_line(line: Seq<char>) -> Option<Seq<SpanView>> {
    let w = crate::text::words(line);
    if w.len() >= 3 {
        Some(
            seq![
                crate::ui::plain("  "@),
                crate::ui::styled(w[0], Style::Cyan),
                crate::ui::plain(" "@),
                crate::ui::styled(w[1], Style::BrightBlue),
                crate::ui::plain(" "@),
                crate::ui::styled(
                    if crate::text::occurs_in("fetch"@, w[2]) {
                        "(fetch)"@
                    } else {
                        "(push)"@
                    },
                    Style::Dimmed,
                ),
            ],
        )
    } else {
        None
    }
}

fn address_line_of(line: &[char]) -> (r: Option<Vec<Span>>)
    ensures
        match r {
            Some(l) => address_line(line@) == Some(crate::ui::line(l@)),
            None => address_line(line@) is None,
        },
{
    let w = split_words(line);
    let ghost all = crate::text::words(line@);
    if w.len() < 3 {
        return None;
    }
    assert(all[0] == w@[0]@ && all[1] == w@[1]@ && all[2] == w@[2]@);
    let mut l = blank();
    put(&mut l, "  ", Style::Plain);
    put(&mut l, string_of(w[0].as_slice()).as_str(), Style::Cyan);
    put(&mut l, " ", Style::Plain);
    put(&mut l, string_of(w[1].as_slice()).as_str(), Style::BrightBlue);
    put(&mut l, " ", Style::Plain);
    let fetch = chars_of("fetch");
    if contains_chars(w[2].as_slice(), fetch.as_slice()) {
        put(&mut l, "(fetch)", Style::Dimmed);
    } else {
        put(&mut l, "(push)", Style::Dimmed);
    }
    assert(crate::ui::line(l@) =~= address_line(line@)->0);
    Some(l)
}

/// The remotes with their addresses, one for each line that has at least three
/// words.
pub open spec fn address_lines(lines: Seq<Seq<char>>) -> Seq<Seq<SpanView>>
    decreases lines.len(),
{
    if lines.len() == 0 {
        crate::ui::empty_page()
    } else {
        let before = address_lines(lines.drop_last());
        match address_line(lines.last()) {
            Some(l) => before.push(l),
            None => before,
        }
    }
}

/// A name in a listing.
pub open spec fn name_line(name: Seq<char>) -> Seq<SpanView> {
    seq![crate::ui::plain("  "@), crate::ui::styled(name, Style::Cyan)]
}

/// One line for each name.
pub open spec fn name_lines(names: Seq<Seq<char>>) -> Seq<Seq<SpanView>> {
    names.map_values(|n: Seq<char>| name_line(n))
}

/// The listing of what Git printed: an own text where there is nothing.
pub open spec fn name_page(stdout: Seq<char>, none: Seq<char>, title: Seq<char>) -> Seq<Seq<SpanView>> {
    if crate::text::trim(stdout).len() == 0 {
        seq![seq![crate::ui::styled(none, Style::Dimmed)]]
    } else {
        seq![seq![crate::ui::styled(title, Style::Bold)]] + name_lines(crate::text::lines(stdout))
    }
}

/// Lists the names that Git printed.
pub fn list_names(stdout: &str, none: &str, title: &str) -> (p: Vec<Vec<Span>>)
    ensures
        crate::ui::page(p@) == name_page(stdout@, none@, title@),
{
    let chars = chars_of(stdout);
    let mut p = no_lines();
    if trim_chars(chars.as_slice()).len() == 0 {
        add_text(&mut p, none, Style::Dimmed);
        assert(crate::ui::page(p@) =~= name_page(stdout@, none@, title@));
        return p;
    }
    let ghost head = seq![seq![crate::ui::styled(title@, Style::Bold)]];
    add_text(&mut p, title, Style::Bold);
    let lines = split_lines(chars.as_slice());
    let ghost all = crate::text::lines(stdout@);
    let ghost rows = name_lines(all);
    let mut i: usize = 0;
    assert(crate::ui::page(p@) =~= head + rows.take(0));
    while i < lines.len()
        invariant
            i <= lines.len(),
            all == crate::text::deep(lines@),
            rows == name_lines(all),
            crate::ui::page(p@) == head + rows.take(i as int),
        decreases lines.len() - i,
    {
        let mut l = blank();
        put(&mut l, "  ", Style::Plain);
        put(&mut l, string_of(lines[i].as_slice()).as_str(), Style::Cyan);
        assert(crate::ui::line(l@) =~= name_line(all[i as int]));
        add_line(&mut p, l);
        i = i + 1;
        assert(crate::ui::page(p@) =~= head + rows.take(i as int));
    }
    assert(rows.take(rows.len() as int) =~= rows);
    p
}

/// The listing of remotes.
pub open spec fn remotes_page(stdout: Seq<char>, verbose: bool) -> Seq<Seq<SpanView>> {
    if verbose && crate::text::trim(stdout).len() > 0 {
        seq![seq![crate::ui::styled("Remotes:"@, Style::Bold)]] + address_lines(crate::text::lines(stdout))
    } else {
        name_page(stdout, "No remotes configured"@, "Remotes:"@)
    }
}

/// Lists the remotes that Git printed.
pub fn list_remotes(stdout: &str, verbose: bool) -> (p: Vec<Vec<Span>>)
    ensures
        crate::ui::page(p@) == remotes_page(stdout@, verbose),
{
    let chars = chars_of(stdout);
    if !verbose || trim_chars(chars.as_slice()).len() == 0 {
        return list_names(stdout, "No remotes configured", "Remotes:");
    }
    let mut p = no_lines();
    let ghost head = seq![seq![crate::ui::styled("Remotes:"@, Style::Bold)]];
    add_text(&mut p, "Remotes:", Style::Bold);
    let lines = split_lines(chars.as_slice());
    let ghost all = crate::text::lines(stdout@);
    let mut i: usize = 0;
    assert(all.take(0) =~= Seq::empty());
    assert(crate::ui::page(p@) =~= head + address_lines(all.take(0)));
    while i < lines.len()
        invariant
            i <= lines.len(),
            all == crate::text::deep(lines@),
            crate::ui::page(p@) == head + address_lines(all.take(i as int)),
        decreases lines.len() - i,
    {
        proof {
            assert(all.take(i + 1).drop_last() =~= all.take(i as int));
            assert(all.take(i + 1).last() == lines@[i as int]@);
        }
        match address_line_of(lines[i].as_slice()) {
            Some(l) => {
                add_line(&mut p, l);
                assert(crate::ui::page(p@) =~= head + address_lines(all.take(i + 1)));
            },
            None => {},
        }
        i = i + 1;
    }
    assert(all.take(all.len() as int) =~= all);
    p
}

/// The address of the remote that Git printed, if it did and printed one.
pub fn remote_url(success: bool, stdout: &str) -> (url: Option<String>)
    ensures
        crate::git_config::opt_text(url) == (if success && crate::text::trim(stdout@).len() > 0 {
            Some(crate::text::trim(stdout@))
        } else {
            None
        }),
{
    if !success {
        return None;
    }
    let chars = chars_of(stdout);
    let text = trim_chars(chars.as_slice());
    if text.len() == 0 {
        None
    } else {
        Some(string_of(text.as_slice()))
    }
}

/// A stage of adding a remote.
#[derive(Debug, Clone, Copy, PartialEq, Eq, Structural)]
pub enum AddStage {
    /// Asks for the address of a remote of that name.
    Probe,
    /// Adds the remote.
    Record,
    /// Fetches from it.
    Fetch,
}

/// What follows a stage of adding a remote.
#[derive(Debug, Clone, Copy, PartialEq, Eq, Structural)]
pub enum AddNext {
    /// Another stage.
    Run(AddStage),
    /// There is a remote of that name.
    AlreadyExists,
    /// The remote could not be added.
    Failed,
    /// The remote was added. A fetch that fails does not undo that.
    Done,
}

/// Decides what follows a stage: a remote that is already there is left alone, and
/// the new one is fetched from only where that is asked for.
pub fn add_next(stage: AddStage, success: bool, fetch: bool) -> (n: AddNext)
    ensures
        n == next_of(stage, success, fetch),
{
    match stage {
        AddStage::Probe => if success {
            AddNext::AlreadyExists
        } else {
            AddNext::Run(AddStage::Record)
        },
        AddStage::Record => if !success {
            AddNext::Failed
        } else if fetch {
            AddNext::Run(AddStage::Fetch)
        } else {
            AddNext::Done
        },
        AddStage::Fetch => AddNext::Done,
    }
}

/// What comes next while a remote is recorded.
pub open spec fn next_of(stage: AddStage, success: bool, fetch: bool) -> AddNext {
    match stage {
        AddStage::Probe => if success {
            AddNext::AlreadyExists
        } else {
            AddNext::Run(AddStage::Record)
        },
        AddStage::Record => if !success {
            AddNext::Failed
        } else if fetch {
            AddNext::Run(AddStage::Fetch)
        } else {
            AddNext::Done
        },
        AddStage::Fetch => AddNext::Done,
    }
}

/// A remote is recorded exactly where none of that name is found, is fetched from only
/// where that is asked for and it was recorded, and stays recorded where that fails.
pub proof fn remotes_are_recorded_once(success: bool, fetch: bool)
    ensures
        next_of(AddStage::Probe, success, fetch) == AddNext::Run(AddStage::Record) <==> !success,
        next_of(AddStage::Probe, success, fetch) == AddNext::AlreadyExists <==> success,
        next_of(AddStage::Record, success, fetch) == AddNext::Failed <==> !success,
        next_of(AddStage::Record, success, fetch) == AddNext::Run(AddStage::Fetch) <==> success && fetch,
        next_of(AddStage::Record, success, fetch) == AddNext::Done <==> success && !fetch,
        next_of(AddStage::Fetch, success, fetch) == AddNext::Done,
{
}

/// The name of a remote is not empty and holds neither spaces nor slashes, wherever in it
/// they stand; every other name is taken.
pub proof fn remote_names_are_single_words(a: Seq<char>, b: Seq<char>)
    ensures
        name_error(Seq::empty()) == Some(RemoteArgsError::NameEmpty),
        name_error(a + seq![' '] + b) == Some(RemoteArgsError::NameInvalid),
        name_error(a + seq!['/'] + b) == Some(RemoteArgsError::NameInvalid),
        a.len() > 0 && (forall|i: int| 0 <= i < a.len() ==> #[trigger] a[i] != ' ' && a[i] != '/') ==> name_error(
            a,
        ) is None,
{
    assert((a + seq![' '] + b)[a.len() as int] == ' ');
    assert((a + seq!['/'] + b)[a.len() as int] == '/');
    assert((a + seq![' '] + b).contains(' '));
    assert((a + seq!['/'] + b).contains('/'));
}

/// Git is always run in the repository, with the names and addresses that are asked for in
/// their order.
pub proof fn remote_arguments_say_what_is_asked(root: Seq<char>, name: String, other: String, flag: bool, r: RemoteRequest)
    ensures
        arguments(root, r).len() > 2 && arguments(root, r)[0] == "-C"@ && arguments(root, r)[1] == root,
        arguments(root, RemoteRequest::New { name, url: other }).skip(2) == seq!["remote"@, "add"@, name@, other@],
        arguments(root, RemoteRequest::Rename { from: name, to: other }).skip(2) == seq![
            "remote"@,
            "rename"@,
            name@,
            other@,
        ],
        arguments(root, RemoteRequest::Remove { name }).skip(2) == seq!["remote"@, "remove"@, name@],
        arguments(root, RemoteRequest::Fetch { name }).skip(2) == seq!["fetch"@, name@],
        arguments(root, RemoteRequest::SetUrl { name, url: other, push: flag }).skip(2) == seq!["remote"@, "set-url"@]
            + (if flag { seq!["--push"@] } else { Seq::<Seq<char>>::empty() }) + seq![name@, other@],
        arguments(root, RemoteRequest::GetUrl { name, push: flag }).skip(2) == seq!["remote"@, "get-url"@] + (if flag {
            seq!["--push"@]
        } else {
            Seq::<Seq<char>>::empty()
        }) + seq![name@],
        arguments(root, RemoteRequest::List { verbose: flag }).skip(2) == seq!["remote"@] + (if flag {
            seq!["-v"@]
        } else {
            Seq::<Seq<char>>::empty()
        }),
{
    assert(arguments(root, RemoteRequest::New { name, url: other }).skip(2) =~= seq!["remote"@, "add"@, name@, other@]);
    assert(arguments(root, RemoteRequest::Rename { from: name, to: other }).skip(2) =~= seq![
        "remote"@,
        "rename"@,
        name@,
        other@,
    ]);
    assert(arguments(root, RemoteRequest::Remove { name }).skip(2) =~= seq!["remote"@, "remove"@, name@]);
    assert(arguments(root, RemoteRequest::Fetch { name }).skip(2) =~= seq!["fetch"@, name@]);
    assert(arguments(root, RemoteRequest::SetUrl { name, url: other, push: flag }).skip(2) =~= seq![
        "remote"@,
        "set-url"@,
    ] + (if flag { seq!["--push"@] } else { Seq::<Seq<char>>::empty() }) + seq![name@, other@]);
    assert(arguments(root, RemoteRequest::GetUrl { name, push: flag }).skip(2) =~= seq!["remote"@, "get-url"@] + (
    if flag {
        seq!["--push"@]
    } else {
        Seq::<Seq<char>>::empty()
    }) + seq![name@]);
    assert(arguments(root, RemoteRequest::List { verbose: flag }).skip(2) =~= seq!["remote"@] + (if flag {
        seq!["-v"@]
    } else {
        Seq::<Seq<char>>::empty()
    }));
}

/// A listing has one line for each line that Git writes, with its text, in order; with
/// addresses, one for each that has three words.
pub proof fn listed_remotes_are_those_of_git(
    stdout: Seq<char>,
    none: Seq<char>,
    title: Seq<char>,
    lines: Seq<Seq<char>>,
    line: Seq<char>,
)
    ensures
        crate::text::trim(stdout).len() > 0 ==> name_page(stdout, none, title).len() == crate::text::lines(
            stdout,
        ).len() + 1 && forall|k: int|
            0 <= k < crate::text::lines(stdout).len() ==> (#[trigger] name_page(stdout, none, title)[k + 1])[1].text
                == crate::text::lines(stdout)[k],
        crate::text::trim(stdout).len() == 0 ==> name_page(stdout, none, title).len() == 1 && name_page(
            stdout,
            none,
            title,
        )[0][0].text == none,
        crate::text::words(line).len() >= 3 ==> address_lines(lines.push(line)).len() == address_lines(lines).len() + 1
            && address_lines(lines.push(line)).last()[1].text == crate::text::words(line)[0] && address_lines(
            lines.push(line),
        ).last()[3].text == crate::text::words(line)[1],
        crate::text::words(line).len() < 3 ==> address_lines(lines.push(line)) == address_lines(lines),
{
    assert(lines.push(line).drop_last() =~= lines);
}

} // verus!
