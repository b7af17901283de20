//! Bringing the working directory to the state of a checkpoint.

use vstd::prelude::*;

use crate::paths::{is_among, names_begin_with, names_of, path_under};
use crate::text::{chars_of, has_prefix, is_text, trim_chars, utf8_text};
use crate::tree::{Entry, Tree};
use crate::ui::{add_blank, add_line, add_text, blank, concat, counted_text, no_lines, put, put_number, Span, SpanView, Style};

verus! {

/// What becomes of an entry of a tree that is restored.
#[derive(Debug)]
pub enum Disposition {
    /// Its path is not UTF-8.
    BadName {
        /// What is wrong with it.
        message: String,
    },
    /// Its path is absolute and outside the repository.
    Escapes {
        /// The path.
        path: String,
    },
    /// Its path is in a directory that is never touched.
    Protected,
    /// It is written.
    Write {
        /// Its path in the tree.
        path: String,
        /// The file to write.
        target: String,
    },
}

/// The path is inside one of the directories that a restore leaves alone.
pub open spec fn is_protected(path: Seq<char>, keep_jj: bool) -> bool {
    ||| crate::text::begins_with(path, ".tl/"@)
    ||| crate::text::begins_with(path, ".git/"@)
    ||| keep_jj && crate::text::begins_with(path, ".jj/"@)
}

/// The path is absolute and not inside the repository. No absolute path is inside
/// a directory that is given by a relative path, but every path is inside the one
/// with the empty path.
pub open spec fn escapes(root: Seq<char>, path: Seq<char>) -> bool {
    &&& crate::paths::is_absolute(path)
    &&& root.len() > 0
    &&& !(crate::paths::is_absolute(root) && crate::text::begins_with(
        crate::paths::names(path),
        crate::paths::names(root),
    ))
}

/// `d` is what becomes of the entry with the given path.
pub open spec fn is_disposition(root: Seq<char>, path: Seq<u8>, keep_jj: bool, d: Disposition) -> bool {
    let text = vstd::utf8::decode_utf8(path);
    match d {
        Disposition::BadName { message } => !vstd::utf8::valid_utf8(path) && message@ == crate::text::utf8_failure(path),
        Disposition::Escapes { path: p } => vstd::utf8::valid_utf8(path) && escapes(root, text) && p@ == text,
        Disposition::Protected => vstd::utf8::valid_utf8(path) && !escapes(root, text) && is_protected(text, keep_jj),
        Disposition::Write { path: p, target } => {
            &&& vstd::utf8::valid_utf8(path)
            &&& !escapes(root, text)
            &&& !is_protected(text, keep_jj)
            &&& p@ == text
            &&& target@ == crate::paths::under(root, text)
        },
    }
}

/// Whether a path is inside one of the directories that a restore leaves alone.
pub fn is_protected_path(path: &[char], keep_jj: bool) -> (r: bool)
    ensures
        r == is_protected(path@, keep_jj),
{
    let tl = chars_of(".tl/");
    let git = chars_of(".git/");
    let jj = chars_of(".jj/");
    has_prefix(path, tl.as_slice()) || has_prefix(path, git.as_slice()) || (keep_jj && has_prefix(path, jj.as_slice()))
}

/// Decides what becomes of an entry of a tree that is restored below `root`.
pub fn disposition(root: &str, path: &[u8], keep_jj: bool) -> (d: Disposition)
    ensures
        is_disposition(root@, path@, keep_jj, d),
{
    let text = match utf8_text(path) {
        Ok(s) => s,
        Err(message) => {
            return Disposition::BadName { message };
        },
    };
    let chars = chars_of(text.as_str());
    let top = chars_of(root);
    if chars.len() > 0 && chars[0] == '/' && top.len() > 0 {
        let inside = names_of(text.as_str());
        let base = names_of(root);
        if top[0] != '/' || !names_begin_with(&inside, &base) {
            return Disposition::Escapes { path: text };
        }
    }
    if is_protected_path(chars.as_slice(), keep_jj) {
        return Disposition::Protected;
    }
    let target = path_under(root, text.as_str());
    Disposition::Write { path: text, target }
}

/// `plan` says of each entry of the tree, once, what becomes of it.
pub open spec fn is_restore_plan(
    root: Seq<char>,
    tree: Map<Seq<u8>, Entry>,
    keep_jj: bool,
    plan: Seq<(Disposition, Entry)>,
) -> bool {
    exists|items: Seq<(Vec<u8>, Entry)>| #[trigger] crate::tree::lists(tree, items) && follows(root, items, keep_jj, plan)
}

/// `plan` says of each listed entry what becomes of it.
pub open spec fn follows(
    root: Seq<char>,
    items: Seq<(Vec<u8>, Entry)>,
    keep_jj: bool,
    plan: Seq<(Disposition, Entry)>,
) -> bool {
    &&& plan.len() == items.len()
    &&& forall|i: int|
        0 <= i < plan.len() ==> is_disposition(root, items[i].0@, keep_jj, (#[trigger] plan[i]).0) && plan[i].1
            == items[i].1
}

/// Decides what becomes of each entry of a tree that is restored.
pub fn plan_restore(root: &str, tree: &Tree, keep_jj: bool) -> (plan: Vec<(Disposition, Entry)>)
    ensures
        is_restore_plan(root@, tree@, keep_jj, plan@),
{
    let items = tree.entries_with_paths();
    let mut plan: Vec<(Disposition, Entry)> = Vec::new();
    let mut i: usize = 0;
    while i < items.len()
        invariant
            i <= items.len(),
            plan.len() == i,
            forall|j: int|
                0 <= j < i ==> is_disposition(root@, items@[j].0@, keep_jj, (#[trigger] plan@[j]).0) && plan@[j].1
                    == items@[j].1,
        decreases items.len() - i,
    {
        let d = disposition(root, items[i].0.as_slice(), keep_jj);
        plan.push((d, items[i].1));
        i = i + 1;
    }
    assert(follows(root@, items@, keep_jj, plan@));
    plan
}

/// A restore writes nothing into the protected directories and nothing outside
/// the repository by an absolute path, and writes every other entry whose path is
/// UTF-8, with its own content.
pub proof fn restore_respects_protection(
    root: Seq<char>,
    tree: Map<Seq<u8>, Entry>,
    keep_jj: bool,
    plan: Seq<(Disposition, Entry)>,
)
    requires
        is_restore_plan(root, tree, keep_jj, plan),
    ensures
        forall|i: int|
            0 <= i < plan.len() && (#[trigger] plan[i]).0 is Write ==> !is_protected(plan[i].0->Write_path@, keep_jj)
                && !escapes(root, plan[i].0->Write_path@),
        forall|k: Seq<u8>| #[trigger]
            tree.contains_key(k) && vstd::utf8::valid_utf8(k) && !is_protected(vstd::utf8::decode_utf8(k), keep_jj)
                && !escapes(root, vstd::utf8::decode_utf8(k)) ==> exists|i: int|
                0 <= i < plan.len() && (#[trigger] plan[i]).0 is Write && plan[i].0->Write_path@
                    == vstd::utf8::decode_utf8(k) && plan[i].1 == tree[k],
{
    let items = choose|items: Seq<(Vec<u8>, Entry)>| #[trigger]
        crate::tree::lists(tree, items) && follows(root, items, keep_jj, plan);
    assert forall|k: Seq<u8>| #[trigger]
        tree.contains_key(k) && vstd::utf8::valid_utf8(k) && !is_protected(vstd::utf8::decode_utf8(k), keep_jj)
            && !escapes(root, vstd::utf8::decode_utf8(k)) implies exists|i: int|
        0 <= i < plan.len() && (#[trigger] plan[i]).0 is Write && plan[i].0->Write_path@ == vstd::utf8::decode_utf8(k)
            && plan[i].1 == tree[k] by {
        let i = choose|i: int| 0 <= i < items.len() && (#[trigger] items[i]).0@ == k;
        assert(is_disposition(root, items[i].0@, keep_jj, plan[i].0));
    }
}

proof fn lemma_inside(path: Seq<char>, dir: Seq<char>, name: Seq<char>)
    requires
        dir == name.push('/'),
        !name.contains('/'),
    ensures
        crate::text::begins_with(path, dir) <==> (exists|i: int|
            0 <= i < path.len() && #[trigger] path[i] == '/' && path.take(i) == name),
{
    let n = name.len() as int;
    if crate::text::begins_with(path, dir) {
        assert(path.take(dir.len() as int)[n] == path[n]);
        assert(path.take(n) =~= path.take(dir.len() as int).take(n));
        assert(dir.take(n) =~= name);
        assert(path[n] == '/' && path.take(n) == name);
    }
    if exists|i: int| 0 <= i < path.len() && #[trigger] path[i] == '/' && path.take(i) == name {
        let i = choose|i: int| 0 <= i < path.len() && #[trigger] path[i] == '/' && path.take(i) == name;
        assert(path.take(i).len() == n);
        assert(path.take(i + 1) =~= path.take(i).push(path[i]));
    }
}

/// A path is passed over exactly when its first name, up to a slash, is that of a
/// directory which a restore leaves alone: `.gitignore` is not inside `.git`.
pub proof fn inner_directories_are_passed_over(path: Seq<char>, keep_jj: bool)
    ensures
        is_protected(path, keep_jj) <==> (exists|i: int|
            0 <= i < path.len() && #[trigger] path[i] == '/' && (path.take(i) == seq!['.', 't', 'l'] || path.take(i)
                == seq!['.', 'g', 'i', 't'] || (keep_jj && path.take(i) == seq!['.', 'j', 'j']))),
        !path.contains('/') ==> !is_protected(path, keep_jj),
{
    reveal_strlit(".tl/");
    reveal_strlit(".git/");
    reveal_strlit(".jj/");
    assert(".tl/"@ =~= seq!['.', 't', 'l'].push('/'));
    assert(".git/"@ =~= seq!['.', 'g', 'i', 't'].push('/'));
    assert(".jj/"@ =~= seq!['.', 'j', 'j'].push('/'));
    lemma_inside(path, ".tl/"@, seq!['.', 't', 'l']);
    lemma_inside(path, ".git/"@, seq!['.', 'g', 'i', 't']);
    lemma_inside(path, ".jj/"@, seq!['.', 'j', 'j']);
}

/// What becomes of an entry with a relative path in UTF-8: it is passed over where its
/// first name is that of a directory which a restore leaves alone, and else written under
/// its own path below the root.
pub proof fn other_paths_are_written(root: Seq<char>, name: Seq<u8>, keep_jj: bool, d: Disposition, path: Seq<char>)
    requires
        is_disposition(root, name, keep_jj, d),
        name == vstd::utf8::encode_utf8(path),
        path.len() > 0 ==> path[0] != '/',
    ensures
        d is Protected || d is Write,
        d is Protected <==> (exists|i: int|
            0 <= i < path.len() && #[trigger] path[i] == '/' && (path.take(i) == seq!['.', 't', 'l'] || path.take(i)
                == seq!['.', 'g', 'i', 't'] || (keep_jj && path.take(i) == seq!['.', 'j', 'j']))),
        d is Write ==> {
            &&& d->Write_path@ == path
            &&& root.len() > 0 && root.last() != '/' ==> d->target@ == root + seq!['/'] + path
            &&& root.len() == 0 || root.last() == '/' ==> d->target@ == root + path
        },
{
    vstd::utf8::encode_utf8_decode_utf8(path);
    vstd::utf8::encode_utf8_valid_utf8(path);
    inner_directories_are_passed_over(path, keep_jj);
    reveal_strlit("/");
    assert("/"@ =~= seq!['/']);
}

/// A plan holds a write for each entry of the tree with a relative path whose first name
/// is not that of a directory which a restore leaves alone.
pub proof fn plan_writes_the_other_paths(
    root: Seq<char>,
    tree: Map<Seq<u8>, Entry>,
    keep_jj: bool,
    plan: Seq<(Disposition, Entry)>,
    path: Seq<char>,
)
    requires
        is_restore_plan(root, tree, keep_jj, plan),
        tree.contains_key(vstd::utf8::encode_utf8(path)),
        path.len() > 0 ==> path[0] != '/',
        forall|i: int|
            0 <= i < path.len() && #[trigger] path[i] == '/' ==> path.take(i) != seq!['.', 't', 'l'] && path.take(i)
                != seq!['.', 'g', 'i', 't'] && (keep_jj ==> path.take(i) != seq!['.', 'j', 'j']),
    ensures
        exists|i: int|
            0 <= i < plan.len() && (#[trigger] plan[i]).0 is Write && plan[i].0->Write_path@ == path && plan[i].1
                == tree[vstd::utf8::encode_utf8(path)] && (root.len() > 0 && root.last() != '/' ==> plan[i].0->target@
                == root + seq!['/'] + path) && (root.len() == 0 || root.last() == '/' ==> plan[i].0->target@ == root
                + path),
{
    let name = vstd::utf8::encode_utf8(path);
    let items = choose|items: Seq<(Vec<u8>, Entry)>| #[trigger]
        crate::tree::lists(tree, items) && follows(root, items, keep_jj, plan);
    let i = choose|i: int| 0 <= i < items.len() && (#[trigger] items[i]).0@ == name;
    assert(is_disposition(root, items[i].0@, keep_jj, plan[i].0));
    other_paths_are_written(root, name, keep_jj, plan[i].0, path);
}

/// What a restore did.
#[derive(Debug)]
pub struct RestoreResult {
    /// Number of files written.
    pub files_restored: usize,
    /// Number of files deleted.
    pub files_deleted: usize,
    /// What went wrong.
    pub errors: Vec<String>,
}

impl Default for RestoreResult {
    fn default() -> (r: Self)
        ensures
            r.files_restored == 0,
            r.files_deleted == 0,
            r.errors@ == Seq::<String>::empty(),
    {
        RestoreResult { files_restored: 0, files_deleted: 0, errors: Vec::new() }
    }
}

/// The errors after one more.
pub open spec fn with_error(errors: Seq<Seq<char>>, error: Seq<char>) -> Seq<Seq<char>> {
    errors.push(error)
}

impl RestoreResult {
    /// The errors as texts.
    pub open spec fn messages(&self) -> Seq<Seq<char>> {
        crate::text::texts(self.errors@)
    }

    fn push_error(&mut self, error: String)
        ensures
            final(self).files_restored == old(self).files_restored,
            final(self).files_deleted == old(self).files_deleted,
            final(self).messages() == with_error(old(self).messages(), error@),
    {
        self.errors.push(error);
        assert(self.messages() =~= with_error(old(self).messages(), error@));
    }

    /// Records what became of an entry. `failure` is what went wrong where it was to
    /// be written and could not be.
    pub fn record(&mut self, d: &Disposition, failure: Option<&str>)
        requires
            old(self).files_restored < usize::MAX,
        ensures
            final(self).files_deleted == old(self).files_deleted,
            final(self).files_restored == old(self).files_restored + (if *d is Write && failure is None {
                1int
            } else {
                0int
            }),
            final(self).messages() == (match *d {
                Disposition::BadName { message } => with_error(
                    old(self).messages(),
                    "Invalid UTF-8 in path: "@ + message@,
                ),
                Disposition::Escapes { path } => with_error(
                    old(self).messages(),
                    "Path escapes repository: "@ + path@,
                ),
                Disposition::Protected => old(self).messages(),
                Disposition::Write { path, .. } => match failure {
                    None => old(self).messages(),
                    Some(e) => with_error(old(self).messages(), path@ + ": "@ + e@),
                },
            }),
    {
        match d {
            Disposition::BadName { message } => {
                self.push_error(concat("Invalid UTF-8 in path: ", message.as_str()));
            },
            Disposition::Escapes { path } => {
                self.push_error(concat("Path escapes repository: ", path.as_str()));
            },
            Disposition::Protected => {},
            Disposition::Write { path, .. } => match failure {
                None => {
                    self.files_restored = self.files_restored + 1;
                },
                Some(e) => {
                    let mut s = concat(path.as_str(), ": ");
                    s.append(e);
                    self.push_error(s);
                },
            },
        }
    }

    /// Adds what was deleted, and each file that could not be.
    pub fn add_deletions(&mut self, d: &DeleteResult)
        ensures
            final(self).files_restored == old(self).files_restored,
            final(self).files_deleted == d.deleted,
            final(self).messages() == old(self).messages() + d.errors@.map_values(
                |e: (String, String)| deletion_error(e.0@, e.1@),
            ),
    {
        let ghost added = d.errors@.map_values(|e: (String, String)| deletion_error(e.0@, e.1@));
        let ghost start = self.messages();
        let ghost restored = self.files_restored;
        self.files_deleted = d.deleted;
        let mut i: usize = 0;
        assert(self.messages() =~= start + added.take(0));
        while i < d.errors.len()
            invariant
                i <= d.errors.len(),
                added == d.errors@.map_values(|e: (String, String)| deletion_error(e.0@, e.1@)),
                self.files_restored == restored,
                self.files_deleted == d.deleted,
                self.messages() == start + added.take(i as int),
            decreases d.errors.len() - i,
        {
            let mut s = concat("Failed to delete ", d.errors[i].0.as_str());
            s.append(": ");
            s.append(d.errors[i].1.as_str());
            assert(s@ == added[i as int]);
            self.push_error(s);
            i = i + 1;
            assert(self.messages() =~= start + added.take(i as int));
        }
        assert(added.take(added.len() as int) =~= added);
    }
}

/// The message for a file that could not be deleted.
pub open spec fn deletion_error(path: Seq<char>, message: Seq<char>) -> Seq<char> {
    "Failed to delete "@ + path + ": "@ + message
}

/// What the deletion of extra files did.
#[derive(Debug)]
pub struct DeleteResult {
    /// Number of files deleted.
    pub deleted: usize,
    /// The files that could not be deleted, each with what went wrong.
    pub errors: Vec<(String, String)>,
}

impl Default for DeleteResult {
    fn default() -> (r: Self)
        ensures
            r.deleted == 0,
            r.errors@ == Seq::<(String, String)>::empty(),
    {
        DeleteResult { deleted: 0, errors: Vec::new() }
    }
}

impl DeleteResult {
    /// Records whether a file could be deleted.
    pub fn record(&mut self, path: String, failure: Option<String>)
        requires
            old(self).deleted < usize::MAX,
        ensures
            match failure {
                None => final(self).deleted == old(self).deleted + 1 && final(self).errors@ == old(self).errors@,
                Some(e) => final(self).deleted == old(self).deleted && final(self).errors@ == old(self).errors@.push(
                    (path, e),
                ),
            },
    {
        match failure {
            None => {
                self.deleted = self.deleted + 1;
            },
            Some(e) => {
                self.errors.push((path, e));
            },
        }
    }
}

/// Whether the search for extra files passes over a path and what is below it.
pub fn is_passed_over(path: &str) -> (r: bool)
    ensures
        r == ends_in_repository(path@),
{
    let names = names_of(path);
    let ghost all = crate::text::deep(names@);
    if names.len() == 0 {
        return false;
    }
    let n: usize = names.len();
    assert(all.last() == names@[n - 1]@);
    let last = &names[n - 1];
    is_text(last.as_slice(), ".tl") || is_text(last.as_slice(), ".git") || is_text(last.as_slice(), ".jj")
}

/// Where the files of a plan belong, whether or not they could be written.
pub open spec fn write_targets(plan: Seq<(Disposition, Entry)>) -> Seq<Seq<char>>
    decreases plan.len(),
{
    if plan.len() == 0 {
        Seq::empty()
    } else {
        let before = write_targets(plan.drop_last());
        match plan.last().0 {
            Disposition::Write { target, .. } => before.push(target@),
            _ => before,
        }
    }
}

/// Collects where the files of a plan belong, whether or not they could be written.
pub fn planned_targets(plan: &Vec<(Disposition, Entry)>) -> (targets: Vec<String>)
    ensures
        crate::text::texts(targets@) == write_targets(plan@),
{
    let mut targets: Vec<String> = Vec::new();
    let mut i: usize = 0;
    assert(crate::text::texts(targets@) =~= write_targets(plan@.take(0)));
    while i < plan.len()
        invariant
            i <= plan.len(),
            crate::text::texts(targets@) == write_targets(plan@.take(i as int)),
        decreases plan.len() - i,
    {
        let ghost before = targets@;
        assert(plan@.take(i + 1).drop_last() =~= plan@.take(i as int));
        match &plan[i].0 {
            Disposition::Write { target, .. } => {
                targets.push(target.as_str().to_owned());
                assert(crate::text::texts(targets@) =~= crate::text::texts(before).push(target@));
            },
            _ => {},
        }
        i = i + 1;
    }
    assert(plan@.take(plan@.len() as int) =~= plan@);
    targets
}

/// Whether a file of the working directory is deleted: it is not where a file of the
/// plan belongs. `planned` is what `planned_targets` gives.
pub fn is_extra(path: &str, planned: &Vec<String>) -> (r: bool)
    ensures
        r == !crate::paths::is_one_of(path@, crate::text::texts(planned@)),
{
    !is_among(path, planned)
}

proof fn lemma_write_targets(plan: Seq<(Disposition, Entry)>)
    ensures
        forall|i: int|
            0 <= i < plan.len() && (#[trigger] plan[i]).0 is Write ==> write_targets(plan).contains(
                plan[i].0->target@,
            ),
        forall|t: Seq<char>| #[trigger]
            write_targets(plan).contains(t) ==> exists|i: int|
                0 <= i < plan.len() && (#[trigger] plan[i]).0 is Write && plan[i].0->target@ == t,
    decreases plan.len(),
{
    if plan.len() > 0 {
        let front = plan.drop_last();
        let before = write_targets(front);
        let all = write_targets(plan);
        lemma_write_targets(front);
        assert forall|i: int| 0 <= i < plan.len() && (#[trigger] plan[i]).0 is Write implies all.contains(
            plan[i].0->target@,
        ) by {
            if i < front.len() {
                assert(front[i] == plan[i]);
                assert(before.contains(plan[i].0->target@));
                let j = choose|j: int| 0 <= j < before.len() && before[j] == plan[i].0->target@;
                assert(all[j] == before[j]);
            } else {
                assert(all[all.len() - 1] == plan[i].0->target@);
            }
        }
        assert forall|t: Seq<char>| #[trigger] all.contains(t) implies exists|i: int|
            0 <= i < plan.len() && (#[trigger] plan[i]).0 is Write && plan[i].0->target@ == t by {
            let j = choose|j: int| 0 <= j < all.len() && all[j] == t;
            if j < before.len() {
                assert(before[j] == t);
                assert(before.contains(t));
                let i = choose|i: int|
                    0 <= i < front.len() && (#[trigger] front[i]).0 is Write && front[i].0->target@ == t;
                assert(plan[i] == front[i]);
            } else {
                assert(plan[plan.len() - 1].0->target@ == t);
            }
        }
    }
}

/// A restore deletes no file of the tree, whether or not it could be written: a file
/// that the plan writes is not extra.
pub proof fn tree_files_are_kept(
    root: Seq<char>,
    tree: Map<Seq<u8>, Entry>,
    keep_jj: bool,
    plan: Seq<(Disposition, Entry)>,
    name: Seq<u8>,
)
    requires
        is_restore_plan(root, tree, keep_jj, plan),
        tree.contains_key(name),
        vstd::utf8::valid_utf8(name),
        !is_protected(vstd::utf8::decode_utf8(name), keep_jj),
        !escapes(root, vstd::utf8::decode_utf8(name)),
    ensures
        crate::paths::is_one_of(
            crate::paths::under(root, vstd::utf8::decode_utf8(name)),
            write_targets(plan),
        ),
{
    let items = choose|items: Seq<(Vec<u8>, Entry)>| #[trigger]
        crate::tree::lists(tree, items) && follows(root, items, keep_jj, plan);
    let i = choose|i: int| 0 <= i < items.len() && (#[trigger] items[i]).0@ == name;
    assert(is_disposition(root, items[i].0@, keep_jj, plan[i].0));
    lemma_write_targets(plan);
    let t = plan[i].0->target@;
    assert(write_targets(plan).contains(t));
    let j = choose|j: int| 0 <= j < write_targets(plan).len() && write_targets(plan)[j] == t;
    assert(crate::paths::names(write_targets(plan)[j]) == crate::paths::names(t));
}

/// A restore that deletes extra files leaves only files of the tree: one that is not
/// extra is where an entry of the tree belongs.
pub proof fn kept_files_are_in_tree(
    root: Seq<char>,
    tree: Map<Seq<u8>, Entry>,
    keep_jj: bool,
    plan: Seq<(Disposition, Entry)>,
    path: Seq<char>,
)
    requires
        is_restore_plan(root, tree, keep_jj, plan),
        crate::paths::is_one_of(path, write_targets(plan)),
    ensures
        exists|name: Seq<u8>| #[trigger]
            tree.contains_key(name) && vstd::utf8::valid_utf8(name) && crate::paths::names(
                crate::paths::under(root, vstd::utf8::decode_utf8(name)),
            ) == crate::paths::names(path),
{
    let items = choose|items: Seq<(Vec<u8>, Entry)>| #[trigger]
        crate::tree::lists(tree, items) && follows(root, items, keep_jj, plan);
    let targets = write_targets(plan);
    let j = choose|j: int|
        0 <= j < targets.len() && crate::paths::names(#[trigger] targets[j]) == crate::paths::names(path);
    lemma_write_targets(plan);
    assert(targets.contains(targets[j]));
    let i = choose|i: int| 0 <= i < plan.len() && (#[trigger] plan[i]).0 is Write && plan[i].0->target@ == targets[j];
    assert(is_disposition(root, items[i].0@, keep_jj, plan[i].0));
    assert(tree.contains_key(items[i].0@));
}

/// The answer means yes.
pub open spec fn means_yes(input: Seq<char>) -> bool {
    crate::text::trim(input) == "y"@ || crate::text::trim(input) == "Y"@
}

/// Whether the user's answer means yes.
pub fn is_yes(input: &str) -> (r: bool)
    ensures
        r == means_yes(input@),
{
    let chars = chars_of(input);
    let answer = trim_chars(chars.as_slice());
    is_text(answer.as_slice(), "y") || is_text(answer.as_slice(), "Y")
}

/// An error of a restore.
pub open spec fn error_line(error: Seq<char>) -> Seq<SpanView> {
    seq![crate::ui::plain("  "@), crate::ui::styled(error, Style::Red)]
}

/// The outcome of a restore: the first ten errors, and how many more there are.
pub open spec fn outcome(restored: nat, errors: Seq<Seq<char>>) -> Seq<Seq<SpanView>> {
    let note = seq![
        crate::ui::empty_line(),
        seq![
            crate::ui::styled(
                "Note: The daemon will automatically create a new checkpoint reflecting these changes."@,
                Style::Dimmed,
            ),
        ],
    ];
    if errors.len() == 0 {
        seq![
            seq![
                crate::ui::styled("✓"@, Style::Green),
                crate::ui::plain(" Restored "@),
                crate::ui::styled(crate::text::decimal(restored), Style::Green),
                crate::ui::plain(" files successfully"@),
            ],
        ] + note
    } else {
        let head = seq![
            seq![
                crate::ui::styled("⚠"@, Style::Yellow),
                crate::ui::plain(
                    " Restored "@ + crate::text::decimal(restored) + " files with "@ + crate::text::decimal(errors.len())
                        + " errors"@,
                ),
            ],
            crate::ui::empty_line(),
            seq![crate::ui::styled("Errors:"@, Style::BoldRed)],
        ];
        if errors.len() > 10 {
            head + errors.take(10).map_values(|e: Seq<char>| error_line(e)) + seq![
                seq![
                    crate::ui::styled(
                        "  ... and "@ + crate::text::decimal((errors.len() - 10) as nat) + " more"@,
                        Style::Plain,
                    ),
                ],
            ] + note
        } else {
            head + errors.map_values(|e: Seq<char>| error_line(e)) + note
        }
    }
}

/// Shows the outcome of a restore.
pub fn show_outcome(result: &RestoreResult) -> (p: Vec<Vec<Span>>)
    ensures
        crate::ui::page(p@) == outcome(result.files_restored as nat, result.messages()),
{
    let ghost errors = result.messages();
    let n: usize = result.errors.len();
    let mut p = no_lines();
    if n == 0 {
        let mut l = blank();
        put(&mut l, "✓", Style::Green);
        put(&mut l, " Restored ", Style::Plain);
        put_number(&mut l, result.files_restored as u64, Style::Green);
        put(&mut l, " files successfully", Style::Plain);
        add_line(&mut p, l);
    } else {
        let mut l = blank();
        put(&mut l, "⚠", Style::Yellow);
        let mut s = counted_text(" Restored ", result.files_restored as u64, " files with ");
        s.append(crate::text::decimal_string(n as u64).as_str());
        s.append(" errors");
        put(&mut l, s.as_str(), Style::Plain);
        add_line(&mut p, l);
        add_blank(&mut p);
        add_text(&mut p, "Errors:", Style::BoldRed);
        let ghost head = crate::ui::page(p@);
        let ghost rows = errors.map_values(|e: Seq<char>| error_line(e));
        assert(head =~~= seq![
            seq![
                crate::ui::styled("⚠"@, Style::Yellow),
                crate::ui::plain(
                    " Restored "@ + crate::text::decimal(result.files_restored as nat) + " files with "@
                        + crate::text::decimal(errors.len()) + " errors"@,
                ),
            ],
            crate::ui::empty_line(),
            seq![crate::ui::styled("Errors:"@, Style::BoldRed)],
        ]);
        let mut i: usize = 0;
        assert(crate::ui::page(p@) =~= head + rows.take(0));
        while i < n && i < 10
            invariant
                i <= n,
                i <= 10,
                n == result.errors.len(),
                errors == result.messages(),
                rows == errors.map_values(|e: Seq<char>| error_line(e)),
                crate::ui::page(p@) == head + rows.take(i as int),
            decreases n - i,
        {
            let mut l = blank();
            put(&mut l, "  ", Style::Plain);
            put(&mut l, result.errors[i].as_str(), Style::Red);
            assert(crate::ui::line(l@) =~= error_line(errors[i as int]));
            add_line(&mut p, l);
            i = i + 1;
            assert(crate::ui::page(p@) =~= head + rows.take(i as int));
        }
        if n > 10 {
            assert(rows.take(10) =~= errors.take(10).map_values(|e: Seq<char>| error_line(e)));
            add_text(&mut p, counted_text("  ... and ", (n - 10) as u64, " more").as_str(), Style::Plain);
        } else {
            assert(rows.take(n as int) =~= rows);
        }
    }
    add_blank(&mut p);
    add_text(
        &mut p,
        "Note: The daemon will automatically create a new checkpoint reflecting these changes.",
        Style::Dimmed,
    );
    assert(crate::ui::page(p@) =~~= outcome(result.files_restored as nat, result.messages()));
    p
}

/// An answer means yes exactly where it is the letter `y`, in either case, with white space
/// around it or not.
pub proof fn only_y_means_yes(before: Seq<char>, answer: Seq<char>, after: Seq<char>)
    requires
        forall|j: int| 0 <= j < before.len() ==> crate::text::is_space(#[trigger] before[j]),
        forall|j: int| 0 <= j < after.len() ==> crate::text::is_space(#[trigger] after[j]),
        answer.len() > 0 ==> !crate::text::is_space(answer[0]) && !crate::text::is_space(answer.last()),
    ensures
        means_yes(before + answer + after) <==> answer == seq!['y'] || answer == seq!['Y'],
{
    reveal_strlit("y");
    reveal_strlit("Y");
    assert("y"@ =~= seq!['y']);
    assert("Y"@ =~= seq!['Y']);
    crate::text::trim_undoes_padding(before, answer, after);
}

/// No relative path escapes, and an absolute one does so exactly where its names do not
/// begin with those of the repository, whose path is absolute.
pub proof fn absolute_paths_outside_escape(root: Seq<char>, path: Seq<char>)
    requires
        root.len() > 0 && root[0] == '/',
    ensures
        !(path.len() > 0 && path[0] == '/') ==> !escapes(root, path),
        path.len() > 0 && path[0] == '/' ==> (escapes(root, path) <==> !(crate::paths::names(path).len()
            >= crate::paths::names(root).len() && forall|j: int|
            0 <= j < crate::paths::names(root).len() ==> #[trigger] crate::paths::names(path)[j]
                == crate::paths::names(root)[j])),
{
    let p = crate::paths::names(path);
    let r = crate::paths::names(root);
    if crate::text::begins_with(p, r) {
        assert forall|j: int| 0 <= j < r.len() implies #[trigger] p[j] == r[j] by {
            assert(p.take(r.len() as int)[j] == p[j]);
        }
    }
    if p.len() >= r.len() && forall|j: int| 0 <= j < r.len() ==> #[trigger] p[j] == r[j] {
        assert(p.take(r.len() as int) =~= r);
    }
}

/// A file of the tree with a relative path outside the directories that are left alone is
/// never extra.
pub proof fn restored_files_are_not_extra(
    root: Seq<char>,
    tree: Map<Seq<u8>, Entry>,
    keep_jj: bool,
    plan: Seq<(Disposition, Entry)>,
    path: Seq<char>,
)
    requires
        is_restore_plan(root, tree, keep_jj, plan),
        tree.contains_key(vstd::utf8::encode_utf8(path)),
        root.len() > 0 && root.last() != '/',
        path.len() > 0 ==> path[0] != '/',
        forall|i: int|
            0 <= i < path.len() && #[trigger] path[i] == '/' ==> path.take(i) != seq!['.', 't', 'l'] && path.take(i)
                != seq!['.', 'g', 'i', 't'] && (keep_jj ==> path.take(i) != seq!['.', 'j', 'j']),
    ensures
        crate::paths::is_one_of(root + seq!['/'] + path, write_targets(plan)),
{
    vstd::utf8::encode_utf8_decode_utf8(path);
    vstd::utf8::encode_utf8_valid_utf8(path);
    inner_directories_are_passed_over(path, keep_jj);
    reveal_strlit("/");
    assert("/"@ =~= seq!['/']);
    tree_files_are_kept(root, tree, keep_jj, plan, vstd::utf8::encode_utf8(path));
}

/// The path ends in the name of a directory that a restore leaves alone.
pub open spec fn ends_in_repository(path: Seq<char>) -> bool {
    crate::paths::last_name_is(path, ".tl"@) || crate::paths::last_name_is(path, ".git"@)
        || crate::paths::last_name_is(path, ".jj"@)
}

/// The search for extra files passes over the directories `.tl`, `.git` and `.jj`, at
/// whatever depth, and over nothing else: a file called `.gitignore` is looked at.
pub proof fn only_repositories_are_passed_over(dir: Seq<char>, name: Seq<char>)
    requires
        name.len() > 0,
        name != seq!['.'],
        !name.contains('/'),
    ensures
        ends_in_repository(dir + seq!['/'] + name) <==> name == seq!['.', 't', 'l'] || name == seq!['.', 'g', 'i', 't']
            || name == seq!['.', 'j', 'j'],
{
    reveal_strlit(".tl");
    reveal_strlit(".git");
    reveal_strlit(".jj");
    assert(".tl"@ =~= seq!['.', 't', 'l']);
    assert(".git"@ =~= seq!['.', 'g', 'i', 't']);
    assert(".jj"@ =~= seq!['.', 'j', 'j']);
    crate::paths::last_name_follows_the_last_slash(dir, name, ".tl"@);
    crate::paths::last_name_follows_the_last_slash(dir, name, ".git"@);
    crate::paths::last_name_follows_the_last_slash(dir, name, ".jj"@);
}

/// The outcome of a restore names the number of files, and of the errors at most ten, in
/// order.
pub proof fn errors_of_a_restore_are_shown(restored: nat, errors: Seq<Seq<char>>)
    ensures
        errors.len() == 0 ==> outcome(restored, errors)[0][2].text == crate::text::decimal(restored) && outcome(
            restored,
            errors,
        ).len() == 3,
        0 < errors.len() <= 10 ==> outcome(restored, errors).len() == errors.len() + 5,
        errors.len() > 10 ==> outcome(restored, errors).len() == 16,
        forall|k: int|
            0 <= k < errors.len() && k < 10 ==> #[trigger] outcome(restored, errors)[k + 3] == error_line(errors[k]),
{
}

} // verus!
