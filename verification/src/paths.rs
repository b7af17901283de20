//! Paths as sequences of names.

use vstd::prelude::*;

use crate::text::{chars_of, is_text, same_chars, split_chars};

verus! {

/// A part of a path that counts: neither empty nor the current directory.
pub open spec fn is_name(part: Seq<char>) -> bool {
    part.len() > 0 && part != "."@
}

/// The names in an absolute path, from the root down.
pub open spec fn names(path: Seq<char>) -> Seq<Seq<char>> {
    crate::text::split(path, '/').filter(|p: Seq<char>| is_name(p))
}

/// The names in an absolute path.
pub fn names_of(path: &str) -> (out: Vec<Vec<char>>)
    ensures
        crate::text::deep(out@) == names(path@),
{
    let chars = chars_of(path);
    let parts = split_chars(chars.as_slice(), '/');
    let ghost all = crate::text::split(path@, '/');
    let mut out: Vec<Vec<char>> = Vec::new();
    let mut i: usize = 0;
    proof {
        reveal(Seq::filter);
        assert(all.take(0) =~= Seq::empty());
        assert(crate::text::deep(out@) =~= Seq::empty());
    }
    while i < parts.len()
        invariant
            i <= parts.len(),
            all == crate::text::deep(parts@),
            crate::text::deep(out@) == all.take(i as int).filter(|p: Seq<char>| is_name(p)),
        decreases parts.len() - i,
    {
        let ghost before = out@;
        proof {
            reveal(Seq::filter);
            assert(all.take(i + 1).drop_last() =~= all.take(i as int));
            assert(all.take(i + 1).last() == parts@[i as int]@);
        }
        let n: usize = parts[i].len();
        if n > 0 && !is_text(parts[i].as_slice(), ".") {
            let part = crate::text::chars_between(parts[i].as_slice(), 0, n);
            assert(part@ =~= parts@[i as int]@);
            out.push(part);
            assert(crate::text::deep(out@) =~= crate::text::deep(before).push(part@));
        }
        i = i + 1;
    }
    assert(all.take(all.len() as int) =~= all);
    out
}

/// Whether one list of names begins with another.
pub fn names_begin_with(a: &Vec<Vec<char>>, b: &Vec<Vec<char>>) -> (r: bool)
    ensures
        r == crate::text::begins_with(crate::text::deep(a@), crate::text::deep(b@)),
{
    let ghost x = crate::text::deep(a@);
    let ghost y = crate::text::deep(b@);
    if a.len() < b.len() {
        return false;
    }
    let mut i: usize = 0;
    while i < b.len()
        invariant
            i <= b.len() <= a.len(),
            x == crate::text::deep(a@),
            y == crate::text::deep(b@),
            forall|j: int| 0 <= j < i ==> x[j] == y[j],
        decreases b.len() - i,
    {
        assert(x[i as int] == a@[i as int]@);
        assert(y[i as int] == b@[i as int]@);
        if !same_chars(a[i].as_slice(), b[i].as_slice()) {
            assert(x.take(y.len() as int)[i as int] != y[i as int]);
            return false;
        }
        i = i + 1;
    }
    assert(x.take(y.len() as int) =~= y);
    true
}

/// A path that starts at the root of the file system.
pub open spec fn is_absolute(path: Seq<char>) -> bool {
    path.len() > 0 && path[0] == '/'
}

/// The path below `root`, or `path` itself where it is absolute.
pub open spec fn under(root: Seq<char>, path: Seq<char>) -> Seq<char> {
    if is_absolute(path) {
        path
    } else if root.len() == 0 || root.last() == '/' {
        root + path
    } else {
        root + "/"@ + path
    }
}

/// The path below a directory, or the path itself where it is absolute.
pub fn path_under(root: &str, path: &str) -> (r: String)
    ensures
        r@ == under(root@, path@),
{
    let r = chars_of(root);
    let p = chars_of(path);
    if p.len() > 0 && p[0] == '/' {
        path.to_owned()
    } else {
        let mut out = root.to_owned();
        if r.len() > 0 && r[r.len() - 1] != '/' {
            out.append("/");
        }
        out.append(path);
        out
    }
}

/// The last name in a path is the given one.
pub open spec fn last_name_is(path: Seq<char>, name: Seq<char>) -> bool {
    names(path).len() > 0 && names(path).last() == name
}

/// Whether two absolute paths have the same names.
pub fn same_path(a: &str, b: &str) -> (r: bool)
    ensures
        r == (names(a@) == names(b@)),
{
    let x = names_of(a);
    let y = names_of(b);
    let ghost u = crate::text::deep(x@);
    let ghost v = crate::text::deep(y@);
    let r = x.len() == y.len() && names_begin_with(&x, &y);
    assert(u.len() == v.len() ==> u.take(v.len() as int) =~= u);
    r
}

/// Some path in a list has the same names.
pub open spec fn is_one_of(path: Seq<char>, list: Seq<Seq<char>>) -> bool {
    exists|i: int| 0 <= i < list.len() && names(#[trigger] list[i]) == names(path)
}

/// Whether some path in a list has the same names.
pub fn is_among(path: &str, list: &Vec<String>) -> (r: bool)
    ensures
        r == is_one_of(path@, crate::text::texts(list@)),
{
    let ghost all = crate::text::texts(list@);
    let mut i: usize = 0;
    while i < list.len()
        invariant
            i <= list.len(),
            all == crate::text::texts(list@),
            forall|j: int| 0 <= j < i ==> names(#[trigger] all[j]) != names(path@),
        decreases list.len() - i,
    {
        assert(all[i as int] == list@[i as int]@);
        if same_path(list[i].as_str(), path) {
            return true;
        }
        i = i + 1;
    }
    false
}

/// The directory `k` levels above an absolute path.
pub open spec fn above(path: Seq<char>, k: int) -> Seq<char> {
    "/"@ + crate::ui::join(names(path).take(names(path).len() - k), "/"@)
}

/// An absolute path and the directories above it, up to the root of the file system.
pub fn ancestors(path: &str) -> (dirs: Vec<String>)
    ensures
        dirs@.len() == names(path@).len() + 1,
        forall|k: int| 0 <= k < dirs@.len() ==> (#[trigger] dirs@[k])@ == above(path@, k),
{
    let parts = names_of(path);
    let ghost all = names(path@);
    let mut texts: Vec<String> = Vec::new();
    let mut i: usize = 0;
    while i < parts.len()
        invariant
            i <= parts.len(),
            all == crate::text::deep(parts@),
            crate::text::texts(texts@) == all.take(i as int),
        decreases parts.len() - i,
    {
        let ghost before = texts@;
        let part = crate::text::string_of(parts[i].as_slice());
        texts.push(part);
        assert(crate::text::texts(texts@) =~= crate::text::texts(before).push(part@));
        i = i + 1;
        assert(crate::text::texts(texts@) =~= all.take(i as int));
    }
    assert(all.take(all.len() as int) =~= all);
    let mut dirs: Vec<String> = Vec::new();
    dirs.push(crate::ui::concat("/", crate::ui::joined_texts(&texts, "/").as_str()));
    let ghost mut done: int = 0;
    while texts.len() > 0
        invariant
            all == names(path@),
            done >= 0,
            done + texts.len() == all.len(),
            crate::text::texts(texts@) == all.take(all.len() - done),
            dirs@.len() == done + 1,
            forall|k: int| 0 <= k < dirs@.len() ==> (#[trigger] dirs@[k])@ == above(path@, k),
        decreases texts.len(),
    {
        let ghost before = texts@;
        let gone = texts.pop();
        assert(crate::text::texts(texts@) =~= crate::text::texts(before).drop_last());
        assert(crate::text::texts(texts@) =~= all.take(all.len() - done - 1));
        dirs.push(crate::ui::concat("/", crate::ui::joined_texts(&texts, "/").as_str()));
        proof {
            done = done + 1;
        }
    }
    dirs
}

/// The first of the directories that holds a store, going up from the current one;
/// `holds` says of each whether it does.
pub fn find_repo_root(dirs: &Vec<String>, holds: &Vec<bool>) -> (r: Option<String>)
    requires
        dirs.len() == holds.len(),
    ensures
        match r {
            Some(d) => exists|k: int|
                0 <= k < dirs@.len() && #[trigger] holds@[k] && d@ == dirs@[k]@ && forall|j: int| 0 <= j < k ==> !holds@[j],
            None => forall|j: int| 0 <= j < holds@.len() ==> !holds@[j],
        },
{
    let mut i: usize = 0;
    while i < dirs.len()
        invariant
            i <= dirs.len(),
            dirs.len() == holds.len(),
            forall|j: int| 0 <= j < i ==> !holds@[j],
        decreases dirs.len() - i,
    {
        if holds[i] {
            return Some(dirs[i].clone());
        }
        i = i + 1;
    }
    None
}

proof fn lemma_filter_parts(a: Seq<Seq<char>>, b: Seq<Seq<char>>)
    ensures
        (a + b).filter(|p: Seq<char>| is_name(p)) == a.filter(|p: Seq<char>| is_name(p)) + b.filter(
            |p: Seq<char>| is_name(p),
        ),
    decreases b.len(),
{
    let pred = |p: Seq<char>| is_name(p);
    reveal(Seq::filter);
    if b.len() == 0 {
        assert(a + b =~= a);
        assert(a.filter(pred) + b.filter(pred) =~= a.filter(pred));
    } else {
        lemma_filter_parts(a, b.drop_last());
        assert((a + b).drop_last() =~= a + b.drop_last());
        assert((a + b).last() == b.last());
        assert((a + b).filter(pred) =~= a.filter(pred) + b.filter(pred));
    }
}

/// The names of a path are those before and those after each slash; an empty part and the
/// current directory are no names, and every other part without a slash is one.
pub proof fn names_stand_between_slashes(a: Seq<char>, b: Seq<char>)
    ensures
        names(a + seq!['/'] + b) == names(a) + names(b),
        !a.contains('/') ==> names(a) == (if a.len() == 0 || a == seq!['.'] { Seq::empty() } else { seq![a] }),
    decreases a.len(),
{
    reveal_strlit(".");
    assert("."@ =~= seq!['.']);
    crate::text::lemma_first_index_range(a, '/');
    let i = crate::text::first_index(a, '/');
    let pred = |p: Seq<char>| is_name(p);
    if i < a.len() {
        let head = a.take(i);
        let rest = a.skip(i + 1);
        assert(!head.contains('/')) by {
            assert forall|j: int| 0 <= j < head.len() implies #[trigger] head[j] != '/' by {
                assert(head[j] == a[j]);
            }
        }
        assert(a =~= head + seq!['/'] + rest);
        assert(a + seq!['/'] + b =~= head + seq!['/'] + (rest + seq!['/'] + b));
        crate::text::split_at_each_separator(head, '/', rest);
        crate::text::split_at_each_separator(head, '/', rest + seq!['/'] + b);
        names_stand_between_slashes(rest, b);
        lemma_filter_parts(seq![head], crate::text::split(rest, '/'));
        lemma_filter_parts(seq![head], crate::text::split(rest + seq!['/'] + b, '/'));
        let h = seq![head].filter(pred);
        assert(h + (names(rest) + names(b)) =~= (h + names(rest)) + names(b));
        assert(a[i] == '/');
        assert(a.contains('/'));
    } else {
        assert(!a.contains('/')) by {
            assert forall|j: int| 0 <= j < a.len() implies #[trigger] a[j] != '/' by {
                assert(a[j] != '/');
            }
        }
        crate::text::split_at_each_separator(a, '/', b);
        lemma_filter_parts(seq![a], crate::text::split(b, '/'));
        reveal_with_fuel(Seq::filter, 2);
        assert(seq![a].drop_last() =~= Seq::<Seq<char>>::empty());
        assert(seq![a].filter(pred) =~= if a.len() == 0 || a == seq!['.'] { Seq::empty() } else { seq![a] });
    }
}

/// A relative path below a directory has the names of the directory and then its own; an
/// absolute one stays as it is.
pub proof fn path_below_has_both_names(root: Seq<char>, path: Seq<char>)
    ensures
        path.len() > 0 && path[0] == '/' ==> under(root, path) == path,
        !(path.len() > 0 && path[0] == '/') ==> names(under(root, path)) == names(root) + names(path),
{
    reveal_strlit("/");
    assert("/"@ =~= seq!['/']);
    if !is_absolute(path) {
        if root.len() == 0 {
            assert(root + path =~= path);
            names_stand_between_slashes(root, path);
            assert(!root.contains('/'));
            assert(names(root) + names(path) =~= names(path));
        } else if root.last() == '/' {
            let front = root.drop_last();
            assert(root =~= front + seq!['/'] + Seq::<char>::empty());
            assert(root + path =~= front + seq!['/'] + path);
            names_stand_between_slashes(front, path);
            names_stand_between_slashes(front, Seq::empty());
            names_stand_between_slashes(Seq::empty(), Seq::empty());
            assert(!Seq::<char>::empty().contains('/'));
            assert(names(front) + Seq::<Seq<char>>::empty() =~= names(front));
        } else {
            names_stand_between_slashes(root, path);
        }
    }
}

proof fn lemma_names_are_plain(path: Seq<char>)
    ensures
        forall|k: int| 0 <= k < names(path).len() ==> is_name(#[trigger] names(path)[k]) && !names(path)[k].contains('/'),
{
    let parts = crate::text::split(path, '/');
    let pred = |p: Seq<char>| is_name(p);
    crate::text::split_parts_hold_no_separator(path, '/');
    assert forall|k: int| 0 <= k < parts.len() implies !(#[trigger] parts[k]).contains('/') by {
        assert forall|j: int| 0 <= j < parts[k].len() implies #[trigger] parts[k][j] != '/' by {
            assert(crate::text::split(path, '/')[k][j] != '/');
        }
    }
    lemma_filtered(parts, pred);
}

proof fn lemma_filtered(parts: Seq<Seq<char>>, pred: spec_fn(Seq<char>) -> bool)
    ensures
        forall|k: int|
            0 <= k < parts.filter(pred).len() ==> pred(#[trigger] parts.filter(pred)[k]) && parts.contains(
                parts.filter(pred)[k],
            ),
    decreases parts.len(),
{
    reveal(Seq::filter);
    if parts.len() > 0 {
        let t = parts.drop_last();
        lemma_filtered(t, pred);
        assert forall|k: int| 0 <= k < parts.filter(pred).len() implies pred(#[trigger] parts.filter(pred)[k])
            && parts.contains(parts.filter(pred)[k]) by {
            if k < t.filter(pred).len() {
                let x = t.filter(pred)[k];
                let j = choose|j: int| 0 <= j < t.len() && t[j] == x;
                assert(parts[j] == x);
            } else {
                assert(parts[parts.len() - 1] == parts.filter(pred)[k]);
            }
        }
    }
}

proof fn lemma_joined_names(list: Seq<Seq<char>>)
    requires
        forall|k: int| 0 <= k < list.len() ==> is_name(#[trigger] list[k]) && !list[k].contains('/'),
    ensures
        names(crate::ui::join(list, "/"@)) == list,
    decreases list.len(),
{
    reveal_strlit("/");
    assert("/"@ =~= seq!['/']);
    reveal_strlit(".");
    assert("."@ =~= seq!['.']);
    if list.len() == 0 {
        let e = Seq::<char>::empty();
        names_stand_between_slashes(e, e);
        assert(!e.contains('/'));
        assert(crate::ui::join(list, "/"@) =~= e);
        assert(names(e) =~= list);
    } else {
        let t = list.drop_last();
        assert forall|k: int| 0 <= k < t.len() implies is_name(#[trigger] t[k]) && !t[k].contains('/') by {
            assert(t[k] == list[k]);
        }
        lemma_joined_names(t);
        let w = list.last();
        assert(is_name(list[list.len() - 1]));
        names_stand_between_slashes(w, Seq::empty());
        if list.len() == 1 {
            assert(crate::ui::join(list, "/"@) =~= w);
            assert(names(w) =~= list);
        } else {
            names_stand_between_slashes(crate::ui::join(t, "/"@), w);
            assert(crate::ui::join(list, "/"@) =~= crate::ui::join(t, "/"@) + seq!['/'] + w);
            assert(t + seq![w] =~= list);
        }
    }
}

/// The directory `k` levels above a path has its names without the last `k`.
pub proof fn directories_above_lack_the_last_names(path: Seq<char>, k: int)
    requires
        0 <= k <= names(path).len(),
    ensures
        names(above(path, k)) == names(path).take(names(path).len() - k),
        is_absolute(above(path, k)),
{
    reveal_strlit("/");
    assert("/"@ =~= seq!['/']);
    let list = names(path).take(names(path).len() - k);
    lemma_names_are_plain(path);
    assert forall|j: int| 0 <= j < list.len() implies is_name(#[trigger] list[j]) && !list[j].contains('/') by {
        assert(list[j] == names(path)[j]);
    }
    lemma_joined_names(list);
    let e = Seq::<char>::empty();
    let text = crate::ui::join(list, "/"@);
    names_stand_between_slashes(e, text);
    assert(!e.contains('/'));
    assert(e + seq!['/'] + text =~= "/"@ + text);
    assert(names(e) + list =~= list);
}

proof fn lemma_single_name(name: Seq<char>)
    requires
        name.len() > 0,
        name != seq!['.'],
        !name.contains('/'),
    ensures
        names(name) == seq![name],
        names(Seq::empty()) == Seq::<Seq<char>>::empty(),
{
    let e = Seq::<char>::empty();
    assert(!e.contains('/'));
    names_stand_between_slashes(name, e);
    names_stand_between_slashes(e, e);
}

/// The last name in a path is what follows its last slash, where that is a name, with a
/// slash after it or not, and no other is.
pub proof fn last_name_follows_the_last_slash(dir: Seq<char>, name: Seq<char>, other: Seq<char>)
    requires
        name.len() > 0,
        name != seq!['.'],
        !name.contains('/'),
    ensures
        last_name_is(name, other) <==> other == name,
        last_name_is(dir + seq!['/'] + name, other) <==> other == name,
        last_name_is(dir + seq!['/'] + name + seq!['/'], other) <==> other == name,
{
    let e = Seq::<char>::empty();
    let path = dir + seq!['/'] + name;
    lemma_single_name(name);
    assert(names(path) == names(dir) + seq![name]) by {
        names_stand_between_slashes(dir, name);
    }
    assert(names(path + seq!['/']) == names(path)) by {
        names_stand_between_slashes(path, e);
        assert(path + seq!['/'] + e =~= path + seq!['/']);
        assert(names(path) + Seq::<Seq<char>>::empty() =~= names(path));
    }
}

} // verus!
