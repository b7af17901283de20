//! What is read out of Git's configuration files, and the lines added to
//! `.gitignore`.

use vstd::prelude::*;

use crate::paths::path_under;
use crate::text::{
    chars_between, chars_of, find_char, has_prefix, has_suffix, is_text, same_chars, split_lines, string_of, trim_chars,
};

verus! {

/// Whether a directory is a Git repository: it holds `.git`, and that is a directory.
pub fn detect_git_repo(exists: bool, is_dir: bool) -> (r: bool)
    ensures
        r == (exists && is_dir),
{
    exists && is_dir
}

/// The text without the given character at its start.
pub open spec fn strip_start(s: Seq<char>, c: char) -> Seq<char>
    decreases s.len(),
{
    if s.len() > 0 && s[0] == c {
        strip_start(s.drop_first(), c)
    } else {
        s
    }
}

/// The text without the given character at its end.
pub open spec fn strip_end(s: Seq<char>, c: char) -> Seq<char>
    decreases s.len(),
{
    if s.len() > 0 && s.last() == c {
        strip_end(s.drop_last(), c)
    } else {
        s
    }
}

/// Removes the given character, as often as it occurs, from either end.
fn strip_chars(s: &[char], c: char) -> (v: Vec<char>)
    ensures
        v@ == strip_end(strip_start(s@, c), c),
{
    let mut lo: usize = 0;
    assert(s@.skip(0) =~= s@);
    while lo < s.len() && s[lo] == c
        invariant
            lo <= s.len(),
            strip_start(s@, c) == strip_start(s@.skip(lo as int), c),
        decreases s.len() - lo,
    {
        assert(s@.skip(lo as int).drop_first() =~= s@.skip(lo + 1));
        lo = lo + 1;
    }
    let mut hi: usize = s.len();
    assert(s@.subrange(lo as int, hi as int) =~= s@.skip(lo as int));
    while hi > lo && s[hi - 1] == c
        invariant
            lo <= hi <= s.len(),
            strip_end(strip_start(s@, c), c) == strip_end(s@.subrange(lo as int, hi as int), c),
        decreases hi,
    {
        assert(s@.subrange(lo as int, hi as int).drop_last() =~= s@.subrange(lo as int, hi - 1));
        hi = hi - 1;
    }
    chars_between(s, lo, hi)
}

/// The key and the value of a line `key = value`: what stands before and after the
/// first equals sign, without surrounding white space, and the value without
/// surrounding quotation marks.
pub open spec fn key_value(line: Seq<char>) -> Option<(Seq<char>, Seq<char>)> {
    let i = crate::text::first_index(line, '=');
    if 0 <= i < line.len() {
        Some(
            (
                crate::text::trim(line.take(i)),
                strip_end(strip_start(crate::text::trim(line.skip(i + 1)), '"'), '"'),
            ),
        )
    } else {
        None
    }
}

/// Splits a line into key and value.
fn split_key_value(line: &[char]) -> (r: Option<(Vec<char>, Vec<char>)>)
    ensures
        match r {
            Some((k, v)) => key_value(line@) == Some((k@, v@)),
            None => key_value(line@) is None,
        },
{
    assert(line@.skip(0) =~= line@);
    match find_char(line, 0, '=') {
        None => None,
        Some(i) => {
            let before = chars_between(line, 0, i);
            let after = chars_between(line, i + 1, line.len());
            assert(before@ =~= line@.take(i as int));
            assert(after@ =~= line@.skip(i + 1));
            let key = trim_chars(before.as_slice());
            let value = strip_chars(trim_chars(after.as_slice()).as_slice(), '"');
            Some((key, value))
        },
    }
}

/// The lines of a text without surrounding white space.
pub open spec fn trimmed_lines(content: Seq<char>) -> Seq<Seq<char>> {
    crate::text::lines(content).map_values(|l: Seq<char>| crate::text::trim(l))
}

/// Splits a text into lines without surrounding white space.
pub fn split_trimmed_lines(content: &str) -> (out: Vec<Vec<char>>)
    ensures
        crate::text::deep(out@) == trimmed_lines(content@),
{
    let chars = chars_of(content);
    let raw = split_lines(chars.as_slice());
    let mut out: Vec<Vec<char>> = Vec::new();
    let mut i: usize = 0;
    while i < raw.len()
        invariant
            i <= raw.len(),
            crate::text::deep(raw@) == crate::text::lines(content@),
            crate::text::deep(out@) == trimmed_lines(content@).take(i as int),
        decreases raw.len() - i,
    {
        let ghost before = out@;
        let line = trim_chars(raw[i].as_slice());
        out.push(line);
        proof {
            assert(crate::text::deep(raw@)[i as int] == raw@[i as int]@);
            assert(crate::text::deep(out@) =~= crate::text::deep(before).push(line@));
        }
        i = i + 1;
        assert(crate::text::deep(out@) =~= trimmed_lines(content@).take(i as int));
    }
    assert(crate::text::deep(out@) =~= trimmed_lines(content@));
    out
}

/// A line that begins a section other than `user`.
pub open spec fn leaves_user(line: Seq<char>) -> bool {
    line.len() > 0 && line[0] == '[' && line != "[user]"@
}

/// The position of the first line `[user]`, or the number of lines.
pub open spec fn user_start(lines: Seq<Seq<char>>) -> int {
    crate::text::first_index(lines, "[user]"@)
}

/// The number of lines up to the first that begins another section.
pub open spec fn user_length(lines: Seq<Seq<char>>) -> int
    decreases lines.len(),
{
    if lines.len() == 0 || leaves_user(lines[0]) {
        0
    } else {
        1 + user_length(lines.drop_first())
    }
}

/// The lines of the first section `user`: those after its first line up to the
/// next section. A further line `[user]` continues the section.
pub open spec fn user_section(lines: Seq<Seq<char>>) -> Seq<Seq<char>> {
    let s = user_start(lines);
    if s >= lines.len() {
        Seq::empty()
    } else {
        let rest = lines.skip(s + 1);
        rest.take(user_length(rest))
    }
}

/// The value that the last line with the given key gives it.
pub open spec fn last_value(lines: Seq<Seq<char>>, key: Seq<char>) -> Option<Seq<char>>
    decreases lines.len(),
{
    if lines.len() == 0 {
        None
    } else {
        match key_value(lines.last()) {
            Some((k, v)) => if k == key {
                Some(v)
            } else {
                last_value(lines.drop_last(), key)
            },
            None => last_value(lines.drop_last(), key),
        }
    }
}

/// The view of an optional string.
pub open spec fn opt_text(s: Option<String>) -> Option<Seq<char>> {
    match s {
        Some(t) => Some(t@),
        None => None,
    }
}

proof fn lemma_user_length(lines: Seq<Seq<char>>, n: int)
    requires
        0 <= n <= lines.len(),
        forall|j: int| 0 <= j < n ==> !leaves_user(#[trigger] lines[j]),
        n < lines.len() ==> leaves_user(lines[n]),
    ensures
        user_length(lines) == n,
    decreases lines.len(),
{
    if lines.len() > 0 && n > 0 {
        assert(!leaves_user(lines[0]));
        let t = lines.drop_first();
        assert forall|j: int| 0 <= j < n - 1 implies !leaves_user(#[trigger] t[j]) by {
            assert(t[j] == lines[j + 1]);
        }
        lemma_user_length(t, n - 1);
    }
}

/// The line `[user]` has no value.
proof fn lemma_user_line()
    ensures
        key_value("[user]"@) is None,
{
    reveal_strlit("[user]");
    crate::text::lemma_first_index("[user]"@, '=', 6);
}

/// The name and the address in the section `user` of a Git configuration.
pub fn parse_git_config_user_section(content: &str) -> (r: (Option<String>, Option<String>))
    ensures
        opt_text(r.0) == last_value(user_section(trimmed_lines(content@)), "name"@),
        opt_text(r.1) == last_value(user_section(trimmed_lines(content@)), "email"@),
{
    let lines = split_trimmed_lines(content);
    let ghost all = trimmed_lines(content@);
    let mut start: usize = 0;
    let mut found: bool = false;
    while start < lines.len() && !found
        invariant
            start <= lines.len(),
            all == crate::text::deep(lines@),
            forall|j: int| 0 <= j < start && (found ==> j < start - 1) ==> #[trigger] all[j] != "[user]"@,
            found ==> start > 0 && all[start - 1] == "[user]"@,
        decreases lines.len() - start,
    {
        assert(all[start as int] == lines@[start as int]@);
        if is_text(lines[start].as_slice(), "[user]") {
            found = true;
        }
        start = start + 1;
    }
    if !found {
        proof {
            crate::text::lemma_first_index(all, "[user]"@, all.len() as int);
        }
        return (None, None);
    }
    proof {
        crate::text::lemma_first_index(all, "[user]"@, start - 1);
    }
    let ghost rest = all.skip(start as int);
    let mut name: Option<String> = None;
    let mut email: Option<String> = None;
    let mut i: usize = start;
    let mut inside: bool = true;
    let bracket = chars_of("[");
    proof {
        reveal_strlit("[");
        assert(rest.take(0) =~= Seq::empty());
    }
    while i < lines.len() && inside
        invariant
            start <= i <= lines.len(),
            all == crate::text::deep(lines@),
            rest == all.skip(start as int),
            bracket@ == seq!['['],
            forall|j: int| 0 <= j < i - start ==> !leaves_user(#[trigger] rest[j]),
            !inside ==> i < lines.len() && leaves_user(rest[i - start]),
            opt_text(name) == last_value(rest.take(i - start), "name"@),
            opt_text(email) == last_value(rest.take(i - start), "email"@),
        decreases lines.len() - i, if inside { 1int } else { 0int },
    {
        let line: &Vec<char> = &lines[i];
        assert(rest[i - start] == line@);
        let user_line: bool = is_text(line.as_slice(), "[user]");
        if !user_line && line.len() > 0 && line[0] == '[' {
            inside = false;
        } else {
            match split_key_value(line.as_slice()) {
                Some((key, value)) => {
                    if is_text(key.as_slice(), "name") {
                        name = Some(string_of(value.as_slice()));
                    }
                    if is_text(key.as_slice(), "email") {
                        email = Some(string_of(value.as_slice()));
                    }
                },
                None => {},
            }
            proof {
                lemma_user_line();
                assert(rest.take(i - start + 1).drop_last() =~= rest.take(i - start));
                assert(rest.take(i - start + 1).last() == line@);
                reveal_strlit("name");
                reveal_strlit("email");
                assert("name"@.len() != "email"@.len());
            }
            i = i + 1;
        }
    }
    proof {
        lemma_user_length(rest, i - start);
    }
    (name, email)
}

/// The configuration files in the order in which they are read: those of the user,
/// where the home directory is known, and that of the repository.
pub open spec fn user_configs(home: Option<Seq<char>>, repo_root: Seq<char>) -> Seq<Seq<char>> {
    match home {
        Some(h) => seq![
            crate::paths::under(h, ".config/git/config"@),
            crate::paths::under(h, ".gitconfig"@),
            crate::paths::under(repo_root, ".git/config"@),
        ],
        None => seq![crate::paths::under(repo_root, ".git/config"@)],
    }
}

/// The paths of the configuration files in the order in which they are read.
pub fn user_config_paths(home: Option<&str>, repo_root: &str) -> (paths: Vec<String>)
    ensures
        crate::text::texts(paths@) == user_configs(
            match home {
                Some(h) => Some(h@),
                None => None,
            },
            repo_root@,
        ),
{
    let mut paths: Vec<String> = Vec::new();
    match home {
        Some(h) => {
            paths.push(path_under(h, ".config/git/config"));
            paths.push(path_under(h, ".gitconfig"));
        },
        None => {},
    }
    paths.push(path_under(repo_root, ".git/config"));
    assert(crate::text::texts(paths@) =~= user_configs(
        match home {
            Some(h) => Some(h@),
            None => None,
        },
        repo_root@,
    ));
    paths
}

/// The value that the last of the files to have one gives to a key of the section
/// `user`.
pub open spec fn last_in_files(files: Seq<Seq<char>>, key: Seq<char>) -> Option<Seq<char>>
    decreases files.len(),
{
    if files.len() == 0 {
        None
    } else {
        match last_value(user_section(trimmed_lines(files.last())), key) {
            Some(v) => Some(v),
            None => last_in_files(files.drop_last(), key),
        }
    }
}

/// The user's name and address from the configuration files that could be read, in
/// the order in which they are read: a later file overrides an earlier one. Both
/// are needed.
pub fn parse_git_user_config(files: &Vec<String>) -> (r: Option<(String, String)>)
    ensures
        match r {
            Some((name, email)) => {
                &&& last_in_files(crate::text::texts(files@), "name"@) == Some(name@)
                &&& last_in_files(crate::text::texts(files@), "email"@) == Some(email@)
            },
            None => {
                ||| last_in_files(crate::text::texts(files@), "name"@) is None
                ||| last_in_files(crate::text::texts(files@), "email"@) is None
            },
        },
{
    let ghost all = crate::text::texts(files@);
    let mut name: Option<String> = None;
    let mut email: Option<String> = None;
    let mut i: usize = 0;
    assert(all.take(0) =~= Seq::empty());
    while i < files.len()
        invariant
            i <= files.len(),
            all == crate::text::texts(files@),
            opt_text(name) == last_in_files(all.take(i as int), "name"@),
            opt_text(email) == last_in_files(all.take(i as int), "email"@),
        decreases files.len() - i,
    {
        let (n, e) = parse_git_config_user_section(files[i].as_str());
        proof {
            assert(all.take(i + 1).drop_last() =~= all.take(i as int));
            assert(all.take(i + 1).last() == files@[i as int]@);
        }
        if n.is_some() {
            name = n;
        }
        if e.is_some() {
            email = e;
        }
        i = i + 1;
    }
    assert(all.take(all.len() as int) =~= all);
    match name {
        Some(n) => match email {
            Some(e) => Some((n, e)),
            None => None,
        },
        None => None,
    }
}

/// What the last file says of a key overrides the files before it.
pub proof fn local_config_overrides(files: Seq<Seq<char>>, local: Seq<char>, key: Seq<char>)
    ensures
        last_in_files(files.push(local), key) == (match last_value(user_section(trimmed_lines(local)), key) {
            Some(v) => Some(v),
            None => last_in_files(files, key),
        }),
{
    assert(files.push(local).drop_last() =~= files);
}

/// The name in a line `[remote "name"]`.
pub open spec fn remote_header(line: Seq<char>) -> Option<Seq<char>> {
    if line.len() >= 11 && crate::text::begins_with(line, "[remote \""@) && crate::text::ends_with(line, "\"]"@) {
        Some(line.subrange(9, line.len() - 2))
    } else {
        None
    }
}

/// The remote whose section a line belongs to, given that of the line before: a
/// header begins a section, and a line that begins another kind of section ends it.
pub open spec fn remote_after(current: Option<Seq<char>>, line: Seq<char>) -> Option<Seq<char>> {
    match remote_header(line) {
        Some(name) => Some(name),
        None => if crate::text::begins_with(line, "["@) && !crate::text::begins_with(line, "[remote"@) {
            None
        } else {
            current
        },
    }
}

/// The remote whose section the last of the lines belongs to.
pub open spec fn remote_at(lines: Seq<Seq<char>>) -> Option<Seq<char>>
    decreases lines.len(),
{
    if lines.len() == 0 {
        None
    } else {
        remote_after(remote_at(lines.drop_last()), lines.last())
    }
}

/// The remotes and their addresses, one for each line that gives a remote one.
pub open spec fn remotes_in(lines: Seq<Seq<char>>) -> Seq<(Seq<char>, Seq<char>)>
    decreases lines.len(),
{
    if lines.len() == 0 {
        Seq::empty()
    } else {
        let before = remotes_in(lines.drop_last());
        match (remote_header(lines.last()), remote_at(lines), key_value(lines.last())) {
            (None, Some(name), Some((key, url))) => if key == "url"@ {
                before.push((name, url))
            } else {
                before
            },
            _ => before,
        }
    }
}

/// The views of a list of pairs of strings.
pub open spec fn pair_texts(v: Seq<(String, String)>) -> Seq<(Seq<char>, Seq<char>)> {
    v.map_values(|p: (String, String)| (p.0@, p.1@))
}

/// The remotes in the text of a Git configuration. Malformed headers are skipped.
pub fn parse_git_remotes(content: &str) -> (remotes: Vec<(String, String)>)
    ensures
        pair_texts(remotes@) == remotes_in(trimmed_lines(content@)),
{
    let lines = split_trimmed_lines(content);
    let ghost all = trimmed_lines(content@);
    let mut remotes: Vec<(String, String)> = Vec::new();
    let mut current: Option<Vec<char>> = None;
    let mut i: usize = 0;
    let header_start = chars_of("[remote \"");
    let header_end = chars_of("\"]");
    let any_start = chars_of("[");
    let remote_start = chars_of("[remote");
    proof {
        reveal_strlit("[remote \"");
        reveal_strlit("\"]");
        assert(all.take(0) =~= Seq::empty());
        assert(pair_texts(remotes@) =~= Seq::empty());
    }
    while i < lines.len()
        invariant
            i <= lines.len(),
            all == crate::text::deep(lines@),
            header_start@ == "[remote \""@,
            header_end@ == "\"]"@,
            any_start@ == "["@,
            remote_start@ == "[remote"@,
            crate::text::opt_chars(current) == remote_at(all.take(i as int)),
            pair_texts(remotes@) == remotes_in(all.take(i as int)),
        decreases lines.len() - i,
    {
        let line: &Vec<char> = &lines[i];
        let ghost upto = all.take(i + 1);
        let ghost before = remotes@;
        proof {
            assert(upto.drop_last() =~= all.take(i as int));
            assert(upto.last() == line@);
        }
        if line.len() >= 11 && has_prefix(line.as_slice(), header_start.as_slice()) && has_suffix(
            line.as_slice(),
            header_end.as_slice(),
        ) {
            current = Some(chars_between(line.as_slice(), 9, line.len() - 2));
        } else {
            if has_prefix(line.as_slice(), any_start.as_slice()) && !has_prefix(
                line.as_slice(),
                remote_start.as_slice(),
            ) {
                current = None;
            }
            match &current {
                Some(name) => {
                    match split_key_value(line.as_slice()) {
                        Some((key, value)) => {
                            if is_text(key.as_slice(), "url") {
                                remotes.push((string_of(name.as_slice()), string_of(value.as_slice())));
                                assert(pair_texts(remotes@) =~= pair_texts(before).push((name@, value@)));
                            }
                        },
                        None => {},
                    }
                },
                None => {},
            }
        }
        i = i + 1;
    }
    assert(all.take(all.len() as int) =~= all);
    remotes
}

/// The patterns, without surrounding white space, that no line of the file holds.
pub open spec fn missing_patterns(lines: Seq<Seq<char>>, patterns: Seq<&str>) -> Seq<Seq<char>>
    decreases patterns.len(),
{
    if patterns.len() == 0 {
        Seq::empty()
    } else {
        let before = missing_patterns(lines, patterns.drop_last());
        let p = crate::text::trim(patterns.last()@);
        if lines.contains(p) {
            before
        } else {
            before.push(p)
        }
    }
}

/// The patterns, each in a line of its own.
pub open spec fn pattern_lines(patterns: Seq<Seq<char>>) -> Seq<char>
    decreases patterns.len(),
{
    if patterns.len() == 0 {
        Seq::empty()
    } else {
        pattern_lines(patterns.drop_last()) + patterns.last() + seq!['\n']
    }
}

/// The text before the patterns that are added: what the file holds, a line feed
/// where its last line has none, an empty line, and a comment.
pub open spec fn before_patterns(content: Seq<char>) -> Seq<char> {
    (if content.len() == 0 {
        content
    } else if content.last() == '\n' {
        content + seq!['\n']
    } else {
        content + seq!['\n', '\n']
    }) + "# Timelapse (added by tl init)\n"@
}

/// The new text of `.gitignore`, or `None` where no pattern is missing.
pub open spec fn gitignore_with(content: Seq<char>, patterns: Seq<&str>) -> Option<Seq<char>> {
    let missing = missing_patterns(trimmed_lines(content), patterns);
    if missing.len() == 0 {
        None
    } else {
        Some(before_patterns(content) + pattern_lines(missing))
    }
}

/// Whether one of the lines is the given text.
fn has_line(lines: &Vec<Vec<char>>, text: &[char]) -> (r: bool)
    ensures
        r == crate::text::deep(lines@).contains(text@),
{
    let ghost all = crate::text::deep(lines@);
    let mut i: usize = 0;
    while i < lines.len()
        invariant
            i <= lines.len(),
            all == crate::text::deep(lines@),
            forall|j: int| 0 <= j < i ==> #[trigger] all[j] != text@,
        decreases lines.len() - i,
    {
        assert(all[i as int] == lines@[i as int]@);
        if same_chars(lines[i].as_slice(), text) {
            return true;
        }
        i = i + 1;
    }
    false
}

/// The text of `.gitignore` with the patterns that it lacks added at its end, or
/// `None` where it lacks none. `content` is what the file holds, the empty text
/// where there is no file.
pub fn ensure_gitignore_patterns(content: &str, patterns: &[&str]) -> (r: Option<String>)
    ensures
        opt_text(r) == gitignore_with(content@, patterns@),
{
    let lines = split_trimmed_lines(content);
    let mut missing: Vec<Vec<char>> = Vec::new();
    let mut i: usize = 0;
    assert(patterns@.take(0) =~= Seq::empty());
    assert(crate::text::deep(missing@) =~= Seq::empty());
    while i < patterns.len()
        invariant
            i <= patterns.len(),
            crate::text::deep(lines@) == trimmed_lines(content@),
            crate::text::deep(missing@) == missing_patterns(trimmed_lines(content@), patterns@.take(i as int)),
        decreases patterns.len() - i,
    {
        let ghost before = missing@;
        let pattern = trim_chars(chars_of(patterns[i]).as_slice());
        assert(patterns@.take(i + 1).drop_last() =~= patterns@.take(i as int));
        if !has_line(&lines, pattern.as_slice()) {
            missing.push(pattern);
            assert(crate::text::deep(missing@) =~= crate::text::deep(before).push(pattern@));
        }
        i = i + 1;
    }
    assert(patterns@.take(patterns@.len() as int) =~= patterns@);
    let ghost all = crate::text::deep(missing@);
    if missing.len() == 0 {
        return None;
    }
    let mut text = content.to_owned();
    let chars = chars_of(content);
    if chars.len() > 0 {
        if chars[chars.len() - 1] != '\n' {
            text.push('\n');
        }
        text.push('\n');
    }
    text.append("# Timelapse (added by tl init)\n");
    assert(text@ =~= before_patterns(content@));
    let mut k: usize = 0;
    assert(all.take(0) =~= Seq::empty());
    assert(text@ =~= before_patterns(content@) + pattern_lines(all.take(0)));
    while k < missing.len()
        invariant
            k <= missing.len(),
            all == crate::text::deep(missing@),
            text@ == before_patterns(content@) + pattern_lines(all.take(k as int)),
        decreases missing.len() - k,
    {
        text.append(string_of(missing[k].as_slice()).as_str());
        text.push('\n');
        proof {
            assert(all.take(k + 1).drop_last() =~= all.take(k as int));
            assert(all.take(k + 1).last() == missing@[k as int]@);
            assert(text@ =~= before_patterns(content@) + pattern_lines(all.take(k + 1)));
        }
        k = k + 1;
    }
    assert(all.take(all.len() as int) =~= all);
    Some(text)
}

/// Lines of two texts one after the other, where the first ends with a line feed.
proof fn lemma_lines_concat(a: Seq<char>, b: Seq<char>)
    requires
        a.len() == 0 || a.last() == '\n',
    ensures
        crate::text::lines(a + b) == crate::text::lines(a) + crate::text::lines(b),
    decreases a.len(),
{
    if a.len() == 0 {
        assert(a + b =~= b);
        assert(crate::text::lines(a) + crate::text::lines(b) =~= crate::text::lines(b));
    } else {
        crate::text::lemma_first_index_range(a, '\n');
        let i = crate::text::first_index(a, '\n');
        assert(i < a.len()) by {
            if i == a.len() {
                assert(a[a.len() - 1] != '\n');
            }
        }
        assert forall|j: int| 0 <= j < i implies #[trigger] (a + b)[j] != '\n' by {
            assert((a + b)[j] == a[j]);
        }
        crate::text::lemma_first_index(a + b, '\n', i);
        let rest = a.skip(i + 1);
        assert((a + b).skip(i + 1) =~= rest + b);
        assert((a + b).take(i) =~= a.take(i));
        if rest.len() > 0 {
            assert(rest.last() == a.last());
        }
        lemma_lines_concat(rest, b);
        assert(crate::text::lines(a + b) =~= crate::text::lines(a) + crate::text::lines(b));
    }
}

/// White space at the end of a text does not change its trimmed form.
proof fn lemma_trim_push(s: Seq<char>, c: char)
    requires
        crate::text::is_space(c),
    ensures
        crate::text::trim(s.push(c)) == crate::text::trim(s),
    decreases s.len(),
{
    if s.len() == 0 {
        assert(s.push(c).drop_first() =~= s);
    } else if crate::text::is_space(s[0]) {
        assert(s.push(c).drop_first() =~= s.drop_first().push(c));
        lemma_trim_push(s.drop_first(), c);
    } else {
        assert(s.push(c).drop_last() =~= s);
    }
}

/// A line feed after a text that ends without one leaves the trimmed lines as they
/// were.
proof fn lemma_terminate(s: Seq<char>)
    requires
        s.len() > 0,
        s.last() != '\n',
    ensures
        trimmed_lines(s.push('\n')) == trimmed_lines(s),
    decreases s.len(),
{
    crate::text::lemma_first_index_range(s, '\n');
    let i = crate::text::first_index(s, '\n');
    let t = s.push('\n');
    assert forall|j: int| 0 <= j < i implies #[trigger] t[j] != '\n' by {
        assert(t[j] == s[j]);
    }
    crate::text::lemma_first_index(t, '\n', i);
    if i < s.len() {
        let rest = s.skip(i + 1);
        assert(t.skip(i + 1) =~= rest.push('\n'));
        assert(t.take(i) =~= s.take(i));
        assert(rest.len() > 0);
        assert(rest.last() == s.last());
        lemma_terminate(rest);
        assert(trimmed_lines(t) =~= seq![crate::text::trim(crate::text::without_return(s.take(i)))] + trimmed_lines(
            rest.push('\n'),
        ));
        assert(trimmed_lines(s) =~= seq![crate::text::trim(crate::text::without_return(s.take(i)))] + trimmed_lines(
            rest,
        ));
    } else {
        reveal_with_fuel(crate::text::lines, 2);
        assert(t.take(i) =~= s);
        assert(t.skip(i + 1) =~= Seq::empty());
        if s.last() == '\r' {
            lemma_trim_push(s.drop_last(), '\r');
            assert(s.drop_last().push('\r') =~= s);
        }
        assert(trimmed_lines(t) =~= seq![crate::text::trim(s)]);
        assert(trimmed_lines(s) =~= seq![crate::text::trim(s)]);
    }
}

/// What trimming leaves has no white space at either end.
proof fn lemma_trim_idempotent(s: Seq<char>)
    ensures
        crate::text::trim(crate::text::trim(s)) == crate::text::trim(s),
        crate::text::trim(s).len() > 0 ==> !crate::text::is_space(crate::text::trim(s).last()),
{
    lemma_trim_start(s);
    lemma_trim_end(crate::text::trim_start(s));
}

proof fn lemma_trim_start(s: Seq<char>)
    ensures
        crate::text::trim_start(s).len() > 0 ==> !crate::text::is_space(crate::text::trim_start(s)[0]),
    decreases s.len(),
{
    if s.len() > 0 && crate::text::is_space(s[0]) {
        lemma_trim_start(s.drop_first());
    }
}

proof fn lemma_trim_end(s: Seq<char>)
    ensures
        crate::text::trim_end(s).len() > 0 ==> !crate::text::is_space(crate::text::trim_end(s).last())
            && crate::text::trim_end(s)[0] == s[0],
    decreases s.len(),
{
    if s.len() > 0 && crate::text::is_space(s.last()) {
        lemma_trim_end(s.drop_last());
    }
}

/// The trimmed lines of the patterns are the patterns.
proof fn lemma_pattern_lines(patterns: Seq<Seq<char>>)
    requires
        forall|i: int|
            0 <= i < patterns.len() ==> crate::text::trim(#[trigger] patterns[i]) == patterns[i]
                && !patterns[i].contains('\n') && (patterns[i].len() > 0 ==> !crate::text::is_space(patterns[i].last())),
    ensures
        pattern_lines(patterns).len() == 0 || pattern_lines(patterns).last() == '\n',
        trimmed_lines(pattern_lines(patterns)) == patterns,
    decreases patterns.len(),
{
    if patterns.len() == 0 {
        assert(trimmed_lines(pattern_lines(patterns)) =~= patterns);
    } else {
        let before = patterns.drop_last();
        assert forall|i: int| 0 <= i < before.len() implies crate::text::trim(#[trigger] before[i]) == before[i]
            && !before[i].contains('\n') && (before[i].len() > 0 ==> !crate::text::is_space(before[i].last())) by {
            assert(before[i] == patterns[i]);
        }
        lemma_pattern_lines(before);
        let p = patterns[patterns.len() - 1];
        let line = p + seq!['\n'];
        assert(pattern_lines(patterns) =~= pattern_lines(before) + line);
        lemma_lines_concat(pattern_lines(before), line);
        assert forall|j: int| 0 <= j < p.len() implies #[trigger] line[j] != '\n' by {
            assert(p.contains(p[j]));
        }
        crate::text::lemma_first_index(line, '\n', p.len() as int);
        reveal_with_fuel(crate::text::lines, 2);
        assert(line.take(p.len() as int) =~= p);
        assert(crate::text::without_return(p) == p);
        assert(line.skip(p.len() as int + 1) =~= Seq::empty());
        assert(crate::text::lines(line) =~= seq![p]);
        assert(trimmed_lines(pattern_lines(patterns)) =~= trimmed_lines(pattern_lines(before)).push(p));
    }
}

proof fn lemma_missing(lines: Seq<Seq<char>>, patterns: Seq<&str>)
    ensures
        forall|i: int|
            0 <= i < missing_patterns(lines, patterns).len() ==> exists|j: int|
                0 <= j < patterns.len() && (#[trigger] missing_patterns(lines, patterns)[i]) == crate::text::trim(
                    #[trigger] patterns[j]@,
                ),
        forall|j: int|
            0 <= j < patterns.len() ==> lines.contains(crate::text::trim(#[trigger] patterns[j]@))
                || missing_patterns(lines, patterns).contains(crate::text::trim(patterns[j]@)),
    decreases patterns.len(),
{
    if patterns.len() > 0 {
        let shorter = patterns.drop_last();
        lemma_missing(lines, shorter);
        let m0 = missing_patterns(lines, shorter);
        let m = missing_patterns(lines, patterns);
        assert forall|i: int| 0 <= i < m.len() implies exists|j: int|
            0 <= j < patterns.len() && (#[trigger] m[i]) == crate::text::trim(#[trigger] patterns[j]@) by {
            if i < m0.len() {
                let j = choose|j: int| 0 <= j < shorter.len() && m0[i] == crate::text::trim(#[trigger] shorter[j]@);
                assert(m[i] == crate::text::trim(patterns[j]@));
            } else {
                assert(m[i] == crate::text::trim(patterns[patterns.len() - 1]@));
            }
        }
        assert forall|j: int| 0 <= j < patterns.len() implies lines.contains(
            crate::text::trim(#[trigger] patterns[j]@),
        ) || m.contains(crate::text::trim(patterns[j]@)) by {
            let p = crate::text::trim(patterns[j]@);
            if j < shorter.len() {
                assert(shorter[j] == patterns[j]);
                if m0.contains(p) {
                    let k = choose|k: int| 0 <= k < m0.len() && m0[k] == p;
                    assert(m[k] == p);
                }
            } else if !lines.contains(p) {
                assert(m[m0.len() as int] == p);
            }
        }
    }
}

proof fn lemma_nothing_missing(lines: Seq<Seq<char>>, patterns: Seq<&str>)
    requires
        forall|j: int| 0 <= j < patterns.len() ==> lines.contains(crate::text::trim(#[trigger] patterns[j]@)),
    ensures
        missing_patterns(lines, patterns).len() == 0,
    decreases patterns.len(),
{
    if patterns.len() > 0 {
        assert(lines.contains(crate::text::trim(patterns[patterns.len() - 1]@)));
        assert forall|j: int| 0 <= j < patterns.drop_last().len() implies lines.contains(
            crate::text::trim(#[trigger] patterns.drop_last()[j]@),
        ) by {
            assert(patterns.drop_last()[j] == patterns[j]);
        }
        lemma_nothing_missing(lines, patterns.drop_last());
    }
}

/// The text before the patterns ends with a line feed and keeps the lines of the
/// file.
proof fn lemma_before_patterns(content: Seq<char>)
    ensures
        before_patterns(content).last() == '\n',
        forall|l: Seq<char>| #[trigger]
            trimmed_lines(content).contains(l) ==> trimmed_lines(before_patterns(content)).contains(l),
{
    let comment = "# Timelapse (added by tl init)\n"@;
    reveal_strlit("# Timelapse (added by tl init)\n");
    let ended = if content.len() == 0 || content.last() == '\n' {
        content
    } else {
        content.push('\n')
    };
    if content.len() > 0 && content.last() != '\n' {
        lemma_terminate(content);
    }
    let tail = if content.len() == 0 {
        comment
    } else {
        seq!['\n'] + comment
    };
    assert(before_patterns(content) =~= ended + tail);
    lemma_lines_concat(ended, tail);
    assert forall|l: Seq<char>| #[trigger] trimmed_lines(content).contains(l) implies trimmed_lines(
        before_patterns(content),
    ).contains(l) by {
        let i = choose|i: int| 0 <= i < trimmed_lines(ended).len() && trimmed_lines(ended)[i] == l;
        assert(trimmed_lines(before_patterns(content))[i] == l);
    }
}

/// Once the patterns are in the file, adding them again changes nothing, and the
/// lines that the file held before are still there. Patterns with a line feed
/// inside make no single line and are left out.
pub proof fn gitignore_is_idempotent(content: Seq<char>, patterns: Seq<&str>)
    requires
        forall|j: int| 0 <= j < patterns.len() ==> !crate::text::trim(#[trigger] patterns[j]@).contains('\n'),
    ensures
        match gitignore_with(content, patterns) {
            Some(text) => {
                &&& gitignore_with(text, patterns) is None
                &&& forall|l: Seq<char>| #[trigger]
                    trimmed_lines(content).contains(l) ==> trimmed_lines(text).contains(l)
            },
            None => true,
        },
{
    let lines = trimmed_lines(content);
    let missing = missing_patterns(lines, patterns);
    if missing.len() > 0 {
        let head = before_patterns(content);
        let text = head + pattern_lines(missing);
        lemma_before_patterns(content);
        lemma_missing(lines, patterns);
        assert forall|i: int| 0 <= i < missing.len() implies crate::text::trim(#[trigger] missing[i]) == missing[i]
            && !missing[i].contains('\n') && (missing[i].len() > 0 ==> !crate::text::is_space(missing[i].last())) by {
            let j = choose|j: int| 0 <= j < patterns.len() && missing[i] == crate::text::trim(#[trigger] patterns[j]@);
            lemma_trim_idempotent(patterns[j]@);
        }
        lemma_pattern_lines(missing);
        lemma_lines_concat(head, pattern_lines(missing));
        let after = trimmed_lines(text);
        assert(after =~= trimmed_lines(head) + missing);
        assert forall|l: Seq<char>| #[trigger] lines.contains(l) implies after.contains(l) by {
            assert(trimmed_lines(head).contains(l));
            let i = choose|i: int| 0 <= i < trimmed_lines(head).len() && trimmed_lines(head)[i] == l;
            assert(after[i] == l);
        }
        assert forall|j: int| 0 <= j < patterns.len() implies after.contains(
            crate::text::trim(#[trigger] patterns[j]@),
        ) by {
            let p = crate::text::trim(patterns[j]@);
            if missing.contains(p) {
                let k = choose|k: int| 0 <= k < missing.len() && missing[k] == p;
                assert(after[trimmed_lines(head).len() + k] == p);
            } else {
                assert(lines.contains(p));
            }
        }
        lemma_nothing_missing(after, patterns);
    }
}

/// A line sets a key where an equals sign stands in it: the key is what stands before the
/// first one, and the value what follows, both without white space around them, the value
/// also without quotes.
pub proof fn keys_stand_before_the_equals_sign(key: Seq<char>, value: Seq<char>)
    requires
        !key.contains('='),
    ensures
        key_value(key) is None,
        key_value(key + seq!['='] + value) is Some,
        (key_value(key + seq!['='] + value)->0).0 == crate::text::trim(key),
        !value.contains('"') ==> (key_value(key + seq!['='] + value)->0).1 == crate::text::trim(value),
{
    let line = key + seq!['='] + value;
    assert forall|j: int| 0 <= j < key.len() implies #[trigger] line[j] != '=' by {
        assert(line[j] == key[j]);
    }
    assert(line[key.len() as int] == '=');
    crate::text::lemma_first_index(line, '=', key.len() as int);
    crate::text::lemma_first_index(key, '=', key.len() as int);
    assert(line.take(key.len() as int) =~= key);
    assert(line.skip(key.len() as int + 1) =~= value);
    if !value.contains('"') {
        let t = crate::text::trim(value);
        crate::text::trim_takes_the_white_space(value);
        let (lo, hi) = choose|lo: int, hi: int|
            0 <= lo <= hi <= value.len() && t == #[trigger] value.subrange(lo, hi) && (forall|j: int|
                0 <= j < lo || hi <= j < value.len() ==> crate::text::is_space(#[trigger] value[j]));
        assert forall|j: int| 0 <= j < t.len() implies #[trigger] t[j] != '"' by {
            assert(t[j] == value[lo + j]);
        }
        assert(strip_start(t, '"') == t);
        assert(strip_end(t, '"') == t);
    }
}

/// Stripping a character takes it from either end until another stands there.
pub proof fn stripping_takes_one_character(s: Seq<char>, c: char, n: nat, m: nat)
    requires
        s.len() > 0 ==> s[0] != c && s.last() != c,
    ensures
        strip_end(strip_start(Seq::new(n, |i: int| c) + s + Seq::new(m, |i: int| c), c), c) == s,
{
    let front = Seq::new(n, |i: int| c);
    let back = Seq::new(m, |i: int| c);
    let all = front + s + back;
    if s.len() > 0 {
        assert(all =~= front + (s + back));
        lemma_strip_start(n, s + back, c);
        lemma_strip_end(s, m, c);
    } else {
        let k = (n + m) as nat;
        assert(all =~= Seq::new(k, |i: int| c) + s);
        lemma_strip_start(k, s, c);
        assert(strip_end(s, c) == s);
    }
}

proof fn lemma_strip_start(n: nat, s: Seq<char>, c: char)
    requires
        s.len() > 0 ==> s[0] != c,
    ensures
        strip_start(Seq::new(n, |i: int| c) + s, c) == s,
    decreases n,
{
    let all = Seq::new(n, |i: int| c) + s;
    if n == 0 {
        assert(all =~= s);
    } else {
        lemma_strip_start((n - 1) as nat, s, c);
        assert(all.drop_first() =~= Seq::new((n - 1) as nat, |i: int| c) + s);
        assert(all[0] == c);
    }
}

proof fn lemma_strip_end(s: Seq<char>, m: nat, c: char)
    requires
        s.len() > 0 ==> s.last() != c,
    ensures
        strip_end(s + Seq::new(m, |i: int| c), c) == s,
    decreases m,
{
    let all = s + Seq::new(m, |i: int| c);
    if m == 0 {
        assert(all =~= s);
    } else {
        lemma_strip_end(s, (m - 1) as nat, c);
        assert(all.drop_last() =~= s + Seq::new((m - 1) as nat, |i: int| c));
        assert(all.last() == c);
    }
}

/// The section about the user is what follows the line `[user]`, up to the next line that
/// begins another section.
pub proof fn user_section_ends_at_the_next(before: Seq<Seq<char>>, body: Seq<Seq<char>>, after: Seq<Seq<char>>)
    requires
        !before.contains("[user]"@),
        forall|j: int| 0 <= j < body.len() ==> !((#[trigger] body[j]).len() > 0 && body[j][0] == '['),
        after.len() > 0 ==> after[0].len() > 0 && after[0][0] == '[' && after[0] != "[user]"@,
    ensures
        user_section(before + seq!["[user]"@] + body + after) == body,
        user_section(before) == Seq::<Seq<char>>::empty(),
{
    let title = "[user]"@;
    let lines = before + seq![title] + body + after;
    let n = before.len() as int;
    assert forall|j: int| 0 <= j < n implies #[trigger] lines[j] != title by {
        assert(lines[j] == before[j]);
    }
    assert(lines[n] == title);
    crate::text::lemma_first_index(lines, title, n);
    crate::text::lemma_first_index(before, title, n);
    let rest = lines.skip(n + 1);
    assert(rest =~= body + after);
    lemma_section_length(body, after);
    assert(rest.take(body.len() as int) =~= body);
}

proof fn lemma_section_length(body: Seq<Seq<char>>, after: Seq<Seq<char>>)
    requires
        forall|j: int| 0 <= j < body.len() ==> !((#[trigger] body[j]).len() > 0 && body[j][0] == '['),
        after.len() > 0 ==> after[0].len() > 0 && after[0][0] == '[' && after[0] != "[user]"@,
    ensures
        user_length(body + after) == body.len(),
    decreases body.len(),
{
    let all = body + after;
    if body.len() == 0 {
        assert(all =~= after);
    } else {
        let t = body.drop_first();
        assert forall|j: int| 0 <= j < t.len() implies !((#[trigger] t[j]).len() > 0 && t[j][0] == '[') by {
            assert(t[j] == body[j + 1]);
        }
        lemma_section_length(t, after);
        assert(all.drop_first() =~= t + after);
        assert(all[0] == body[0]);
    }
}

/// The value of a key is that of the last line that sets it; there is none exactly where no
/// line does.
pub proof fn last_setting_counts(lines: Seq<Seq<char>>, key: Seq<char>)
    ensures
        last_value(lines, key) is None <==> forall|j: int|
            0 <= j < lines.len() ==> !(key_value(#[trigger] lines[j]) is Some && (key_value(lines[j])->0).0 == key),
        last_value(lines, key) is Some ==> exists|i: int|
            0 <= i < lines.len() && key_value(#[trigger] lines[i]) == Some((key, last_value(lines, key)->0))
                && forall|j: int|
                i < j < lines.len() ==> !(key_value(#[trigger] lines[j]) is Some && (key_value(lines[j])->0).0 == key),
    decreases lines.len(),
{
    if lines.len() > 0 {
        let front = lines.drop_last();
        let n = lines.len() - 1;
        last_setting_counts(front, key);
        let here = key_value(lines[n]) is Some && (key_value(lines[n])->0).0 == key;
        if here {
            assert(key_value(lines[n]) == Some((key, last_value(lines, key)->0)));
        } else {
            if last_value(front, key) is Some {
                let i = choose|i: int|
                    0 <= i < front.len() && key_value(#[trigger] front[i]) == Some((key, last_value(front, key)->0))
                        && forall|j: int|
                        i < j < front.len() ==> !(key_value(#[trigger] front[j]) is Some && (key_value(front[j])->0).0
                            == key);
                assert(lines[i] == front[i]);
                assert forall|j: int| i < j < lines.len() implies !(key_value(#[trigger] lines[j]) is Some && (key_value(
                    lines[j],
                )->0).0 == key) by {
                    if j < n {
                        assert(lines[j] == front[j]);
                    }
                }
            } else {
                assert forall|j: int| 0 <= j < lines.len() implies !(key_value(#[trigger] lines[j]) is Some
                    && (key_value(lines[j])->0).0 == key) by {
                    if j < n {
                        assert(lines[j] == front[j]);
                    }
                }
            }
        }
    }
}

/// The address of a remote is set by a line in its section: after the heading with the
/// name of the remote, and before any other heading, a line for the key `url` adds the
/// remote with that address, and other lines add nothing.
pub proof fn remotes_stand_in_their_sections(
    before: Seq<Seq<char>>,
    name: Seq<char>,
    body: Seq<Seq<char>>,
    line: Seq<char>,
)
    requires
        forall|j: int| 0 <= j < body.len() ==> !((#[trigger] body[j]).len() > 0 && body[j][0] == '['),
        line.len() > 0 ==> line[0] != '[',
    ensures
        ({
            let lines = before + seq!["[remote \""@ + name + "\"]"@] + body;
            &&& remote_at(lines) == Some(name)
            &&& key_value(line) is Some && (key_value(line)->0).0 == "url"@ ==> remotes_in(lines.push(line))
                == remotes_in(lines).push((name, (key_value(line)->0).1))
            &&& !(key_value(line) is Some && (key_value(line)->0).0 == "url"@) ==> remotes_in(lines.push(line))
                == remotes_in(lines)
        }),
        remotes_in(before.push("[remote \""@ + name + "\"]"@)) == remotes_in(before),
{
    let heading = "[remote \""@ + name + "\"]"@;
    lemma_heading(name);
    assert(before.push(heading).drop_last() =~= before);
    let lines = before + seq![heading] + body;
    lemma_in_section(before, name, body);
    assert(lines.push(line).drop_last() =~= lines);
    lemma_no_heading(line);
}

proof fn lemma_heading(name: Seq<char>)
    ensures
        remote_header("[remote \""@ + name + "\"]"@) == Some(name),
{
    reveal_strlit("[remote \"");
    reveal_strlit("\"]");
    let heading = "[remote \""@ + name + "\"]"@;
    assert("[remote \""@.len() == 9);
    assert(heading.take(9) =~= "[remote \""@);
    assert(heading.skip(heading.len() - 2) =~= "\"]"@);
    assert(heading.subrange(9, heading.len() - 2) =~= name);
}

proof fn lemma_no_heading(line: Seq<char>)
    requires
        line.len() > 0 ==> line[0] != '[',
    ensures
        remote_header(line) is None,
        !crate::text::begins_with(line, "["@),
{
    reveal_strlit("[remote \"");
    reveal_strlit("[");
    if crate::text::begins_with(line, "[remote \""@) {
        assert(line.take(9)[0] == '[');
    }
    if crate::text::begins_with(line, "["@) {
        assert(line.take(1)[0] == '[');
    }
}

proof fn lemma_in_section(before: Seq<Seq<char>>, name: Seq<char>, body: Seq<Seq<char>>)
    requires
        forall|j: int| 0 <= j < body.len() ==> !((#[trigger] body[j]).len() > 0 && body[j][0] == '['),
    ensures
        remote_at(before + seq!["[remote \""@ + name + "\"]"@] + body) == Some(name),
    decreases body.len(),
{
    let heading = "[remote \""@ + name + "\"]"@;
    let lines = before + seq![heading] + body;
    if body.len() == 0 {
        lemma_heading(name);
        assert(lines.drop_last() =~= before);
        assert(lines.last() == heading);
    } else {
        let t = body.drop_last();
        assert forall|j: int| 0 <= j < t.len() implies !((#[trigger] t[j]).len() > 0 && t[j][0] == '[') by {
            assert(t[j] == body[j]);
        }
        lemma_in_section(before, name, t);
        assert(lines.drop_last() =~= before + seq![heading] + t);
        assert(lines.last() == body[body.len() - 1]);
        lemma_no_heading(body[body.len() - 1]);
    }
}

/// Lines in another section add no remote.
pub proof fn other_sections_hold_no_remotes(before: Seq<Seq<char>>, heading: Seq<char>, line: Seq<char>)
    requires
        heading.len() > 0 && heading[0] == '[',
        !crate::text::begins_with(heading, "[remote"@),
        line.len() > 0 ==> line[0] != '[',
    ensures
        remotes_in(before.push(heading)) == remotes_in(before),
        remotes_in(before.push(heading).push(line)) == remotes_in(before),
{
    reveal_strlit("[");
    reveal_strlit("[remote");
    reveal_strlit("[remote \"");
    assert(heading.take(1) =~= "["@);
    if crate::text::begins_with(heading, "[remote \""@) {
        assert(heading.take(7) =~= heading.take(9).take(7));
        assert("[remote \""@.take(7) =~= "[remote"@);
    }
    assert(before.push(heading).drop_last() =~= before);
    assert(before.push(heading).push(line).drop_last() =~= before.push(heading));
    lemma_no_heading(line);
    assert(remote_at(before.push(heading)) is None);
    assert(before.push(heading).push(line).last() == line);
    assert(remote_at(before.push(heading).push(line)) is None);
    let one = before.push(heading);
    let two = one.push(line);
    assert(remotes_in(one) == remotes_in(one.drop_last()));
    assert(remotes_in(two) == remotes_in(two.drop_last()));
}

/// A pattern is missing exactly where no line is it, without the white space around both;
/// the missing ones are added in their order.
pub proof fn missing_patterns_are_those_without_a_line(lines: Seq<Seq<char>>, patterns: Seq<&str>)
    ensures
        missing_patterns(lines, patterns) == patterns.map_values(|p: &str| crate::text::trim(p@)).filter(
            |p: Seq<char>| !lines.contains(p),
        ),
        missing_patterns(lines, patterns).len() == 0 <==> forall|j: int|
            0 <= j < patterns.len() ==> lines.contains(crate::text::trim(#[trigger] patterns[j]@)),
    decreases patterns.len(),
{
    let f = |p: &str| crate::text::trim(p@);
    let pred = |p: Seq<char>| !lines.contains(p);
    let all = patterns.map_values(f);
    reveal(Seq::filter);
    if patterns.len() > 0 {
        let front = patterns.drop_last();
        missing_patterns_are_those_without_a_line(lines, front);
        assert(all.drop_last() =~= front.map_values(f));
        assert(all.last() == crate::text::trim(patterns.last()@));
        assert(all.filter(pred) =~= missing_patterns(lines, patterns));
        if missing_patterns(lines, patterns).len() == 0 {
            assert forall|j: int| 0 <= j < patterns.len() implies lines.contains(
                crate::text::trim(#[trigger] patterns[j]@),
            ) by {
                if j < front.len() {
                    assert(front[j] == patterns[j]);
                }
            }
        }
        if forall|j: int| 0 <= j < patterns.len() ==> lines.contains(crate::text::trim(#[trigger] patterns[j]@)) {
            assert forall|j: int| 0 <= j < front.len() implies lines.contains(
                crate::text::trim(#[trigger] front[j]@),
            ) by {
                assert(front[j] == patterns[j]);
            }
            assert(lines.contains(crate::text::trim(patterns[patterns.len() - 1]@)));
        }
    } else {
        assert(all.filter(pred) =~= missing_patterns(lines, patterns));
    }
}

/// The patterns are added after what the file holds.
pub proof fn gitignore_keeps_its_content(content: Seq<char>, patterns: Seq<&str>)
    ensures
        gitignore_with(content, patterns) is Some ==> gitignore_with(content, patterns)->0.len() > content.len()
            && gitignore_with(content, patterns)->0.take(content.len() as int) == content,
        gitignore_with(content, patterns) is None <==> forall|j: int|
            0 <= j < patterns.len() ==> trimmed_lines(content).contains(crate::text::trim(#[trigger] patterns[j]@)),
{
    missing_patterns_are_those_without_a_line(trimmed_lines(content), patterns);
    if gitignore_with(content, patterns) is Some {
        reveal_strlit("# Timelapse (added by tl init)\n");
        let text = gitignore_with(content, patterns)->0;
        assert(text.take(content.len() as int) =~= content);
    }
}

/// Where Git keeps the user's configuration: below the home directory, then in the
/// repository, whose settings come last and count.
pub proof fn repository_config_comes_last(home: Option<Seq<char>>, root: Seq<char>)
    requires
        root.len() > 0,
        root.last() != '/',
    ensures
        user_configs(home, root).len() == (if home is Some { 3nat } else { 1nat }),
        user_configs(home, root).last() == root + "/.git/config"@,
{
    reveal_strlit(".git/config");
    reveal_strlit("/.git/config");
    reveal_strlit("/");
    assert(root + "/"@ + ".git/config"@ =~= root + "/.git/config"@);
}

} // verus!
