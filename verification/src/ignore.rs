//! The file `.tlignore`: patterns of paths that are not recorded.
//!
//! Each line is a pattern in the syntax of Git's ignore files.

use vstd::prelude::*;

use crate::paths::names_of;
use crate::text::{chars_between, chars_of, find_char, is_text, split_lines};

verus! {

/// The character that a class goes on with, a backslash before it left out, and the
/// rest.
pub open spec fn class_item(p: Seq<char>) -> Option<(char, Seq<char>)> {
    if p.len() == 0 {
        None
    } else if p[0] != '\\' {
        Some((p[0], p.skip(1)))
    } else if p.len() > 1 {
        Some((p[1], p.skip(2)))
    } else {
        None
    }
}

/// An ASCII digit.
pub open spec fn is_digit(c: char) -> bool {
    '0' as u32 <= c as u32 <= '9' as u32
}

/// A small ASCII letter.
pub open spec fn is_lower(c: char) -> bool {
    'a' as u32 <= c as u32 <= 'z' as u32
}

/// A capital ASCII letter.
pub open spec fn is_upper(c: char) -> bool {
    'A' as u32 <= c as u32 <= 'Z' as u32
}

/// An ASCII character that is visible.
pub open spec fn is_visible(c: char) -> bool {
    0x21 <= c as u32 <= 0x7e
}

/// Whether a character is in the class with the given name; `None` where there is no
/// such class.
pub open spec fn in_named(name: Seq<char>, c: char) -> Option<bool> {
    if name == "alnum"@ {
        Some(is_digit(c) || is_lower(c) || is_upper(c))
    } else if name == "alpha"@ {
        Some(is_lower(c) || is_upper(c))
    } else if name == "blank"@ {
        Some(c == ' ' || c == '\t')
    } else if name == "cntrl"@ {
        Some(c as u32 <= 0x1f || c as u32 == 0x7f)
    } else if name == "digit"@ {
        Some(is_digit(c))
    } else if name == "graph"@ {
        Some(is_visible(c))
    } else if name == "lower"@ {
        Some(is_lower(c))
    } else if name == "print"@ {
        Some(is_visible(c) || c == ' ')
    } else if name == "punct"@ {
        Some(is_visible(c) && !is_digit(c) && !is_lower(c) && !is_upper(c))
    } else if name == "space"@ {
        Some(c == ' ' || 0x09 <= c as u32 <= 0x0d)
    } else if name == "upper"@ {
        Some(is_upper(c))
    } else if name == "xdigit"@ {
        Some(is_digit(c) || 'a' as u32 <= c as u32 <= 'f' as u32 || 'A' as u32 <= c as u32 <= 'F' as u32)
    } else {
        None
    }
}

/// The number of characters up to the closing bracket of the named class that `p` goes
/// on with, the colons and the name; 0 where it goes on with none.
pub open spec fn named_length(p: Seq<char>) -> int {
    if p.len() > 1 && p[0] == '[' && p[1] == ':' {
        let n = crate::text::first_index(p, ']');
        if 2 < n < p.len() && p[n - 1] == ':' {
            n
        } else {
            0
        }
    } else {
        0
    }
}

/// Whether a character is in the class that goes on with `p`, and what follows the
/// class; `None` where the class does not end, or where a class in it has a name that is
/// not known. A closing bracket that comes first does not end it.
pub open spec fn class_scan(p: Seq<char>, c: char, first: bool) -> Option<(bool, Seq<char>)>
    decreases p.len(),
{
    let n = named_length(p);
    if p.len() > 0 && p[0] == ']' && !first {
        Some((false, p.skip(1)))
    } else if 0 < n < p.len() {
        match (in_named(p.subrange(2, n - 1), c), class_scan(p.skip(n + 1), c, false)) {
            (Some(inside), Some((hit, end))) => Some((inside || hit, end)),
            _ => None,
        }
    } else {
        match class_item(p) {
            None => None,
            Some((low, after)) => {
                let is_range = after.len() >= 2 && after[0] == '-' && after[1] != ']';
                let high = class_item(after.skip(1));
                if is_range && high is None {
                    None
                } else {
                    let top: char = if is_range { (high->0).0 } else { low };
                    let rest = if is_range { (high->0).1 } else { after };
                    match class_scan(rest, c, false) {
                        None => None,
                        Some((hit, end)) => Some(
                            (c == low || (low as u32) <= (c as u32) <= (top as u32) || hit, end),
                        ),
                    }
                }
            },
        }
    }
}

/// The class that begins a pattern is one of the characters that are not meant.
pub open spec fn is_inverse(p: Seq<char>) -> bool {
    p.len() > 1 && (p[1] == '!' || p[1] == '^')
}

/// A pattern matches a name: `*` stands for any characters, `?` for any one, a class in
/// brackets for one of its characters, and a backslash makes the next character stand
/// for itself.
pub open spec fn glob(p: Seq<char>, s: Seq<char>) -> bool
    decreases s.len(), p.len(),
{
    if p.len() == 0 {
        s.len() == 0
    } else if p[0] == '*' {
        glob(p.skip(1), s) || (s.len() > 0 && glob(p, s.skip(1)))
    } else if s.len() == 0 {
        false
    } else if p[0] == '?' {
        glob(p.skip(1), s.skip(1))
    } else if p[0] == '[' {
        match class_scan(p.skip(if is_inverse(p) { 2 } else { 1 }), s[0], true) {
            None => false,
            Some((hit, rest)) => hit != is_inverse(p) && glob(rest, s.skip(1)),
        }
    } else if p[0] == '\\' {
        p.len() > 1 && p[1] == s[0] && glob(p.skip(2), s.skip(1))
    } else {
        p[0] == s[0] && glob(p.skip(1), s.skip(1))
    }
}

/// The view of a scanned class.
spec fn scanned(p: Seq<char>, r: Option<(bool, usize)>) -> Option<(bool, Seq<char>)> {
    match r {
        Some((hit, at)) => Some((hit, p.skip(at as int))),
        None => None,
    }
}

fn item_at(p: &[char], i: usize) -> (r: Option<(char, usize)>)
    requires
        i <= p.len(),
    ensures
        match r {
            Some((c, at)) => i < at <= p.len() && class_item(p@.skip(i as int)) == Some((c, p@.skip(at as int))),
            None => class_item(p@.skip(i as int)) is None,
        },
{
    let ghost t = p@.skip(i as int);
    if i == p.len() {
        None
    } else if p[i] != '\\' {
        assert(t.skip(1) =~= p@.skip(i + 1));
        Some((p[i], i + 1))
    } else if p.len() - i > 1 {
        assert(t.skip(2) =~= p@.skip(i + 2));
        Some((p[i + 1], i + 2))
    } else {
        None
    }
}

fn named_class(name: &[char], c: char) -> (r: Option<bool>)
    ensures
        r == in_named(name@, c),
{
    let n: u32 = c as u32;
    let digit: bool = '0' as u32 <= n && n <= '9' as u32;
    let lower: bool = 'a' as u32 <= n && n <= 'z' as u32;
    let upper: bool = 'A' as u32 <= n && n <= 'Z' as u32;
    let visible: bool = 0x21 <= n && n <= 0x7e;
    if is_text(name, "alnum") {
        Some(digit || lower || upper)
    } else if is_text(name, "alpha") {
        Some(lower || upper)
    } else if is_text(name, "blank") {
        Some(c == ' ' || c == '\t')
    } else if is_text(name, "cntrl") {
        Some(n <= 0x1f || n == 0x7f)
    } else if is_text(name, "digit") {
        Some(digit)
    } else if is_text(name, "graph") {
        Some(visible)
    } else if is_text(name, "lower") {
        Some(lower)
    } else if is_text(name, "print") {
        Some(visible || c == ' ')
    } else if is_text(name, "punct") {
        Some(visible && !digit && !lower && !upper)
    } else if is_text(name, "space") {
        Some(c == ' ' || (0x09 <= n && n <= 0x0d))
    } else if is_text(name, "upper") {
        Some(upper)
    } else if is_text(name, "xdigit") {
        Some(digit || ('a' as u32 <= n && n <= 'f' as u32) || ('A' as u32 <= n && n <= 'F' as u32))
    } else {
        None
    }
}

fn named_length_at(p: &[char], i: usize) -> (n: usize)
    requires
        i <= p.len(),
    ensures
        n == named_length(p@.skip(i as int)),
        n > 0 ==> 2 < n < p.len() - i,
{
    let ghost t = p@.skip(i as int);
    if p.len() - i > 1 && p[i] == '[' && p[i + 1] == ':' {
        match find_char(p, i, ']') {
            Some(at) => {
                if at - i > 2 && p[at - 1] == ':' {
                    at - i
                } else {
                    0
                }
            },
            None => 0,
        }
    } else {
        0
    }
}

fn scan_at(p: &[char], i: usize, c: char, first: bool) -> (r: Option<(bool, usize)>)
    requires
        i <= p.len(),
    ensures
        scanned(p@, r) == class_scan(p@.skip(i as int), c, first),
        r is Some ==> (r->0).1 <= p.len(),
    decreases p.len() - i,
{
    let ghost t = p@.skip(i as int);
    if i < p.len() && p[i] == ']' && !first {
        assert(t.skip(1) =~= p@.skip(i + 1));
        return Some((false, i + 1));
    }
    let n: usize = named_length_at(p, i);
    if n > 0 {
        let name = chars_between(p, i + 2, i + n - 1);
        assert(name@ =~= t.subrange(2, n - 1));
        assert(t.skip(n + 1) =~= p@.skip(i + n + 1));
        return match (named_class(name.as_slice(), c), scan_at(p, i + n + 1, c, false)) {
            (Some(inside), Some((hit, end))) => Some((inside || hit, end)),
            _ => None,
        };
    }
    let (low, after) = match item_at(p, i) {
        Some(x) => x,
        None => {
            return None;
        },
    };
    let ghost rest = p@.skip(after as int);
    let is_range: bool = p.len() - after >= 2 && p[after] == '-' && p[after + 1] != ']';
    let (top, next) = if is_range {
        assert(rest.skip(1) =~= p@.skip(after + 1));
        match item_at(p, after + 1) {
            Some(x) => x,
            None => {
                return None;
            },
        }
    } else {
        (low, after)
    };
    match scan_at(p, next, c, false) {
        None => None,
        Some((hit, end)) => Some(
            (c == low || (low as u32 <= c as u32 && c as u32 <= top as u32) || hit, end),
        ),
    }
}

fn glob_at(p: &[char], i: usize, s: &[char], j: usize) -> (r: bool)
    requires
        i <= p.len(),
        j <= s.len(),
    ensures
        r == glob(p@.skip(i as int), s@.skip(j as int)),
    decreases s.len() - j, p.len() - i,
{
    let ghost t = p@.skip(i as int);
    let ghost u = s@.skip(j as int);
    if i == p.len() {
        return j == s.len();
    }
    proof {
        assert(t.skip(1) =~= p@.skip(i + 1));
        if j < s.len() {
            assert(u.skip(1) =~= s@.skip(j + 1));
        }
    }
    let c: char = p[i];
    if c == '*' {
        return glob_at(p, i + 1, s, j) || (j < s.len() && glob_at(p, i, s, j + 1));
    }
    if j == s.len() {
        return false;
    }
    if c == '?' {
        return glob_at(p, i + 1, s, j + 1);
    }
    if c == '[' {
        let inverse: bool = p.len() - i > 1 && (p[i + 1] == '!' || p[i + 1] == '^');
        let start: usize = if inverse { i + 2 } else { i + 1 };
        assert(t.skip(start - i) =~= p@.skip(start as int));
        return match scan_at(p, start, s[j], true) {
            None => false,
            Some((hit, rest)) => hit != inverse && glob_at(p, rest, s, j + 1),
        };
    }
    if c == '\\' {
        if p.len() - i > 1 {
            assert(t.skip(2) =~= p@.skip(i + 2));
            return p[i + 1] == s[j] && glob_at(p, i + 2, s, j + 1);
        }
        return false;
    }
    c == s[j] && glob_at(p, i + 1, s, j + 1)
}

/// Whether a pattern matches a name.
pub fn matches_name(pattern: &[char], name: &[char]) -> (r: bool)
    ensures
        r == glob(pattern@, name@),
{
    assert(pattern@.skip(0) =~= pattern@);
    assert(name@.skip(0) =~= name@);
    glob_at(pattern, 0, name, 0)
}

/// Patterns match the names of a path, one by one; `**` stands for any number of names,
/// at the end for at least one.
pub open spec fn path_glob(parts: Seq<Seq<char>>, names: Seq<Seq<char>>) -> bool
    decreases names.len(), parts.len(),
{
    if parts.len() == 0 {
        names.len() == 0
    } else if parts[0] == "**"@ {
        if parts.len() == 1 {
            names.len() > 0
        } else {
            path_glob(parts.skip(1), names) || (names.len() > 0 && path_glob(parts, names.skip(1)))
        }
    } else {
        names.len() > 0 && glob(parts[0], names[0]) && path_glob(parts.skip(1), names.skip(1))
    }
}

fn path_glob_at(parts: &Vec<Vec<char>>, i: usize, names: &Vec<Vec<char>>, j: usize, end: usize) -> (r: bool)
    requires
        i <= parts.len(),
        j <= end <= names.len(),
    ensures
        r == path_glob(
            crate::text::deep(parts@).skip(i as int),
            crate::text::deep(names@).subrange(j as int, end as int),
        ),
    decreases end - j, parts.len() - i,
{
    let ghost t = crate::text::deep(parts@).skip(i as int);
    let ghost u = crate::text::deep(names@).subrange(j as int, end as int);
    if i == parts.len() {
        return j == end;
    }
    proof {
        assert(t[0] == parts@[i as int]@);
        assert(t.skip(1) =~= crate::text::deep(parts@).skip(i + 1));
        if j < end {
            assert(u[0] == names@[j as int]@);
            assert(u.skip(1) =~= crate::text::deep(names@).subrange(j + 1, end as int));
        }
    }
    if is_text(parts[i].as_slice(), "**") {
        if i + 1 == parts.len() {
            j < end
        } else {
            path_glob_at(parts, i + 1, names, j, end) || (j < end && path_glob_at(parts, i, names, j + 1, end))
        }
    } else {
        j < end && matches_name(parts[i].as_slice(), names[j].as_slice()) && path_glob_at(
            parts,
            i + 1,
            names,
            j + 1,
            end,
        )
    }
}

/// A pattern of the file.
#[derive(Debug)]
pub struct IgnoreRule {
    /// It takes paths back that earlier patterns left out.
    pub negated: bool,
    /// It is about directories only.
    pub only_dirs: bool,
    /// The patterns for the names of a path.
    pub parts: Vec<Vec<char>>,
}

/// What a pattern of the file says.
pub struct RuleView {
    pub negated: bool,
    pub only_dirs: bool,
    pub parts: Seq<Seq<char>>,
}

impl View for IgnoreRule {
    type V = RuleView;

    open spec fn view(&self) -> RuleView {
        RuleView { negated: self.negated, only_dirs: self.only_dirs, parts: crate::text::deep(self.parts@) }
    }
}

/// The patterns in a list.
pub open spec fn rules_view(rules: Seq<IgnoreRule>) -> Seq<RuleView> {
    rules.map_values(|r: IgnoreRule| r@)
}

/// The number of backslashes at the end of a text.
pub open spec fn backslashes(s: Seq<char>) -> nat
    decreases s.len(),
{
    if s.len() > 0 && s.last() == '\\' {
        backslashes(s.drop_last()) + 1
    } else {
        0
    }
}

/// A line without the spaces at its end, but for one that a backslash keeps. Of two
/// backslashes the first makes the second stand for itself, so that it keeps nothing.
pub open spec fn without_spaces(line: Seq<char>) -> Seq<char>
    decreases line.len(),
{
    if line.len() > 0 && line.last() == ' ' && backslashes(line.drop_last()) % 2 == 0 {
        without_spaces(line.drop_last())
    } else {
        line
    }
}

/// The number of characters of the class that begins `p`; 0 where none does.
pub open spec fn class_length(p: Seq<char>) -> int {
    if p.len() > 0 && p[0] == '[' {
        match class_scan(p.skip(if is_inverse(p) { 2 } else { 1 }), ' ', true) {
            Some((_, rest)) => p.len() - rest.len(),
            None => 0,
        }
    } else {
        0
    }
}

/// The patterns for the names of a path, of which the first begins with `begun`: they
/// stand between slashes, with a backslash before them or not. A slash in a class
/// separates nothing.
pub open spec fn name_patterns(begun: Seq<char>, p: Seq<char>) -> Seq<Seq<char>>
    decreases p.len(),
{
    let n = class_length(p);
    if p.len() == 0 {
        seq![begun]
    } else if p[0] == '/' {
        seq![begun] + name_patterns(Seq::empty(), p.skip(1))
    } else if p[0] == '\\' && p.len() > 1 && p[1] == '/' {
        seq![begun] + name_patterns(Seq::empty(), p.skip(2))
    } else if p[0] == '\\' && p.len() > 1 {
        name_patterns(begun + p.take(2), p.skip(2))
    } else if 0 < n <= p.len() {
        name_patterns(begun + p.take(n), p.skip(n))
    } else {
        name_patterns(begun.push(p[0]), p.skip(1))
    }
}

/// The pattern in a line, if there is one: empty lines and those that begin with `#` hold
/// none. A `!` in front negates it, and a slash at the end limits it to directories. With
/// another slash it is about paths from the root, else about names at any depth.
pub open spec fn rule_in(line: Seq<char>) -> Option<RuleView> {
    let text = without_spaces(line);
    let negated = text.len() > 0 && text[0] == '!';
    let body = if negated { text.skip(1) } else { text };
    let only_dirs = body.len() > 0 && body.last() == '/';
    let path = if only_dirs { body.drop_last() } else { body };
    if text.len() == 0 || text[0] == '#' || path.len() == 0 {
        None
    } else {
        let parts = name_patterns(Seq::empty(), if path[0] == '/' { path.skip(1) } else { path });
        Some(
            RuleView {
                negated,
                only_dirs,
                parts: if path.contains('/') {
                    parts
                } else {
                    seq!["**"@] + parts
                },
            },
        )
    }
}

/// The patterns in some lines.
pub open spec fn rules_in(lines: Seq<Seq<char>>) -> Seq<RuleView>
    decreases lines.len(),
{
    if lines.len() == 0 {
        Seq::empty()
    } else {
        let before = rules_in(lines.drop_last());
        match rule_in(lines.last()) {
            Some(r) => before.push(r),
            None => before,
        }
    }
}

fn backslashes_before(line: &[char], n: usize) -> (k: usize)
    requires
        n <= line.len(),
    ensures
        k == backslashes(line@.take(n as int)),
        k <= n,
    decreases n,
{
    if n > 0 && line[n - 1] == '\\' {
        assert(line@.take(n as int).drop_last() =~= line@.take(n - 1));
        backslashes_before(line, n - 1) + 1
    } else {
        0
    }
}

fn class_length_at(p: &[char], i: usize) -> (n: usize)
    requires
        i <= p.len(),
    ensures
        n == (if 0 < class_length(p@.skip(i as int)) <= p.len() - i {
            class_length(p@.skip(i as int))
        } else {
            0
        }),
        n <= p.len() - i,
{
    let ghost t = p@.skip(i as int);
    if i < p.len() && p[i] == '[' {
        let inverse: bool = p.len() - i > 1 && (p[i + 1] == '!' || p[i + 1] == '^');
        let start: usize = if inverse { i + 2 } else { i + 1 };
        assert(t.skip(start - i) =~= p@.skip(start as int));
        match scan_at(p, start, ' ', true) {
            Some((_, rest)) => if rest > i {
                rest - i
            } else {
                0
            },
            None => 0,
        }
    } else {
        0
    }
}

fn name_patterns_of(p: &[char]) -> (parts: Vec<Vec<char>>)
    ensures
        crate::text::deep(parts@) == name_patterns(Seq::empty(), p@),
{
    let mut parts: Vec<Vec<char>> = Vec::new();
    let mut begun: Vec<char> = Vec::new();
    let mut i: usize = 0;
    let ghost whole = name_patterns(Seq::empty(), p@);
    proof {
        assert(p@.skip(0) =~= p@);
        assert(begun@ =~= Seq::empty());
        assert(crate::text::deep(parts@) + whole =~= whole);
    }
    while i < p.len()
        invariant
            i <= p.len(),
            whole == crate::text::deep(parts@) + name_patterns(begun@, p@.skip(i as int)),
        decreases p.len() - i,
    {
        let ghost t = p@.skip(i as int);
        let ghost done = crate::text::deep(parts@);
        let ghost before = begun@;
        let escaped: bool = p[i] == '\\' && p.len() - i > 1;
        let width: usize = class_length_at(p, i);
        if p[i] == '/' || (escaped && p[i + 1] == '/') {
            let n: usize = if escaped { 2 } else { 1 };
            assert(t.skip(n as int) =~= p@.skip(i + n));
            parts.push(begun);
            begun = Vec::new();
            i = i + n;
            proof {
                assert(crate::text::deep(parts@) =~= done.push(before));
                assert(begun@ =~= Seq::empty());
                let rest = name_patterns(Seq::empty(), p@.skip(i as int));
                assert(done + (seq![before] + rest) =~= done.push(before) + rest);
            }
        } else {
            let n: usize = if escaped {
                2
            } else if width > 0 {
                width
            } else {
                1
            };
            let mut k: usize = 0;
            while k < n
                invariant
                    k <= n,
                    i + n <= p.len(),
                    t == p@.skip(i as int),
                    begun@ == before + t.take(k as int),
                decreases n - k,
            {
                begun.push(p[i + k]);
                k = k + 1;
                assert(t.take(k as int) =~= t.take(k - 1).push(t[k - 1]));
                assert(begun@ =~= before + t.take(k as int));
            }
            assert(t.skip(n as int) =~= p@.skip(i + n));
            assert(t.take(1) =~= seq![t[0]]);
            assert(before + t.take(1) =~= before.push(t[0]));
            i = i + n;
        }
    }
    let ghost done = crate::text::deep(parts@);
    let ghost before = begun@;
    parts.push(begun);
    assert(crate::text::deep(parts@) =~= done + seq![before]);
    parts
}

fn rule_of(line: &[char]) -> (r: Option<IgnoreRule>)
    ensures
        match r {
            Some(rule) => rule_in(line@) == Some(rule@),
            None => rule_in(line@) is None,
        },
{
    let mut n: usize = line.len();
    assert(line@.take(n as int) =~= line@);
    while n > 0 && line[n - 1] == ' ' && backslashes_before(line, n - 1) % 2 == 0
        invariant
            n <= line.len(),
            without_spaces(line@.take(n as int)) == without_spaces(line@),
        decreases n,
    {
        n = n - 1;
        assert(line@.take(n + 1).drop_last() =~= line@.take(n as int));
    }
    let ghost text = line@.take(n as int);
    assert(n > 0 ==> text.drop_last() =~= line@.take(n - 1));
    assert(without_spaces(line@) == text);
    if n == 0 || line[0] == '#' {
        return None;
    }
    let negated: bool = line[0] == '!';
    let start: usize = if negated { 1 } else { 0 };
    let ghost body = if negated { text.skip(1) } else { text };
    assert(body =~= line@.subrange(start as int, n as int));
    let only_dirs: bool = n > start && line[n - 1] == '/';
    let end: usize = if only_dirs { n - 1 } else { n };
    let ghost path = if only_dirs { body.drop_last() } else { body };
    assert(path =~= line@.subrange(start as int, end as int));
    if start == end {
        return None;
    }
    let mut slashed: bool = false;
    let mut i: usize = start;
    while i < end
        invariant
            start <= i <= end <= line.len(),
            path == line@.subrange(start as int, end as int),
            slashed <==> exists|k: int| 0 <= k < i - start && #[trigger] path[k] == '/',
        decreases end - i,
    {
        if line[i] == '/' {
            slashed = true;
            assert(path[i - start] == '/');
        }
        i = i + 1;
    }
    assert(slashed == path.contains('/'));
    let from: usize = if line[start] == '/' { start + 1 } else { start };
    let rest = chars_between(line, from, end);
    assert(rest@ =~= if path[0] == '/' { path.skip(1) } else { path });
    let found = name_patterns_of(rest.as_slice());
    if slashed {
        Some(IgnoreRule { negated, only_dirs, parts: found })
    } else {
        let mut parts: Vec<Vec<char>> = Vec::new();
        parts.push(chars_of("**"));
        let mut k: usize = 0;
        assert(crate::text::deep(parts@) =~= seq!["**"@] + crate::text::deep(found@).take(0));
        while k < found.len()
            invariant
                k <= found.len(),
                crate::text::deep(parts@) == seq!["**"@] + crate::text::deep(found@).take(k as int),
            decreases found.len() - k,
        {
            let part = chars_between(found[k].as_slice(), 0, found[k].len());
            assert(part@ =~= found@[k as int]@);
            let ghost before = parts@;
            parts.push(part);
            k = k + 1;
            assert(crate::text::deep(parts@) =~= crate::text::deep(before).push(part@));
            assert(crate::text::deep(parts@) =~= seq!["**"@] + crate::text::deep(found@).take(k as int));
        }
        assert(crate::text::deep(found@).take(k as int) =~= crate::text::deep(found@));
        Some(IgnoreRule { negated, only_dirs, parts })
    }
}

/// Reads the patterns of a file.
pub fn parse_rules(text: &str) -> (rules: Vec<IgnoreRule>)
    ensures
        rules_view(rules@) == rules_in(crate::text::lines(text@)),
{
    let chars = chars_of(text);
    let lines = split_lines(chars.as_slice());
    let ghost all = crate::text::lines(text@);
    let mut rules: Vec<IgnoreRule> = Vec::new();
    let mut i: usize = 0;
    assert(rules_view(rules@) =~= rules_in(all.take(0)));
    while i < lines.len()
        invariant
            i <= lines.len(),
            all == crate::text::deep(lines@),
            rules_view(rules@) == rules_in(all.take(i as int)),
        decreases lines.len() - i,
    {
        let ghost before = rules@;
        assert(all.take(i + 1).drop_last() =~= all.take(i as int));
        assert(all.take(i + 1).last() == lines@[i as int]@);
        match rule_of(lines[i].as_slice()) {
            Some(rule) => {
                rules.push(rule);
                assert(rules_view(rules@) =~= rules_view(before).push(rule@));
            },
            None => {},
        }
        i = i + 1;
    }
    assert(all.take(all.len() as int) =~= all);
    rules
}

/// A pattern is about a path.
pub open spec fn concerns(r: RuleView, names: Seq<Seq<char>>, is_dir: bool) -> bool {
    (!r.only_dirs || is_dir) && path_glob(r.parts, names)
}

/// What the last pattern that is about a path says of it: whether it is left out.
pub open spec fn verdict(rules: Seq<RuleView>, names: Seq<Seq<char>>, is_dir: bool) -> Option<bool>
    decreases rules.len(),
{
    if rules.len() == 0 {
        None
    } else if concerns(rules.last(), names, is_dir) {
        Some(!rules.last().negated)
    } else {
        verdict(rules.drop_last(), names, is_dir)
    }
}

/// The patterns leave a path out: the path itself, or a directory above it.
pub open spec fn leaves_out(rules: Seq<RuleView>, names: Seq<Seq<char>>, is_dir: bool) -> bool
    decreases names.len(),
{
    names.len() > 0 && (leaves_out(rules, names.drop_last(), true) || verdict(rules, names, is_dir) == Some(true))
}

fn verdict_of(rules: &Vec<IgnoreRule>, names: &Vec<Vec<char>>, end: usize, is_dir: bool) -> (r: Option<bool>)
    requires
        end <= names.len(),
    ensures
        r == verdict(rules_view(rules@), crate::text::deep(names@).take(end as int), is_dir),
{
    let ghost path = crate::text::deep(names@).take(end as int);
    let ghost all = rules_view(rules@);
    let mut i: usize = rules.len();
    assert(all.take(i as int) =~= all);
    while i > 0
        invariant
            i <= rules.len(),
            end <= names.len(),
            all == rules_view(rules@),
            path == crate::text::deep(names@).take(end as int),
            verdict(all.take(i as int), path, is_dir) == verdict(all, path, is_dir),
        decreases i,
    {
        let rule = &rules[i - 1];
        assert(all.take(i as int).last() == rule@);
        assert(all.take(i as int).drop_last() =~= all.take(i - 1));
        assert(crate::text::deep(rule.parts@).skip(0) =~= rule@.parts);
        assert(crate::text::deep(names@).subrange(0, end as int) =~= path);
        if (!rule.only_dirs || is_dir) && path_glob_at(&rule.parts, 0, names, 0, end) {
            return Some(!rule.negated);
        }
        i = i - 1;
    }
    None
}

/// Whether the patterns leave a path, relative to the root, out.
pub fn is_ignored_by(rules: &Vec<IgnoreRule>, path: &str, is_dir: bool) -> (r: bool)
    ensures
        r == leaves_out(rules_view(rules@), crate::paths::names(path@), is_dir),
{
    let names = names_of(path);
    let ghost all = crate::text::deep(names@);
    let n: usize = names.len();
    let mut k: usize = 0;
    let mut out: bool = false;
    assert(all.take(n as int) =~= all);
    while k < n
        invariant
            k <= n,
            n == names.len(),
            all == crate::text::deep(names@),
            out == leaves_out(rules_view(rules@), all.take(k as int), k < n || is_dir),
        decreases n - k,
    {
        k = k + 1;
        assert(all.take(k as int).drop_last() =~= all.take(k - 1));
        if !out {
            out = match verdict_of(rules, &names, k, k < n || is_dir) {
                Some(v) => v,
                None => false,
            };
        }
    }
    out
}

/// What is in a directory that is left out is left out, whatever patterns say of it.
pub proof fn left_out_directories_are_closed(rules: Seq<RuleView>, dir: Seq<Seq<char>>, below: Seq<Seq<char>>, is_dir: bool)
    requires
        leaves_out(rules, dir, true),
        below.len() > 0,
    ensures
        leaves_out(rules, dir + below, is_dir),
    decreases below.len(),
{
    let path = dir + below;
    if below.len() == 1 {
        assert(path.drop_last() =~= dir);
    } else {
        assert(path.drop_last() =~= dir + below.drop_last());
        left_out_directories_are_closed(rules, dir, below.drop_last(), true);
    }
}

/// Without patterns nothing is left out.
pub proof fn no_rule_leaves_nothing_out(names: Seq<Seq<char>>, is_dir: bool)
    ensures
        !leaves_out(Seq::empty(), names, is_dir),
    decreases names.len(),
{
    if names.len() > 0 {
        no_rule_leaves_nothing_out(names.drop_last(), true);
    }
}

/// A text whose characters stand for themselves in a pattern and hold no slash.
pub open spec fn is_plain(w: Seq<char>) -> bool {
    forall|i: int|
        0 <= i < w.len() ==> #[trigger] w[i] != '*' && w[i] != '?' && w[i] != '[' && w[i] != '\\' && w[i] != '/'
}

/// A plain text that, as a line, is about the name that it spells: it is not empty, is no
/// comment, negates nothing and has no space at its end.
pub open spec fn is_word(w: Seq<char>) -> bool {
    is_plain(w) && w.len() > 0 && w[0] != '#' && w[0] != '!' && w.last() != ' '
}

/// A pattern of plain characters matches the name that it spells and no other.
pub proof fn plain_pattern_matches_itself(w: Seq<char>, name: Seq<char>)
    requires
        is_plain(w),
    ensures
        glob(w, name) <==> name == w,
    decreases w.len(),
{
    if w.len() > 0 && name.len() > 0 {
        let t = w.skip(1);
        let u = name.skip(1);
        assert forall|i: int| 0 <= i < t.len() implies #[trigger] t[i] != '*' && t[i] != '?' && t[i] != '[' && t[i]
            != '\\' && t[i] != '/' by {
            assert(t[i] == w[i + 1]);
        }
        plain_pattern_matches_itself(t, u);
        assert(w[0] != '*' && w[0] != '?' && w[0] != '[' && w[0] != '\\');
        if name[0] == w[0] && u == t {
            assert(w =~= seq![w[0]] + t);
            assert(name =~= seq![name[0]] + u);
        }
    } else if w.len() > 0 {
        assert(w[0] != '*');
    } else {
        assert(name.len() == 0 ==> name =~= w);
    }
}

/// A star before plain characters matches the names that end with them.
pub proof fn star_matches_any_beginning(w: Seq<char>, name: Seq<char>)
    requires
        is_plain(w),
    ensures
        glob(seq!['*'] + w, name) <==> name.len() >= w.len() && name.skip(name.len() - w.len()) == w,
    decreases name.len(),
{
    let p = seq!['*'] + w;
    assert(p.skip(1) =~= w);
    plain_pattern_matches_itself(w, name);
    if name.len() > 0 {
        let u = name.skip(1);
        star_matches_any_beginning(w, u);
        if u.len() >= w.len() {
            assert(u.skip(u.len() - w.len()) =~= name.skip(name.len() - w.len()));
        }
    }
    if name == w {
        assert(name.skip(0) =~= w);
    }
    if name.len() >= w.len() && name.skip(name.len() - w.len()) == w {
        if name.len() == w.len() {
            assert(name.skip(0) =~= name);
        }
    }
}

/// A star after plain characters matches the names that begin with them.
pub proof fn star_matches_any_end(w: Seq<char>, name: Seq<char>)
    requires
        is_plain(w),
    ensures
        glob(w + seq!['*'], name) <==> name.len() >= w.len() && name.take(w.len() as int) == w,
    decreases w.len(),
{
    let p = w + seq!['*'];
    if w.len() == 0 {
        assert(p =~= seq!['*'] + w);
        star_matches_any_beginning(w, name);
        assert(name.skip(name.len() as int) =~= w);
        assert(name.take(0) =~= w);
    } else if name.len() > 0 {
        let t = w.skip(1);
        let u = name.skip(1);
        assert forall|i: int| 0 <= i < t.len() implies #[trigger] t[i] != '*' && t[i] != '?' && t[i] != '[' && t[i]
            != '\\' && t[i] != '/' by {
            assert(t[i] == w[i + 1]);
        }
        star_matches_any_end(t, u);
        assert(p.skip(1) =~= t + seq!['*']);
        assert(p[0] == w[0]);
        assert(w[0] != '*' && w[0] != '?' && w[0] != '[' && w[0] != '\\');
        if name.len() >= w.len() {
            assert(name.take(w.len() as int).skip(1) =~= u.take(t.len() as int));
            assert(w =~= seq![w[0]] + t);
            assert(name.take(w.len() as int) =~= seq![name[0]] + u.take(t.len() as int));
        }
    } else {
        assert(p[0] == w[0]);
        assert(w[0] != '*');
    }
}

/// A question mark matches each single character, and a backslash makes the next one
/// stand for itself.
pub proof fn single_characters_match(p: Seq<char>, c: char, name: Seq<char>)
    ensures
        glob(seq!['?'] + p, name) <==> name.len() > 0 && glob(p, name.skip(1)),
        glob(seq!['\\', c] + p, name) <==> name.len() > 0 && name[0] == c && glob(p, name.skip(1)),
{
    assert((seq!['?'] + p).skip(1) =~= p);
    assert((seq!['\\', c] + p).skip(2) =~= p);
}

/// A range in brackets matches the characters from its first to its last, and after a
/// `!` or `^` the others.
pub proof fn ranges_match_between(a: char, b: char, not: char, name: Seq<char>)
    requires
        a != '[' && a != ']' && a != '\\' && a != '!' && a != '^',
        b != ']' && b != '\\',
        a as u32 <= b as u32,
        not == '!' || not == '^',
    ensures
        glob(seq!['[', a, '-', b, ']'], name) <==> name.len() == 1 && a as u32 <= name[0] as u32 <= b as u32,
        glob(seq!['[', not, a, '-', b, ']'], name) <==> name.len() == 1 && !(a as u32 <= name[0] as u32 <= b as u32),
{
    let inner = seq![a, '-', b, ']'];
    let p = seq!['[', a, '-', b, ']'];
    let q = seq!['[', not, a, '-', b, ']'];
    assert(p.skip(1) =~= inner);
    assert(q.skip(2) =~= inner);
    assert(inner.skip(1) =~= seq!['-', b, ']']);
    assert(seq!['-', b, ']'].skip(1) =~= seq![b, ']']);
    assert(seq![b, ']'].skip(1) =~= seq![']']);
    assert(seq![']'].skip(1) =~= Seq::empty());
    if name.len() > 0 {
        let c = name[0];
        assert(class_scan(seq![']'], c, false) == Some((false, Seq::<char>::empty())));
        assert(class_item(inner) == Some((a, seq!['-', b, ']'])));
        assert(class_item(seq![b, ']']) == Some((b, seq![']'])));
        assert(class_scan(inner, c, true) == Some(
            (c == a || (a as u32) <= (c as u32) <= (b as u32), Seq::<char>::empty()),
        ));
        assert(glob(Seq::empty(), name.skip(1)) <==> name.len() == 1);
    }
}

/// What the named classes hold: letters are small or capital, a letter or digit is
/// alphanumeric, a visible character is that or a sign, and with the space it is
/// printable. They hold ASCII characters only.
pub proof fn named_classes_fit_together(c: char)
    ensures
        in_named("alpha"@, c) == Some(in_named("lower"@, c)->0 || in_named("upper"@, c)->0),
        in_named("alnum"@, c) == Some(in_named("alpha"@, c)->0 || in_named("digit"@, c)->0),
        in_named("graph"@, c) == Some(in_named("alnum"@, c)->0 || in_named("punct"@, c)->0),
        in_named("print"@, c) == Some(in_named("graph"@, c)->0 || c == ' '),
        in_named("blank"@, c) == Some(c == ' ' || c == '\t'),
        in_named("space"@, c) == Some(
            c == ' ' || c == '\t' || c == '\n' || c == '\r' || c == '\u{b}' || c == '\u{c}',
        ),
        in_named("digit"@, c) == Some(
            c == '0' || c == '1' || c == '2' || c == '3' || c == '4' || c == '5' || c == '6' || c == '7' || c == '8' || c
                == '9',
        ),
        in_named("lower"@, c)->0 <==> 'a' <= c <= 'z',
        in_named("upper"@, c)->0 <==> 'A' <= c <= 'Z',
        in_named("xdigit"@, c) == Some(in_named("digit"@, c)->0 || 'a' <= c <= 'f' || 'A' <= c <= 'F'),
        in_named("cntrl"@, c) == Some(c < ' ' || c == '\u{7f}'),
        !(in_named("alnum"@, c)->0 && in_named("punct"@, c)->0),
        in_named("graph"@, c)->0 <==> '!' <= c <= '~',
{
    reveal_strlit("alnum");
    reveal_strlit("alpha");
    reveal_strlit("blank");
    reveal_strlit("cntrl");
    reveal_strlit("digit");
    reveal_strlit("graph");
    reveal_strlit("lower");
    reveal_strlit("print");
    reveal_strlit("punct");
    reveal_strlit("space");
    reveal_strlit("upper");
    reveal_strlit("xdigit");
    assert("alnum"@[1] == 'l' && "alnum"@[2] == 'n');
    assert("alpha"@[1] == 'l' && "alpha"@[2] == 'p');
    assert("blank"@[0] == 'b');
    assert("cntrl"@[0] == 'c');
    assert("digit"@[0] == 'd');
    assert("graph"@[0] == 'g');
    assert("lower"@[0] == 'l');
    assert("print"@[0] == 'p' && "print"@[1] == 'r');
    assert("punct"@[0] == 'p' && "punct"@[1] == 'u');
    assert("space"@[0] == 's');
    assert("upper"@[0] == 'u');
    assert("xdigit"@[0] == 'x');
}

/// A named class in brackets matches the single characters that are in it.
pub proof fn named_class_matches(class: Seq<char>, name: Seq<char>)
    requires
        class.len() > 0,
        !class.contains(']'),
    ensures
        glob(seq!['[', '[', ':'] + class + seq![':', ']', ']'], name) <==> name.len() == 1 && in_named(class, name[0])
            == Some(true),
{
    let p = seq!['[', '[', ':'] + class + seq![':', ']', ']'];
    let inner = seq!['[', ':'] + class + seq![':', ']', ']'];
    let n: int = class.len() as int + 3;
    assert(p.skip(1) =~= inner);
    assert forall|j: int| 0 <= j < n implies #[trigger] inner[j] != ']' by {
        if 2 <= j < 2 + class.len() {
            assert(inner[j] == class[j - 2]);
        }
    }
    crate::text::lemma_first_index(inner, ']', n);
    assert(inner.subrange(2, n - 1) =~= class);
    assert(inner.skip(n + 1) =~= seq![']']);
    assert(seq![']'].skip(1) =~= Seq::empty());
    if name.len() > 0 {
        let c = name[0];
        assert(class_scan(seq![']'], c, false) == Some((false, Seq::<char>::empty())));
        assert(named_length(inner) == n);
        assert(!is_inverse(p));
        assert(glob(Seq::empty(), name.skip(1)) <==> name.len() == 1);
    }
}

proof fn lemma_plain_patterns(begun: Seq<char>, w: Seq<char>)
    requires
        is_plain(w),
    ensures
        name_patterns(begun, w) == seq![begun + w],
    decreases w.len(),
{
    if w.len() == 0 {
        assert(begun + w =~= begun);
    } else {
        let t = w.skip(1);
        assert forall|i: int| 0 <= i < t.len() implies #[trigger] t[i] != '*' && t[i] != '?' && t[i] != '[' && t[i]
            != '\\' && t[i] != '/' by {
            assert(t[i] == w[i + 1]);
        }
        lemma_plain_patterns(begun.push(w[0]), t);
        assert(w[0] != '[' && w[0] != '\\' && w[0] != '/');
        assert(begun.push(w[0]) + t =~= begun + w);
    }
}

proof fn lemma_patterns_then(begun: Seq<char>, w: Seq<char>, rest: Seq<char>)
    requires
        is_plain(w),
    ensures
        name_patterns(begun, w + seq!['/'] + rest) == seq![begun + w] + name_patterns(Seq::empty(), rest),
    decreases w.len(),
{
    let p = w + seq!['/'] + rest;
    if w.len() == 0 {
        assert(p[0] == '/');
        assert(p.skip(1) =~= rest);
        assert(begun + w =~= begun);
    } else {
        let t = w.skip(1);
        assert forall|i: int| 0 <= i < t.len() implies #[trigger] t[i] != '*' && t[i] != '?' && t[i] != '[' && t[i]
            != '\\' && t[i] != '/' by {
            assert(t[i] == w[i + 1]);
        }
        assert(p[0] == w[0]);
        assert(w[0] != '[' && w[0] != '\\' && w[0] != '/');
        assert(p.skip(1) =~= t + seq!['/'] + rest);
        lemma_patterns_then(begun.push(w[0]), t, rest);
        assert(begun.push(w[0]) + t =~= begun + w);
    }
}

proof fn lemma_word_is_no_wildcard(w: Seq<char>)
    requires
        is_plain(w),
    ensures
        w != "**"@,
{
    reveal_strlit("**");
    if w == "**"@ {
        assert(w[0] == '*');
    }
}

proof fn lemma_any_depth(w: Seq<char>, names: Seq<Seq<char>>)
    requires
        is_plain(w),
    ensures
        path_glob(seq!["**"@, w], names) <==> names.len() > 0 && names.last() == w,
    decreases names.len(),
{
    let parts = seq!["**"@, w];
    assert(parts.skip(1) =~= seq![w]);
    lemma_single(w, names);
    if names.len() > 0 {
        lemma_any_depth(w, names.skip(1));
        if names.len() > 1 {
            assert(names.skip(1).last() == names.last());
        }
    }
}

proof fn lemma_single(w: Seq<char>, names: Seq<Seq<char>>)
    requires
        is_plain(w),
    ensures
        path_glob(seq![w], names) <==> names.len() == 1 && names[0] == w,
{
    lemma_word_is_no_wildcard(w);
    assert(seq![w].skip(1) =~= Seq::<Seq<char>>::empty());
    if names.len() > 0 {
        plain_pattern_matches_itself(w, names[0]);
        assert(path_glob(Seq::empty(), names.skip(1)) <==> names.len() == 1);
    }
}

/// A line with a word is one rule, about the name at any depth; with a slash after it,
/// about directories of that name.
proof fn lemma_word_rules(w: Seq<char>)
    requires
        is_word(w),
    ensures
        rules_in(seq![w]) == seq![RuleView { negated: false, only_dirs: false, parts: seq!["**"@, w] }],
        rules_in(seq![w.push('/')]) == seq![RuleView { negated: false, only_dirs: true, parts: seq!["**"@, w] }],
{
    let d = w.push('/');
    lemma_plain_patterns(Seq::empty(), w);
    assert(Seq::<char>::empty() + w =~= w);
    assert(without_spaces(w) == w);
    assert(without_spaces(d) == d);
    assert(d.drop_last() =~= w);
    assert(d[0] == w[0]);
    assert(!w.contains('/'));
    assert(w[0] != '/');
    assert(w.last() != '/');
    assert(seq!["**"@] + seq![w] =~= seq!["**"@, w]);
    assert(seq![w].drop_last() =~= Seq::<Seq<char>>::empty());
    assert(seq![d].drop_last() =~= Seq::<Seq<char>>::empty());
    reveal_with_fuel(rules_in, 2);
    assert(rules_in(seq![w]) =~= seq![RuleView { negated: false, only_dirs: false, parts: seq!["**"@, w] }]);
    assert(rules_in(seq![d]) =~= seq![RuleView { negated: false, only_dirs: true, parts: seq!["**"@, w] }]);
}

proof fn lemma_one_rule(r: RuleView, names: Seq<Seq<char>>, is_dir: bool)
    requires
        !r.negated,
    ensures
        leaves_out(seq![r], names, is_dir) <==> exists|k: int|
            0 < k <= names.len() && (!r.only_dirs || k < names.len() || is_dir) && #[trigger] path_glob(
                r.parts,
                names.take(k),
            ),
    decreases names.len(),
{
    let rules = seq![r];
    assert(rules.drop_last() =~= Seq::<RuleView>::empty());
    reveal_with_fuel(verdict, 2);
    if names.len() > 0 {
        let front = names.drop_last();
        let n = names.len() as int;
        lemma_one_rule(r, front, true);
        assert(names.take(n) =~= names);
        assert forall|k: int| 0 < k < n implies #[trigger] front.take(k) == names.take(k) by {
            assert(front.take(k) =~= names.take(k));
        }
        if leaves_out(rules, front, true) {
            let k = choose|k: int|
                0 < k <= front.len() && (!r.only_dirs || k < front.len() || true) && #[trigger] path_glob(
                    r.parts,
                    front.take(k),
                );
            assert(path_glob(r.parts, names.take(k)));
        }
        if exists|k: int|
            0 < k <= names.len() && (!r.only_dirs || k < names.len() || is_dir) && #[trigger] path_glob(
                r.parts,
                names.take(k),
            ) {
            let k = choose|k: int|
                0 < k <= names.len() && (!r.only_dirs || k < names.len() || is_dir) && #[trigger] path_glob(
                    r.parts,
                    names.take(k),
                );
            if k < n {
                assert(path_glob(r.parts, front.take(k)));
            }
        }
    }
}

/// A line with a word leaves out exactly the paths that have the word among their names,
/// at whatever depth.
pub proof fn word_leaves_out_its_name(w: Seq<char>, names: Seq<Seq<char>>, is_dir: bool)
    requires
        is_word(w),
    ensures
        leaves_out(rules_in(seq![w]), names, is_dir) <==> exists|k: int| 0 <= k < names.len() && #[trigger] names[k] == w,
{
    lemma_word_rules(w);
    let r = RuleView { negated: false, only_dirs: false, parts: seq!["**"@, w] };
    lemma_one_rule(r, names, is_dir);
    assert forall|k: int| 0 < k <= names.len() implies #[trigger] path_glob(r.parts, names.take(k)) == (names[k - 1]
        == w) by {
        lemma_any_depth(w, names.take(k));
    }
    if exists|k: int| 0 <= k < names.len() && #[trigger] names[k] == w {
        let k = choose|k: int| 0 <= k < names.len() && #[trigger] names[k] == w;
        assert(path_glob(r.parts, names.take(k + 1)));
    }
}

/// A line with a word and a slash leaves out exactly the directories of that name, at
/// whatever depth, and what is in them.
pub proof fn directory_pattern_leaves_out_directories(w: Seq<char>, names: Seq<Seq<char>>, is_dir: bool)
    requires
        is_word(w),
    ensures
        leaves_out(rules_in(seq![w.push('/')]), names, is_dir) <==> exists|k: int|
            0 <= k < names.len() && #[trigger] names[k] == w && (k + 1 < names.len() || is_dir),
{
    lemma_word_rules(w);
    let r = RuleView { negated: false, only_dirs: true, parts: seq!["**"@, w] };
    lemma_one_rule(r, names, is_dir);
    assert forall|k: int| 0 < k <= names.len() implies #[trigger] path_glob(r.parts, names.take(k)) == (names[k - 1]
        == w) by {
        lemma_any_depth(w, names.take(k));
    }
    if exists|k: int| 0 <= k < names.len() && #[trigger] names[k] == w && (k + 1 < names.len() || is_dir) {
        let k = choose|k: int| 0 <= k < names.len() && #[trigger] names[k] == w && (k + 1 < names.len() || is_dir);
        assert(path_glob(r.parts, names.take(k + 1)));
    }
}

/// A line with two words and a slash between them leaves out exactly what is at that path
/// from the root, and what is below it.
pub proof fn path_pattern_starts_at_the_root(
    v: Seq<char>,
    w: Seq<char>,
    names: Seq<Seq<char>>,
    is_dir: bool,
)
    requires
        is_word(v),
        is_word(w),
    ensures
        leaves_out(rules_in(seq![v + seq!['/'] + w]), names, is_dir) <==> names.len() >= 2 && names[0] == v && names[1]
            == w,
        leaves_out(rules_in(seq![seq!['/'] + w]), names, is_dir) <==> names.len() >= 1 && names[0] == w,
{
    let p = v + seq!['/'] + w;
    let q = seq!['/'] + w;
    lemma_plain_patterns(Seq::empty(), w);
    lemma_patterns_then(Seq::empty(), v, w);
    assert(Seq::<char>::empty() + w =~= w);
    assert(Seq::<char>::empty() + v =~= v);
    assert(w.last() != '/');
    assert(p.last() == w.last() && q.last() == w.last());
    assert(without_spaces(p) == p);
    assert(without_spaces(q) == q);
    assert(p[0] == v[0]);
    assert(v[0] != '/');
    assert(p[v.len() as int] == '/');
    assert(q[0] == '/');
    assert(p.contains('/') && q.contains('/'));
    assert(q.skip(1) =~= w);
    assert(seq![v] + seq![w] =~= seq![v, w]);
    assert(seq![p].drop_last() =~= Seq::<Seq<char>>::empty());
    assert(seq![q].drop_last() =~= Seq::<Seq<char>>::empty());
    reveal_with_fuel(rules_in, 2);
    let r = RuleView { negated: false, only_dirs: false, parts: seq![v, w] };
    let s = RuleView { negated: false, only_dirs: false, parts: seq![w] };
    assert(rules_in(seq![p]) =~= seq![r]);
    assert(rules_in(seq![q]) =~= seq![s]);
    lemma_one_rule(r, names, is_dir);
    lemma_one_rule(s, names, is_dir);
    lemma_word_is_no_wildcard(v);
    assert(seq![v, w].skip(1) =~= seq![w]);
    assert forall|k: int| 0 < k <= names.len() implies #[trigger] path_glob(r.parts, names.take(k)) == (k == 2
        && names[0] == v && names[1] == w) by {
        let t = names.take(k);
        plain_pattern_matches_itself(v, t[0]);
        lemma_single(w, t.skip(1));
    }
    assert forall|k: int| 0 < k <= names.len() implies #[trigger] path_glob(s.parts, names.take(k)) == (k == 1
        && names[0] == w) by {
        lemma_single(w, names.take(k));
    }
    if names.len() >= 2 && names[0] == v && names[1] == w {
        assert(path_glob(r.parts, names.take(2)));
    }
    if names.len() >= 1 && names[0] == w {
        assert(path_glob(s.parts, names.take(1)));
    }
}

/// The rules of a file are those of its parts, one after the other, and lines that are
/// empty, hold spaces alone or begin with `#` add none.
pub proof fn rules_follow_the_lines(a: Seq<Seq<char>>, b: Seq<Seq<char>>, line: Seq<char>)
    ensures
        rules_in(a + b) == rules_in(a) + rules_in(b),
        (forall|i: int| 0 <= i < line.len() ==> #[trigger] line[i] == ' ') ==> rules_in(a.push(line)) == rules_in(a),
        line.len() > 0 && line[0] == '#' ==> rules_in(a.push(line)) == rules_in(a),
    decreases b.len(),
{
    if b.len() == 0 {
        assert(a + b =~= a);
        assert(rules_in(a) + rules_in(b) =~= rules_in(a));
    } else {
        rules_follow_the_lines(a, b.drop_last(), line);
        assert((a + b).drop_last() =~= a + b.drop_last());
        assert((a + b).last() == b.last());
        assert(rules_in(a + b) =~= rules_in(a) + rules_in(b));
    }
    assert(a.push(line).drop_last() =~= a);
    if forall|i: int| 0 <= i < line.len() ==> #[trigger] line[i] == ' ' {
        lemma_only_spaces(line);
    }
    if line.len() > 0 && line[0] == '#' {
        lemma_spaces_keep_the_beginning(line);
    }
}

proof fn lemma_only_spaces(line: Seq<char>)
    requires
        forall|i: int| 0 <= i < line.len() ==> #[trigger] line[i] == ' ',
    ensures
        without_spaces(line).len() == 0,
    decreases line.len(),
{
    if line.len() > 0 {
        let t = line.drop_last();
        assert(line[line.len() - 1] == ' ');
        assert(t.len() > 0 ==> t.last() == line[line.len() - 2]);
        assert(backslashes(t) == 0);
        lemma_only_spaces(t);
    }
}

proof fn lemma_spaces_keep_the_beginning(line: Seq<char>)
    requires
        line.len() > 0,
        line[0] != ' ',
    ensures
        without_spaces(line).len() > 0,
        without_spaces(line)[0] == line[0],
    decreases line.len(),
{
    if line.last() == ' ' && backslashes(line.drop_last()) % 2 == 0 {
        lemma_spaces_keep_the_beginning(line.drop_last());
    }
}

/// Spaces after a line that ends with neither a space nor a backslash do not matter.
pub proof fn spaces_at_the_end_do_not_matter(line: Seq<char>, n: nat)
    requires
        line.len() > 0 ==> line.last() != ' ' && line.last() != '\\',
    ensures
        rule_in(line + Seq::new(n, |i: int| ' ')) == rule_in(line),
{
    lemma_spaces_go(line, n);
}

proof fn lemma_spaces_go(line: Seq<char>, n: nat)
    requires
        line.len() > 0 ==> line.last() != ' ' && line.last() != '\\',
    ensures
        without_spaces(line + Seq::new(n, |i: int| ' ')) == line,
        without_spaces(line) == line,
    decreases n,
{
    let all = line + Seq::new(n, |i: int| ' ');
    if n == 0 {
        assert(all =~= line);
    } else {
        let m = (n - 1) as nat;
        assert(all.drop_last() =~= line + Seq::new(m, |i: int| ' '));
        assert(all.last() == ' ');
        lemma_spaces_go(line, m);
        assert(backslashes(all.drop_last()) == 0);
    }
}

/// A line that negates a word takes back the paths with that last name, unless they are in
/// a directory that is left out, and says nothing of other names.
pub proof fn negated_word_takes_back(lines: Seq<Seq<char>>, w: Seq<char>, names: Seq<Seq<char>>, is_dir: bool)
    requires
        is_word(w),
        names.len() > 0,
    ensures
        names.last() == w ==> leaves_out(rules_in(lines.push(seq!['!'] + w)), names, is_dir) == leaves_out(
            rules_in(lines.push(seq!['!'] + w)),
            names.drop_last(),
            true,
        ),
        !names.contains(w) ==> leaves_out(rules_in(lines.push(seq!['!'] + w)), names, is_dir) == leaves_out(
            rules_in(lines),
            names,
            is_dir,
        ),
    decreases names.len(),
{
    let p = seq!['!'] + w;
    let r = RuleView { negated: true, only_dirs: false, parts: seq!["**"@, w] };
    lemma_plain_patterns(Seq::empty(), w);
    assert(Seq::<char>::empty() + w =~= w);
    assert(p.last() == w.last());
    assert(without_spaces(p) == p);
    assert(p.skip(1) =~= w);
    assert(!w.contains('/'));
    assert(w[0] != '/');
    assert(w.last() != '/');
    assert(seq!["**"@] + seq![w] =~= r.parts);
    assert(rule_in(p) == Some(r));
    assert(lines.push(p).drop_last() =~= lines);
    let rules = rules_in(lines.push(p));
    assert(rules == rules_in(lines).push(r));
    assert(rules.drop_last() =~= rules_in(lines));
    lemma_any_depth(w, names);
    reveal_with_fuel(leaves_out, 2);
    if !names.contains(w) {
        assert(names[names.len() - 1] != w);
        if names.len() > 1 {
            let front = names.drop_last();
            assert forall|k: int| 0 <= k < front.len() implies #[trigger] front[k] != w by {
                assert(front[k] == names[k]);
            }
            negated_word_takes_back(lines, w, front, true);
        }
    }
}

/// The last pattern that is about a path decides whether it is left out.
pub proof fn last_pattern_decides(rules: Seq<RuleView>, r: RuleView, names: Seq<Seq<char>>, is_dir: bool)
    ensures
        path_glob(r.parts, names) && (is_dir || !r.only_dirs) ==> verdict(rules.push(r), names, is_dir) == Some(
            !r.negated,
        ),
        !path_glob(r.parts, names) || (r.only_dirs && !is_dir) ==> verdict(rules.push(r), names, is_dir) == verdict(
            rules,
            names,
            is_dir,
        ),
{
    assert(rules.push(r).drop_last() =~= rules);
}

/// The patterns of a line stand between its slashes, where no class and no backslash is in
/// them.
pub proof fn patterns_stand_between_slashes(begun: Seq<char>, a: Seq<char>, rest: Seq<char>)
    requires
        forall|i: int| 0 <= i < a.len() ==> #[trigger] a[i] != '/' && a[i] != '[' && a[i] != '\\',
    ensures
        name_patterns(begun, a) == seq![begun + a],
        name_patterns(begun, a + seq!['/'] + rest) == seq![begun + a] + name_patterns(Seq::empty(), rest),
    decreases a.len(),
{
    let p = a + seq!['/'] + rest;
    if a.len() == 0 {
        assert(p[0] == '/');
        assert(p.skip(1) =~= rest);
        assert(begun + a =~= begun);
    } else {
        let t = a.skip(1);
        assert forall|i: int| 0 <= i < t.len() implies #[trigger] t[i] != '/' && t[i] != '[' && t[i] != '\\' by {
            assert(t[i] == a[i + 1]);
        }
        assert(a[0] != '/' && a[0] != '[' && a[0] != '\\');
        assert(p[0] == a[0]);
        assert(p.skip(1) =~= t + seq!['/'] + rest);
        patterns_stand_between_slashes(begun.push(a[0]), t, rest);
        assert(begun.push(a[0]) + t =~= begun + a);
    }
}

/// Two stars stand for any names: in front for those above, between two names for those
/// between, and at the end for what is below.
pub proof fn two_stars_stand_for_any_names(v: Seq<char>, w: Seq<char>, names: Seq<Seq<char>>)
    requires
        is_plain(v),
        is_plain(w),
    ensures
        path_glob(seq!["**"@, w], names) <==> names.len() > 0 && names.last() == w,
        path_glob(seq![v, "**"@, w], names) <==> names.len() > 1 && names[0] == v && names.last() == w,
        path_glob(seq![v, "**"@], names) <==> names.len() > 1 && names[0] == v,
        path_glob(seq!["**"@], names) <==> names.len() > 0,
{
    lemma_any_depth(w, names);
    lemma_word_is_no_wildcard(v);
    assert(seq![v, "**"@, w].skip(1) =~= seq!["**"@, w]);
    assert(seq![v, "**"@].skip(1) =~= seq!["**"@]);
    if names.len() > 0 {
        let t = names.skip(1);
        plain_pattern_matches_itself(v, names[0]);
        lemma_any_depth(w, t);
        assert(path_glob(seq!["**"@], t) <==> t.len() > 0);
        if names.len() > 1 {
            assert(t.last() == names.last());
        }
    }
}

/// A file whose only line is a word leaves out what has that name, and with a slash after
/// it the directories of that name and what is in them, at whatever depth.
pub proof fn file_with_a_word_leaves_out_its_name(w: Seq<char>, names: Seq<Seq<char>>, is_dir: bool)
    requires
        is_word(w),
        !w.contains('\n'),
        w.last() != '\r',
    ensures
        leaves_out(rules_in(crate::text::lines(w + seq!['\n'])), names, is_dir) <==> exists|k: int|
            0 <= k < names.len() && #[trigger] names[k] == w,
        leaves_out(rules_in(crate::text::lines(w + seq!['/', '\n'])), names, is_dir) <==> exists|k: int|
            0 <= k < names.len() && #[trigger] names[k] == w && (k + 1 < names.len() || is_dir),
{
    let e = Seq::<char>::empty();
    let d = w.push('/');
    assert(!d.contains('\n')) by {
        assert forall|i: int| 0 <= i < d.len() implies #[trigger] d[i] != '\n' by {
            if i < w.len() {
                assert(d[i] == w[i]);
            }
        }
    }
    crate::text::lines_end_at_line_feeds(w, e);
    crate::text::lines_end_at_line_feeds(d, e);
    assert(w + seq!['\n'] + e =~= w + seq!['\n']);
    assert(d + seq!['\n'] + e =~= w + seq!['/', '\n']);
    assert(seq![w] + crate::text::lines(e) =~= seq![w]);
    assert(seq![d] + crate::text::lines(e) =~= seq![d]);
    word_leaves_out_its_name(w, names, is_dir);
    directory_pattern_leaves_out_directories(w, names, is_dir);
}

} // verus!
