use timelapse::ignore::{is_ignored_by, matches_name, parse_rules};

fn ignored(text: &str, path: &str, is_dir: bool) -> bool {
    is_ignored_by(&parse_rules(text), path, is_dir)
}

fn matches(pattern: &str, name: &str) -> bool {
    let p: Vec<char> = pattern.chars().collect();
    let n: Vec<char> = name.chars().collect();
    matches_name(&p, &n)
}

#[test]
fn documented_patterns_leave_paths_out() {
    let text = "/build/\n/dist/\n*.log\n";
    assert!(ignored(text, "build", true));
    assert!(ignored(text, "build/out/a.o", false));
    assert!(!ignored(text, "build", false));
    assert!(!ignored(text, "src/build/a.o", false));
    assert!(ignored(text, "dist/index.html", false));
    assert!(ignored(text, "a.log", false));
    assert!(ignored(text, "deep/down/b.log", false));
    assert!(ignored(text, "old.log/kept.txt", false));
    assert!(!ignored(text, "a.log.txt", false));
}

#[test]
fn comments_and_empty_lines_say_nothing() {
    assert!(parse_rules("# a\n\n   \n/\n!\n").is_empty());
    assert!(!ignored("", "a", false));
    assert!(ignored("\\#a\n", "#a", false));
    assert!(ignored("\\!a\n", "!a", false));
    assert!(ignored("a  \n", "a", false));
    assert!(ignored("a\\ \n", "a ", false));
    assert!(ignored("a\\  \n", "a ", false));
    assert!(ignored("a\\\\ \n", "a\\", false));
    assert!(ignored("a\\\\\\ \n", "a\\ ", false));
}

#[test]
fn the_last_pattern_decides() {
    assert!(!ignored("*.log\n!keep.log\n", "keep.log", false));
    assert!(ignored("!keep.log\n*.log\n", "keep.log", false));
    assert!(ignored("logs/\n!logs/keep.log\n", "logs/keep.log", false));
}

#[test]
fn double_stars_span_directories() {
    assert!(ignored("**/foo/bar\n", "foo/bar", false));
    assert!(ignored("**/foo/bar\n", "a/b/foo/bar", false));
    assert!(ignored("a/**/b\n", "a/b", false));
    assert!(ignored("a/**/b\n", "a/x/y/b", false));
    assert!(ignored("a/**\n", "a/x", false));
    assert!(!ignored("a/**\n", "a", true));
    assert!(!ignored("a/*\n", "b/a/x", false));
    assert!(!ignored("doc/frotz\n", "a/doc/frotz", false));
}

#[test]
fn names_match_patterns() {
    assert!(matches("a*c", "abbc"));
    assert!(!matches("a*c", "abbd"));
    assert!(matches("?x", "yx"));
    assert!(!matches("?", ""));
    assert!(matches("[a-c]1", "b1"));
    assert!(!matches("[!a-c]1", "b1"));
    assert!(matches("[^a-c]1", "d1"));
    assert!(matches("[]x]", "]"));
    assert!(matches("[\\]]", "]"));
    assert!(matches("[a-]", "-"));
    assert!(matches("[z-a]", "z"));
    assert!(!matches("[z-a]", "b"));
    assert!(!matches("[ab", "a"));
    assert!(matches("\\*", "*"));
    assert!(!matches("\\*", "x"));
}

#[test]
fn named_classes_have_their_meaning() {
    assert!(matches("[[:alpha:]]", "q"));
    assert!(!matches("[[:alpha:]]", "7"));
    assert!(matches("[![:digit:]x]", "y"));
    assert!(!matches("[![:digit:]x]", "x"));
    assert!(matches("[_[:alnum:]-]", "-"));
    assert!(matches("v[[:digit:]][[:xdigit:]]", "v3F"));
    assert!(matches("[[:upper:]][[:lower:]]", "Ab"));
    assert!(matches("[[:space:]]", "\u{b}"));
    assert!(!matches("[[:blank:]]", "\u{b}"));
    assert!(matches("[[:punct:]]", "~"));
    assert!(!matches("[[:graph:]]", " "));
    assert!(matches("[[:print:]]", " "));
    assert!(matches("[[:cntrl:]]", "\u{7f}"));
    assert!(!matches("[[:alpha:]]", "é"));
    assert!(!matches("[[:nothing:]a]", "a"));
    assert!(matches("[[:alpha]", "["));
    assert!(matches("[[:]", ":"));
}

#[test]
fn slashes_separate_outside_classes() {
    assert!(ignored("a\\/b\n", "a/b", false));
    assert!(!ignored("a\\/b\n", "x/a/b", false));
    assert!(ignored("[a/]c\n", "ac", false));
    assert!(!ignored("[a/]c\n", "x/ac", false));
}
