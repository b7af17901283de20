use timelapse::order::{less_bytes, sort_positions, sort_texts};
use timelapse::paths::{ancestors, find_repo_root, is_among, names_of, path_under, same_path};
use timelapse::text::{
    chars_of, contains_chars, decimal_string, is_white, parse_number, split_chars, split_lines, split_words, string_of,
    trim_chars,
};
use timelapse::ui::{clipped, joined_texts, padded_to};

fn strings(parts: Vec<Vec<char>>) -> Vec<String> {
    parts.iter().map(|p| p.iter().collect()).collect()
}

#[test]
fn white_space_is_that_of_unicode() {
    for u in 0..=0x10FFFFu32 {
        if let Some(c) = char::from_u32(u) {
            assert_eq!(is_white(c), c.is_whitespace());
        }
    }
}

#[test]
fn texts_are_split_like_strings() {
    for s in ["", "\n", "a", "a\nb", "a\r\nb\r\n", "\n\n", "a \t b\u{3000}c ", "x\r", "  "] {
        let chars = chars_of(s);
        assert_eq!(strings(split_lines(&chars)), s.lines().collect::<Vec<_>>());
        assert_eq!(strings(split_words(&chars)), s.split_whitespace().collect::<Vec<_>>());
        assert_eq!(strings(split_chars(&chars, 'a')), s.split('a').collect::<Vec<_>>());
        assert_eq!(string_of(&trim_chars(&chars)), s.trim());
        assert_eq!(contains_chars(&chars, &['a', '\n']), s.contains("a\n"));
    }
}

#[test]
fn numerals_read_back() {
    for n in [0u64, 7, 10, 255, 256, 1_000_000_007, u64::MAX] {
        let text = decimal_string(n);
        assert_eq!(text, n.to_string());
        assert_eq!(parse_number(text.as_bytes(), 10, u64::MAX), Some(n));
    }
    assert_eq!(parse_number(b"+17", 8, 100), Some(15));
    assert_eq!(parse_number(b"", 10, 100), None);
    assert_eq!(parse_number(b"+", 10, 100), None);
    assert_eq!(parse_number(b"-1", 10, 100), None);
    assert_eq!(parse_number(b"101", 10, 100), None);
    assert_eq!(parse_number(b"18", 8, 100), None);
}

#[test]
fn byte_strings_are_ordered_and_sorted_stably() {
    assert!(less_bytes(b"a", b"ab"));
    assert!(less_bytes(b"ab", b"b"));
    assert!(!less_bytes(b"b", b"b"));
    let keys = vec![b"b".to_vec(), b"a".to_vec(), b"b".to_vec(), b"".to_vec()];
    assert_eq!(sort_positions(&keys), vec![3, 1, 0, 2]);
    let names = vec!["b".to_string(), "é".to_string(), "B".to_string(), "a".to_string()];
    let mut expected = names.clone();
    expected.sort();
    assert_eq!(sort_texts(&names), expected);
}

#[test]
fn texts_are_joined_padded_and_clipped() {
    let parts = vec!["a".to_string(), "b".to_string(), "c".to_string()];
    assert_eq!(joined_texts(&parts, ", "), parts.join(", "));
    assert_eq!(joined_texts(&vec![], ", "), "");
    assert_eq!(padded_to("ab", 5), format!("{:5}", "ab"));
    assert_eq!(padded_to("abcdef", 5), format!("{:5}", "abcdef"));
    assert_eq!(clipped("abcdef", 4), "abcd");
    assert_eq!(clipped("ab", 4), "ab");
}

#[test]
fn paths_are_compared_by_their_names() {
    assert_eq!(strings(names_of("/a//./b/")), vec!["a", "b"]);
    assert!(same_path("/a/b", "/a//b/."));
    assert!(!same_path("/a/b", "/a/B"));
    assert!(is_among("/x", &vec!["/y".to_string(), "//x".to_string()]));
    assert_eq!(path_under("/r", "a"), "/r/a");
    assert_eq!(path_under("/r/", "a"), "/r/a");
    assert_eq!(path_under("/r", "/a"), "/a");
}

#[test]
fn the_store_is_found_above() {
    let dirs = ancestors("/a/b/c");
    assert_eq!(dirs, vec!["/a/b/c", "/a/b", "/a", "/"]);
    assert_eq!(find_repo_root(&dirs, &vec![false, true, true, false]), Some("/a/b".to_string()));
    assert_eq!(find_repo_root(&dirs, &vec![false; 4]), None);
}
