use timelapse::hash::hash_bytes;
use timelapse::ids::{extract_ulid, id_text, parse_id, short_id};
use timelapse::journal::{
    build_pin_map, pinned, pins_of, reason_name, reason_word, resolve_checkpoint, resolve_checkpoint_ref, resolve_via_journal,
    Checkpoint, CheckpointMeta, CheckpointReason, History, RefError,
};

const FIRST: u128 = 0x018D_0000_0000_0000_0000_0000_0000_0001;

fn checkpoint(id: u128, parent: Option<u128>) -> Checkpoint {
    Checkpoint {
        id,
        parent,
        root_tree: hash_bytes(b""),
        ts_unix_ms: (id >> 80) as u64,
        reason: CheckpointReason::Manual,
        touched_paths: vec![],
        meta: CheckpointMeta { files_changed: 1, bytes_added: 100, bytes_removed: 0 },
    }
}

fn line(n: u128) -> History {
    let mut records = Vec::new();
    for i in 0..n {
        records.push(checkpoint(FIRST + i, if i == 0 { None } else { Some(FIRST + i - 1) }));
    }
    let head = if n == 0 { None } else { Some(FIRST + n - 1) };
    History { records, head }
}

#[test]
fn test_ulid_parsing() {
    let line = "Checkpoint: 01HXKJ7NVQW3Y2YMZK5VFZX3G8 (created: 2024-01-04)";
    let id = extract_ulid(line);
    assert_eq!(id, Some("01HXKJ7NVQW3Y2YMZK5VFZX3G8".to_string()));
}

#[test]
fn identifiers_read_back() {
    for id in [0u128, 1, FIRST, u128::MAX, 1 << 127] {
        let text = id_text(id);
        assert_eq!(text.len(), 26);
        assert_eq!(text, ulid::Ulid(id).to_string());
        assert_eq!(parse_id(&text), Some(id));
        assert_eq!(parse_id(&text.to_lowercase()), Some(id));
        assert_eq!(short_id(id), text[..8].to_string());
    }
    assert_eq!(id_text(31), "0000000000000000000000000Z");
    assert_eq!(parse_id("0000000000000000000000000"), None);
    assert_eq!(parse_id("0000000000000000000000000U"), None);
    assert_eq!(extract_ulid("nothing here"), None);
}

#[test]
fn test_head_alias_resolves_to_latest() {
    let results = resolve_via_journal(&line(3), &vec![], &vec!["HEAD".to_string()]);
    assert_eq!(results.len(), 1);
    assert_eq!(results[0], Some(FIRST + 2));
}

#[test]
fn test_head_alias_empty_journal() {
    let results = resolve_via_journal(&line(0), &vec![], &vec!["HEAD".to_string()]);
    assert_eq!(results.len(), 1);
    assert_eq!(results[0], None);
}

#[test]
fn test_head_case_sensitive() {
    let history = line(1);
    let results = resolve_via_journal(&history, &vec![], &vec!["HEAD".to_string()]);
    assert_eq!(results[0], Some(FIRST));

    let results = resolve_via_journal(&history, &vec![], &vec!["head".to_string()]);
    assert_eq!(results[0], None);
}

#[test]
fn test_mixed_refs_with_head() {
    let refs = vec!["HEAD".to_string(), id_text(FIRST), "nonexistent".to_string()];
    let results = resolve_via_journal(&line(2), &vec![], &refs);

    assert_eq!(results.len(), 3);
    assert_eq!(results[0], Some(FIRST + 1));
    assert_eq!(results[1], Some(FIRST));
    assert_eq!(results[2], None);
}

#[test]
fn references_resolve_by_identifier_prefix_and_pin() {
    let mut history = line(3);
    history.records.push(checkpoint(7 << 100, None));
    let pins = vec![("release".to_string(), FIRST + 1)];
    let other = id_text(7 << 100);
    assert_eq!(resolve_checkpoint_ref(&history, &pins, &id_text(FIRST)), Ok(FIRST));
    assert_eq!(resolve_checkpoint_ref(&history, &pins, &other[..7]), Ok(7 << 100));
    assert_eq!(resolve_checkpoint_ref(&history, &pins, "release"), Ok(FIRST + 1));
    assert_eq!(resolve_checkpoint_ref(&history, &pins, &id_text(FIRST)[..10]), Err(RefError::Ambiguous { matches: 3 }));
    assert_eq!(resolve_checkpoint_ref(&history, &pins, "missing-name"), Err(RefError::Unknown));
    assert_eq!(resolve_checkpoint_ref(&history, &pins, &id_text(5)), Err(RefError::NotFound));
    assert_eq!(resolve_checkpoint_ref(&history, &pins, &other[..3]), Err(RefError::Unknown));
    assert_eq!(resolve_checkpoint_ref(&history, &pins, "HEAD"), Ok(history.latest().unwrap().id));
    assert_eq!(resolve_checkpoint_ref(&line(0), &vec![], "HEAD"), Err(RefError::Unknown));
    let named_head = vec![("HEAD".to_string(), FIRST)];
    assert_eq!(resolve_checkpoint_ref(&history, &named_head, "HEAD"), Ok(FIRST));
}

#[test]
fn ancestors_are_named_by_distance() {
    let history = line(5);
    let pins = vec![];
    let named = |r: &str| resolve_checkpoint(&history, &pins, r).map(|c| c.id);
    assert_eq!(named("HEAD"), Some(FIRST + 4));
    assert_eq!(named("HEAD~0"), Some(FIRST + 4));
    assert_eq!(named("HEAD~3"), Some(FIRST + 1));
    assert_eq!(named("HEAD~5"), None);
    assert_eq!(named("HEAD~x"), None);
}

#[test]
fn pages_follow_each_other() {
    let history = line(6);
    let ids = |offset, limit| history.page(offset, limit).iter().map(|c| c.id).collect::<Vec<_>>();
    assert_eq!(ids(0, 2), vec![FIRST + 5, FIRST + 4]);
    assert_eq!(ids(2, 3), vec![FIRST + 3, FIRST + 2, FIRST + 1]);
    assert_eq!(ids(0, 5), [ids(0, 2), ids(2, 3)].concat());
    assert_eq!(ids(5, 10), vec![FIRST]);
    assert!(ids(9, 10).is_empty());
    assert!(ids(0, 0).is_empty());
}

#[test]
fn ancestors_step_by_parents() {
    let history = line(4);
    for n in 0..3 {
        let child = history.ancestor(n).unwrap();
        assert_eq!(history.ancestor(n + 1).unwrap().id, child.parent.unwrap());
    }
    assert!(history.ancestor(4).is_none());
    assert_eq!(history.latest().unwrap().id, FIRST + 3);
    assert!(history.get(1).is_none());
}

#[test]
fn pins_are_grouped_by_checkpoint() {
    let pins = vec![("b".to_string(), 1u128), ("a".to_string(), 2), ("c".to_string(), 1), ("b".to_string(), 2)];
    assert_eq!(pinned(&pins, "b"), Some(1));
    assert_eq!(pinned(&pins, "z"), None);
    assert_eq!(pins_of(&pins, 1), vec!["b", "c"]);
    let map = build_pin_map(&pins);
    assert_eq!(map.len(), 2);
    for (id, names) in map {
        assert_eq!(names, pins_of(&pins, id));
    }
}

#[test]
fn reasons_have_words_and_names() {
    assert_eq!(reason_word(CheckpointReason::FsBatch), "fs");
    assert_eq!(reason_word(CheckpointReason::WorkspaceSave), "workspace");
    for reason in [CheckpointReason::FsBatch, CheckpointReason::GcCompact, CheckpointReason::Publish] {
        assert_eq!(reason_name(reason), format!("{:?}", reason));
    }
}
