use timelapse::hash::git::{hash_blob, object_bytes};
use timelapse::hash::hash_bytes;
use timelapse::tree::{count_changes, Entry, EntryKind, Tree, TreeDiff, TreeError, MODE_FILE};

fn create_test_entry() -> Entry {
    let data = b"test file content";
    let hash = hash_blob(data);
    Entry::file(0o644, hash)
}

#[test]
fn test_tree_insert_get() {
    let mut tree = Tree::new();
    let entry = create_test_entry();

    let path = "test/file.txt";
    tree.insert(path, entry.clone());

    assert_eq!(tree.len(), 1);
    assert_eq!(tree.get(path), Some(&entry));
}

#[test]
fn test_tree_remove() {
    let mut tree = Tree::new();
    let entry = create_test_entry();

    let path = "test/file.txt";
    tree.insert(path, entry.clone());
    assert_eq!(tree.len(), 1);

    let removed = tree.remove(path);
    assert_eq!(removed, Some(entry));
    assert_eq!(tree.len(), 0);
    assert_eq!(tree.get(path), None);
}

#[test]
fn test_tree_git_format() {
    let mut tree = Tree::new();

    let data = b"test content";
    let hash = hash_blob(data);
    tree.insert("test.txt", Entry::file(0o644, hash));

    let git_data = tree.serialize_git_tree();

    assert!(git_data.starts_with(b"100644"));
}

#[test]
fn test_tree_serialization_roundtrip() {
    let mut tree = Tree::new();

    let data1 = b"file1";
    let data2 = b"file2";
    let hash1 = hash_blob(data1);
    let hash2 = hash_blob(data2);

    tree.insert("src/main.rs", Entry::file(0o644, hash1));
    tree.insert("README.md", Entry::file(0o644, hash2));

    let serialized = tree.serialize();
    let deserialized = Tree::deserialize(&serialized).unwrap();

    assert_eq!(tree.len(), deserialized.len());
    assert_eq!(tree.get("src/main.rs"), deserialized.get("src/main.rs"));
    assert_eq!(tree.get("README.md"), deserialized.get("README.md"));
}

#[test]
fn test_tree_serialization_deterministic() {
    let mut tree1 = Tree::new();
    let mut tree2 = Tree::new();

    let data = b"test";
    let hash = hash_blob(data);

    tree1.insert("a.txt", Entry::file(0o644, hash));
    tree1.insert("b.txt", Entry::file(0o644, hash));

    tree2.insert("b.txt", Entry::file(0o644, hash));
    tree2.insert("a.txt", Entry::file(0o644, hash));

    let bytes1 = tree1.serialize();
    let bytes2 = tree2.serialize();

    assert_eq!(bytes1, bytes2);
}

#[test]
fn test_tree_empty() {
    let tree = Tree::new();
    assert!(tree.is_empty());
    assert_eq!(tree.len(), 0);

    let serialized = tree.serialize();
    let deserialized = Tree::deserialize(&serialized).unwrap();

    assert!(deserialized.is_empty());
    assert_eq!(deserialized.len(), 0);
}

#[test]
fn test_tree_executable() {
    let mut tree = Tree::new();

    let hash = hash_blob(b"#!/bin/bash");
    tree.insert("script.sh", Entry::executable(hash));

    let serialized = tree.serialize();
    let deserialized = Tree::deserialize(&serialized).unwrap();

    let entry = deserialized.get("script.sh").unwrap();
    assert_eq!(entry.kind, EntryKind::ExecutableFile);
    assert_eq!(entry.mode, 0o100755);
}

#[test]
fn test_tree_symlink() {
    let mut tree = Tree::new();

    let hash = hash_blob(b"target");
    tree.insert("link", Entry::symlink(hash));

    let serialized = tree.serialize();
    let deserialized = Tree::deserialize(&serialized).unwrap();

    let entry = deserialized.get("link").unwrap();
    assert_eq!(entry.kind, EntryKind::Symlink);
    assert_eq!(entry.mode, 0o120000);
}

#[test]
fn test_tree_hash_deterministic() {
    let mut tree1 = Tree::new();
    let mut tree2 = Tree::new();

    let hash = hash_blob(b"content");
    tree1.insert("file.txt", Entry::file(0o644, hash));
    tree2.insert("file.txt", Entry::file(0o644, hash));

    assert_eq!(tree1.hash(), tree2.hash());
}

#[test]
fn test_tree_hash_order_independent() {
    let mut tree1 = Tree::new();
    let mut tree2 = Tree::new();

    let hash1 = hash_blob(b"content1");
    let hash2 = hash_blob(b"content2");

    tree1.insert("a.txt", Entry::file(0o644, hash1));
    tree1.insert("b.txt", Entry::file(0o644, hash2));

    tree2.insert("b.txt", Entry::file(0o644, hash2));
    tree2.insert("a.txt", Entry::file(0o644, hash1));

    assert_eq!(tree1.hash(), tree2.hash());
}

#[test]
fn test_tree_diff_no_changes() {
    let mut tree = Tree::new();
    let hash = hash_blob(b"content");
    tree.insert("file.txt", Entry::file(0o644, hash));

    let diff = TreeDiff::diff(&tree, &tree);
    assert!(diff.is_empty());
}

#[test]
fn test_tree_diff_additions() {
    let mut old_tree = Tree::new();
    let mut new_tree = Tree::new();

    let hash1 = hash_blob(b"content1");
    let hash2 = hash_blob(b"content2");

    old_tree.insert("file1.txt", Entry::file(0o644, hash1));

    new_tree.insert("file1.txt", Entry::file(0o644, hash1));
    new_tree.insert("file2.txt", Entry::file(0o644, hash2));

    let diff = TreeDiff::diff(&old_tree, &new_tree);

    assert_eq!(diff.added.len(), 1);
    assert_eq!(diff.removed.len(), 0);
    assert_eq!(diff.modified.len(), 0);
}

#[test]
fn test_tree_diff_removals() {
    let mut old_tree = Tree::new();
    let mut new_tree = Tree::new();

    let hash1 = hash_blob(b"content1");
    let hash2 = hash_blob(b"content2");

    old_tree.insert("file1.txt", Entry::file(0o644, hash1));
    old_tree.insert("file2.txt", Entry::file(0o644, hash2));

    new_tree.insert("file1.txt", Entry::file(0o644, hash1));

    let diff = TreeDiff::diff(&old_tree, &new_tree);

    assert_eq!(diff.added.len(), 0);
    assert_eq!(diff.removed.len(), 1);
    assert_eq!(diff.modified.len(), 0);
}

#[test]
fn test_tree_diff_modifications() {
    let mut old_tree = Tree::new();
    let mut new_tree = Tree::new();

    let hash1 = hash_blob(b"old content");
    let hash2 = hash_blob(b"new content");

    old_tree.insert("file.txt", Entry::file(0o644, hash1));
    new_tree.insert("file.txt", Entry::file(0o644, hash2));

    let diff = TreeDiff::diff(&old_tree, &new_tree);

    assert_eq!(diff.added.len(), 0);
    assert_eq!(diff.removed.len(), 0);
    assert_eq!(diff.modified.len(), 1);
}

#[test]
fn test_tree_update_entries() {
    let mut base = Tree::new();
    let hash1 = hash_blob(b"content1");
    let hash2 = hash_blob(b"content2");

    base.insert("file1.txt", Entry::file(0o644, hash1));

    let changes = vec![("file2.txt", Some(Entry::file(0o644, hash2)))];

    let new_tree = Tree::update_entries(&base, changes);

    assert_eq!(new_tree.len(), 2);
    assert!(new_tree.get("file1.txt").is_some());
    assert!(new_tree.get("file2.txt").is_some());
}

#[test]
fn test_tree_hash_format() {
    let file_content = b"file content";
    let file_hash = hash_blob(file_content);

    let mut tree = Tree::new();
    tree.insert("test.txt", Entry::file(0o100644, file_hash));

    let serialized = tree.serialize();

    let mut tree2 = Tree::new();
    tree2.insert("test.txt", Entry::file(0o100644, file_hash));

    let serialized2 = tree2.serialize();

    assert_eq!(serialized, serialized2, "Tree serialization is not deterministic");
}

#[test]
fn test_tree_entry_sorting() {
    let file_hash = hash_blob(b"content");

    let mut tree1 = Tree::new();
    tree1.insert("a.txt", Entry::file(0o100644, file_hash));
    tree1.insert("c.txt", Entry::file(0o100644, file_hash));
    tree1.insert("b.txt", Entry::file(0o100644, file_hash));

    let mut tree2 = Tree::new();
    tree2.insert("b.txt", Entry::file(0o100644, file_hash));
    tree2.insert("a.txt", Entry::file(0o100644, file_hash));
    tree2.insert("c.txt", Entry::file(0o100644, file_hash));

    let ser1 = tree1.serialize();
    let ser2 = tree2.serialize();

    assert_eq!(ser1, ser2);
}

#[test]
fn test_executable_file_mode() {
    let script_content = b"#!/bin/bash\necho hello\n";
    let script_hash = hash_blob(script_content);

    let mut tree = Tree::new();
    tree.insert("script.sh", Entry::executable(script_hash));

    let _serialized = tree.serialize();
    assert!(tree.serialize_git_tree().starts_with(b"100755 script.sh\0"));
}

#[test]
fn test_symlink_in_tree() {
    let target = b"../some/path";
    let link_hash = hash_blob(target);

    let mut tree = Tree::new();
    tree.insert("mylink", Entry::symlink(link_hash));

    let _serialized = tree.serialize();
    assert!(tree.serialize_git_tree().starts_with(b"120000 mylink\0"));
}

#[test]
fn test_tree_diff_integration() {
    let hash1 = hash_blob(b"content1");
    let hash2 = hash_blob(b"content2");
    let hash3 = hash_blob(b"modified");

    let mut tree1 = Tree::new();
    tree1.insert("file1.txt", Entry::file(0o644, hash1));
    tree1.insert("file2.txt", Entry::file(0o644, hash2));

    let mut tree2 = Tree::new();
    tree2.insert("file1.txt", Entry::file(0o644, hash3));
    tree2.insert("file3.txt", Entry::file(0o644, hash1));

    let diff = TreeDiff::diff(&tree1, &tree2);

    assert_eq!(diff.added.len(), 1);
    assert_eq!(diff.removed.len(), 1);
    assert_eq!(diff.modified.len(), 1);
    assert_eq!(count_changes(&tree1, &tree2), (1, 1, 1));

    let read_tree1 = Tree::deserialize(&tree1.serialize()).unwrap();
    let read_tree2 = Tree::deserialize(&tree2.serialize()).unwrap();
    assert_eq!(read_tree1.hash(), tree1.hash());
    assert_eq!(read_tree2.hash(), tree2.hash());
}

#[test]
fn empty_tree_has_the_hash_that_git_gives_it() {
    assert_eq!(Tree::new().hash().to_hex(), "4b825dc642cb6eb9a060e54bf8d69288fbee4904");
}

#[test]
fn tree_bytes_are_sorted_entries() {
    let hash = hash_blob(b"x");
    let mut tree = Tree::new();
    tree.insert("b", Entry::file(0o755, hash));
    tree.insert("a", Entry::file(0o644, hash));
    let mut expected = b"100644 a\0".to_vec();
    expected.extend_from_slice(hash.as_bytes());
    expected.extend_from_slice(b"100755 b\0");
    expected.extend_from_slice(hash.as_bytes());
    assert_eq!(tree.serialize_git_tree(), expected);
    assert_eq!(tree.hash(), hash_bytes(&object_bytes("tree", &expected)));
    assert_ne!(tree.serialize(), object_bytes("tree", &expected));
}

#[test]
fn directories_have_their_own_mode() {
    let hash = hash_blob(b"x");
    let entry = Entry::tree(hash);
    assert_eq!(entry.kind, EntryKind::Tree);
    assert_eq!(entry.git_mode(), 0o040000);
    let mut tree = Tree::new();
    tree.insert("sub", entry);
    assert!(tree.serialize_git_tree().starts_with(b"40000 sub\0"));
    assert_eq!(Tree::deserialize(&tree.serialize()).unwrap().get("sub"), Some(&entry));
}

#[test]
fn kinds_and_modes_correspond() {
    assert_eq!(EntryKind::from_git_mode(0o100644), EntryKind::File);
    assert_eq!(EntryKind::from_git_mode(0o100755), EntryKind::ExecutableFile);
    assert_eq!(EntryKind::from_git_mode(0o120000), EntryKind::Symlink);
    assert_eq!(EntryKind::from_git_mode(0o040000), EntryKind::Tree);
    assert_eq!(EntryKind::File.git_mode(None), MODE_FILE);
}

#[test]
fn the_last_change_of_a_path_wins() {
    let a = Entry::file(0o644, hash_blob(b"a"));
    let b = Entry::file(0o644, hash_blob(b"b"));
    let mut base = Tree::new();
    base.insert("x", a);
    base.insert("y", a);
    let changed = Tree::update_entries(&base, vec![("x", None), ("x", Some(b)), ("y", Some(b)), ("y", None)]);
    assert_eq!(changed.get("x"), Some(&b));
    assert_eq!(changed.get("y"), None);
    assert_eq!(base.get("x"), Some(&a));
    assert_eq!(changed.entries().len(), 1);
    assert_eq!(changed.entries_with_paths(), vec![(b"x".to_vec(), b)]);
}

#[test]
fn differences_lead_from_old_to_new() {
    let a = Entry::file(0o644, hash_blob(b"a"));
    let b = Entry::file(0o755, hash_blob(b"a"));
    let mut old = Tree::new();
    old.insert("keep", a);
    old.insert("mode", a);
    old.insert("gone", a);
    let mut new = Tree::new();
    new.insert("keep", a);
    new.insert("mode", b);
    new.insert("fresh", b);
    let diff = TreeDiff::diff(&old, &new);
    assert_eq!(diff.added, vec![(b"fresh".to_vec(), b)]);
    assert_eq!(diff.removed, vec![(b"gone".to_vec(), a)]);
    assert_eq!(diff.modified, vec![(b"mode".to_vec(), a, b)]);
}

#[test]
fn damaged_trees_are_refused() {
    assert!(matches!(Tree::deserialize(b"not zlib"), Err(TreeError::Decompression)));
    assert!(matches!(Tree::parse_object(b"blob 0\0"), Err(TreeError::MissingHeader)));
    assert!(matches!(Tree::parse_object(b"tree 12"), Err(TreeError::MissingHeaderEnd)));
    assert!(matches!(Tree::parse_object(b"tree x\0"), Err(TreeError::InvalidSize)));
    assert!(matches!(Tree::parse_object(b"tree 3\0"), Err(TreeError::SizeMismatch { expected: 3, actual: 0 })));
    assert!(matches!(Tree::parse_git_tree(b"100644"), Err(TreeError::MissingSpace)));
    assert!(matches!(Tree::parse_git_tree(b"10x644 a\0aaaaaaaaaaaaaaaaaaaa"), Err(TreeError::InvalidMode)));
    assert!(matches!(Tree::parse_git_tree(b"100644 a"), Err(TreeError::MissingNameEnd)));
    assert!(matches!(Tree::parse_git_tree(b"100644 a\0short"), Err(TreeError::IncompleteHash)));
}
