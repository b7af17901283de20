use std::collections::BTreeMap;
use timelapse::blob::{load_blob, Blob, BlobError};
use timelapse::hash::git::hash_blob;
use timelapse::hash::{hash_bytes, Sha1Hash};
use timelapse::store::{
    blob_path, check_init, check_open, default_config, initial_directories, load_tree, required_directories, tree_path,
    tree_to_store, StoreError,
};
use timelapse::tree::{Entry, Tree};

/// A `.tl` directory in memory.
#[derive(Default)]
struct Disk {
    exists: bool,
    directories: Vec<String>,
    files: BTreeMap<String, Vec<u8>>,
}

impl Disk {
    fn init(&mut self) -> Result<(), StoreError> {
        check_init(self.exists)?;
        self.exists = true;
        self.directories = initial_directories().iter().map(|d| d.to_string()).collect();
        self.files.insert("config.toml".to_string(), default_config().as_bytes().to_vec());
        self.files.insert("HEAD".to_string(), Vec::new());
        Ok(())
    }

    fn open(&self) -> Result<(), StoreError> {
        let present: Vec<bool> =
            required_directories().iter().map(|d| self.directories.iter().any(|e| e.as_str() == *d)).collect();
        check_open(self.exists, &present, self.files.contains_key("config.toml"))
    }

    fn read(&self, path: &str) -> Option<&[u8]> {
        self.files.get(path).map(|v| v.as_slice())
    }

    fn write_blob(&mut self, hash: Sha1Hash, data: &[u8]) {
        let (_blob, serialized) = Blob::from_bytes(data).unwrap();
        self.files.entry(blob_path(&hash)).or_insert(serialized);
    }

    fn read_blob(&self, hash: Sha1Hash) -> Result<Vec<u8>, BlobError> {
        load_blob(hash, self.read(&blob_path(&hash)))
    }

    fn has_blob(&self, hash: Sha1Hash) -> bool {
        self.files.contains_key(&blob_path(&hash))
    }

    fn write_tree(&mut self, tree: &Tree) -> Sha1Hash {
        let (hash, bytes) = tree_to_store(tree);
        self.files.entry(tree_path(&hash)).or_insert(bytes);
        hash
    }

    fn read_tree(&self, hash: Sha1Hash) -> Result<Tree, StoreError> {
        load_tree(hash, self.read(&tree_path(&hash)))
    }
}

fn new_store() -> Disk {
    let mut store = Disk::default();
    store.init().unwrap();
    store
}

#[test]
fn test_blob_store_write_read_roundtrip() {
    let mut store = Disk::default();
    let data = b"test data for blob store";
    let hash = hash_bytes(data);
    store.write_blob(hash, data);
    let read_data = store.read_blob(hash).unwrap();
    assert_eq!(data, &read_data[..]);
}

#[test]
fn test_blob_store_idempotent_writes() {
    let mut store = Disk::default();
    let data = b"test data";
    let hash = hash_bytes(data);
    store.write_blob(hash, data);
    store.write_blob(hash, data);
    store.write_blob(hash, data);
    let read_data = store.read_blob(hash).unwrap();
    assert_eq!(data, &read_data[..]);
}

#[test]
fn test_blob_store_has_blob() {
    let mut store = Disk::default();
    let data = b"test data";
    let hash = hash_bytes(data);
    assert!(!store.has_blob(hash));
    store.write_blob(hash, data);
    assert!(store.has_blob(hash));
}

#[test]
fn test_blob_store_file_structure() {
    let mut store = Disk::default();
    let data = b"test data";
    let hash = hash_bytes(data);
    let hex = hash.to_hex();
    store.write_blob(hash, data);
    let expected_path = format!("objects/blobs/{}/{}", &hex[0..2], &hex[2..]);
    assert!(store.files.contains_key(&expected_path));
}

#[test]
fn test_blob_store_read_nonexistent() {
    let store = Disk::default();
    let fake_hash = Sha1Hash::from_bytes([0xFF; 20]);
    assert!(store.read_blob(fake_hash).is_err());
    assert_eq!(store.read_blob(fake_hash), Err(BlobError::NotFound { hash: fake_hash }));
}

#[test]
fn test_blob_store_large_blob() {
    let mut store = Disk::default();
    let data = b"hello world ".repeat(2000);
    let hash = hash_bytes(&data);
    store.write_blob(hash, &data);
    let read_data = store.read_blob(hash).unwrap();
    assert_eq!(data, read_data);
}

#[test]
fn test_blob_store_multiple_blobs() {
    let mut store = Disk::default();
    let data1 = b"first blob";
    let data2 = b"second blob";
    let data3 = b"third blob";
    let hash1 = hash_bytes(data1);
    let hash2 = hash_bytes(data2);
    let hash3 = hash_bytes(data3);
    store.write_blob(hash1, data1);
    store.write_blob(hash2, data2);
    store.write_blob(hash3, data3);
    assert_eq!(data1, &store.read_blob(hash1).unwrap()[..]);
    assert_eq!(data2, &store.read_blob(hash2).unwrap()[..]);
    assert_eq!(data3, &store.read_blob(hash3).unwrap()[..]);
}

#[test]
fn test_blob_store_empty_blob() {
    let mut store = Disk::default();
    let data = b"";
    let hash = hash_bytes(data);
    store.write_blob(hash, data);
    let read_data = store.read_blob(hash).unwrap();
    assert_eq!(data, &read_data[..]);
}

#[test]
fn test_store_init() {
    let store = new_store();
    assert!(store.exists);
    for dir in [
        "locks",
        "journal",
        "objects/blobs",
        "objects/trees",
        "refs/pins",
        "refs/heads",
        "state",
        "tmp/ingest",
        "tmp/gc",
    ] {
        assert!(store.directories.iter().any(|d| d.as_str() == dir));
    }
    assert!(store.files.contains_key("config.toml"));
    assert!(store.files.contains_key("HEAD"));
}

#[test]
fn test_store_init_already_initialized() {
    let mut store = new_store();
    let result = store.init();
    assert!(result.is_err());
    if let Err(e) = result {
        assert!(e.message("/repo").unwrap().contains("already initialized"));
    }
}

#[test]
fn test_store_open() {
    let store = new_store();
    assert!(store.open().is_ok());
}

#[test]
fn test_store_open_not_initialized() {
    let store = Disk::default();
    let result = store.open();
    assert!(result.is_err());
    if let Err(e) = result {
        assert!(e.message("/repo").unwrap().contains("not initialized"));
    }
}

#[test]
fn test_store_write_read_tree() {
    let mut store = new_store();
    let mut tree = Tree::new();
    let hash1 = hash_blob(b"content1");
    let hash2 = hash_blob(b"content2");
    tree.insert("file1.txt", Entry::file(0o644, hash1));
    tree.insert("file2.txt", Entry::file(0o644, hash2));
    let tree_hash = store.write_tree(&tree);
    let read_tree = store.read_tree(tree_hash).unwrap();
    assert_eq!(tree.hash(), read_tree.hash());
    assert_eq!(tree.len(), read_tree.len());
}

#[test]
fn test_store_tree_idempotent_write() {
    let mut store = new_store();
    let mut tree = Tree::new();
    let hash1 = hash_blob(b"idempotent");
    tree.insert("file.txt", Entry::file(0o644, hash1));
    let hash1 = store.write_tree(&tree);
    let hash2 = store.write_tree(&tree);
    assert_eq!(hash1, hash2);
}

#[test]
fn test_blob_write_read_roundtrip() {
    let mut store = Disk::default();
    let large_vec = vec![42u8; 4096];
    let contents: Vec<&[u8]> =
        vec![b"test content" as &[u8], b"", b"binary\0data\0with\0nulls", &large_vec[..]];
    for content in contents {
        let hash = hash_blob(content);
        store.write_blob(hash, content);
        let read_content = store.read_blob(hash).unwrap();
        assert_eq!(content, &read_content[..], "Roundtrip failed for content of length {}", content.len());
    }
}

#[test]
fn test_large_blob() {
    let mut store = Disk::default();
    let large_content = vec![42u8; 1024 * 1024];
    let hash = hash_blob(&large_content);
    store.write_blob(hash, &large_content);
    let read_back = store.read_blob(hash).unwrap();
    assert_eq!(large_content.len(), read_back.len());
    assert_eq!(large_content, read_back);
}

#[test]
fn test_tree_with_subdirectory() {
    let mut store = new_store();
    let file_hash = hash_blob(b"file in subdir");
    let mut subtree = Tree::new();
    subtree.insert("file.txt", Entry::file(0o100644, file_hash));
    let subtree_hash = store.write_tree(&subtree);
    let mut root_tree = Tree::new();
    root_tree.insert("subdir", Entry::tree(subtree_hash));
    let root_hash = store.write_tree(&root_tree);
    let read_root = store.read_tree(root_hash).unwrap();
    assert_eq!(read_root.get("subdir"), Some(&Entry::tree(subtree_hash)));
}

#[test]
fn test_full_storage_pipeline() {
    let mut store = new_store();
    let blob1_data = b"This is the content of file1.txt";
    let blob2_data = b"This is the content of file2.txt";
    let blob3_data = b"This is the content of file3.txt with more data to potentially trigger compression";
    let hash1 = hash_blob(blob1_data);
    let hash2 = hash_blob(blob2_data);
    let hash3 = hash_blob(blob3_data);
    store.write_blob(hash1, blob1_data);
    store.write_blob(hash2, blob2_data);
    store.write_blob(hash3, blob3_data);

    let mut tree = Tree::new();
    tree.insert("file1.txt", Entry::file(0o644, hash1));
    tree.insert("file2.txt", Entry::file(0o644, hash2));
    tree.insert("src/file3.txt", Entry::file(0o644, hash3));
    let tree_hash = store.write_tree(&tree);
    let read_tree = store.read_tree(tree_hash).unwrap();
    assert_eq!(read_tree.len(), 3);
    assert!(read_tree.get("file1.txt").is_some());
    assert!(read_tree.get("file2.txt").is_some());
    assert!(read_tree.get("src/file3.txt").is_some());

    assert_eq!(store.read_blob(hash1).unwrap().as_slice(), blob1_data);
    assert_eq!(store.read_blob(hash2).unwrap().as_slice(), blob2_data);
    assert_eq!(store.read_blob(hash3).unwrap().as_slice(), blob3_data);
}

#[test]
fn test_store_persistence() {
    let mut store = new_store();
    let data = b"persistent data";
    let hash = hash_blob(data);
    store.write_blob(hash, data);
    let mut tree = Tree::new();
    tree.insert("file.txt", Entry::file(0o644, hash));
    store.write_tree(&tree);

    let reopened = Disk { exists: store.exists, directories: store.directories, files: store.files };
    assert!(reopened.open().is_ok());
    let blob = reopened.read_blob(hash_blob(data)).unwrap();
    assert_eq!(blob.as_slice(), data);
}

#[test]
fn test_large_tree() {
    let mut store = new_store();
    let mut tree = Tree::new();
    for i in 0..100 {
        let data = format!("content of file {}", i);
        let hash = hash_blob(data.as_bytes());
        store.write_blob(hash, data.as_bytes());
        let path = format!("files/file{:03}.txt", i);
        tree.insert(&path, Entry::file(0o644, hash));
    }
    let tree_hash = store.write_tree(&tree);
    let read_tree = store.read_tree(tree_hash).unwrap();
    assert_eq!(read_tree.len(), 100);
    for i in 0..100 {
        let path = format!("files/file{:03}.txt", i);
        assert!(read_tree.get(&path).is_some());
    }
}

#[test]
fn damaged_blobs_are_not_found() {
    let mut store = Disk::default();
    let hash = hash_blob(b"one");
    store.write_blob(hash, b"other");
    assert_eq!(
        store.read_blob(hash),
        Err(BlobError::HashMismatch { expected: hash, actual: hash_bytes(b"other") })
    );
    store.files.insert(blob_path(&hash), b"short".to_vec());
    assert_eq!(store.read_blob(hash), Err(BlobError::HeaderTooShort { len: 5 }));
}
