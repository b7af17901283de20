use timelapse::hash::git::hash_blob;
use timelapse::hash::hash_bytes;
use timelapse::store::{
    apply_edit, blob_path, check_init, check_open, default_config, initial_directories, is_editable, is_left_out,
    load_tree, normalize_path, required_directories, should_ignore, tree_path, tree_to_store, update_user_config,
    update_vcs_config, ConfigEdit, ConfigEditError, PathError, StoreError,
};
use timelapse::tree::{Entry, Tree};

#[test]
fn test_normalize_path() {
    let path = normalize_path("src/main.rs").unwrap();
    assert_eq!(path, "src/main.rs");

    let path = normalize_path("./file.txt").unwrap();
    assert_eq!(path, "file.txt");

    let path = normalize_path("./src/lib.rs").unwrap();
    assert_eq!(path, "src/lib.rs");
}

#[test]
fn test_normalize_path_rejects_parent_dir() {
    let result = normalize_path("../secret.txt");
    assert!(result.is_err());
    if let Err(e) = result {
        assert!(e.message().contains("Path traversal"));
    }

    let result = normalize_path("src/../../etc/passwd");
    assert!(result.is_err());
    assert!(matches!(normalize_path("a/.."), Err(PathError::Traversal { .. })));
}

#[test]
fn test_normalize_path_rejects_absolute() {
    let result = normalize_path("/etc/passwd");
    assert!(result.is_err());
    if let Err(e) = result {
        assert!(e.message().contains("Absolute paths"));
    }
    assert!(matches!(normalize_path("/"), Err(PathError::Absolute { .. })));
}

#[test]
fn rewritten_paths_are_checked_again() {
    assert!(matches!(normalize_path("..\\x"), Err(PathError::Traversal { .. })));
    assert!(matches!(normalize_path("a\\..\\..\\b"), Err(PathError::Traversal { .. })));
    assert!(matches!(normalize_path(".//etc"), Err(PathError::Absolute { .. })));
    assert!(matches!(normalize_path("\\etc"), Err(PathError::Absolute { .. })));
    assert_eq!(normalize_path("./a..b/c").unwrap(), "a..b/c");
}

#[test]
fn test_normalize_path_backslashes() {
    let path = normalize_path("src\\main.rs").unwrap();
    assert_eq!(path, "src/main.rs");
}

#[test]
fn test_should_ignore() {
    assert!(should_ignore(".tl/config.toml"));
    assert!(should_ignore(".tl"));
    assert!(should_ignore(".tl/objects/blobs"));

    assert!(should_ignore(".git/HEAD"));
    assert!(should_ignore(".git"));
    assert!(should_ignore(".git/config"));

    assert!(!should_ignore("src/main.rs"));
    assert!(!should_ignore("README.md"));
    assert!(!should_ignore("a/b/c/file.txt"));
    assert!(!should_ignore(".gitignore"));
}

#[test]
fn a_new_store_can_be_opened() {
    let made = initial_directories();
    let present: Vec<bool> = required_directories().iter().map(|d| made.contains(d)).collect();
    assert_eq!(check_init(false), Ok(()));
    assert_eq!(check_open(true, &present, true), Ok(()));
}

#[test]
fn a_store_that_is_not_whole_is_refused() {
    assert_eq!(check_init(true), Err(StoreError::AlreadyInitialized));
    assert_eq!(check_open(false, &[], true), Err(StoreError::NotInitialized));
    assert_eq!(check_open(true, &[true, false, false], true), Err(StoreError::MissingDirectory { index: 1 }));
    assert_eq!(check_open(true, &[true, true], false), Err(StoreError::MissingConfig));
    let missing = StoreError::MissingDirectory { index: 1 };
    assert_eq!(missing.message("/repo"), Some("Missing required directory: journal".to_string()));
    assert_eq!(StoreError::MissingDirectory { index: 7 }.message("/repo"), None);
    assert_eq!(StoreError::MissingConfig.message("/repo"), Some("Missing config.toml".to_string()));
}

#[test]
fn objects_are_fanned_out() {
    let hash = hash_bytes(b"test data");
    let hex = hash.to_hex();
    assert_eq!(blob_path(&hash), format!("objects/blobs/{}/{}", &hex[0..2], &hex[2..]));
    assert_eq!(tree_path(&hash), format!("objects/trees/{}/{}", &hex[0..2], &hex[2..]));
    assert_ne!(blob_path(&hash), blob_path(&hash_bytes(b"other data")));
}

#[test]
fn stored_trees_load_under_their_own_hash() {
    let mut tree = Tree::new();
    for i in 0..100 {
        let data = format!("content of file {}", i);
        let path = format!("files/file{:03}.txt", i);
        tree.insert(&path, Entry::file(0o644, hash_blob(data.as_bytes())));
    }
    let (hash, bytes) = tree_to_store(&tree);
    let loaded = load_tree(hash, Some(&bytes)).unwrap();
    assert_eq!(loaded.len(), 100);
    for i in 0..100 {
        let path = format!("files/file{:03}.txt", i);
        assert_eq!(loaded.get(&path), tree.get(&path));
    }
    let other = hash_bytes(b"");
    assert!(matches!(load_tree(other, Some(&bytes)), Err(StoreError::TreeHashMismatch { .. })));
    assert!(matches!(load_tree(hash, Some(b"junk")), Err(StoreError::InvalidTree { .. })));
    let missing = load_tree(hash, None).err().unwrap();
    assert_eq!(missing, StoreError::TreeNotFound { hash });
    assert_eq!(missing.message("/repo"), Some(format!("Tree not found: {}", hash.to_hex())));
}

#[test]
fn version_control_is_recorded_in_its_section() {
    let text = update_vcs_config(default_config(), true, false, Some("https://example.com/r.git".to_string())).unwrap();
    let doc: toml::Value = toml::from_str(&text).unwrap();
    assert_eq!(doc["vcs"]["git_initialized"].as_bool(), Some(true));
    assert_eq!(doc["vcs"]["jj_initialized"].as_bool(), Some(false));
    assert_eq!(doc["vcs"]["git_remote"].as_str(), Some("https://example.com/r.git"));
    assert_eq!(doc["store"]["blob_compression_threshold"].as_integer(), Some(4096));
    let text = update_vcs_config(&text, true, true, None).unwrap();
    let doc: toml::Value = toml::from_str(&text).unwrap();
    assert_eq!(doc["vcs"]["git_remote"].as_str(), Some(""));
}

#[test]
fn identity_is_recorded_in_its_section() {
    let text = update_user_config(default_config(), "Ada \"A\" L", "ada@example.com").unwrap();
    let doc: toml::Value = toml::from_str(&text).unwrap();
    assert_eq!(doc["user"]["name"].as_str(), Some("Ada \"A\" L"));
    assert_eq!(doc["user"]["email"].as_str(), Some("ada@example.com"));
    assert_eq!(doc["watcher"]["debounce_ms"].as_integer(), Some(100));
}

#[test]
fn configuration_that_cannot_be_changed_is_refused() {
    assert_eq!(update_user_config("[user", "a", "b"), Err(ConfigEditError::Parse));
    assert_eq!(update_user_config("[vcs]\n", "a", "b"), Err(ConfigEditError::MissingSection));
    assert_eq!(update_vcs_config("vcs = 3\n", true, true, None), Err(ConfigEditError::MissingSection));
}

#[test]
fn every_other_value_is_kept() {
    let content = "top = 1\nwhen = 1979-05-27T07:32:00.5-07:00\n[vcs]\nratio = 1.5\nnames = [\"a\", 'b']\n\
        [other.inner]\nat = 07:32:00\n[[rows]]\nx = [1, [2.0]]\n";
    let before: toml::Value = toml::from_str(content).unwrap();
    let edit = ConfigEdit::Vcs { git_initialized: true, jj_initialized: false, git_remote: "u" };
    let text = apply_edit(content, &edit).unwrap().unwrap();
    let mut after: toml::Value = toml::from_str(&text).unwrap();
    let fields = after.get_mut("vcs").unwrap().as_table_mut().unwrap();
    assert_eq!(fields.remove("git_initialized").unwrap().as_bool(), Some(true));
    assert_eq!(fields.remove("jj_initialized").unwrap().as_bool(), Some(false));
    assert_eq!(fields.remove("git_remote").unwrap().as_str(), Some("u"));
    assert_eq!(after, before);
}

fn is_kept(content: &str) {
    let mut before: toml::Value = toml::from_str(content).unwrap();
    let user = before.get_mut("user").unwrap().as_table_mut().unwrap();
    user.insert("name".to_string(), toml::Value::String("n".to_string()));
    user.insert("email".to_string(), toml::Value::String("e".to_string()));
    let text = apply_edit(content, &ConfigEdit::User { name: "n", email: "e" }).unwrap().unwrap();
    let after: toml::Value = toml::from_str(&text).unwrap();
    assert_eq!(after, before, "{}", text);
}

#[test]
fn nested_values_are_read_back() {
    is_kept("[user]\n[a]\n[a.b]\n[a.b.c]\nx = 1\n[a.d]\n[[a.b.rows]]\n[[a.b.rows]]\ny = {}\n[[a.b.rows.in]]\nz = [[], [{}]]\n");
    is_kept("[user]\nmixed = [1, { p = { q = [{ r = 'x' }, 2] } }, [{ s = [] }, { t = 1 }]]\nrows = [{ u = { v = 1 } }, {}]\n");
    is_kept("[user]\n'' = 1\n'a.b' = { 'c d' = ['x\"y', \"line\\nbreak\", \"tab\\t\", \"'''\", \"\\u0001\"] }\n[\"\\n\"]\n[[z.'']]\n");
    is_kept(&format!("deep = {}{}\n[user]\n", "[".repeat(63), "]".repeat(63)));
    is_kept(&format!("deep = [1, {}2{}]\n[user]\n", "{ a = ".repeat(62), " }".repeat(62)));
    is_kept(&format!("[user]\n[{}a]\nx = 1\n", "a.".repeat(62)));
    is_kept(&format!("[user]\n[[{}a]]\nx = 1\n", "a.".repeat(61)));
}

#[test]
fn long_runs_of_quotes_are_not_written() {
    let long = "\"".repeat(256);
    let short = "'".repeat(255) + "x" + &"'".repeat(255);
    assert!(apply_edit("[user]\n", &ConfigEdit::User { name: &long, email: "" }).is_none());
    assert!(apply_edit("[user]\n", &ConfigEdit::User { name: &short, email: "" }).unwrap().is_ok());
    let content = format!("[user]\nname = '{}'\n[a.b]\nc = [1, {{ d = '{}' }}]\n", long, long);
    assert!(!is_editable(&content, &ConfigEdit::User { name: "n", email: "e" }));
    let replaced = format!("[user]\nname = '{}'\n", long);
    assert!(is_editable(&replaced, &ConfigEdit::User { name: "n", email: "e" }));
    assert!(is_editable("[vcs]\n", &ConfigEdit::User { name: &long, email: "e" }));
    assert!(apply_edit("[vcs]\n", &ConfigEdit::User { name: &long, email: "e" }).unwrap().is_err());
}

#[test]
fn scratch_files_are_left_out() {
    for path in [
        ".tl/x", "a/.git/x", ".jj/", ".vscode/a", "x/.idea/a", "node_modules/m/i.js", "target/debug/a", "p/__pycache__/m",
        "a/.main.rs.swp", "notes~", "a/#draft#", ".DS_Store", "d/Thumbs.db",
    ] {
        assert!(is_left_out(path), "{}", path);
    }
    for path in ["src/main.rs", "target", "targets/a", "a#", "#", ".gitignore", "node_modules"] {
        assert!(!is_left_out(path), "{}", path);
    }
}
