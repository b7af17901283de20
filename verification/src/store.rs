//! Layout of the `.tl` directory, stored trees, path rules and edits of the
//! repository's `config.toml`.

use vstd::prelude::*;

use crate::document::{node_of, toml_has_section, toml_insert, toml_parse, toml_render, FieldValue, NodeView};
use crate::hash::Sha1Hash;
use crate::text::{chars_between, chars_of, has_prefix, has_suffix, is_text, split_chars, string_of};
use crate::tree::{Tree, TreeError};
use crate::ui::concat;

verus! {

/// Why a store cannot be made, opened or read.
#[derive(Debug, Clone, Copy, PartialEq, Eq)]
pub enum StoreError {
    /// There is a `.tl` directory already.
    AlreadyInitialized,
    /// There is no `.tl` directory.
    NotInitialized,
    /// The required directory at this position of the list is missing.
    MissingDirectory { index: usize },
    /// `config.toml` is missing.
    MissingConfig,
    /// Nothing is stored under the hash of the tree.
    TreeNotFound { hash: Sha1Hash },
    /// The stored bytes are no tree.
    InvalidTree { error: TreeError },
    /// The stored tree has another hash.
    TreeHashMismatch { expected: Sha1Hash, actual: Sha1Hash },
}

/// The directories under `.tl` that a new store has.
pub open spec fn initial_dirs() -> Seq<&'static str> {
    seq![
        "locks",
        "journal",
        "objects/blobs",
        "objects/trees",
        "refs/pins",
        "refs/heads",
        "state",
        "tmp/ingest",
        "tmp/gc",
    ]
}

/// The directories under `.tl` without which a store is not opened.
pub open spec fn required_dirs() -> Seq<&'static str> {
    seq!["locks", "journal", "objects/blobs", "objects/trees", "refs/pins", "state", "tmp/ingest"]
}

/// The directories under `.tl` that a new store has.
pub fn initial_directories() -> (dirs: Vec<&'static str>)
    ensures
        dirs@ == initial_dirs(),
{
    vec![
        "locks",
        "journal",
        "objects/blobs",
        "objects/trees",
        "refs/pins",
        "refs/heads",
        "state",
        "tmp/ingest",
        "tmp/gc",
    ]
}

/// The directories under `.tl` without which a store is not opened.
pub fn required_directories() -> (dirs: Vec<&'static str>)
    ensures
        dirs@ == required_dirs(),
{
    vec!["locks", "journal", "objects/blobs", "objects/trees", "refs/pins", "state", "tmp/ingest"]
}

/// A new store has every directory that opening one asks for.
pub proof fn initial_store_opens()
    ensures
        forall|i: int| 0 <= i < required_dirs().len() ==> initial_dirs().contains(#[trigger] required_dirs()[i]),
{
    assert forall|i: int| 0 <= i < required_dirs().len() implies initial_dirs().contains(
        #[trigger] required_dirs()[i],
    ) by {
        if i < 5 {
            assert(initial_dirs()[i] == required_dirs()[i]);
        } else {
            assert(initial_dirs()[i + 1] == required_dirs()[i]);
        }
    }
}

/// The message for a store below the given root that cannot be made, opened or read.
/// There is none for bytes that are no tree.
pub open spec fn store_message(e: StoreError, root: Seq<char>) -> Option<Seq<char>> {
    match e {
        StoreError::AlreadyInitialized => Some("Store already initialized at "@ + root),
        StoreError::NotInitialized => Some("Store not initialized at "@ + root),
        StoreError::MissingDirectory { index } => if index < required_dirs().len() {
            Some("Missing required directory: "@ + required_dirs()[index as int]@)
        } else {
            None
        },
        StoreError::MissingConfig => Some("Missing config.toml"@),
        StoreError::TreeNotFound { hash } => Some("Tree not found: "@ + crate::hash::hex_of(hash@)),
        StoreError::InvalidTree { .. } => None,
        StoreError::TreeHashMismatch { expected, actual } => Some(
            "Tree hash mismatch: expected "@ + crate::hash::hex_of(expected@) + ", got "@ + crate::hash::hex_of(actual@),
        ),
    }
}

impl StoreError {
    /// The error as text, for a store below the given root.
    pub fn message(&self, root: &str) -> (s: Option<String>)
        ensures
            crate::git_config::opt_text(s) == store_message(*self, root@),
    {
        match self {
            StoreError::AlreadyInitialized => Some(concat("Store already initialized at ", root)),
            StoreError::NotInitialized => Some(concat("Store not initialized at ", root)),
            StoreError::MissingDirectory { index } => {
                let dirs = required_directories();
                if *index < dirs.len() {
                    Some(concat("Missing required directory: ", dirs[*index]))
                } else {
                    None
                }
            },
            StoreError::MissingConfig => Some("Missing config.toml".to_owned()),
            StoreError::TreeNotFound { hash } => Some(concat("Tree not found: ", hash.to_hex().as_str())),
            StoreError::InvalidTree { .. } => None,
            StoreError::TreeHashMismatch { expected, actual } => {
                let mut s = concat("Tree hash mismatch: expected ", expected.to_hex().as_str());
                s.append(", got ");
                s.append(actual.to_hex().as_str());
                Some(s)
            },
        }
    }
}

/// The `config.toml` of a new store.
pub fn default_config() -> (text: &'static str)
    ensures
        text@
            == "# Timelapse Configuration\n[store]\nversion = 1\nblob_compression_threshold = 4096  # 4KB\nmax_cache_size = 104857600  # 100MB\n\n[watcher]\ndebounce_ms = 100\n\n# VCS Integration (auto-populated by tl init)\n[vcs]\ngit_initialized = false\njj_initialized = false\ngit_remote = \"\"  # Primary remote URL (if exists)\n\n# User Identity (synced from git config)\n[user]\nname = \"\"\nemail = \"\"\n"@,
{
    "# Timelapse Configuration\n[store]\nversion = 1\nblob_compression_threshold = 4096  # 4KB\nmax_cache_size = 104857600  # 100MB\n\n[watcher]\ndebounce_ms = 100\n\n# VCS Integration (auto-populated by tl init)\n[vcs]\ngit_initialized = false\njj_initialized = false\ngit_remote = \"\"  # Primary remote URL (if exists)\n\n# User Identity (synced from git config)\n[user]\nname = \"\"\nemail = \"\"\n"
}

/// Decides whether a new store may be made.
pub fn check_init(tl_exists: bool) -> (r: Result<(), StoreError>)
    ensures
        r == (if tl_exists { Err::<(), StoreError>(StoreError::AlreadyInitialized) } else { Ok(()) }),
{
    if tl_exists {
        Err(StoreError::AlreadyInitialized)
    } else {
        Ok(())
    }
}

/// Decides whether a store may be opened: `present` says of each required
/// directory whether it exists. The first missing one is reported.
pub fn check_open(tl_exists: bool, present: &[bool], config_exists: bool) -> (r: Result<(), StoreError>)
    ensures
        match r {
            Ok(()) => tl_exists && config_exists && forall|i: int| 0 <= i < present@.len() ==> #[trigger] present@[i],
            Err(StoreError::NotInitialized) => !tl_exists,
            Err(StoreError::MissingDirectory { index }) => {
                &&& tl_exists
                &&& index < present@.len()
                &&& !present@[index as int]
                &&& forall|i: int| 0 <= i < index ==> #[trigger] present@[i]
            },
            Err(StoreError::MissingConfig) => {
                &&& tl_exists
                &&& !config_exists
                &&& forall|i: int| 0 <= i < present@.len() ==> #[trigger] present@[i]
            },
            Err(_) => false,
        },
{
    if !tl_exists {
        return Err(StoreError::NotInitialized);
    }
    let mut i: usize = 0;
    while i < present.len()
        invariant
            i <= present.len(),
            tl_exists,
            forall|j: int| 0 <= j < i ==> #[trigger] present@[j],
        decreases present.len() - i,
    {
        if !present[i] {
            return Err(StoreError::MissingDirectory { index: i });
        }
        i = i + 1;
    }
    if !config_exists {
        return Err(StoreError::MissingConfig);
    }
    Ok(())
}

/// The path of an object below a directory: two digits, a slash, the other 38.
pub open spec fn fan_out(dir: Seq<char>, hash: Seq<u8>) -> Seq<char> {
    dir + crate::hash::hex_of(hash).take(2) + seq!['/'] + crate::hash::hex_of(hash).skip(2)
}

/// Builds the path of an object below a directory.
fn object_path(dir: &str, hash: &Sha1Hash) -> (path: String)
    ensures
        path@ == fan_out(dir@, hash@),
{
    let hex = chars_of(hash.to_hex().as_str());
    proof {
        crate::hash::hash_is_its_bytes(*hash);
    }
    let mut path = dir.to_owned();
    path.append(string_of(chars_between(hex.as_slice(), 0, 2).as_slice()).as_str());
    path.push('/');
    path.append(string_of(chars_between(hex.as_slice(), 2, hex.len()).as_slice()).as_str());
    assert(path@ =~= fan_out(dir@, hash@));
    path
}

/// The path of a blob below `.tl`.
pub fn blob_path(hash: &Sha1Hash) -> (path: String)
    ensures
        path@ == fan_out("objects/blobs/"@, hash@),
{
    object_path("objects/blobs/", hash)
}

/// The path of a tree below `.tl`.
pub fn tree_path(hash: &Sha1Hash) -> (path: String)
    ensures
        path@ == fan_out("objects/trees/"@, hash@),
{
    object_path("objects/trees/", hash)
}

/// Two objects of one kind have the same path only if they have the same hash.
pub proof fn object_paths_differ(dir: Seq<char>, a: Sha1Hash, b: Sha1Hash)
    requires
        fan_out(dir, a@) == fan_out(dir, b@),
    ensures
        a@ == b@,
{
    crate::hash::hash_is_its_bytes(a);
    crate::hash::hash_is_its_bytes(b);
    let x = crate::hash::hex_of(a@);
    let y = crate::hash::hex_of(b@);
    let p = fan_out(dir, a@);
    let q = fan_out(dir, b@);
    let n = dir.len() as int;
    assert forall|i: int| 0 <= i < 40 implies x[i] == y[i] by {
        let at: int = if i < 2 { n + i } else { n + i + 1 };
        assert(p[at] == x[i]);
        assert(q[at] == y[i]);
    }
    assert(x =~= y);
    crate::hash::hex_round_trip(a);
    crate::hash::hex_round_trip(b);
}

/// The tree that stored bytes give for the hash under which they were asked for.
pub open spec fn loaded_tree(hash: Seq<u8>, bytes: Seq<u8>) -> Option<Map<Seq<u8>, crate::tree::Entry>> {
    match crate::tree::stored_tree(bytes) {
        Ok(m) => if crate::hash::sha1_of(crate::tree::tree_object(m)) == hash {
            Some(m)
        } else {
            None
        },
        Err(_) => None,
    }
}

/// The hash of a tree and the bytes to store under it. A tree whose names hold no
/// null byte and whose entries are canonical is loaded from them unchanged.
pub fn tree_to_store(tree: &Tree) -> (r: (Sha1Hash, Vec<u8>))
    ensures
        r.0@ == crate::hash::sha1_of(crate::tree::tree_object(tree@)),
        r.1@ == crate::codec::zlib_encoded(crate::tree::tree_object(tree@)),
        crate::tree::storable(tree@) ==> loaded_tree(r.0@, r.1@) == Some(tree@),
{
    (tree.hash(), tree.serialize())
}

/// Reads a tree out of the bytes that are stored under its hash, if there are any, and
/// checks its hash.
pub fn load_tree(hash: Sha1Hash, stored: Option<&[u8]>) -> (r: Result<Tree, StoreError>)
    ensures
        match stored {
            None => r is Err && r->Err_0 == (StoreError::TreeNotFound { hash }),
            Some(bytes) => match r {
                Ok(t) => loaded_tree(hash@, bytes@) == Some(t@),
                Err(StoreError::InvalidTree { error }) => crate::tree::stored_tree(bytes@) == Err::<
                    Map<Seq<u8>, crate::tree::Entry>,
                    TreeError,
                >(error),
                Err(StoreError::TreeHashMismatch { expected, actual }) => {
                    &&& crate::tree::stored_tree(bytes@) is Ok
                    &&& expected == hash
                    &&& actual@ == crate::hash::sha1_of(
                        crate::tree::tree_object(crate::tree::stored_tree(bytes@)->Ok_0),
                    )
                    &&& actual@ != hash@
                },
                Err(_) => false,
            },
        },
{
    let bytes = match stored {
        Some(b) => b,
        None => {
            return Err(StoreError::TreeNotFound { hash });
        },
    };
    match Tree::deserialize(bytes) {
        Err(error) => Err(StoreError::InvalidTree { error }),
        Ok(tree) => {
            let actual = tree.hash();
            if actual != hash {
                return Err(StoreError::TreeHashMismatch { expected: hash, actual });
            }
            Ok(tree)
        },
    }
}

/// Why a path cannot be stored.
#[derive(Debug)]
pub enum PathError {
    /// The path begins at the root.
    Absolute { path: String },
    /// A component of the path is `..`.
    Traversal { path: String },
}

impl PathError {
    /// The error as text.
    pub fn message(&self) -> (s: String)
        ensures
            s@ == (match *self {
                PathError::Absolute { path } => "Absolute paths not allowed: "@ + path@,
                PathError::Traversal { path } => "Path traversal not allowed: "@ + path@,
            }),
    {
        match self {
            PathError::Absolute { path } => {
                let mut s = "Absolute paths not allowed: ".to_owned();
                s.append(path.as_str());
                s
            },
            PathError::Traversal { path } => {
                let mut s = "Path traversal not allowed: ".to_owned();
                s.append(path.as_str());
                s
            },
        }
    }
}

/// The path begins at the root.
pub open spec fn is_absolute(path: Seq<char>) -> bool {
    path.len() > 0 && path[0] == '/'
}

/// A component of the path is `..`.
pub open spec fn goes_up(path: Seq<char>) -> bool {
    crate::text::split(path, '/').contains("..".view())
}

/// The path without one leading `./`.
pub open spec fn without_dot(path: Seq<char>) -> Seq<char> {
    if crate::text::begins_with(path, "./"@) {
        path.skip(2)
    } else {
        path
    }
}

/// The path with slashes in place of backslashes.
pub open spec fn with_slashes(path: Seq<char>) -> Seq<char> {
    path.map_values(|c: char| if c == '\\' { '/' } else { c })
}

/// The path without one leading `./` and with slashes in place of backslashes.
pub open spec fn rewritten(path: Seq<char>) -> Seq<char> {
    with_slashes(without_dot(path))
}

/// The path is refused because it begins at the root, as it is or when it is
/// rewritten.
pub open spec fn refused_as_absolute(path: Seq<char>) -> bool {
    is_absolute(path) || (!goes_up(path) && is_absolute(rewritten(path)))
}

/// The path is refused because it goes up, as it is or when it is rewritten.
pub open spec fn refused_as_traversal(path: Seq<char>) -> bool {
    !refused_as_absolute(path) && (goes_up(path) || goes_up(rewritten(path)))
}

fn has_parent(chars: &[char]) -> (r: bool)
    ensures
        r == goes_up(chars@),
{
    let parts = split_chars(chars, '/');
    let ghost split = crate::text::split(chars@, '/');
    let mut i: usize = 0;
    while i < parts.len()
        invariant
            i <= parts.len(),
            split == crate::text::deep(parts@),
            split == crate::text::split(chars@, '/'),
            forall|j: int| 0 <= j < i ==> #[trigger] split[j] != ".."@,
        decreases parts.len() - i,
    {
        let up: bool = is_text(parts[i].as_slice(), "..");
        assert(split[i as int] == parts@[i as int]@);
        if up {
            return true;
        }
        i = i + 1;
    }
    false
}

fn rewrite(chars: &[char]) -> (out: Vec<char>)
    ensures
        out@ == rewritten(chars@),
{
    let dot = chars_of("./");
    let start: usize = if has_prefix(chars, dot.as_slice()) { 2 } else { 0 };
    proof {
        reveal_strlit("./");
        assert(without_dot(chars@) =~= chars@.skip(start as int));
    }
    let mut out: Vec<char> = Vec::new();
    let mut k: usize = start;
    while k < chars.len()
        invariant
            start <= k <= chars.len(),
            out@ == with_slashes(chars@.subrange(start as int, k as int)),
        decreases chars.len() - k,
    {
        let c: char = chars[k];
        if c == '\\' {
            out.push('/');
        } else {
            out.push(c);
        }
        k = k + 1;
        assert(with_slashes(chars@.subrange(start as int, k as int)) =~= with_slashes(
            chars@.subrange(start as int, k - 1),
        ).push(if c == '\\' { '/' } else { c }));
    }
    assert(chars@.subrange(start as int, k as int) =~= chars@.skip(start as int));
    out
}

/// The form in which a path is stored: one leading `./` is dropped, and backslashes
/// become slashes. Paths that begin at the root or go up are refused, also where they
/// do so only in this form. What is stored is thus below the directory that it is
/// joined to.
pub fn normalize_path(path: &str) -> (r: Result<String, PathError>)
    ensures
        match r {
            Ok(p) => {
                &&& !refused_as_absolute(path@)
                &&& !refused_as_traversal(path@)
                &&& p@ == rewritten(path@)
                &&& !is_absolute(p@)
                &&& !goes_up(p@)
                &&& !p@.contains('\\')
            },
            Err(PathError::Absolute { path: p }) => refused_as_absolute(path@) && p@ == path@,
            Err(PathError::Traversal { path: p }) => refused_as_traversal(path@) && p@ == path@,
        },
{
    let chars = chars_of(path);
    if chars.len() > 0 && chars[0] == '/' {
        return Err(PathError::Absolute { path: path.to_owned() });
    }
    if has_parent(chars.as_slice()) {
        return Err(PathError::Traversal { path: path.to_owned() });
    }
    let stored = rewrite(chars.as_slice());
    if stored.len() > 0 && stored[0] == '/' {
        return Err(PathError::Absolute { path: path.to_owned() });
    }
    if has_parent(stored.as_slice()) {
        return Err(PathError::Traversal { path: path.to_owned() });
    }
    proof {
        normalized_path_stays_inside(path@);
    }
    Ok(string_of(stored.as_slice()))
}

/// A stored path neither begins at the root nor goes up, and it holds no backslash.
pub proof fn normalized_path_stays_inside(path: Seq<char>)
    requires
        !refused_as_absolute(path),
        !refused_as_traversal(path),
    ensures
        !is_absolute(rewritten(path)),
        !goes_up(rewritten(path)),
        !rewritten(path).contains('\\'),
{
}

/// A path without backslashes that neither begins at the root, nor goes up, nor begins
/// with `.//` is not refused.
pub proof fn plain_path_is_stored(path: Seq<char>)
    requires
        !is_absolute(path),
        !goes_up(path),
        !path.contains('\\'),
        !crate::text::begins_with(path, ".//"@),
    ensures
        !refused_as_absolute(path),
        !refused_as_traversal(path),
        rewritten(path) == without_dot(path),
{
    let p = rewritten(path);
    reveal_strlit("./");
    reveal_strlit(".//");
    reveal_strlit("..");
    assert forall|i: int| 0 <= i < without_dot(path).len() implies without_dot(path)[i] != '\\' by {
        let at: int = if crate::text::begins_with(path, "./"@) { i + 2 } else { i };
        assert(path[at] == without_dot(path)[i]);
        assert(path.contains(path[at]));
    }
    assert(p =~= without_dot(path));
    if crate::text::begins_with(path, "./"@) {
        assert(path.take(2)[0] == '.' && path.take(2)[1] == '/');
        if p.len() > 0 && p[0] == '/' {
            assert(path[2] == '/');
            assert(path.take(3) =~= ".//"@);
        }
        crate::text::lemma_first_index(path, '/', 1);
        let s = crate::text::split(path, '/');
        assert(path.skip(2) =~= p);
        assert(s =~= seq![path.take(1)] + crate::text::split(p, '/'));
        if crate::text::split(p, '/').contains(".."@) {
            let i = choose|i: int| 0 <= i < crate::text::split(p, '/').len() && crate::text::split(p, '/')[i] == ".."@;
            assert(s[i + 1] == ".."@);
            assert(s.contains(".."@));
        }
    }
}

/// Whether a path is one of the directories that are never recorded, or inside one.
pub open spec fn in_directory(path: Seq<char>, dir: Seq<char>) -> bool {
    path == dir || crate::text::begins_with(path, dir + seq!['/'])
}

/// Whether a path is never recorded: `.tl`, `.git` and what is inside them.
pub fn should_ignore(path: &str) -> (r: bool)
    ensures
        r == is_internal(path@),
{
    let chars = chars_of(path);
    is_in_directory(chars.as_slice(), ".tl") || is_in_directory(chars.as_slice(), ".git")
}

/// Whether a path is the given directory or inside it.
fn is_in_directory(path: &[char], dir: &str) -> (r: bool)
    ensures
        r == in_directory(path@, dir@),
{
    let mut prefix = chars_of(dir);
    if crate::text::same_chars(path, prefix.as_slice()) {
        return true;
    }
    prefix.push('/');
    assert(prefix@ =~= dir@ + seq!['/']);
    has_prefix(path, prefix.as_slice())
}

/// Whether a directory with this name holds nothing that is recorded: those of version
/// control, of development environments and of build tools.
pub open spec fn is_ignored_directory(name: Seq<char>) -> bool {
    ||| name == ".tl"@
    ||| name == ".git"@
    ||| name == ".jj"@
    ||| name == ".vscode"@
    ||| name == ".idea"@
    ||| name == "node_modules"@
    ||| name == "target"@
    ||| name == "__pycache__"@
}

/// Whether a file with this name is not recorded: temporary files of editors and
/// files that systems leave behind.
pub open spec fn is_ignored_file(name: Seq<char>) -> bool {
    ||| crate::text::ends_with(name, ".swp"@)
    ||| crate::text::ends_with(name, "~"@)
    ||| name.len() >= 2 && name[0] == '#' && name.last() == '#'
    ||| name == ".DS_Store"@
    ||| name == "Thumbs.db"@
}

/// Whether a file is not recorded, by its relative path: one of the directories it
/// is in is ignored, or its own name is.
pub open spec fn is_ignored(path: Seq<char>) -> bool {
    let parts = crate::text::split(path, '/');
    ||| exists|i: int| 0 <= i < parts.len() - 1 && is_ignored_directory(#[trigger] parts[i])
    ||| is_ignored_file(parts.last())
}

fn ignores_directory(name: &[char]) -> (r: bool)
    ensures
        r == is_ignored_directory(name@),
{
    is_text(name, ".tl") || is_text(name, ".git") || is_text(name, ".jj") || is_text(name, ".vscode") || is_text(
        name,
        ".idea",
    ) || is_text(name, "node_modules") || is_text(name, "target") || is_text(name, "__pycache__")
}

fn ignores_file(name: &[char]) -> (r: bool)
    ensures
        r == is_ignored_file(name@),
{
    let swap = chars_of(".swp");
    let tilde = chars_of("~");
    has_suffix(name, swap.as_slice()) || has_suffix(name, tilde.as_slice()) || (name.len() >= 2 && name[0] == '#'
        && name[name.len() - 1] == '#') || is_text(name, ".DS_Store") || is_text(name, "Thumbs.db")
}

/// Whether a file is not recorded, by its relative path. The path of a directory is
/// given with a slash at its end.
pub fn is_left_out(path: &str) -> (r: bool)
    ensures
        r == is_ignored(path@),
{
    let chars = chars_of(path);
    let parts = split_chars(chars.as_slice(), '/');
    let ghost all = crate::text::split(path@, '/');
    proof {
        crate::text::split_parts_hold_no_separator(path@, '/');
    }
    let last: usize = parts.len() - 1;
    let mut i: usize = 0;
    while i < last
        invariant
            i <= last,
            last == parts.len() - 1,
            all == crate::text::deep(parts@),
            all == crate::text::split(path@, '/'),
            forall|j: int| 0 <= j < i ==> !is_ignored_directory(#[trigger] all[j]),
        decreases last - i,
    {
        assert(all[i as int] == parts@[i as int]@);
        if ignores_directory(parts[i].as_slice()) {
            return true;
        }
        i = i + 1;
    }
    assert(all.last() == parts@[last as int]@);
    ignores_file(parts[last].as_slice())
}

/// What is always ignored is left out of every recording.
pub proof fn ignored_paths_are_left_out(path: Seq<char>)
    requires
        crate::text::begins_with(path, ".tl/"@) || crate::text::begins_with(path, ".git/"@),
    ensures
        is_ignored(path),
{
    reveal_strlit(".tl/");
    reveal_strlit(".git/");
    reveal_strlit(".tl");
    reveal_strlit(".git");
    let n: int = if crate::text::begins_with(path, ".tl/"@) { 3 } else { 4 };
    let head = if n == 3 { ".tl/"@ } else { ".git/"@ };
    assert forall|j: int| 0 <= j <= n implies path[j] == #[trigger] head[j] by {
        assert(path.take(n + 1)[j] == head[j]);
    }
    assert forall|j: int| 0 <= j < n implies #[trigger] path[j] != '/' by {
        assert(path[j] == head[j]);
    }
    assert(path[n] == head[n]);
    crate::text::lemma_first_index(path, '/', n);
    assert(path.take(n) =~= head.take(n));
    assert(path.take(n) =~= if n == 3 { ".tl"@ } else { ".git"@ });
    let parts = crate::text::split(path, '/');
    crate::text::split_parts_hold_no_separator(path.skip(n + 1), '/');
    assert(parts =~= seq![path.take(n)] + crate::text::split(path.skip(n + 1), '/'));
    assert(is_ignored_directory(parts[0]));
}

/// Why `config.toml` cannot be changed.
#[derive(Debug, Clone, Copy, PartialEq, Eq, Structural)]
pub enum ConfigEditError {
    /// The text is no TOML.
    Parse,
    /// The section to change is missing.
    MissingSection,
    /// The changed document cannot be written as text.
    Serialize,
}

/// A change of `config.toml`.
pub enum ConfigEdit<'a> {
    /// The state of version control, recorded in the section `vcs`.
    Vcs { git_initialized: bool, jj_initialized: bool, git_remote: &'a str },
    /// The user's identity, recorded in the section `user`.
    User { name: &'a str, email: &'a str },
}

/// What a change of `config.toml` records.
pub enum EditView {
    Vcs { git_initialized: bool, jj_initialized: bool, git_remote: Seq<char> },
    User { name: Seq<char>, email: Seq<char> },
}

impl<'a> View for ConfigEdit<'a> {
    type V = EditView;

    open spec fn view(&self) -> EditView {
        match *self {
            ConfigEdit::Vcs { git_initialized, jj_initialized, git_remote } => EditView::Vcs {
                git_initialized,
                jj_initialized,
                git_remote: git_remote@,
            },
            ConfigEdit::User { name, email } => EditView::User { name: name@, email: email@ },
        }
    }
}

impl EditView {
    /// The section that the change is about.
    pub open spec fn section(self) -> Seq<char> {
        match self {
            EditView::Vcs { .. } => "vcs"@,
            EditView::User { .. } => "user"@,
        }
    }

    /// The fields of the section after the change.
    pub open spec fn fields(self, before: Map<Seq<char>, NodeView>) -> Map<Seq<char>, NodeView> {
        match self {
            EditView::Vcs { git_initialized, jj_initialized, git_remote } => before.insert(
                "git_initialized"@,
                NodeView::Flag(git_initialized),
            ).insert("jj_initialized"@, NodeView::Flag(jj_initialized)).insert(
                "git_remote"@,
                NodeView::Text(git_remote),
            ),
            EditView::User { name, email } => before.insert("name"@, NodeView::Text(name)).insert(
                "email"@,
                NodeView::Text(email),
            ),
        }
    }

    /// The fields that the change is about.
    pub open spec fn concerns(self, field: Seq<char>) -> bool {
        match self {
            EditView::Vcs { .. } => field == "git_initialized"@ || field == "jj_initialized"@ || field
                == "git_remote"@,
            EditView::User { .. } => field == "name"@ || field == "email"@,
        }
    }
}

/// The document after a change of its section.
pub open spec fn edited(doc: NodeView, e: EditView) -> NodeView {
    crate::document::with_section(doc, e.section(), e.fields(crate::document::section_of(doc, e.section())))
}

/// The changed document, where the text is one that has the section, holds no text with
/// 256 equal quotes in a row.
pub open spec fn can_edit(content: Seq<char>, e: EditView) -> bool {
    match crate::document::toml_document(content) {
        Some(doc) => crate::document::has_section(doc, e.section()) ==> crate::document::is_writable(edited(doc, e)),
        None => true,
    }
}

/// `r` is the text of the changed document, or why there is none: the text is no TOML,
/// or it has no such section. A regular document is read back from its text.
pub open spec fn edit_outcome(content: Seq<char>, e: EditView, r: Result<String, ConfigEditError>) -> bool {
    match crate::document::toml_document(content) {
        None => r == Err::<String, ConfigEditError>(ConfigEditError::Parse),
        Some(doc) => if !crate::document::has_section(doc, e.section()) {
            r == Err::<String, ConfigEditError>(ConfigEditError::MissingSection)
        } else {
            &&& r is Ok
            &&& crate::document::toml_written(edited(doc, e)) == Some(r->Ok_0@)
            &&& crate::document::reads_back(edited(doc, e)) ==> crate::document::toml_document(r->Ok_0@) == Some(
                edited(doc, e),
            )
        },
    }
}

/// Reads the document in a text and changes it.
fn change(content: &str, e: &ConfigEdit) -> (r: Result<toml::Value, ConfigEditError>)
    ensures
        match crate::document::toml_document(content@) {
            None => r is Err && r->Err_0 == ConfigEditError::Parse,
            Some(doc) => if !crate::document::has_section(doc, e@.section()) {
                r is Err && r->Err_0 == ConfigEditError::MissingSection
            } else {
                &&& r is Ok
                &&& crate::document::node_in(r->Ok_0) == edited(doc, e@)
                &&& crate::document::has_real_dates(r->Ok_0)
            },
        },
{
    let mut doc = match toml_parse(content) {
        Some(doc) => doc,
        None => {
            return Err(ConfigEditError::Parse);
        },
    };
    let ghost before = crate::document::node_in(doc);
    match e {
        ConfigEdit::Vcs { git_initialized, jj_initialized, git_remote } => {
            if !toml_has_section(&doc, "vcs") {
                return Err(ConfigEditError::MissingSection);
            }
            toml_insert(&mut doc, "vcs", "git_initialized", FieldValue::Flag(*git_initialized));
            toml_insert(&mut doc, "vcs", "jj_initialized", FieldValue::Flag(*jj_initialized));
            toml_insert(&mut doc, "vcs", "git_remote", FieldValue::Text(git_remote));
        },
        ConfigEdit::User { name, email } => {
            if !toml_has_section(&doc, "user") {
                return Err(ConfigEditError::MissingSection);
            }
            toml_insert(&mut doc, "user", "name", FieldValue::Text(name));
            toml_insert(&mut doc, "user", "email", FieldValue::Text(email));
        },
    }
    assert(crate::document::node_in(doc)->Table_0 =~= edited(before, e@)->Table_0);
    Ok(doc)
}

/// Whether a change leads to a document that can be written.
pub fn is_editable(content: &str, e: &ConfigEdit) -> (r: bool)
    ensures
        r == can_edit(content@, e@),
{
    match change(content, e) {
        Ok(doc) => node_of(&doc).can_be_written(),
        Err(_) => true,
    }
}

/// The text of `config.toml` after a change.
fn edit_config(content: &str, e: &ConfigEdit) -> (r: Result<String, ConfigEditError>)
    requires
        can_edit(content@, e@),
    ensures
        edit_outcome(content@, e@, r),
{
    match change(content, e) {
        Ok(doc) => match toml_render(&doc) {
            Some(text) => Ok(text),
            None => Err(ConfigEditError::Serialize),
        },
        Err(e) => Err(e),
    }
}

/// The text of a remote; a missing one is the empty text.
pub open spec fn remote_text(git_remote: Option<String>) -> Seq<char> {
    match git_remote {
        Some(url) => url@,
        None => Seq::empty(),
    }
}

fn remote_or_empty(git_remote: &Option<String>) -> (url: &str)
    ensures
        url@ == remote_text(*git_remote),
{
    match git_remote {
        Some(url) => url.as_str(),
        None => {
            proof {
                reveal_strlit("");
            }
            assert(""@ =~= Seq::empty());
            ""
        },
    }
}

/// The text of `config.toml` with the state of version control recorded in the
/// section `vcs`; a missing remote is recorded as the empty text.
pub fn update_vcs_config(
    content: &str,
    git_initialized: bool,
    jj_initialized: bool,
    git_remote: Option<String>,
) -> (r: Result<String, ConfigEditError>)
    requires
        can_edit(
            content@,
            (EditView::Vcs { git_initialized, jj_initialized, git_remote: remote_text(git_remote) }),
        ),
    ensures
        edit_outcome(
            content@,
            (EditView::Vcs { git_initialized, jj_initialized, git_remote: remote_text(git_remote) }),
            r,
        ),
{
    edit_config(
        content,
        &ConfigEdit::Vcs { git_initialized, jj_initialized, git_remote: remote_or_empty(&git_remote) },
    )
}

/// The text of `config.toml` with the user's identity recorded in the section
/// `user`.
pub fn update_user_config(content: &str, name: &str, email: &str) -> (r: Result<String, ConfigEditError>)
    requires
        can_edit(content@, (EditView::User { name: name@, email: email@ })),
    ensures
        edit_outcome(content@, (EditView::User { name: name@, email: email@ }), r),
{
    edit_config(content, &ConfigEdit::User { name, email })
}

/// The text of `config.toml` after a change, or `None` where the changed document would
/// hold a text with 256 equal quotes in a row.
pub fn apply_edit(content: &str, e: &ConfigEdit) -> (r: Option<Result<String, ConfigEditError>>)
    ensures
        r is Some <==> can_edit(content@, e@),
        r is Some ==> edit_outcome(content@, e@, r->0),
{
    if !is_editable(content, e) {
        return None;
    }
    match e {
        ConfigEdit::Vcs { git_initialized, jj_initialized, git_remote } => {
            let remote: String = (*git_remote).to_owned();
            Some(update_vcs_config(content, *git_initialized, *jj_initialized, Some(remote)))
        },
        ConfigEdit::User { name, email } => Some(update_user_config(content, name, email)),
    }
}

/// A change leaves every other section and every value outside sections as it was, and
/// of its own section every other field.
pub proof fn edit_is_local(doc: NodeView, e: EditView, name: Seq<char>, field: Seq<char>)
    requires
        crate::document::has_section(doc, e.section()),
    ensures
        crate::document::has_section(edited(doc, e), e.section()),
        edited(doc, e)->Table_0.contains_key(name) == doc->Table_0.contains_key(name),
        name != e.section() && doc->Table_0.contains_key(name) ==> edited(doc, e)->Table_0[name] == doc->Table_0[name],
        !e.concerns(field) ==> ({
            let before = crate::document::section_of(doc, e.section());
            let after = crate::document::section_of(edited(doc, e), e.section());
            after.contains_key(field) == before.contains_key(field) && (before.contains_key(field) ==> after[field]
                == before[field])
        }),
{
}

/// The path of an object is the directory, the first two digits of its hash, a slash and
/// the other digits.
pub proof fn object_paths_spell_the_hash(dir: Seq<char>, hash: Seq<u8>)
    requires
        hash.len() == 20,
    ensures
        fan_out(dir, hash).len() == dir.len() + 41,
        fan_out(dir, hash)[dir.len() as int + 2] == '/',
        fan_out(dir, hash).remove(dir.len() as int + 2) == dir + crate::hash::hex_of(hash),
{
    let path = fan_out(dir, hash);
    let hex = crate::hash::hex_of(hash);
    assert(hex.len() == 40);
    assert(path.remove(dir.len() as int + 2) =~= dir + hex);
}

/// A tree that is loaded has the hash under which it was asked for.
pub proof fn loaded_trees_have_their_hash(hash: Seq<u8>, bytes: Seq<u8>)
    ensures
        loaded_tree(hash, bytes) is Some ==> crate::hash::sha1_of(
            crate::tree::tree_object(loaded_tree(hash, bytes)->0),
        ) == hash && crate::tree::stored_tree(bytes) is Ok,
        crate::tree::stored_tree(bytes) is Ok && crate::hash::sha1_of(
            crate::tree::tree_object(crate::tree::stored_tree(bytes)->Ok_0),
        ) == hash ==> loaded_tree(hash, bytes) == Some(crate::tree::stored_tree(bytes)->Ok_0),
{
}

/// A path goes up exactly where two dots stand between slashes or an end.
pub proof fn two_dots_go_up(path: Seq<char>)
    ensures
        goes_up(path) <==> exists|i: int|
            0 <= i <= path.len() - 2 && #[trigger] path.subrange(i, i + 2) == seq!['.', '.'] && (i == 0 || path[i - 1]
                == '/') && (i + 2 == path.len() || path[i + 2] == '/'),
{
    reveal_strlit("..");
    let w = seq!['.', '.'];
    assert(".."@ =~= w);
    assert(!w.contains('/'));
    crate::text::parts_stand_between_separators(path, w, '/');
}

/// What becomes of a path that is stored: a dot and a slash at its beginning go, and each
/// backslash turns into a slash. It is refused where it begins at the root or goes up,
/// before or after that.
pub proof fn stored_paths_are_rewritten(path: Seq<char>)
    ensures
        path.len() > 0 && path[0] == '/' ==> refused_as_absolute(path),
        goes_up(path) ==> refused_as_absolute(path) || refused_as_traversal(path),
        refused_as_absolute(path) ==> path[0] == '/' || (!goes_up(path) && rewritten(path)[0] == '/'),
        refused_as_traversal(path) ==> goes_up(path) || goes_up(rewritten(path)),
        !(path.len() >= 2 && path[0] == '.' && path[1] == '/') ==> rewritten(path) == Seq::new(
            path.len(),
            |i: int|
                if path[i] == '\\' {
                    '/'
                } else {
                    path[i]
                },
        ),
        rewritten(seq!['.', '/'] + path) == Seq::new(
            path.len(),
            |i: int|
                if path[i] == '\\' {
                    '/'
                } else {
                    path[i]
                },
        ),
{
    reveal_strlit("./");
    assert("./"@ =~= seq!['.', '/']);
    let dotted = seq!['.', '/'] + path;
    assert(dotted.take(2) =~= "./"@);
    assert(dotted.skip(2) =~= path);
    if crate::text::begins_with(path, "./"@) {
        assert(path.take(2)[0] == path[0] && path.take(2)[1] == path[1]);
    }
}

/// A path is inside a directory exactly when its names up to some slash, or all of them,
/// are those of the directory; `.gitignore` is not inside `.git`.
pub proof fn only_inner_paths_are_in_a_directory(path: Seq<char>, dir: Seq<char>)
    ensures
        in_directory(path, dir) <==> path == dir || exists|i: int|
            0 <= i < path.len() && #[trigger] path[i] == '/' && path.take(i) == dir,
{
    let inner = dir + seq!['/'];
    let n = dir.len() as int;
    if crate::text::begins_with(path, inner) {
        assert(path.take(n + 1)[n] == path[n]);
        assert(path.take(n) =~= path.take(n + 1).take(n));
        assert(inner.take(n) =~= dir);
        assert(path[n] == '/' && path.take(n) == dir);
    }
    if exists|i: int| 0 <= i < path.len() && #[trigger] path[i] == '/' && path.take(i) == dir {
        let i = choose|i: int| 0 <= i < path.len() && #[trigger] path[i] == '/' && path.take(i) == dir;
        assert(path.take(i).len() == n);
        assert(path.take(i + 1) =~= inner);
    }
}

/// A path is left out exactly where one of the directories on it, at whatever depth, is a
/// repository, the settings of an editor or made by a build, or where the file itself is a
/// scratch file.
pub proof fn scratch_paths_are_left_out(dirs: Seq<char>, name: Seq<char>)
    requires
        !name.contains('/'),
        dirs.len() == 0 || dirs.last() == '/',
    ensures
        is_ignored(dirs + name) <==> {
            ||| exists|k: int|
                0 <= k < crate::text::split(dirs, '/').len() && seq![
                    ".tl"@,
                    ".git"@,
                    ".jj"@,
                    ".vscode"@,
                    ".idea"@,
                    "node_modules"@,
                    "target"@,
                    "__pycache__"@,
                ].contains(#[trigger] crate::text::split(dirs, '/')[k])
            ||| name.len() >= 4 && name.skip(name.len() - 4) == seq!['.', 's', 'w', 'p']
            ||| name.len() >= 1 && name.last() == '~'
            ||| name.len() >= 2 && name[0] == '#' && name.last() == '#'
            ||| name == ".DS_Store"@
            ||| name == "Thumbs.db"@
        },
{
    reveal_strlit(".swp");
    reveal_strlit("~");
    assert(".swp"@ =~= seq!['.', 's', 'w', 'p']);
    let path = dirs + name;
    let parts = crate::text::split(path, '/');
    let list = seq![
        ".tl"@,
        ".git"@,
        ".jj"@,
        ".vscode"@,
        ".idea"@,
        "node_modules"@,
        "target"@,
        "__pycache__"@,
    ];
    crate::text::last_part_follows_the_last_separator(dirs, name, '/');
    lemma_parts_before(dirs, name);
    let above = crate::text::split(dirs, '/');
    assert forall|d: Seq<char>| list.contains(d) == #[trigger] is_ignored_directory(d) by {
        assert(list[0] == ".tl"@ && list[1] == ".git"@ && list[2] == ".jj"@ && list[3] == ".vscode"@ && list[4]
            == ".idea"@ && list[5] == "node_modules"@ && list[6] == "target"@ && list[7] == "__pycache__"@);
    }
    reveal_strlit(".tl");
    reveal_strlit(".git");
    reveal_strlit(".jj");
    reveal_strlit(".vscode");
    reveal_strlit(".idea");
    reveal_strlit("node_modules");
    reveal_strlit("target");
    reveal_strlit("__pycache__");
    assert(".tl"@.len() == 3 && ".git"@.len() == 4 && ".jj"@.len() == 3 && ".vscode"@.len() == 7 && ".idea"@.len() == 5);
    assert("node_modules"@.len() == 12 && "target"@.len() == 6 && "__pycache__"@.len() == 11);
    assert(!is_ignored_directory(Seq::empty()));
    assert(name.len() >= 1 ==> (crate::text::ends_with(name, "~"@) <==> name.last() == '~')) by {
        if name.len() >= 1 {
            assert(name.skip(name.len() - 1) =~= seq![name.last()]);
            assert("~"@ =~= seq!['~']);
            assert(seq![name.last()][0] == name.last());
            assert("~"@[0] == '~');
        }
    }
    if exists|i: int| 0 <= i < parts.len() - 1 && is_ignored_directory(#[trigger] parts[i]) {
        let i = choose|i: int| 0 <= i < parts.len() - 1 && is_ignored_directory(#[trigger] parts[i]);
        assert(above[i] == parts[i]);
        assert(list.contains(above[i]));
    }
    if exists|k: int| 0 <= k < above.len() && list.contains(#[trigger] above[k]) {
        let k = choose|k: int| 0 <= k < above.len() && list.contains(#[trigger] above[k]);
        assert(is_ignored_directory(above[k]));
        if k == above.len() - 1 {
            assert(above[k] =~= Seq::empty());
        } else {
            assert(parts[k] == above[k]);
        }
    }
}

/// The parts of the directories on a path, but for an empty one at their end, are the parts
/// of the path before the last.
proof fn lemma_parts_before(dirs: Seq<char>, name: Seq<char>)
    requires
        !name.contains('/'),
        dirs.len() == 0 || dirs.last() == '/',
    ensures
        crate::text::split(dirs + name, '/') == crate::text::split(dirs, '/').drop_last().push(name),
        crate::text::split(dirs, '/').len() > 0,
        crate::text::split(dirs, '/').last() == Seq::<char>::empty(),
    decreases dirs.len(),
{
    if dirs.len() == 0 {
        crate::text::split_at_each_separator(name, '/', dirs);
        crate::text::split_at_each_separator(dirs, '/', dirs);
        assert(dirs + name =~= name);
        assert(dirs =~= Seq::empty());
        assert(crate::text::split(dirs, '/').drop_last().push(name) =~= seq![name]);
    } else {
        crate::text::lemma_first_index_range(dirs, '/');
        let n = crate::text::first_index(dirs, '/');
        if n >= dirs.len() {
            assert(dirs[dirs.len() - 1] != '/');
        }
        let head = dirs.take(n);
        let rest = dirs.skip(n + 1);
        assert(!head.contains('/')) by {
            assert forall|j: int| 0 <= j < head.len() implies #[trigger] head[j] != '/' by {
                assert(head[j] == dirs[j]);
            }
        }
        if rest.len() > 0 {
            assert(rest.last() == dirs.last());
        }
        lemma_parts_before(rest, name);
        assert(dirs =~= head + seq!['/'] + rest);
        assert(dirs + name =~= head + seq!['/'] + (rest + name));
        crate::text::split_at_each_separator(head, '/', rest);
        crate::text::split_at_each_separator(head, '/', rest + name);
        assert((seq![head] + crate::text::split(rest, '/')).drop_last().push(name) =~= seq![head]
            + crate::text::split(rest, '/').drop_last().push(name));
    }
}

/// A change gives the fields that it names the given values, each in its own section.
pub proof fn edit_sets_its_fields(doc: NodeView, git: bool, jj: bool, remote: Seq<char>, name: Seq<char>, email: Seq<char>)
    ensures
        crate::document::has_section(doc, "vcs"@) ==> ({
            let after = edited(doc, EditView::Vcs { git_initialized: git, jj_initialized: jj, git_remote: remote });
            let fields = after->Table_0["vcs"@]->Table_0;
            &&& fields.contains_key("git_initialized"@) && fields["git_initialized"@] == NodeView::Flag(git)
            &&& fields.contains_key("jj_initialized"@) && fields["jj_initialized"@] == NodeView::Flag(jj)
            &&& fields.contains_key("git_remote"@) && fields["git_remote"@] == NodeView::Text(remote)
        }),
        crate::document::has_section(doc, "user"@) ==> ({
            let after = edited(doc, EditView::User { name, email });
            let fields = after->Table_0["user"@]->Table_0;
            &&& fields.contains_key("name"@) && fields["name"@] == NodeView::Text(name)
            &&& fields.contains_key("email"@) && fields["email"@] == NodeView::Text(email)
        }),
{
    reveal_strlit("git_initialized");
    reveal_strlit("jj_initialized");
    reveal_strlit("git_remote");
    reveal_strlit("name");
    reveal_strlit("email");
    assert("git_initialized"@.len() == 15 && "jj_initialized"@.len() == 14 && "git_remote"@.len() == 10);
    assert("name"@.len() == 4 && "email"@.len() == 5);
}

/// The path is inside the store or the Git repository.
pub open spec fn is_internal(path: Seq<char>) -> bool {
    in_directory(path, ".tl"@) || in_directory(path, ".git"@)
}

/// A path is internal exactly when its first name is `.tl` or `.git`.
pub proof fn internal_paths_begin_with_the_store(path: Seq<char>)
    ensures
        is_internal(path) <==> path == seq!['.', 't', 'l'] || path == seq!['.', 'g', 'i', 't'] || exists|i: int|
            0 <= i < path.len() && #[trigger] path[i] == '/' && (path.take(i) == seq!['.', 't', 'l'] || path.take(i)
                == seq!['.', 'g', 'i', 't']),
{
    reveal_strlit(".tl");
    reveal_strlit(".git");
    assert(".tl"@ =~= seq!['.', 't', 'l']);
    assert(".git"@ =~= seq!['.', 'g', 'i', 't']);
    only_inner_paths_are_in_a_directory(path, ".tl"@);
    only_inner_paths_are_in_a_directory(path, ".git"@);
}

} // verus!
