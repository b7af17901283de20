//! Snapshots of a repository as Git trees: a map from paths to entries, its
//! serialised form, its hash, and the differences between two snapshots.

use ahash::AHashMap;
use smallvec::SmallVec;
use vstd::prelude::*;
use vstd::string::StringSliceAdditionalSpecFns;

use crate::codec::{zlib_decode, zlib_encode};
use crate::hash::git::object_bytes;
use crate::hash::{hash_bytes, Sha1Hash};
use crate::order::sort_positions;
use crate::text::{append_bytes, bytes_between, find_byte, parse_number, push_digits};

verus! {

/// Kind of a tree entry.
#[derive(Debug, Clone, Copy, PartialEq, Eq, Structural)]
pub enum EntryKind {
    /// Regular file.
    File,
    /// Executable file.
    ExecutableFile,
    /// Symbolic link.
    Symlink,
    /// Subdirectory.
    Tree,
}

/// Git mode of a regular file, octal 100644.
pub const MODE_FILE: u32 = 0o100644;

/// Git mode of an executable file, octal 100755.
pub const MODE_EXECUTABLE: u32 = 0o100755;

/// Git mode of a symbolic link, octal 120000.
pub const MODE_SYMLINK: u32 = 0o120000;

/// Git mode of a directory, octal 40000.
pub const MODE_TREE: u32 = 0o040000;

/// The Git mode of an entry of the given kind; a regular file may have a mode of
/// its own.
pub open spec fn mode_of(kind: EntryKind, custom_mode: Option<u32>) -> u32 {
    match kind {
        EntryKind::File => match custom_mode {
            Some(m) => m,
            None => MODE_FILE,
        },
        EntryKind::ExecutableFile => MODE_EXECUTABLE,
        EntryKind::Symlink => MODE_SYMLINK,
        EntryKind::Tree => MODE_TREE,
    }
}

/// The kind that a Git mode stands for; modes that stand for no other kind stand
/// for a regular file.
pub open spec fn kind_of(mode: u32) -> EntryKind {
    if mode == MODE_TREE {
        EntryKind::Tree
    } else if mode == MODE_EXECUTABLE {
        EntryKind::ExecutableFile
    } else if mode == MODE_SYMLINK {
        EntryKind::Symlink
    } else {
        EntryKind::File
    }
}

impl EntryKind {
    /// The Git mode of this kind.
    pub fn git_mode(&self, custom_mode: Option<u32>) -> (mode: u32)
        ensures
            mode == mode_of(*self, custom_mode),
    {
        match *self {
            EntryKind::File => match custom_mode {
                Some(m) => m,
                None => MODE_FILE,
            },
            EntryKind::ExecutableFile => MODE_EXECUTABLE,
            EntryKind::Symlink => MODE_SYMLINK,
            EntryKind::Tree => MODE_TREE,
        }
    }

    /// The kind with the given Git mode.
    pub fn from_git_mode(mode: u32) -> (kind: Self)
        ensures
            kind == kind_of(mode),
    {
        if mode == MODE_TREE {
            EntryKind::Tree
        } else if mode == MODE_EXECUTABLE {
            EntryKind::ExecutableFile
        } else if mode == MODE_SYMLINK {
            EntryKind::Symlink
        } else {
            EntryKind::File
        }
    }
}

/// A kind's own mode stands for the kind.
pub proof fn kind_round_trip(kind: EntryKind)
    ensures
        kind_of(mode_of(kind, None)) == kind,
{
}

/// An entry of a tree.
#[derive(Debug, Clone, Copy, Eq)]
pub struct Entry {
    /// Kind of the entry.
    pub kind: EntryKind,
    /// Git mode.
    pub mode: u32,
    /// Hash of the blob or the tree that holds the contents.
    pub blob_hash: Sha1Hash,
}

impl PartialEq for Entry {
    fn eq(&self, other: &Self) -> (r: bool) {
        self.kind == other.kind && self.mode == other.mode && self.blob_hash == other.blob_hash
    }
}

impl vstd::std_specs::cmp::PartialEqSpecImpl for Entry {
    open spec fn obeys_eq_spec() -> bool {
        true
    }

    open spec fn eq_spec(&self, other: &Self) -> bool {
        self.kind == other.kind && self.mode == other.mode && self.blob_hash@ == other.blob_hash@
    }
}

/// Two entries compare equal exactly when they are the same.
pub proof fn entries_equal(a: Entry, b: Entry)
    ensures
        (a.kind == b.kind && a.mode == b.mode && a.blob_hash@ == b.blob_hash@) <==> a == b,
{
    crate::hash::hash_is_its_bytes(a.blob_hash);
    crate::hash::hash_is_its_bytes(b.blob_hash);
}

impl Entry {
    /// The Git mode under which the entry is stored.
    pub open spec fn stored_mode(self) -> u32 {
        mode_of(self.kind, Some(self.mode))
    }

    /// The kind is the one that the stored mode stands for, and the mode is the
    /// stored one. The constructors make such entries.
    pub open spec fn canonical(self) -> bool {
        self.mode == self.stored_mode() && self.kind == kind_of(self.mode)
    }

    /// A file with the given permission bits: executable when any of the three
    /// execute bits is set.
    pub fn file(mode: u32, blob_hash: Sha1Hash) -> (e: Self)
        ensures
            e.blob_hash == blob_hash,
            e.mode == (if mode & 0o111 != 0 { MODE_EXECUTABLE } else { MODE_FILE }),
            e.kind == (if mode & 0o111 != 0 { EntryKind::ExecutableFile } else { EntryKind::File }),
            e.canonical(),
    {
        if mode & 0o111 != 0 {
            Entry { kind: EntryKind::ExecutableFile, mode: MODE_EXECUTABLE, blob_hash }
        } else {
            Entry { kind: EntryKind::File, mode: MODE_FILE, blob_hash }
        }
    }

    /// An executable file.
    pub fn executable(blob_hash: Sha1Hash) -> (e: Self)
        ensures
            e == (Entry { kind: EntryKind::ExecutableFile, mode: MODE_EXECUTABLE, blob_hash }),
            e.canonical(),
    {
        Entry { kind: EntryKind::ExecutableFile, mode: MODE_EXECUTABLE, blob_hash }
    }

    /// A symbolic link.
    pub fn symlink(blob_hash: Sha1Hash) -> (e: Self)
        ensures
            e == (Entry { kind: EntryKind::Symlink, mode: MODE_SYMLINK, blob_hash }),
            e.canonical(),
    {
        Entry { kind: EntryKind::Symlink, mode: MODE_SYMLINK, blob_hash }
    }

    /// A subdirectory.
    pub fn tree(tree_hash: Sha1Hash) -> (e: Self)
        ensures
            e == (Entry { kind: EntryKind::Tree, mode: MODE_TREE, blob_hash: tree_hash }),
            e.canonical(),
    {
        Entry { kind: EntryKind::Tree, mode: MODE_TREE, blob_hash: tree_hash }
    }

    /// The Git mode under which the entry is stored.
    pub fn git_mode(&self) -> (mode: u32)
        ensures
            mode == self.stored_mode(),
    {
        self.kind.git_mode(Some(self.mode))
    }
}

/// A hash map from paths, as byte strings, to entries.
#[verifier::external_body]
#[derive(Debug)]
pub struct EntryMap {
    map: AHashMap<SmallVec<[u8; 64]>, Entry>,
}

/// What a hash map holds.
pub uninterp spec fn entries_in(m: EntryMap) -> Map<Seq<u8>, Entry>;

/// `items` lists each key of `m` once, with its entry.
pub open spec fn lists(m: Map<Seq<u8>, Entry>, items: Seq<(Vec<u8>, Entry)>) -> bool {
    &&& forall|i: int|
        0 <= i < items.len() ==> m.contains_key((#[trigger] items[i]).0@) && m[items[i].0@] == items[i].1
    &&& forall|k: Seq<u8>| #[trigger]
        m.contains_key(k) ==> exists|i: int| 0 <= i < items.len() && (#[trigger] items[i]).0@ == k
    &&& forall|i: int, j: int|
        0 <= i < j < items.len() ==> (#[trigger] items[i]).0@ != (#[trigger] items[j]).0@
}

/// `AHashMap::new` makes an empty map.
#[verifier::external_body]
fn map_new() -> (m: EntryMap)
    ensures
        entries_in(m).dom() == Set::<Seq<u8>>::empty(),
{
    EntryMap { map: AHashMap::new() }
}

/// `AHashMap::insert` puts the entry under the key, in place of the one before.
#[verifier::external_body]
fn map_insert(m: &mut EntryMap, key: &[u8], entry: Entry)
    ensures
        entries_in(*final(m)) == entries_in(*old(m)).insert(key@, entry),
{
    m.map.insert(SmallVec::from_slice(key), entry);
}

/// `AHashMap::get` finds the entry under the key.
#[verifier::external_body]
fn map_get<'a>(m: &'a EntryMap, key: &[u8]) -> (r: Option<&'a Entry>)
    ensures
        match r {
            Some(e) => entries_in(*m).contains_key(key@) && *e == entries_in(*m)[key@],
            None => !entries_in(*m).contains_key(key@),
        },
{
    m.map.get(key)
}

/// `AHashMap::remove` takes the entry under the key out of the map.
#[verifier::external_body]
fn map_remove(m: &mut EntryMap, key: &[u8]) -> (r: Option<Entry>)
    ensures
        entries_in(*final(m)) == entries_in(*old(m)).remove(key@),
        match r {
            Some(e) => entries_in(*old(m)).contains_key(key@) && e == entries_in(*old(m))[key@],
            None => !entries_in(*old(m)).contains_key(key@),
        },
{
    m.map.remove(key)
}

/// `keys` lists each member of the set once.
pub open spec fn enumerates(keys: Seq<Seq<u8>>, set: Set<Seq<u8>>) -> bool {
    &&& forall|k: Seq<u8>| #[trigger] set.contains(k) <==> keys.contains(k)
    &&& forall|i: int, j: int| 0 <= i < j < keys.len() ==> #[trigger] keys[i] != #[trigger] keys[j]
}

/// The set has `n` members.
pub open spec fn has_size(set: Set<Seq<u8>>, n: nat) -> bool {
    exists|keys: Seq<Seq<u8>>| #[trigger] enumerates(keys, set) && keys.len() == n
}

/// `AHashMap::len` counts the keys.
#[verifier::external_body]
fn map_len(m: &EntryMap) -> (n: usize)
    ensures
        has_size(entries_in(*m).dom(), n as nat),
{
    m.map.len()
}

/// `AHashMap::clone` makes a map that holds the same.
#[verifier::external_body]
fn map_clone(m: &EntryMap) -> (r: EntryMap)
    ensures
        entries_in(r) == entries_in(*m),
{
    EntryMap { map: m.map.clone() }
}

/// `AHashMap::iter` walks over each key once, in no particular order.
#[verifier::external_body]
fn map_items(m: &EntryMap) -> (items: Vec<(Vec<u8>, Entry)>)
    ensures
        lists(entries_in(*m), items@),
{
    m.map.iter().map(|(k, e)| (k.to_vec(), *e)).collect()
}

/// The state of a repository at one moment.
#[derive(Debug)]
pub struct Tree {
    entries: EntryMap,
}

impl View for Tree {
    type V = Map<Seq<u8>, Entry>;

    /// The entries by path.
    closed spec fn view(&self) -> Map<Seq<u8>, Entry> {
        entries_in(self.entries)
    }
}

/// `names` lists the set in strictly ascending order.
pub open spec fn is_sorted_listing(names: Seq<Seq<u8>>, set: Set<Seq<u8>>) -> bool {
    &&& forall|a: int, b: int|
        0 <= a < b < names.len() ==> crate::order::bytes_lt(#[trigger] names[a], #[trigger] names[b])
    &&& forall|k: Seq<u8>| #[trigger] set.contains(k) <==> names.contains(k)
}

/// The members of a finite set in ascending order.
pub open spec fn sorted_names(set: Set<Seq<u8>>) -> Seq<Seq<u8>> {
    choose|names: Seq<Seq<u8>>| is_sorted_listing(names, set)
}

/// A set has only one listing in ascending order.
pub proof fn sorted_listing_is_unique(x: Seq<Seq<u8>>, y: Seq<Seq<u8>>, set: Set<Seq<u8>>)
    requires
        is_sorted_listing(x, set),
        is_sorted_listing(y, set),
    ensures
        x == y,
    decreases x.len(),
{
    if x.len() == 0 {
        if y.len() > 0 {
            assert(y.contains(y[0]));
            assert(set.contains(y[0]));
            assert(x.contains(y[0]));
        }
        assert(x =~= y);
    } else {
        assert(x.contains(x.last()));
        assert(set.contains(x.last()));
        assert(y.contains(x.last()));
        assert(y.contains(y.last()));
        assert(set.contains(y.last()));
        assert(x.contains(y.last()));
        let p = choose|p: int| 0 <= p < y.len() && y[p] == x.last();
        let q = choose|q: int| 0 <= q < x.len() && x[q] == y.last();
        if p < y.len() - 1 {
            assert(crate::order::bytes_lt(y[p], y[y.len() - 1]));
            if q < x.len() - 1 {
                assert(crate::order::bytes_lt(x[q], x[x.len() - 1]));
                crate::order::bytes_lt_transitive(x.last(), y.last(), x.last());
            }
            crate::order::bytes_lt_irreflexive(x.last());
        }
        assert(x.last() == y.last());
        let smaller = set.remove(x.last());
        assert forall|k: Seq<u8>| #[trigger] smaller.contains(k) <==> x.drop_last().contains(k) by {
            lemma_drop_last_contains(x, set, k);
        }
        assert forall|k: Seq<u8>| #[trigger] smaller.contains(k) <==> y.drop_last().contains(k) by {
            lemma_drop_last_contains(y, set, k);
        }
        sorted_listing_is_unique(x.drop_last(), y.drop_last(), smaller);
        assert(x =~= x.drop_last().push(x.last()));
        assert(y =~= y.drop_last().push(y.last()));
    }
}

proof fn lemma_drop_last_contains(x: Seq<Seq<u8>>, set: Set<Seq<u8>>, k: Seq<u8>)
    requires
        x.len() > 0,
        is_sorted_listing(x, set),
    ensures
        set.remove(x.last()).contains(k) <==> x.drop_last().contains(k),
{
    if set.remove(x.last()).contains(k) {
        assert(x.contains(k));
        let a = choose|a: int| 0 <= a < x.len() && x[a] == k;
        assert(x.drop_last()[a] == k);
    }
    if x.drop_last().contains(k) {
        let a = choose|a: int| 0 <= a < x.drop_last().len() && x.drop_last()[a] == k;
        assert(x[a] == k);
        assert(x.contains(k));
        assert(set.contains(k));
        assert(crate::order::bytes_lt(x[a], x[x.len() - 1]));
        crate::order::bytes_lt_irreflexive(k);
    }
}

/// A finite set has a listing in ascending order.
pub proof fn sorted_names_exist(set: Set<Seq<u8>>)
    requires
        set.finite(),
    ensures
        is_sorted_listing(sorted_names(set), set),
{
    let keys = lemma_enumerate(set);
    crate::order::stable_order_exists(keys);
    let order = crate::order::stable_order(keys);
    lemma_order_sorts(keys, order, set);
}

/// A listing has as many members as the set.
proof fn lemma_count(keys: Seq<Seq<u8>>, set: Set<Seq<u8>>)
    requires
        enumerates(keys, set),
    ensures
        set.finite(),
        set.len() == keys.len(),
{
    keys.unique_seq_to_set();
    assert(keys.to_set() =~= set);
    assert(keys.to_set().finite());
}

/// Some listing of a finite set, without repetition.
proof fn lemma_enumerate(set: Set<Seq<u8>>) -> (keys: Seq<Seq<u8>>)
    requires
        set.finite(),
    ensures
        enumerates(keys, set),
    decreases set.len(),
{
    if set.len() == 0 {
        assert(set =~= Set::empty());
        Seq::empty()
    } else {
        let k = set.choose();
        let keys = lemma_enumerate(set.remove(k));
        let more = keys.push(k);
        assert forall|x: Seq<u8>| #[trigger] set.contains(x) <==> more.contains(x) by {
            if set.contains(x) && x != k {
                assert(set.remove(k).contains(x));
                let a = choose|a: int| 0 <= a < keys.len() && keys[a] == x;
                assert(more[a] == x);
            }
            if x == k {
                assert(more[keys.len() as int] == x);
            }
            if more.contains(x) && x != k {
                let a = choose|a: int| 0 <= a < more.len() && more[a] == x;
                assert(keys[a] == x);
                assert(keys.contains(x));
                assert(set.remove(k).contains(x));
            }
        }
        assert forall|i: int, j: int| 0 <= i < j < more.len() implies #[trigger] more[i] != #[trigger] more[j] by {
            if j == keys.len() {
                assert(keys.contains(keys[i]));
                assert(set.remove(k).contains(keys[i]));
            }
        }
        more
    }
}

/// Distinct keys taken in their stable order are a sorted listing.
proof fn lemma_order_sorts(keys: Seq<Seq<u8>>, order: Seq<int>, set: Set<Seq<u8>>)
    requires
        crate::order::is_stable_order(keys, order),
        enumerates(keys, set),
    ensures
        is_sorted_listing(order.map_values(|p: int| keys[p]), set),
        order.map_values(|p: int| keys[p]) == sorted_names(set),
{
    let names = order.map_values(|p: int| keys[p]);
    assert forall|a: int, b: int| 0 <= a < b < names.len() implies crate::order::bytes_lt(
        #[trigger] names[a],
        #[trigger] names[b],
    ) by {
        assert(crate::order::position_before(keys, order[a], order[b]));
        assert(0 <= order[a] < keys.len() && 0 <= order[b] < keys.len());
    }
    assert forall|k: Seq<u8>| #[trigger] set.contains(k) <==> names.contains(k) by {
        if set.contains(k) {
            assert(keys.contains(k));
            let i = choose|i: int| 0 <= i < keys.len() && keys[i] == k;
            assert(order.contains(i));
            let a = choose|a: int| 0 <= a < order.len() && order[a] == i;
            assert(names[a] == k);
        }
        if names.contains(k) {
            let a = choose|a: int| 0 <= a < names.len() && names[a] == k;
            assert(0 <= order[a] < keys.len());
            assert(keys[order[a]] == k);
            assert(keys.contains(k));
        }
    }
    assert(is_sorted_listing(names, set));
    sorted_listing_is_unique(names, sorted_names(set), set);
}

/// One entry in Git's tree format: the mode in octal digits, a space, the name, a
/// null byte and the 20 bytes of the hash.
pub open spec fn entry_bytes(name: Seq<u8>, entry: Entry) -> Seq<u8> {
    crate::text::digits(entry.stored_mode() as nat, 8) + seq![32u8] + name + seq![0u8] + entry.blob_hash@
}

/// The given entries of a tree, one after the other.
pub open spec fn entries_bytes(m: Map<Seq<u8>, Entry>, names: Seq<Seq<u8>>) -> Seq<u8>
    decreases names.len(),
{
    if names.len() == 0 {
        Seq::empty()
    } else {
        entry_bytes(names[0], m[names[0]]) + entries_bytes(m, names.drop_first())
    }
}

/// A tree in Git's format: its entries by name.
pub open spec fn tree_bytes(m: Map<Seq<u8>, Entry>) -> Seq<u8> {
    entries_bytes(m, sorted_names(m.dom()))
}

/// The Git object of a tree.
pub open spec fn tree_object(m: Map<Seq<u8>, Entry>) -> Seq<u8> {
    crate::hash::git::object("tree"@, tree_bytes(m))
}

/// The keys of a listing, as byte strings.
pub open spec fn item_keys(items: Seq<(Vec<u8>, Entry)>) -> Seq<Seq<u8>> {
    items.map_values(|it: (Vec<u8>, Entry)| it.0@)
}

/// The entries of a listing.
pub open spec fn item_entries(items: Seq<(Vec<u8>, Entry)>) -> Seq<Entry> {
    items.map_values(|it: (Vec<u8>, Entry)| it.1)
}

impl Tree {
    /// An empty tree.
    pub fn new() -> (t: Self)
        ensures
            t@ == Map::<Seq<u8>, Entry>::empty(),
    {
        let entries = map_new();
        assert(entries_in(entries) =~= Map::<Seq<u8>, Entry>::empty());
        Tree { entries }
    }

    /// Puts an entry at a path.
    pub fn insert(&mut self, path: &str, entry: Entry)
        ensures
            final(self)@ == old(self)@.insert(path.spec_bytes(), entry),
    {
        map_insert(&mut self.entries, path.as_bytes(), entry);
    }

    /// The entry at a path.
    pub fn get(&self, path: &str) -> (r: Option<&Entry>)
        ensures
            match r {
                Some(e) => self@.contains_key(path.spec_bytes()) && *e == self@[path.spec_bytes()],
                None => !self@.contains_key(path.spec_bytes()),
            },
    {
        map_get(&self.entries, path.as_bytes())
    }

    /// Whether the tree has an entry whose path has the given bytes, UTF-8 or not.
    pub fn holds_name(&self, name: &[u8]) -> (r: bool)
        ensures
            r == self@.contains_key(name@),
    {
        map_get(&self.entries, name).is_some()
    }

    /// Takes the entry at a path out of the tree.
    pub fn remove(&mut self, path: &str) -> (r: Option<Entry>)
        ensures
            final(self)@ == old(self)@.remove(path.spec_bytes()),
            match r {
                Some(e) => old(self)@.contains_key(path.spec_bytes()) && e == old(self)@[path.spec_bytes()],
                None => !old(self)@.contains_key(path.spec_bytes()),
            },
    {
        map_remove(&mut self.entries, path.as_bytes())
    }

    /// The number of entries.
    pub fn len(&self) -> (n: usize)
        ensures
            self@.dom().finite(),
            n == self@.dom().len(),
    {
        let n: usize = map_len(&self.entries);
        proof {
            let keys = choose|keys: Seq<Seq<u8>>| enumerates(keys, self@.dom()) && keys.len() == n;
            lemma_count(keys, self@.dom());
        }
        n
    }

    /// Whether the tree has no entry.
    pub fn is_empty(&self) -> (r: bool)
        ensures
            r == (self@ =~= Map::<Seq<u8>, Entry>::empty()),
    {
        let n: usize = self.len();
        proof {
            if n == 0 {
                assert(self@.dom() =~= Set::empty());
            } else if self@ =~= Map::<Seq<u8>, Entry>::empty() {
                assert(self@.dom() =~= Set::empty());
            }
        }
        n == 0
    }

    /// The entries with their paths, each once, in no particular order.
    pub fn entries_with_paths(&self) -> (items: Vec<(Vec<u8>, Entry)>)
        ensures
            lists(self@, items@),
    {
        map_items(&self.entries)
    }

    /// The entries, in no particular order.
    pub fn entries(&self) -> (entries: Vec<Entry>)
        ensures
            exists|items: Seq<(Vec<u8>, Entry)>| #[trigger] lists(self@, items) && entries@ == item_entries(items),
    {
        let items = map_items(&self.entries);
        let mut entries: Vec<Entry> = Vec::new();
        let mut i: usize = 0;
        while i < items.len()
            invariant
                i <= items.len(),
                entries@ == item_entries(items@).take(i as int),
            decreases items.len() - i,
        {
            entries.push(items[i].1);
            i = i + 1;
            assert(entries@ =~= item_entries(items@).take(i as int));
        }
        assert(entries@ =~= item_entries(items@));
        assert(lists(self@, items@));
        entries
    }

    /// The tree in Git's format, not compressed and without a header.
    pub fn serialize_git_tree(&self) -> (v: Vec<u8>)
        ensures
            v@ == tree_bytes(self@),
    {
        let items = map_items(&self.entries);
        let mut keys: Vec<Vec<u8>> = Vec::new();
        let mut i: usize = 0;
        while i < items.len()
            invariant
                i <= items.len(),
                crate::order::views(keys@) == item_keys(items@).take(i as int),
            decreases items.len() - i,
        {
            let ghost before = keys@;
            let name: &Vec<u8> = &items[i].0;
            let key = bytes_between(name.as_slice(), 0, name.len());
            assert(key@ =~= name@);
            keys.push(key);
            assert(crate::order::views(keys@) =~= crate::order::views(before).push(key@));
            i = i + 1;
            assert(crate::order::views(keys@) =~= item_keys(items@).take(i as int));
        }
        assert(crate::order::views(keys@) =~= item_keys(items@));
        let order = sort_positions(&keys);
        let ghost ks = item_keys(items@);
        let ghost ps = crate::order::positions(order@);
        let ghost names = sorted_names(self@.dom());
        proof {
            assert forall|k: Seq<u8>| #[trigger] self@.dom().contains(k) <==> ks.contains(k) by {
                if self@.contains_key(k) {
                    let j = choose|j: int| 0 <= j < items@.len() && (#[trigger] items@[j]).0@ == k;
                    assert(ks[j] == k);
                }
                if ks.contains(k) {
                    let j = choose|j: int| 0 <= j < ks.len() && ks[j] == k;
                    assert(self@.contains_key(items@[j].0@));
                }
            }
            assert forall|a: int, b: int| 0 <= a < b < ks.len() implies #[trigger] ks[a] != #[trigger] ks[b] by {
                assert(items@[a].0@ != items@[b].0@);
            }
            lemma_order_sorts(ks, ps, self@.dom());
        }
        let mut v: Vec<u8> = Vec::new();
        let mut k: usize = 0;
        assert(names.skip(0) =~= names);
        assert(Seq::<u8>::empty() + tree_bytes(self@) =~= tree_bytes(self@));
        while k < order.len()
            invariant
                k <= order.len(),
                lists(self@, items@),
                ks == item_keys(items@),
                ps == crate::order::positions(order@),
                crate::order::is_stable_order(ks, ps),
                names == ps.map_values(|p: int| ks[p]),
                v@ + entries_bytes(self@, names.skip(k as int)) == tree_bytes(self@),
            decreases order.len() - k,
        {
            let p: usize = order[k];
            assert(ps[k as int] == p);
            let ghost before = v@;
            let entry: Entry = items[p].1;
            push_digits(&mut v, entry.git_mode() as u64, 8);
            v.push(32u8);
            append_bytes(&mut v, items[p].0.as_slice());
            v.push(0u8);
            append_bytes(&mut v, entry.blob_hash.as_bytes().as_slice());
            proof {
                let rest = names.skip(k as int);
                assert(rest[0] == ks[p as int]);
                assert(self@[rest[0]] == entry);
                assert(rest.drop_first() =~= names.skip(k + 1));
                let tail = entries_bytes(self@, names.skip(k + 1));
                assert(v@ =~= before + entry_bytes(rest[0], entry));
                assert(before + (entry_bytes(rest[0], entry) + tail) =~= v@ + tail);
            }
            k = k + 1;
        }
        assert(names.skip(k as int) =~= Seq::empty());
        assert(v@ + Seq::<u8>::empty() =~= v@);
        v
    }

    /// The name that Git gives to the tree: the hash of its object.
    pub fn hash(&self) -> (h: Sha1Hash)
        ensures
            h@ == crate::hash::sha1_of(tree_object(self@)),
    {
        let data = self.serialize_git_tree();
        let bytes = object_bytes("tree", data.as_slice());
        hash_bytes(bytes.as_slice())
    }
}

impl Default for Tree {
    fn default() -> (t: Self)
        ensures
            t@ == Map::<Seq<u8>, Entry>::empty(),
    {
        Tree::new()
    }
}

impl Clone for Tree {
    fn clone(&self) -> (t: Self)
        ensures
            t@ == self@,
    {
        Tree { entries: map_clone(&self.entries) }
    }
}

/// Why bytes are no tree.
#[derive(Debug, Clone, Copy, PartialEq, Eq, Structural)]
pub enum TreeError {
    /// The bytes are no complete zlib stream.
    Decompression,
    /// The object does not begin with `tree `.
    MissingHeader,
    /// No null byte ends the object's header.
    MissingHeaderEnd,
    /// The size in the header is no number.
    InvalidSize,
    /// The size in the header is not the length of what follows it.
    SizeMismatch { expected: u64, actual: usize },
    /// No space ends an entry's mode.
    MissingSpace,
    /// An entry's mode is no octal number of 32 bits.
    InvalidMode,
    /// No null byte ends an entry's name.
    MissingNameEnd,
    /// An entry has fewer than 20 bytes of hash.
    IncompleteHash,
}

/// The entry at the start of `data`: its name, the entry, and its length in bytes.
pub open spec fn first_entry(data: Seq<u8>) -> Result<(Seq<u8>, Entry, int), TreeError> {
    let space = crate::text::first_index(data, 32u8);
    if space == data.len() {
        Err(TreeError::MissingSpace)
    } else {
        match crate::text::parse_unsigned(data.take(space), 8, u32::MAX as nat) {
            None => Err(TreeError::InvalidMode),
            Some(mode) => {
                let after = data.skip(space + 1);
                let null = crate::text::first_index(after, 0u8);
                if null == after.len() {
                    Err(TreeError::MissingNameEnd)
                } else if after.len() < null + 21 {
                    Err(TreeError::IncompleteHash)
                } else {
                    let entry = Entry {
                        kind: kind_of(mode as u32),
                        mode: mode as u32,
                        blob_hash: crate::hash::hash_with(after.subrange(null + 1, null + 21)),
                    };
                    Ok((after.take(null), entry, space + null + 22))
                }
            },
        }
    }
}

/// The entries of `data` put into `m` one after the other; of entries with the
/// same name the last one stays.
pub open spec fn parsed_entries(data: Seq<u8>, m: Map<Seq<u8>, Entry>) -> Result<Map<Seq<u8>, Entry>, TreeError>
    decreases data.len(),
{
    if data.len() == 0 {
        Ok(m)
    } else {
        match first_entry(data) {
            Err(e) => Err(e),
            Ok((name, entry, len)) => if 0 < len <= data.len() {
                parsed_entries(data.skip(len), m.insert(name, entry))
            } else {
                Ok(m)
            },
        }
    }
}

/// The tree in a Git object.
pub open spec fn parsed_object(d: Seq<u8>) -> Result<Map<Seq<u8>, Entry>, TreeError> {
    let null = crate::text::first_index(d, 0u8);
    if d.len() < 5 || d.take(5) != "tree ".spec_bytes() {
        Err(TreeError::MissingHeader)
    } else if null == d.len() {
        Err(TreeError::MissingHeaderEnd)
    } else {
        match crate::text::parse_unsigned(d.subrange(5, null), 10, usize::MAX as nat) {
            None => Err(TreeError::InvalidSize),
            Some(size) => if d.len() - null - 1 != size {
                Err(TreeError::SizeMismatch { expected: size as u64, actual: (d.len() - null - 1) as usize })
            } else {
                parsed_entries(d.skip(null + 1), Map::empty())
            },
        }
    }
}

/// The tree in a compressed Git object.
pub open spec fn stored_tree(bytes: Seq<u8>) -> Result<Map<Seq<u8>, Entry>, TreeError> {
    match crate::codec::zlib_decoded(bytes) {
        None => Err(TreeError::Decompression),
        Some(d) => parsed_object(d),
    }
}

/// The length of a first entry that was read.
proof fn lemma_first_entry_len(data: Seq<u8>)
    ensures
        match first_entry(data) {
            Ok((name, entry, len)) => 0 < len <= data.len(),
            Err(_) => true,
        },
{
    crate::text::lemma_first_index_range(data, 32u8);
    let space = crate::text::first_index(data, 32u8);
    if space < data.len() {
        crate::text::lemma_first_index_range(data.skip(space + 1), 0u8);
    }
}

/// The bytes of the word that begins a tree object.
proof fn lemma_tree_word()
    ensures
        "tree ".spec_bytes() == seq![116u8, 114u8, 101u8, 101u8, 32u8],
        vstd::utf8::encode_utf8("tree"@) == seq![116u8, 114u8, 101u8, 101u8],
{
    reveal_strlit("tree ");
    reveal_strlit("tree");
    vstd::utf8::is_ascii_chars_encode_utf8("tree "@);
    vstd::utf8::is_ascii_chars_encode_utf8("tree"@);
    assert("tree ".spec_bytes() =~= seq![116u8, 114u8, 101u8, 101u8, 32u8]);
    assert(vstd::utf8::encode_utf8("tree"@) =~= seq![116u8, 114u8, 101u8, 101u8]);
}

impl Tree {
    /// Reads the entries of a tree in Git's format.
    pub fn parse_git_tree(data: &[u8]) -> (r: Result<Self, TreeError>)
        ensures
            match r {
                Ok(t) => parsed_entries(data@, Map::empty()) == Ok::<Map<Seq<u8>, Entry>, TreeError>(t@),
                Err(e) => parsed_entries(data@, Map::empty()) == Err::<Map<Seq<u8>, Entry>, TreeError>(e),
            },
    {
        let mut entries = map_new();
        let mut offset: usize = 0;
        proof {
            assert(entries_in(entries) =~= Map::<Seq<u8>, Entry>::empty());
            assert(data@.skip(0) =~= data@);
        }
        while offset < data.len()
            invariant
                offset <= data.len(),
                parsed_entries(data@, Map::empty()) == parsed_entries(data@.skip(offset as int), entries_in(entries)),
            decreases data.len() - offset,
        {
            let ghost rest = data@.skip(offset as int);
            proof {
                lemma_first_entry_len(rest);
            }
            let space: usize = match find_byte(data, offset, 32u8) {
                Some(i) => i,
                None => {
                    return Err(TreeError::MissingSpace);
                },
            };
            let digits = bytes_between(data, offset, space);
            assert(digits@ =~= rest.take(space - offset));
            let mode: u32 = match parse_number(digits.as_slice(), 8, u32::MAX as u64) {
                Some(n) => n as u32,
                None => {
                    return Err(TreeError::InvalidMode);
                },
            };
            let ghost after = rest.skip(space - offset + 1);
            assert(after =~= data@.skip(space + 1));
            let null: usize = match find_byte(data, space + 1, 0u8) {
                Some(i) => i,
                None => {
                    return Err(TreeError::MissingNameEnd);
                },
            };
            if data.len() - null < 21 {
                return Err(TreeError::IncompleteHash);
            }
            let name = bytes_between(data, space + 1, null);
            assert(name@ =~= after.take(null - space - 1));
            let mut hash: [u8; 20] = [0u8;20];
            let mut i: usize = 0;
            while i < 20
                invariant
                    i <= 20,
                    null + 21 <= data.len(),
                    forall|j: int| 0 <= j < i ==> #[trigger] hash@[j] == data@[null + 1 + j],
                decreases 20 - i,
            {
                hash[i] = data[null + 1 + i];
                i = i + 1;
            }
            assert(hash@ =~= after.subrange(null - space, null - space + 20));
            let entry = Entry {
                kind: EntryKind::from_git_mode(mode),
                mode,
                blob_hash: Sha1Hash::from_bytes(hash),
            };
            map_insert(&mut entries, name.as_slice(), entry);
            assert(rest.skip(null - offset + 21) =~= data@.skip(null + 21));
            offset = null + 21;
        }
        assert(data@.skip(offset as int) =~= Seq::empty());
        Ok(Tree { entries })
    }

    /// Reads the tree out of a Git object that is not compressed.
    pub fn parse_object(d: &[u8]) -> (r: Result<Self, TreeError>)
        ensures
            match r {
                Ok(t) => parsed_object(d@) == Ok::<Map<Seq<u8>, Entry>, TreeError>(t@),
                Err(e) => parsed_object(d@) == Err::<Map<Seq<u8>, Entry>, TreeError>(e),
            },
    {
        proof {
            lemma_tree_word();
            assert(d@.skip(0) =~= d@);
            crate::text::lemma_first_index_range(d@, 0u8);
        }
        if d.len() < 5 || d[0] != 116 || d[1] != 114 || d[2] != 101 || d[3] != 101 || d[4] != 32 {
            proof {
                if d@.len() >= 5 && d@.take(5) == "tree ".spec_bytes() {
                    let word = seq![116u8, 114u8, 101u8, 101u8, 32u8];
                    assert forall|i: int| 0 <= i < 5 implies d@[i] == word[i] by {
                        assert(d@.take(5)[i] == d@[i]);
                    }
                }
            }
            return Err(TreeError::MissingHeader);
        }
        assert(d@.take(5) =~= "tree ".spec_bytes());
        let null: usize = match find_byte(d, 0, 0u8) {
            Some(i) => i,
            None => {
                return Err(TreeError::MissingHeaderEnd);
            },
        };
        assert(null >= 5) by {
            assert(d@[null as int] == 0u8);
        }
        let digits = bytes_between(d, 5, null);
        let size: u64 = match parse_number(digits.as_slice(), 10, usize::MAX as u64) {
            Some(n) => n,
            None => {
                return Err(TreeError::InvalidSize);
            },
        };
        let data = bytes_between(d, null + 1, d.len());
        if data.len() as u64 != size {
            return Err(TreeError::SizeMismatch { expected: size, actual: data.len() });
        }
        assert(data@ =~= d@.skip(null + 1));
        Tree::parse_git_tree(data.as_slice())
    }

    /// The tree as a compressed Git object. Where the names hold no null byte and
    /// the entries are canonical, it reads back as the same tree.
    pub fn serialize(&self) -> (v: Vec<u8>)
        ensures
            v@ == crate::codec::zlib_encoded(tree_object(self@)),
            storable(self@) ==> stored_tree(v@) == Ok::<Map<Seq<u8>, Entry>, TreeError>(self@),
    {
        let data = self.serialize_git_tree();
        let n: usize = data.len();
        let count: usize = self.len();
        let bytes = object_bytes("tree", data.as_slice());
        proof {
            if storable(self@) {
                tree_round_trip(self@);
            }
        }
        zlib_encode(bytes.as_slice())
    }

    /// Reads a tree out of a compressed Git object.
    pub fn deserialize(compressed: &[u8]) -> (r: Result<Self, TreeError>)
        ensures
            match r {
                Ok(t) => stored_tree(compressed@) == Ok::<Map<Seq<u8>, Entry>, TreeError>(t@),
                Err(e) => stored_tree(compressed@) == Err::<Map<Seq<u8>, Entry>, TreeError>(e),
            },
    {
        match zlib_decode(compressed) {
            None => Err(TreeError::Decompression),
            Some(d) => Tree::parse_object(d.as_slice()),
        }
    }
}

/// The names hold no null byte and the entries are canonical.
pub open spec fn storable(m: Map<Seq<u8>, Entry>) -> bool {
    forall|name: Seq<u8>| #[trigger]
        m.contains_key(name) ==> m[name].canonical() && forall|i: int|
            0 <= i < name.len() ==> #[trigger] name[i] != 0u8
}

/// An entry in Git's format reads back as the same name and entry.
pub proof fn entry_round_trip(name: Seq<u8>, entry: Entry, rest: Seq<u8>)
    requires
        entry.canonical(),
        forall|i: int| 0 <= i < name.len() ==> #[trigger] name[i] != 0u8,
    ensures
        first_entry(entry_bytes(name, entry) + rest) == Ok::<(Seq<u8>, Entry, int), TreeError>(
            (name, entry, entry_bytes(name, entry).len() as int),
        ),
{
    let mode = crate::text::digits(entry.mode as nat, 8);
    let data = entry_bytes(name, entry) + rest;
    crate::text::numeral_denotes_its_number(entry.mode as nat, 8);
    crate::hash::hash_is_its_bytes(entry.blob_hash);
    let space = mode.len() as int;
    assert(data.take(space) =~= mode);
    assert forall|j: int| 0 <= j < space implies #[trigger] data[j] != 32u8 by {
        assert(data[j] == mode[j]);
        assert(crate::text::is_digit(mode[j], 8));
    }
    assert(data[space] == 32u8);
    crate::text::lemma_first_index(data, 32u8, space);
    let after = data.skip(space + 1);
    assert forall|j: int| 0 <= j < name.len() implies #[trigger] after[j] != 0u8 by {
        assert(after[j] == name[j]);
    }
    assert(after[name.len() as int] == 0u8);
    crate::text::lemma_first_index(after, 0u8, name.len() as int);
    assert(after.take(name.len() as int) =~= name);
    assert(after.subrange(name.len() as int + 1, name.len() as int + 21) =~= entry.blob_hash@);
}

/// Reading the entries of a listing puts them into the map.
proof fn lemma_parse_listing(m: Map<Seq<u8>, Entry>, names: Seq<Seq<u8>>, acc: Map<Seq<u8>, Entry>)
    requires
        storable(m),
        forall|i: int| 0 <= i < names.len() ==> m.contains_key(#[trigger] names[i]),
    ensures
        parsed_entries(entries_bytes(m, names), acc) == Ok::<Map<Seq<u8>, Entry>, TreeError>(
            acc.union_prefer_right(m.restrict(names.to_set())),
        ),
    decreases names.len(),
{
    if names.len() == 0 {
        assert(acc.union_prefer_right(m.restrict(names.to_set())) =~= acc);
    } else {
        let name = names[0];
        let rest = entries_bytes(m, names.drop_first());
        let head = entry_bytes(name, m[name]);
        assert(m.contains_key(name));
        entry_round_trip(name, m[name], rest);
        assert((head + rest).skip(head.len() as int) =~= rest);
        assert(head.len() > 0);
        let acc2 = acc.insert(name, m[name]);
        assert forall|i: int| 0 <= i < names.drop_first().len() implies m.contains_key(
            #[trigger] names.drop_first()[i],
        ) by {
            assert(names.drop_first()[i] == names[i + 1]);
        }
        lemma_parse_listing(m, names.drop_first(), acc2);
        let a = acc.union_prefer_right(m.restrict(names.to_set()));
        let b = acc2.union_prefer_right(m.restrict(names.drop_first().to_set()));
        assert forall|k: Seq<u8>| #[trigger] names.to_set().contains(k) <==> (k == name
            || names.drop_first().to_set().contains(k)) by {
            if names.contains(k) && k != name {
                let i = choose|i: int| 0 <= i < names.len() && names[i] == k;
                assert(names.drop_first()[i - 1] == k);
            }
            if names.drop_first().contains(k) {
                let i = choose|i: int| 0 <= i < names.drop_first().len() && names.drop_first()[i] == k;
                assert(names[i + 1] == k);
            }
        }
        assert(a =~= b);
    }
}

/// A tree whose names hold no null byte and whose entries are canonical reads back
/// from its Git object unchanged.
pub proof fn tree_round_trip(m: Map<Seq<u8>, Entry>)
    requires
        storable(m),
        m.dom().finite(),
        tree_bytes(m).len() <= usize::MAX,
    ensures
        parsed_object(tree_object(m)) == Ok::<Map<Seq<u8>, Entry>, TreeError>(m),
{
    let names = sorted_names(m.dom());
    sorted_names_exist(m.dom());
    let data = tree_bytes(m);
    let size = crate::text::digits(data.len(), 10);
    let d = tree_object(m);
    lemma_tree_word();
    crate::text::numeral_denotes_its_number(data.len(), 10);
    let null: int = 5 + size.len() as int;
    assert(d.take(5) =~= "tree ".spec_bytes());
    assert forall|j: int| 0 <= j < null implies #[trigger] d[j] != 0u8 by {
        if j >= 5 {
            assert(d[j] == size[j - 5]);
            assert(crate::text::is_digit(size[j - 5], 10));
        } else {
            assert(d[j] == d.take(5)[j]);
        }
    }
    assert(d[null] == 0u8);
    crate::text::lemma_first_index(d, 0u8, null);
    assert(d.subrange(5, null) =~= size);
    assert(d.skip(null + 1) =~= data);
    assert forall|i: int| 0 <= i < names.len() implies m.contains_key(#[trigger] names[i]) by {
        assert(names.contains(names[i]));
    }
    lemma_parse_listing(m, names, Map::empty());
    assert(Map::<Seq<u8>, Entry>::empty().union_prefer_right(m.restrict(names.to_set())) =~= m);
}

/// The map after one change: `None` removes the entry, `Some` puts one in.
pub open spec fn changed(m: Map<Seq<u8>, Entry>, path: Seq<u8>, change: Option<Entry>) -> Map<Seq<u8>, Entry> {
    match change {
        Some(e) => m.insert(path, e),
        None => m.remove(path),
    }
}

/// The map after the changes, in order.
pub open spec fn updated(m: Map<Seq<u8>, Entry>, changes: Seq<(&str, Option<Entry>)>) -> Map<Seq<u8>, Entry>
    decreases changes.len(),
{
    if changes.len() == 0 {
        m
    } else {
        changed(updated(m, changes.drop_last()), changes.last().0.spec_bytes(), changes.last().1)
    }
}

/// A path has the entry of the last change that names it, and keeps its own where
/// no change does.
pub proof fn last_change_wins(m: Map<Seq<u8>, Entry>, changes: Seq<(&str, Option<Entry>)>, i: int, path: Seq<u8>)
    requires
        -1 <= i < changes.len(),
        i >= 0 ==> changes[i].0.spec_bytes() == path,
        forall|j: int| i < j < changes.len() ==> (#[trigger] changes[j]).0.spec_bytes() != path,
    ensures
        i == -1 ==> updated(m, changes).contains_key(path) == m.contains_key(path) && updated(m, changes)[path]
            == m[path],
        i >= 0 ==> match changes[i].1 {
            Some(e) => updated(m, changes).contains_key(path) && updated(m, changes)[path] == e,
            None => !updated(m, changes).contains_key(path),
        },
    decreases changes.len(),
{
    if changes.len() > 0 && i < changes.len() - 1 {
        assert(changes[changes.len() - 1].0.spec_bytes() != path);
        assert forall|j: int| i < j < changes.drop_last().len() implies (#[trigger] changes.drop_last()[j]).0.spec_bytes()
            != path by {
            assert(changes.drop_last()[j] == changes[j]);
        }
        last_change_wins(m, changes.drop_last(), i, path);
    }
}

/// Whether some change names the path, and which.
spec fn change_of(changes: Seq<(&str, Option<Entry>)>, path: Seq<u8>) -> int {
    if exists|i: int| 0 <= i < changes.len() && (#[trigger] changes[i]).0.spec_bytes() == path {
        choose|i: int| 0 <= i < changes.len() && (#[trigger] changes[i]).0.spec_bytes() == path
    } else {
        -1
    }
}

/// No path is named by two changes.
pub open spec fn distinct_paths(changes: Seq<(&str, Option<Entry>)>) -> bool {
    forall|i: int, j: int|
        0 <= i < j < changes.len() ==> (#[trigger] changes[i]).0.spec_bytes() != (#[trigger] changes[j]).0.spec_bytes()
}

/// Changes to different paths give the same tree in whatever order they are made, and
/// with it the same serialised form and the same hash. `p` says where each change of
/// the second list stands in the first.
pub proof fn order_of_changes_is_irrelevant(
    m: Map<Seq<u8>, Entry>,
    changes: Seq<(&str, Option<Entry>)>,
    shuffled: Seq<(&str, Option<Entry>)>,
    p: Seq<int>,
)
    requires
        distinct_paths(changes),
        distinct_paths(shuffled),
        p.len() == shuffled.len(),
        forall|i: int| 0 <= i < p.len() ==> 0 <= #[trigger] p[i] < changes.len() && shuffled[i] == changes[p[i]],
        forall|k: int| 0 <= k < changes.len() ==> #[trigger] p.contains(k),
    ensures
        updated(m, changes) == updated(m, shuffled),
        tree_object(updated(m, changes)) == tree_object(updated(m, shuffled)),
{
    let a = updated(m, changes);
    let b = updated(m, shuffled);
    assert forall|k: Seq<u8>|
        #![trigger a.dom().contains(k)]
        #![trigger b.dom().contains(k)]
        #![trigger a[k]]
        a.dom().contains(k) == b.dom().contains(k) && (a.dom().contains(k) ==> a[k] == b[k]) by {
        let i = change_of(changes, k);
        let j = change_of(shuffled, k);
        if i >= 0 {
            assert(p.contains(i));
            let t = choose|t: int| 0 <= t < p.len() && p[t] == i;
            assert(shuffled[t].0.spec_bytes() == k);
        }
        if j >= 0 {
            assert(changes[p[j]].0.spec_bytes() == k);
            assert(p[j] == i);
        }
        assert forall|x: int| i < x < changes.len() implies (#[trigger] changes[x]).0.spec_bytes() != k by {}
        assert forall|x: int| j < x < shuffled.len() implies (#[trigger] shuffled[x]).0.spec_bytes() != k by {}
        last_change_wins(m, changes, i, k);
        last_change_wins(m, shuffled, j, k);
    }
    assert(a =~= b);
}

impl Tree {
    /// A copy of `base` with the given changes made in order.
    pub fn update_entries(base: &Tree, changes: Vec<(&str, Option<Entry>)>) -> (t: Self)
        ensures
            t@ == updated(base@, changes@),
    {
        let mut t = base.clone();
        let mut i: usize = 0;
        while i < changes.len()
            invariant
                i <= changes.len(),
                t@ == updated(base@, changes@.take(i as int)),
            decreases changes.len() - i,
        {
            let path = changes[i].0;
            match changes[i].1 {
                Some(entry) => {
                    t.insert(path, entry);
                },
                None => {
                    let gone = t.remove(path);
                },
            }
            assert(changes@.take(i + 1).drop_last() =~= changes@.take(i as int));
            i = i + 1;
        }
        assert(changes@.take(changes@.len() as int) =~= changes@);
        t
    }
}

/// The differences between two trees. No list is in any particular order.
#[derive(Debug)]
pub struct TreeDiff {
    /// Paths that only the new tree has.
    pub added: Vec<(Vec<u8>, Entry)>,
    /// Paths that only the old tree has.
    pub removed: Vec<(Vec<u8>, Entry)>,
    /// Paths with different entries in the old tree and in the new one.
    pub modified: Vec<(Vec<u8>, Entry, Entry)>,
}

/// The entries of `b` whose paths `a` does not have.
pub open spec fn only_in(b: Map<Seq<u8>, Entry>, a: Map<Seq<u8>, Entry>) -> Map<Seq<u8>, Entry> {
    Map::new(|k: Seq<u8>| b.contains_key(k) && !a.contains_key(k), |k: Seq<u8>| b[k])
}

/// Both trees have the path, with different entries.
pub open spec fn differs(old: Map<Seq<u8>, Entry>, new: Map<Seq<u8>, Entry>, k: Seq<u8>) -> bool {
    old.contains_key(k) && new.contains_key(k) && old[k] != new[k]
}

/// `items` lists each path with different entries once, with both entries.
pub open spec fn lists_modified(
    old: Map<Seq<u8>, Entry>,
    new: Map<Seq<u8>, Entry>,
    items: Seq<(Vec<u8>, Entry, Entry)>,
) -> bool {
    &&& forall|i: int|
        0 <= i < items.len() ==> differs(old, new, (#[trigger] items[i]).0@) && old[items[i].0@] == items[i].1
            && new[items[i].0@] == items[i].2
    &&& forall|k: Seq<u8>| #[trigger]
        differs(old, new, k) ==> exists|i: int| 0 <= i < items.len() && (#[trigger] items[i]).0@ == k
    &&& forall|i: int, j: int|
        0 <= i < j < items.len() ==> (#[trigger] items[i]).0@ != (#[trigger] items[j]).0@
}

impl TreeDiff {
    /// The lists are those of the differences between `old` and `new`.
    pub open spec fn describes(&self, old: Map<Seq<u8>, Entry>, new: Map<Seq<u8>, Entry>) -> bool {
        &&& lists(only_in(new, old), self.added@)
        &&& lists(only_in(old, new), self.removed@)
        &&& lists_modified(old, new, self.modified@)
    }

    /// The differences between two trees.
    pub fn diff(old: &Tree, new: &Tree) -> (d: Self)
        ensures
            d.describes(old@, new@),
    {
        let ghost a = old@;
        let ghost b = new@;
        let items = map_items(&new.entries);
        let ghost fresh = missing_in(a, items@);
        let ghost altered = altered_from(a, items@);
        let mut added: Vec<(Vec<u8>, Entry)> = Vec::new();
        let mut modified: Vec<(Vec<u8>, Entry, Entry)> = Vec::new();
        let mut i: usize = 0;
        while i < items.len()
            invariant
                i <= items.len(),
                a == old@,
                fresh == missing_in(a, items@),
                altered == altered_from(a, items@),
                added@.len() == picks(fresh, i as int).len(),
                forall|j: int|
                    0 <= j < added@.len() ==> (#[trigger] added@[j]).0@ == items@[picks(fresh, i as int)[j]].0@
                        && added@[j].1 == items@[picks(fresh, i as int)[j]].1,
                modified@.len() == picks(altered, i as int).len(),
                forall|j: int|
                    0 <= j < modified@.len() ==> (#[trigger] modified@[j]).0@ == items@[picks(
                        altered,
                        i as int,
                    )[j]].0@ && modified@[j].1 == a[modified@[j].0@] && modified@[j].2 == items@[picks(
                        altered,
                        i as int,
                    )[j]].1,
            decreases items.len() - i,
        {
            let path: &Vec<u8> = &items[i].0;
            let new_entry: Entry = items[i].1;
            let name = bytes_between(path.as_slice(), 0, path.len());
            assert(name@ =~= path@);
            match map_get(&old.entries, path.as_slice()) {
                Some(old_entry) => {
                    proof {
                        entries_equal(*old_entry, new_entry);
                    }
                    if *old_entry != new_entry {
                        modified.push((name, *old_entry, new_entry));
                    }
                },
                None => {
                    added.push((name, new_entry));
                },
            }
            i = i + 1;
        }
        let old_items = map_items(&old.entries);
        let ghost gone = missing_in(b, old_items@);
        let mut removed: Vec<(Vec<u8>, Entry)> = Vec::new();
        let mut j: usize = 0;
        while j < old_items.len()
            invariant
                j <= old_items.len(),
                b == new@,
                gone == missing_in(b, old_items@),
                removed@.len() == picks(gone, j as int).len(),
                forall|k: int|
                    0 <= k < removed@.len() ==> (#[trigger] removed@[k]).0@ == old_items@[picks(gone, j as int)[k]].0@
                        && removed@[k].1 == old_items@[picks(gone, j as int)[k]].1,
            decreases old_items.len() - j,
        {
            let path: &Vec<u8> = &old_items[j].0;
            match map_get(&new.entries, path.as_slice()) {
                Some(_) => {},
                None => {
                    let name = bytes_between(path.as_slice(), 0, path.len());
                    assert(name@ =~= path@);
                    removed.push((name, old_items[j].1));
                },
            }
            j = j + 1;
        }
        proof {
            lemma_only_in(b, a, items@, added@);
            lemma_only_in(a, b, old_items@, removed@);
            lemma_modified(a, b, items@, modified@);
        }
        TreeDiff { added, removed, modified }
    }

    /// Whether there is no difference.
    pub fn is_empty(&self) -> (r: bool)
        ensures
            r == (self.added@.len() == 0 && self.removed@.len() == 0 && self.modified@.len() == 0),
    {
        self.added.len() == 0 && self.removed.len() == 0 && self.modified.len() == 0
    }
}

/// The positions below `n` at which the predicate holds, in order.
spec fn picks(pred: spec_fn(int) -> bool, n: int) -> Seq<int>
    decreases n,
{
    if n <= 0 {
        Seq::empty()
    } else if pred(n - 1) {
        picks(pred, n - 1).push(n - 1)
    } else {
        picks(pred, n - 1)
    }
}

proof fn lemma_picks(pred: spec_fn(int) -> bool, n: int)
    requires
        0 <= n,
    ensures
        forall|a: int| 0 <= a < picks(pred, n).len() ==> 0 <= #[trigger] picks(pred, n)[a] < n && pred(
            picks(pred, n)[a],
        ),
        forall|a: int, b: int|
            0 <= a < b < picks(pred, n).len() ==> #[trigger] picks(pred, n)[a] < #[trigger] picks(pred, n)[b],
        forall|k: int| 0 <= k < n && pred(k) ==> #[trigger] picks(pred, n).contains(k),
    decreases n,
{
    if n > 0 {
        lemma_picks(pred, n - 1);
        let shorter = picks(pred, n - 1);
        let all = picks(pred, n);
        assert forall|k: int| 0 <= k < n && pred(k) implies #[trigger] all.contains(k) by {
            if k < n - 1 {
                assert(shorter.contains(k));
                let a = choose|a: int| 0 <= a < shorter.len() && shorter[a] == k;
                assert(all[a] == k);
            } else {
                assert(all[shorter.len() as int] == k);
            }
        }
    }
}

/// True of the items whose keys `m` does not have.
spec fn missing_in(m: Map<Seq<u8>, Entry>, items: Seq<(Vec<u8>, Entry)>) -> spec_fn(int) -> bool {
    |k: int| !m.contains_key(items[k].0@)
}

/// True of the items whose keys `m` has with another entry.
spec fn altered_from(m: Map<Seq<u8>, Entry>, items: Seq<(Vec<u8>, Entry)>) -> spec_fn(int) -> bool {
    |k: int| m.contains_key(items[k].0@) && m[items[k].0@] != items[k].1
}

proof fn lemma_only_in(
    b: Map<Seq<u8>, Entry>,
    a: Map<Seq<u8>, Entry>,
    items: Seq<(Vec<u8>, Entry)>,
    out: Seq<(Vec<u8>, Entry)>,
)
    requires
        lists(b, items),
        out.len() == picks(missing_in(a, items), items.len() as int).len(),
        forall|j: int|
            0 <= j < out.len() ==> (#[trigger] out[j]).0@ == items[picks(
                missing_in(a, items),
                items.len() as int,
            )[j]].0@ && out[j].1 == items[picks(missing_in(a, items), items.len() as int)[j]].1,
    ensures
        lists(only_in(b, a), out),
{
    let pred = missing_in(a, items);
    let src = picks(pred, items.len() as int);
    let m = only_in(b, a);
    lemma_picks(pred, items.len() as int);
    assert forall|i: int| 0 <= i < out.len() implies m.contains_key((#[trigger] out[i]).0@) && m[out[i].0@]
        == out[i].1 by {
        let k = src[i];
        assert(pred(k));
        assert(b.contains_key(items[k].0@));
    }
    assert forall|k: Seq<u8>| #[trigger] m.contains_key(k) implies exists|i: int|
        0 <= i < out.len() && (#[trigger] out[i]).0@ == k by {
        assert(b.contains_key(k));
        let p = choose|p: int| 0 <= p < items.len() && (#[trigger] items[p]).0@ == k;
        assert(pred(p));
        assert(src.contains(p));
        let i = choose|i: int| 0 <= i < src.len() && src[i] == p;
        assert(out[i].0@ == k);
    }
    assert forall|i: int, j: int| 0 <= i < j < out.len() implies (#[trigger] out[i]).0@ != (#[trigger] out[j]).0@ by {
        assert(src[i] < src[j]);
        assert(items[src[i]].0@ != items[src[j]].0@);
    }
}

proof fn lemma_modified(
    old: Map<Seq<u8>, Entry>,
    new: Map<Seq<u8>, Entry>,
    items: Seq<(Vec<u8>, Entry)>,
    out: Seq<(Vec<u8>, Entry, Entry)>,
)
    requires
        lists(new, items),
        out.len() == picks(altered_from(old, items), items.len() as int).len(),
        forall|j: int|
            0 <= j < out.len() ==> (#[trigger] out[j]).0@ == items[picks(
                altered_from(old, items),
                items.len() as int,
            )[j]].0@ && out[j].1 == old[out[j].0@] && out[j].2 == items[picks(
                altered_from(old, items),
                items.len() as int,
            )[j]].1,
    ensures
        lists_modified(old, new, out),
{
    let pred = altered_from(old, items);
    let src = picks(pred, items.len() as int);
    lemma_picks(pred, items.len() as int);
    assert forall|i: int| 0 <= i < out.len() implies differs(old, new, (#[trigger] out[i]).0@) && old[out[i].0@]
        == out[i].1 && new[out[i].0@] == out[i].2 by {
        let k = src[i];
        assert(pred(k));
        assert(new.contains_key(items[k].0@));
    }
    assert forall|k: Seq<u8>| #[trigger] differs(old, new, k) implies exists|i: int|
        0 <= i < out.len() && (#[trigger] out[i]).0@ == k by {
        assert(new.contains_key(k));
        let p = choose|p: int| 0 <= p < items.len() && (#[trigger] items[p]).0@ == k;
        assert(pred(p));
        assert(src.contains(p));
        let i = choose|i: int| 0 <= i < src.len() && src[i] == p;
        assert(out[i].0@ == k);
    }
    assert forall|i: int, j: int| 0 <= i < j < out.len() implies (#[trigger] out[i]).0@ != (#[trigger] out[j]).0@ by {
        assert(src[i] < src[j]);
        assert(items[src[i]].0@ != items[src[j]].0@);
    }
}

/// There is no difference between two trees exactly when they are the same.
pub proof fn empty_diff_means_equal(d: TreeDiff, old: Map<Seq<u8>, Entry>, new: Map<Seq<u8>, Entry>)
    requires
        d.describes(old, new),
    ensures
        (d.added@.len() == 0 && d.removed@.len() == 0 && d.modified@.len() == 0) <==> old == new,
{
    if d.added@.len() == 0 && d.removed@.len() == 0 && d.modified@.len() == 0 {
        assert forall|k: Seq<u8>|
            #![trigger old.contains_key(k)]
            #![trigger new.contains_key(k)]
            old.contains_key(k) == new.contains_key(k) && (old.contains_key(k) ==> old[k] == new[k]) by {
            if old.contains_key(k) && !new.contains_key(k) {
                assert(only_in(old, new).contains_key(k));
            }
            if !old.contains_key(k) && new.contains_key(k) {
                assert(only_in(new, old).contains_key(k));
            }
            if old.contains_key(k) && new.contains_key(k) && old[k] != new[k] {
                assert(differs(old, new, k));
            }
        }
        assert(old.dom() =~= new.dom());
        assert(old =~= new);
    }
    if old == new {
        if d.added@.len() > 0 {
            assert(only_in(new, old).contains_key(d.added@[0].0@));
        }
        if d.removed@.len() > 0 {
            assert(only_in(old, new).contains_key(d.removed@[0].0@));
        }
        if d.modified@.len() > 0 {
            assert(differs(old, new, d.modified@[0].0@));
        }
    }
}

/// The old tree without the removed paths, with the added ones and with the new
/// entries of the modified ones, is the new tree.
pub proof fn diff_leads_to_new(d: TreeDiff, old: Map<Seq<u8>, Entry>, new: Map<Seq<u8>, Entry>)
    requires
        d.describes(old, new),
    ensures
        forall|k: Seq<u8>| #[trigger]
            new.contains_key(k) <==> (exists|i: int| 0 <= i < d.added@.len() && (#[trigger] d.added@[i]).0@ == k)
                || (old.contains_key(k) && !(exists|i: int|
                0 <= i < d.removed@.len() && (#[trigger] d.removed@[i]).0@ == k)),
        forall|i: int| 0 <= i < d.added@.len() ==> new[(#[trigger] d.added@[i]).0@] == d.added@[i].1,
        forall|i: int| 0 <= i < d.modified@.len() ==> new[(#[trigger] d.modified@[i]).0@] == d.modified@[i].2,
        forall|k: Seq<u8>|
            old.contains_key(k) && #[trigger] new.contains_key(k) && !(exists|i: int|
                0 <= i < d.modified@.len() && (#[trigger] d.modified@[i]).0@ == k) ==> new[k] == old[k],
{
    assert forall|k: Seq<u8>| #[trigger]
        new.contains_key(k) <==> (exists|i: int| 0 <= i < d.added@.len() && (#[trigger] d.added@[i]).0@ == k) || (
        old.contains_key(k) && !(exists|i: int| 0 <= i < d.removed@.len() && (#[trigger] d.removed@[i]).0@ == k)) by {
        if new.contains_key(k) && !old.contains_key(k) {
            assert(only_in(new, old).contains_key(k));
        }
        if old.contains_key(k) && !new.contains_key(k) {
            assert(only_in(old, new).contains_key(k));
        }
        if exists|i: int| 0 <= i < d.added@.len() && (#[trigger] d.added@[i]).0@ == k {
            let i = choose|i: int| 0 <= i < d.added@.len() && (#[trigger] d.added@[i]).0@ == k;
            assert(only_in(new, old).contains_key(d.added@[i].0@));
        }
        if exists|i: int| 0 <= i < d.removed@.len() && (#[trigger] d.removed@[i]).0@ == k {
            let i = choose|i: int| 0 <= i < d.removed@.len() && (#[trigger] d.removed@[i]).0@ == k;
            assert(only_in(old, new).contains_key(d.removed@[i].0@));
        }
    }
    assert forall|i: int| 0 <= i < d.added@.len() implies new[(#[trigger] d.added@[i]).0@] == d.added@[i].1 by {
        assert(only_in(new, old).contains_key(d.added@[i].0@));
    }
    assert forall|k: Seq<u8>|
        old.contains_key(k) && #[trigger] new.contains_key(k) && !(exists|i: int|
            0 <= i < d.modified@.len() && (#[trigger] d.modified@[i]).0@ == k) implies new[k] == old[k] by {
        if new[k] != old[k] {
            assert(differs(old, new, k));
        }
    }
}

/// How many paths were added, removed and modified from `old` to `new`.
pub open spec fn change_counts(old: Map<Seq<u8>, Entry>, new: Map<Seq<u8>, Entry>) -> (nat, nat, nat) {
    (
        only_in(new, old).dom().len(),
        only_in(old, new).dom().len(),
        Set::new(|k: Seq<u8>| differs(old, new, k)).len(),
    )
}

proof fn lemma_listed(m: Map<Seq<u8>, Entry>, items: Seq<(Vec<u8>, Entry)>)
    requires
        lists(m, items),
    ensures
        m.dom().len() == items.len(),
{
    let keys = items.map_values(|e: (Vec<u8>, Entry)| e.0@);
    assert forall|k: Seq<u8>| #[trigger] m.dom().contains(k) <==> keys.contains(k) by {
        if m.contains_key(k) {
            let i = choose|i: int| 0 <= i < items.len() && (#[trigger] items[i]).0@ == k;
            assert(keys[i] == k);
        }
        if keys.contains(k) {
            let i = choose|i: int| 0 <= i < keys.len() && keys[i] == k;
            assert(m.contains_key(items[i].0@));
        }
    }
    lemma_count(keys, m.dom());
}

/// The lengths of the lists of a difference are the numbers of the paths that
/// were added, removed and modified.
pub proof fn diff_lengths(d: TreeDiff, old: Map<Seq<u8>, Entry>, new: Map<Seq<u8>, Entry>)
    requires
        d.describes(old, new),
    ensures
        change_counts(old, new) == (d.added@.len(), d.removed@.len(), d.modified@.len()),
{
    lemma_listed(only_in(new, old), d.added@);
    lemma_listed(only_in(old, new), d.removed@);
    let items = d.modified@;
    let keys = items.map_values(|e: (Vec<u8>, Entry, Entry)| e.0@);
    let set = Set::new(|k: Seq<u8>| differs(old, new, k));
    assert forall|k: Seq<u8>| #[trigger] set.contains(k) <==> keys.contains(k) by {
        if differs(old, new, k) {
            let i = choose|i: int| 0 <= i < items.len() && (#[trigger] items[i]).0@ == k;
            assert(keys[i] == k);
        }
        if keys.contains(k) {
            let i = choose|i: int| 0 <= i < keys.len() && keys[i] == k;
            assert(differs(old, new, items[i].0@));
        }
    }
    lemma_count(keys, set);
}

/// Counts the paths that were added, removed and modified.
pub fn count_changes(old: &Tree, new: &Tree) -> (c: (usize, usize, usize))
    ensures
        (c.0 as nat, c.1 as nat, c.2 as nat) == change_counts(old@, new@),
{
    let d = TreeDiff::diff(old, new);
    proof {
        diff_lengths(d, old@, new@);
    }
    (d.added.len(), d.removed.len(), d.modified.len())
}

/// The modes are those of Git, which are written in octal digits.
pub proof fn modes_are_those_of_git()
    ensures
        crate::text::digits(mode_of(EntryKind::File, None) as nat, 8) == seq![49u8, 48u8, 48u8, 54u8, 52u8, 52u8],
        crate::text::digits(mode_of(EntryKind::ExecutableFile, None) as nat, 8) == seq![
            49u8,
            48u8,
            48u8,
            55u8,
            53u8,
            53u8,
        ],
        crate::text::digits(mode_of(EntryKind::Symlink, None) as nat, 8) == seq![49u8, 50u8, 48u8, 48u8, 48u8, 48u8],
        crate::text::digits(mode_of(EntryKind::Tree, None) as nat, 8) == seq![52u8, 48u8, 48u8, 48u8, 48u8],
{
    reveal_with_fuel(crate::text::digits, 7);
    assert(crate::text::digits(33188, 8) =~= seq![49u8, 48u8, 48u8, 54u8, 52u8, 52u8]);
    assert(crate::text::digits(33261, 8) =~= seq![49u8, 48u8, 48u8, 55u8, 53u8, 53u8]);
    assert(crate::text::digits(40960, 8) =~= seq![49u8, 50u8, 48u8, 48u8, 48u8, 48u8]);
    assert(crate::text::digits(16384, 8) =~= seq![52u8, 48u8, 48u8, 48u8, 48u8]);
}

/// An object is read as a tree only where it says that it is one and has as many bytes as
/// it says.
pub proof fn only_whole_trees_are_read(d: Seq<u8>)
    ensures
        parsed_object(d) is Ok ==> d.len() >= 5 && d.take(5) == "tree ".spec_bytes() && crate::text::parse_unsigned(
            d.subrange(5, crate::text::first_index(d, 0u8)),
            10,
            usize::MAX as nat,
        ) == Some((d.len() - crate::text::first_index(d, 0u8) - 1) as nat),
        parsed_entries(Seq::empty(), Map::empty()) == Ok::<Map<Seq<u8>, Entry>, TreeError>(Map::empty()),
{
    crate::text::lemma_first_index_range(d, 0u8);
}

/// A path counts as added, removed or modified in at most one way, and in none exactly
/// where both trees agree on it.
pub proof fn each_path_changes_in_one_way(old: Map<Seq<u8>, Entry>, new: Map<Seq<u8>, Entry>, k: Seq<u8>)
    ensures
        only_in(new, old).contains_key(k) <==> new.contains_key(k) && !old.contains_key(k),
        only_in(old, new).contains_key(k) <==> old.contains_key(k) && !new.contains_key(k),
        only_in(new, old).contains_key(k) ==> only_in(new, old)[k] == new[k],
        !only_in(new, old).contains_key(k) && !only_in(old, new).contains_key(k) && !differs(old, new, k) <==> (
        old.contains_key(k) == new.contains_key(k) && (old.contains_key(k) ==> old[k] == new[k])),
        differs(old, new, k) == differs(new, old, k),
{
}

} // verus!
