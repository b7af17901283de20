//! Checkpoints, the history they form, and references to them.

use vstd::prelude::*;

use crate::hash::Sha1Hash;
use crate::ids::{id_has_prefix, parse_id};
use crate::text::{chars_of, has_prefix, parse_number};

verus! {

/// Why a checkpoint was made.
#[derive(Debug, Clone, Copy, PartialEq, Eq, Structural)]
pub enum CheckpointReason {
    /// A batch of changes in the file system.
    FsBatch,
    /// A request of the user.
    Manual,
    /// A restore.
    Restore,
    /// A publication or an import.
    Publish,
    /// Compaction by the garbage collector.
    GcCompact,
    /// A saved workspace.
    WorkspaceSave,
}

/// The word that stands for a reason in listings.
pub open spec fn reason_text(reason: CheckpointReason) -> Seq<char> {
    match reason {
        CheckpointReason::FsBatch => "fs"@,
        CheckpointReason::Manual => "manual"@,
        CheckpointReason::Restore => "restore"@,
        CheckpointReason::Publish => "publish"@,
        CheckpointReason::GcCompact => "gc"@,
        CheckpointReason::WorkspaceSave => "workspace"@,
    }
}

/// The word that stands for a reason in listings.
pub fn reason_word(reason: CheckpointReason) -> (s: &'static str)
    ensures
        s@ == reason_text(reason),
{
    match reason {
        CheckpointReason::FsBatch => "fs",
        CheckpointReason::Manual => "manual",
        CheckpointReason::Restore => "restore",
        CheckpointReason::Publish => "publish",
        CheckpointReason::GcCompact => "gc",
        CheckpointReason::WorkspaceSave => "workspace",
    }
}

/// The name of a reason.
pub open spec fn reason_title(reason: CheckpointReason) -> Seq<char> {
    match reason {
        CheckpointReason::FsBatch => "FsBatch"@,
        CheckpointReason::Manual => "Manual"@,
        CheckpointReason::Restore => "Restore"@,
        CheckpointReason::Publish => "Publish"@,
        CheckpointReason::GcCompact => "GcCompact"@,
        CheckpointReason::WorkspaceSave => "WorkspaceSave"@,
    }
}

/// The name of a reason.
pub fn reason_name(reason: CheckpointReason) -> (s: &'static str)
    ensures
        s@ == reason_title(reason),
{
    match reason {
        CheckpointReason::FsBatch => "FsBatch",
        CheckpointReason::Manual => "Manual",
        CheckpointReason::Restore => "Restore",
        CheckpointReason::Publish => "Publish",
        CheckpointReason::GcCompact => "GcCompact",
        CheckpointReason::WorkspaceSave => "WorkspaceSave",
    }
}

/// What a checkpoint changed.
#[derive(Debug, Clone, Copy, PartialEq, Eq, Structural)]
pub struct CheckpointMeta {
    /// Number of files that changed.
    pub files_changed: u32,
    /// Bytes of the new and modified files.
    pub bytes_added: u64,
    /// Bytes that the deleted and modified files had before.
    pub bytes_removed: u64,
}

/// A recorded state of the repository.
#[derive(Debug)]
pub struct Checkpoint {
    /// Identifier.
    pub id: u128,
    /// The checkpoint before this one.
    pub parent: Option<u128>,
    /// Hash of the tree.
    pub root_tree: Sha1Hash,
    /// Time in milliseconds since the start of 1970.
    pub ts_unix_ms: u64,
    /// Why the checkpoint was made.
    pub reason: CheckpointReason,
    /// The paths that changed.
    pub touched_paths: Vec<String>,
    /// What changed.
    pub meta: CheckpointMeta,
}

/// What a checkpoint records.
pub struct CheckpointView {
    pub id: u128,
    pub parent: Option<u128>,
    pub root_tree: Sha1Hash,
    pub ts_unix_ms: u64,
    pub reason: CheckpointReason,
    pub touched_paths: Seq<Seq<char>>,
    pub meta: CheckpointMeta,
}

impl View for Checkpoint {
    type V = CheckpointView;

    open spec fn view(&self) -> CheckpointView {
        CheckpointView {
            id: self.id,
            parent: self.parent,
            root_tree: self.root_tree,
            ts_unix_ms: self.ts_unix_ms,
            reason: self.reason,
            touched_paths: crate::text::texts(self.touched_paths@),
            meta: self.meta,
        }
    }
}

/// Copies a list of strings.
pub fn copy_strings(v: &Vec<String>) -> (r: Vec<String>)
    ensures
        crate::text::texts(r@) == crate::text::texts(v@),
        r@ == v@,
{
    let mut r: Vec<String> = Vec::new();
    let mut i: usize = 0;
    while i < v.len()
        invariant
            i <= v.len(),
            r@ == v@.take(i as int),
        decreases v.len() - i,
    {
        r.push(v[i].clone());
        i = i + 1;
        assert(r@ =~= v@.take(i as int));
    }
    assert(r@ =~= v@);
    r
}

impl Clone for Checkpoint {
    fn clone(&self) -> (c: Self)
        ensures
            c@ == self@,
    {
        Checkpoint {
            id: self.id,
            parent: self.parent,
            root_tree: self.root_tree,
            ts_unix_ms: self.ts_unix_ms,
            reason: self.reason,
            touched_paths: copy_strings(&self.touched_paths),
            meta: self.meta,
        }
    }
}

/// The recorded checkpoints and which of them is the latest.
#[derive(Debug)]
pub struct History {
    /// The checkpoints in the order in which the journal lists them.
    pub records: Vec<Checkpoint>,
    /// Identifier of the latest one.
    pub head: Option<u128>,
}

/// What a history records.
pub struct HistoryView {
    pub records: Seq<CheckpointView>,
    pub head: Option<u128>,
}

impl View for History {
    type V = HistoryView;

    open spec fn view(&self) -> HistoryView {
        HistoryView { records: self.records@.map_values(|c: Checkpoint| c@), head: self.head }
    }
}

impl HistoryView {
    /// The first record with the given identifier.
    pub open spec fn find(self, id: u128) -> Option<CheckpointView> {
        let i = find_record(self.records, id);
        if 0 <= i < self.records.len() {
            Some(self.records[i])
        } else {
            None
        }
    }

    /// The latest checkpoint.
    pub open spec fn latest(self) -> Option<CheckpointView> {
        match self.head {
            Some(id) => self.find(id),
            None => None,
        }
    }

    /// A checkpoint and its ancestors, at most `n` in all, as far as they are
    /// recorded.
    pub open spec fn line(self, from: Option<u128>, n: nat) -> Seq<CheckpointView>
        decreases n,
    {
        match from {
            None => Seq::empty(),
            Some(id) => if n == 0 {
                Seq::empty()
            } else {
                match self.find(id) {
                    None => Seq::empty(),
                    Some(c) => seq![c] + self.line(c.parent, (n - 1) as nat),
                }
            },
        }
    }

    /// The latest checkpoint and its ancestors without the first `offset`, at most
    /// `limit` of them.
    pub open spec fn page(self, offset: nat, limit: nat) -> Seq<CheckpointView> {
        let all = self.line(self.head, offset + limit);
        if all.len() <= offset {
            Seq::empty()
        } else {
            all.skip(offset as int)
        }
    }

    /// The ancestor `n` generations before the latest checkpoint.
    pub open spec fn ancestor(self, n: nat) -> Option<CheckpointView> {
        let all = self.line(self.head, n + 1);
        if all.len() == n + 1 {
            Some(all[n as int])
        } else {
            None
        }
    }

    /// The identifiers of all records, in order.
    pub open spec fn ids(self) -> Seq<u128> {
        self.records.map_values(|c: CheckpointView| c.id)
    }

    /// The identifiers whose text begins with the given characters, in order.
    pub open spec fn with_prefix(self, prefix: Seq<char>) -> Seq<u128> {
        self.ids().filter(|id: u128| crate::text::begins_with(crate::ids::ulid_text(id), prefix))
    }
}

/// The position of the first record with the given identifier, or the number of
/// records.
pub open spec fn find_record(records: Seq<CheckpointView>, id: u128) -> int
    decreases records.len(),
{
    if records.len() == 0 || records[0].id == id {
        0
    } else {
        1 + find_record(records.drop_first(), id)
    }
}

proof fn lemma_find_record(records: Seq<CheckpointView>, id: u128, i: int)
    requires
        0 <= i <= records.len(),
        forall|j: int| 0 <= j < i ==> (#[trigger] records[j]).id != id,
        i < records.len() ==> records[i].id == id,
    ensures
        find_record(records, id) == i,
    decreases records.len(),
{
    if records.len() > 0 && i > 0 {
        assert(records[0].id != id);
        let t = records.drop_first();
        assert forall|j: int| 0 <= j < i - 1 implies (#[trigger] t[j]).id != id by {
            assert(t[j] == records[j + 1]);
        }
        lemma_find_record(t, id, i - 1);
    }
}

/// Some of an optional reference to a checkpoint.
pub open spec fn opt_view(r: Option<&Checkpoint>) -> Option<CheckpointView> {
    match r {
        Some(c) => Some(c@),
        None => None,
    }
}

/// The views of a list of checkpoints.
pub open spec fn views(v: Seq<Checkpoint>) -> Seq<CheckpointView> {
    v.map_values(|c: Checkpoint| c@)
}

/// The views of a list of optional checkpoints.
pub open spec fn opt_views(v: Seq<Option<&Checkpoint>>) -> Seq<Option<CheckpointView>> {
    v.map_values(|r: Option<&Checkpoint>| opt_view(r))
}

/// The views of a list of checkpoints.
pub open spec fn ref_views(v: Seq<&Checkpoint>) -> Seq<CheckpointView> {
    v.map_values(|r: &Checkpoint| r@)
}

impl History {
    /// The checkpoint with the given identifier.
    pub fn get(&self, id: u128) -> (r: Option<&Checkpoint>)
        ensures
            opt_view(r) == self@.find(id),
            r is Some ==> r->0.id == id,
    {
        let ghost all = self@.records;
        let mut i: usize = 0;
        while i < self.records.len()
            invariant
                i <= self.records.len(),
                all == self@.records,
                forall|j: int| 0 <= j < i ==> (#[trigger] all[j]).id != id,
            decreases self.records.len() - i,
        {
            assert(all[i as int] == self.records@[i as int]@);
            if self.records[i].id == id {
                proof {
                    lemma_find_record(all, id, i as int);
                }
                return Some(&self.records[i]);
            }
            i = i + 1;
        }
        proof {
            lemma_find_record(all, id, i as int);
        }
        None
    }

    /// The latest checkpoint.
    pub fn latest(&self) -> (r: Option<&Checkpoint>)
        ensures
            opt_view(r) == self@.latest(),
            r is Some ==> self.head == Some(r->0.id),
    {
        match self.head {
            Some(id) => self.get(id),
            None => None,
        }
    }

    /// A page of the history, latest first.
    pub fn page(&self, offset: usize, limit: usize) -> (page: Vec<&Checkpoint>)
        ensures
            ref_views(page@) == self@.page(offset as nat, limit as nat),
    {
        let mut page: Vec<&Checkpoint> = Vec::new();
        let total: u128 = offset as u128 + limit as u128;
        let mut current: Option<u128> = self.head;
        let mut count: u128 = 0;
        let ghost h = self@;
        let ghost all = h.line(h.head, total as nat);
        assert(all.skip(0) =~= all);
        assert(ref_views(page@) =~= Seq::empty());
        while count < total
            invariant
                count <= total,
                total == offset + limit,
                h == self@,
                all == h.line(h.head, total as nat),
                count <= all.len(),
                all.skip(count as int) == h.line(current, (total - count) as nat),
                ref_views(page@) == (if count <= offset { Seq::empty() } else { all.subrange(offset as int, count as int) }),
            decreases total - count,
        {
            let id: u128 = match current {
                Some(id) => id,
                None => {
                    assert(all.skip(count as int) =~= Seq::empty());
                    assert(all.len() == count);
                    assert(count > offset ==> all.subrange(offset as int, count as int) =~= all.skip(offset as int));
                    return page;
                },
            };
            match self.get(id) {
                None => {
                    assert(all.skip(count as int) =~= Seq::empty());
                    assert(all.len() == count);
                    assert(count > offset ==> all.subrange(offset as int, count as int) =~= all.skip(offset as int));
                    return page;
                },
                Some(c) => {
                    let ghost before = page@;
                    let ghost rest = all.skip(count as int);
                    assert(rest[0] == c@);
                    assert(rest.drop_first() =~= all.skip(count + 1));
                    assert(rest.drop_first() =~= h.line(c.parent, (total - count - 1) as nat));
                    if count >= offset as u128 {
                        page.push(c);
                        proof {
                            assert(ref_views(page@) =~= ref_views(before).push(c@));
                            assert(all.subrange(offset as int, count + 1) =~= all.subrange(
                                offset as int,
                                count as int,
                            ).push(c@));
                            if count == offset {
                                assert(all.subrange(offset as int, count as int) =~= Seq::empty());
                            }
                        }
                    }
                    current = c.parent;
                    count = count + 1;
                },
            }
        }
        proof {
            lemma_line_len(h, h.head, total as nat);
            assert(all.len() == total);
            if count > offset {
                assert(all.subrange(offset as int, count as int) =~= all.skip(offset as int));
            }
        }
        page
    }

    /// The ancestor `n` generations before the latest checkpoint, found by
    /// following parents one by one.
    pub fn ancestor(&self, n: usize) -> (r: Option<&Checkpoint>)
        ensures
            opt_view(r) == self@.ancestor(n as nat),
    {
        let ghost h = self@;
        let ghost all = h.line(h.head, (n + 1) as nat);
        proof {
            lemma_line_len(h, h.head, (n + 1) as nat);
        }
        let mut current: Option<&Checkpoint> = self.latest();
        let mut k: usize = 0;
        assert(all.skip(0) =~= all);
        while k < n
            invariant
                k <= n,
                h == self@,
                all == h.line(h.head, (n + 1) as nat),
                all.len() <= n + 1,
                match current {
                    Some(c) => k < all.len() && all[k as int] == c@ && all.skip(k as int) == h.line(
                        Some(c.id),
                        (n + 1 - k) as nat,
                    ),
                    None => all.len() <= k,
                },
            decreases n - k,
        {
            match current {
                None => {
                    return None;
                },
                Some(c) => {
                    let ghost rest = all.skip(k as int);
                    assert(rest[0] == c@);
                    match c.parent {
                        None => {
                            proof {
                                let tail = h.line(c.parent, (n - k) as nat);
                                assert(rest =~= seq![c@] + tail);
                                assert(all.len() == k + 1);
                            }
                            return None;
                        },
                        Some(parent) => {
                            let next = self.get(parent);
                            proof {
                                let tail = h.line(c.parent, (n - k) as nat);
                                assert(rest =~= seq![c@] + tail);
                                assert(rest.skip(1) =~= all.skip(k + 1));
                                assert((seq![c@] + tail).skip(1) =~= tail);
                                if next is Some {
                                    assert(tail[0] == next->0@);
                                    assert(all[k + 1] == tail[0]);
                                } else {
                                    assert(tail.len() == 0);
                                }
                            }
                            current = next;
                        },
                    }
                },
            }
            k = k + 1;
        }
        current
    }
}

/// A line has at most as many members as were asked for.
proof fn lemma_line_len(h: HistoryView, from: Option<u128>, n: nat)
    ensures
        h.line(from, n).len() <= n,
    decreases n,
{
    match from {
        Some(id) => {
            if n > 0 {
                match h.find(id) {
                    Some(c) => {
                        lemma_line_len(h, c.parent, (n - 1) as nat);
                    },
                    None => {},
                }
            }
        },
        None => {},
    }
}

/// The names given to checkpoints, in the order in which they are listed.
pub open spec fn pin_views(pins: Seq<(String, u128)>) -> Seq<(Seq<char>, u128)> {
    pins.map_values(|p: (String, u128)| (p.0@, p.1))
}

/// The checkpoint of the first pin with the given name.
pub open spec fn find_pin(pins: Seq<(Seq<char>, u128)>, name: Seq<char>) -> Option<u128>
    decreases pins.len(),
{
    if pins.len() == 0 {
        None
    } else if pins[0].0 == name {
        Some(pins[0].1)
    } else {
        find_pin(pins.drop_first(), name)
    }
}

/// Finds the checkpoint of the first pin with the given name.
pub fn pinned(pins: &Vec<(String, u128)>, name: &str) -> (r: Option<u128>)
    ensures
        r == find_pin(pin_views(pins@), name@),
{
    let ghost all = pin_views(pins@);
    let wanted = chars_of(name);
    let mut i: usize = 0;
    assert(all.skip(0) =~= all);
    while i < pins.len()
        invariant
            i <= pins.len(),
            all == pin_views(pins@),
            wanted@ == name@,
            find_pin(all, name@) == find_pin(all.skip(i as int), name@),
        decreases pins.len() - i,
    {
        assert(all.skip(i as int)[0] == (pins@[i as int].0@, pins@[i as int].1));
        let have = chars_of(pins[i].0.as_str());
        if crate::text::same_chars(have.as_slice(), wanted.as_slice()) {
            return Some(pins[i].1);
        }
        assert(all.skip(i as int).drop_first() =~= all.skip(i + 1));
        i = i + 1;
    }
    assert(all.skip(i as int) =~= Seq::empty());
    None
}

/// The names of all pins of a checkpoint, in the order in which they are listed.
pub open spec fn pin_names(pins: Seq<(Seq<char>, u128)>, id: u128) -> Seq<Seq<char>>
    decreases pins.len(),
{
    if pins.len() == 0 {
        Seq::empty()
    } else {
        let before = pin_names(pins.drop_last(), id);
        if pins.last().1 == id {
            before.push(pins.last().0)
        } else {
            before
        }
    }
}

/// Collects the names of all pins of a checkpoint.
pub fn pins_of(pins: &Vec<(String, u128)>, id: u128) -> (names: Vec<String>)
    ensures
        crate::text::texts(names@) == pin_names(pin_views(pins@), id),
{
    let ghost all = pin_views(pins@);
    let mut names: Vec<String> = Vec::new();
    let mut i: usize = 0;
    assert(all.take(0) =~= Seq::empty());
    assert(crate::text::texts(names@) =~= Seq::empty());
    while i < pins.len()
        invariant
            i <= pins.len(),
            all == pin_views(pins@),
            crate::text::texts(names@) == pin_names(all.take(i as int), id),
        decreases pins.len() - i,
    {
        let ghost before = names@;
        assert(all.take(i + 1).drop_last() =~= all.take(i as int));
        if pins[i].1 == id {
            names.push(pins[i].0.clone());
            assert(crate::text::texts(names@) =~= crate::text::texts(before).push(pins@[i as int].0@));
        }
        i = i + 1;
    }
    assert(all.take(all.len() as int) =~= all);
    names
}

/// A checkpoint has a pin.
pub open spec fn is_pinned(pins: Seq<(String, u128)>, id: u128) -> bool {
    exists|j: int| 0 <= j < pins.len() && (#[trigger] pins[j]).1 == id
}

/// A checkpoint stands in a map.
pub open spec fn is_mapped(map: Seq<(u128, Vec<String>)>, id: u128) -> bool {
    exists|k: int| 0 <= k < map.len() && (#[trigger] map[k]).0 == id
}

/// The pins by checkpoint: each checkpoint that has any, once, with its names.
pub fn build_pin_map(pins: &Vec<(String, u128)>) -> (map: Vec<(u128, Vec<String>)>)
    ensures
        forall|k: int|
            0 <= k < map@.len() ==> crate::text::texts((#[trigger] map@[k]).1@) == pin_names(
                pin_views(pins@),
                map@[k].0,
            ),
        forall|id: u128| #[trigger] is_mapped(map@, id) <==> is_pinned(pins@, id),
        forall|a: int, b: int| 0 <= a < b < map@.len() ==> (#[trigger] map@[a]).0 != (#[trigger] map@[b]).0,
{
    let mut map: Vec<(u128, Vec<String>)> = Vec::new();
    let mut i: usize = 0;
    while i < pins.len()
        invariant
            i <= pins.len(),
            forall|k: int|
                0 <= k < map@.len() ==> crate::text::texts((#[trigger] map@[k]).1@) == pin_names(
                    pin_views(pins@),
                    map@[k].0,
                ),
            forall|id: u128| #[trigger] is_mapped(map@, id) ==> is_pinned(pins@, id),
            forall|j: int| 0 <= j < i ==> is_mapped(map@, (#[trigger] pins@[j]).1),
            forall|a: int, b: int| 0 <= a < b < map@.len() ==> (#[trigger] map@[a]).0 != (#[trigger] map@[b]).0,
        decreases pins.len() - i,
    {
        let id: u128 = pins[i].1;
        let mut known: bool = false;
        let mut k: usize = 0;
        while k < map.len() && !known
            invariant
                k <= map.len(),
                known ==> is_mapped(map@, id),
                !known ==> forall|a: int| 0 <= a < k ==> (#[trigger] map@[a]).0 != id,
            decreases map.len() - k,
        {
            if map[k].0 == id {
                known = true;
            }
            k = k + 1;
        }
        let ghost before = map@;
        if !known {
            let names = pins_of(pins, id);
            map.push((id, names));
        }
        proof {
            assert(is_pinned(pins@, id)) by {
                assert(pins@[i as int].1 == id);
            }
            assert(is_mapped(map@, id)) by {
                if !known {
                    assert(map@[before.len() as int].0 == id);
                }
            }
            assert forall|x: u128| #[trigger] is_mapped(map@, x) implies is_pinned(pins@, x) by {
                let a = choose|a: int| 0 <= a < map@.len() && (#[trigger] map@[a]).0 == x;
                if a < before.len() {
                    assert(before[a].0 == x);
                    assert(is_mapped(before, x));
                }
            }
            assert forall|j: int| 0 <= j < i + 1 implies is_mapped(map@, (#[trigger] pins@[j]).1) by {
                if j < i {
                    assert(is_mapped(before, pins@[j].1));
                    let a = choose|a: int| 0 <= a < before.len() && (#[trigger] before[a]).0 == pins@[j].1;
                    assert(map@[a].0 == pins@[j].1);
                }
            }
        }
        i = i + 1;
    }
    proof {
        assert forall|id: u128| is_pinned(pins@, id) implies #[trigger] is_mapped(map@, id) by {
            let j = choose|j: int| 0 <= j < pins@.len() && (#[trigger] pins@[j]).1 == id;
            assert(is_mapped(map@, pins@[j].1));
        }
    }
    map
}

impl History {
    /// Collects the identifiers whose text begins with the given characters.
    pub fn ids_with_prefix(&self, prefix: &str) -> (ids: Vec<u128>)
        ensures
            ids@ == self@.with_prefix(prefix@),
    {
        let wanted = chars_of(prefix);
        let ghost pred = |id: u128| crate::text::begins_with(crate::ids::ulid_text(id), prefix@);
        let ghost all = self@.ids();
        let mut ids: Vec<u128> = Vec::new();
        let mut i: usize = 0;
        proof {
            assert(all.take(0) =~= Seq::empty());
            reveal(Seq::filter);
        }
        while i < self.records.len()
            invariant
                i <= self.records.len(),
                wanted@ == prefix@,
                all == self@.ids(),
                pred == (|id: u128| crate::text::begins_with(crate::ids::ulid_text(id), prefix@)),
                ids@ == all.take(i as int).filter(pred),
            decreases self.records.len() - i,
        {
            let id: u128 = self.records[i].id;
            proof {
                assert(all[i as int] == id);
                assert(all.take(i + 1).drop_last() =~= all.take(i as int));
                reveal(Seq::filter);
            }
            if id_has_prefix(id, wanted.as_slice()) {
                ids.push(id);
            }
            i = i + 1;
        }
        assert(all.take(all.len() as int) =~= all);
        ids
    }
}

/// Why a reference names no checkpoint.
#[derive(Debug, Clone, Copy, PartialEq, Eq, Structural)]
pub enum RefError {
    /// The reference is an identifier that is not recorded.
    NotFound,
    /// The reference is a prefix of several identifiers.
    Ambiguous { matches: usize },
    /// The reference is neither an identifier, nor a prefix of one, nor a pin.
    Unknown,
}

/// Prefixes of fewer bytes than this are not looked up.
pub const MIN_PREFIX: usize = 4;

/// The checkpoint that a reference names: an identifier, the beginning of exactly
/// one identifier, or a pin. `HEAD` is the latest checkpoint, unless a pin has that
/// name.
pub open spec fn named(h: HistoryView, pins: Seq<(Seq<char>, u128)>, reference: Seq<char>) -> Result<u128, RefError> {
    let bytes = vstd::utf8::encode_utf8(reference);
    let full = crate::ids::ulid_value(bytes);
    let matching = h.with_prefix(reference);
    if reference == "HEAD"@ && find_pin(pins, reference) is None && h.latest() is Some {
        Ok(h.latest()->0.id)
    } else if full is Some {
        if h.find(full->0) is Some {
            Ok(full->0)
        } else {
            Err(RefError::NotFound)
        }
    } else if bytes.len() >= MIN_PREFIX && matching.len() == 1 {
        Ok(matching[0])
    } else if bytes.len() >= MIN_PREFIX && matching.len() > 1 {
        Err(RefError::Ambiguous { matches: matching.len() as usize })
    } else {
        match find_pin(pins, reference) {
            Some(id) => Ok(id),
            None => Err(RefError::Unknown),
        }
    }
}

/// Resolves a reference, with a reason where it names no checkpoint.
pub fn resolve_checkpoint_ref(history: &History, pins: &Vec<(String, u128)>, reference: &str) -> (r: Result<
    u128,
    RefError,
>)
    ensures
        r == named(history@, pin_views(pins@), reference@),
{
    if crate::text::is_text(chars_of(reference).as_slice(), "HEAD") && pinned(pins, reference).is_none() {
        match history.latest() {
            Some(c) => {
                return Ok(c.id);
            },
            None => {},
        }
    }
    match parse_id(reference) {
        Some(id) => {
            if history.get(id).is_some() {
                Ok(id)
            } else {
                Err(RefError::NotFound)
            }
        },
        None => {
            if reference.as_bytes().len() >= MIN_PREFIX {
                let matching = history.ids_with_prefix(reference);
                if matching.len() == 1 {
                    return Ok(matching[0]);
                } else if matching.len() > 1 {
                    return Err(RefError::Ambiguous { matches: matching.len() });
                }
            }
            match pinned(pins, reference) {
                Some(id) => Ok(id),
                None => Err(RefError::Unknown),
            }
        },
    }
}

/// The identifier that a reference names when the journal is read directly: `HEAD`
/// is the latest checkpoint, and an identifier that is not recorded is tried as a
/// prefix and as a pin.
pub open spec fn named_id(h: HistoryView, pins: Seq<(Seq<char>, u128)>, reference: Seq<char>) -> Option<u128> {
    let bytes = vstd::utf8::encode_utf8(reference);
    let full = crate::ids::ulid_value(bytes);
    let matching = h.with_prefix(reference);
    if reference == "HEAD"@ {
        match h.latest() {
            Some(c) => Some(c.id),
            None => None,
        }
    } else if full is Some && h.find(full->0) is Some {
        full
    } else if bytes.len() >= MIN_PREFIX && matching.len() == 1 {
        Some(matching[0])
    } else if bytes.len() >= MIN_PREFIX && matching.len() > 1 {
        None
    } else {
        find_pin(pins, reference)
    }
}

/// Resolves a reference to an identifier.
fn resolve_id(history: &History, pins: &Vec<(String, u128)>, reference: &str) -> (r: Option<u128>)
    ensures
        r == named_id(history@, pin_views(pins@), reference@),
{
    if crate::text::is_text(chars_of(reference).as_slice(), "HEAD") {
        return match history.latest() {
            Some(c) => Some(c.id),
            None => None,
        };
    }
    match parse_id(reference) {
        Some(id) => {
            if history.get(id).is_some() {
                return Some(id);
            }
        },
        None => {},
    }
    if reference.as_bytes().len() >= MIN_PREFIX {
        let matching = history.ids_with_prefix(reference);
        if matching.len() == 1 {
            return Some(matching[0]);
        } else if matching.len() > 1 {
            return None;
        }
    }
    pinned(pins, reference)
}

/// Resolves each of the references to an identifier.
pub fn resolve_via_journal(history: &History, pins: &Vec<(String, u128)>, refs: &Vec<String>) -> (ids: Vec<
    Option<u128>,
>)
    ensures
        ids@ == refs@.map_values(|r: String| named_id(history@, pin_views(pins@), r@)),
{
    let mut ids: Vec<Option<u128>> = Vec::new();
    let ghost want = refs@.map_values(|r: String| named_id(history@, pin_views(pins@), r@));
    let mut i: usize = 0;
    while i < refs.len()
        invariant
            i <= refs.len(),
            want == refs@.map_values(|r: String| named_id(history@, pin_views(pins@), r@)),
            ids@ == want.take(i as int),
        decreases refs.len() - i,
    {
        ids.push(resolve_id(history, pins, refs[i].as_str()));
        i = i + 1;
        assert(ids@ =~= want.take(i as int));
    }
    assert(ids@ =~= want);
    ids
}

/// The checkpoint that a reference names when the daemon is asked: as when the
/// journal is read directly, and `HEAD~n` is the ancestor `n` generations before
/// the latest checkpoint. A prefix or a pin whose checkpoint is not recorded names
/// nothing, but an unrecorded match of a prefix is still tried as a pin.
pub open spec fn named_checkpoint(h: HistoryView, pins: Seq<(Seq<char>, u128)>, reference: Seq<char>) -> Option<
    CheckpointView,
> {
    let bytes = vstd::utf8::encode_utf8(reference);
    let full = crate::ids::ulid_value(bytes);
    let matching = h.with_prefix(reference);
    if reference == "HEAD"@ {
        h.latest()
    } else if crate::text::begins_with(reference, "HEAD~"@) {
        match crate::text::parse_unsigned(vstd::utf8::encode_utf8(reference.skip(5)), 10, usize::MAX as nat) {
            Some(n) => h.ancestor(n),
            None => None,
        }
    } else if full is Some && h.find(full->0) is Some {
        h.find(full->0)
    } else if bytes.len() >= MIN_PREFIX && matching.len() == 1 && h.find(matching[0]) is Some {
        h.find(matching[0])
    } else if bytes.len() >= MIN_PREFIX && matching.len() > 1 {
        None
    } else {
        match find_pin(pins, reference) {
            Some(id) => h.find(id),
            None => None,
        }
    }
}

/// Resolves a reference to a checkpoint.
pub fn resolve_checkpoint<'a>(history: &'a History, pins: &Vec<(String, u128)>, reference: &str) -> (r: Option<
    &'a Checkpoint,
>)
    ensures
        opt_view(r) == named_checkpoint(history@, pin_views(pins@), reference@),
{
    let chars = chars_of(reference);
    if crate::text::is_text(chars.as_slice(), "HEAD") {
        return history.latest();
    }
    let tilde = chars_of("HEAD~");
    if has_prefix(chars.as_slice(), tilde.as_slice()) {
        proof {
            reveal_strlit("HEAD~");
        }
        let rest = crate::text::chars_between(chars.as_slice(), 5, chars.len());
        assert(rest@ =~= reference@.skip(5));
        let digits = crate::text::string_of(rest.as_slice());
        return match parse_number(digits.as_str().as_bytes(), 10, usize::MAX as u64) {
            Some(n) => history.ancestor(n as usize),
            None => None,
        };
    }
    match parse_id(reference) {
        Some(id) => {
            let found = history.get(id);
            if found.is_some() {
                return found;
            }
        },
        None => {},
    }
    if reference.as_bytes().len() >= MIN_PREFIX {
        let matching = history.ids_with_prefix(reference);
        if matching.len() == 1 {
            let found = history.get(matching[0]);
            if found.is_some() {
                return found;
            }
        } else if matching.len() > 1 {
            return None;
        }
    }
    match pinned(pins, reference) {
        Some(id) => history.get(id),
        None => None,
    }
}

/// A shorter line is the beginning of a longer one.
proof fn lemma_line_prefix(h: HistoryView, from: Option<u128>, a: nat, b: nat)
    requires
        a <= b,
    ensures
        h.line(from, a).len() <= h.line(from, b).len(),
        h.line(from, a) == h.line(from, b).take(h.line(from, a).len() as int),
        h.line(from, a).len() < a ==> h.line(from, b) == h.line(from, a),
    decreases a,
{
    match from {
        Some(id) => {
            if a > 0 {
                match h.find(id) {
                    Some(c) => {
                        lemma_line_prefix(h, c.parent, (a - 1) as nat, (b - 1) as nat);
                        let x = h.line(c.parent, (a - 1) as nat);
                        let y = h.line(c.parent, (b - 1) as nat);
                        assert(seq![c] + x =~= (seq![c] + y).take(x.len() as int + 1));
                    },
                    None => {
                        assert(h.line(from, a) =~= h.line(from, b).take(0));
                    },
                }
            } else {
                assert(h.line(from, a) =~= h.line(from, b).take(0));
            }
        },
        None => {
            assert(h.line(from, a) =~= h.line(from, b).take(0));
        },
    }
}

/// Two pages, one after the other, are the page that covers both: paging through
/// the history neither loses nor repeats a checkpoint.
pub proof fn pages_join(h: HistoryView, offset: nat, a: nat, b: nat)
    ensures
        h.page(offset, a) + h.page(offset + a, b) == h.page(offset, a + b),
{
    lemma_line_prefix(h, h.head, offset + a, offset + a + b);
    lemma_line_len(h, h.head, offset + a);
    let x = h.line(h.head, offset + a);
    let y = h.line(h.head, offset + a + b);
    assert(offset + (a + b) == offset + a + b);
    assert(h.page(offset, a) + h.page(offset + a, b) =~= h.page(offset, a + b));
}

/// The ancestor of the next generation is the parent, where it is recorded.
pub proof fn ancestor_step(h: HistoryView, n: nat)
    ensures
        h.ancestor(0) == h.latest(),
        h.ancestor(n + 1) == (match h.ancestor(n) {
            Some(c) => match c.parent {
                Some(id) => h.find(id),
                None => None,
            },
            None => None,
        }),
{
    reveal_with_fuel(HistoryView::line, 2);
    lemma_ancestor_step(h, h.head, n);
}

proof fn lemma_ancestor_step(h: HistoryView, from: Option<u128>, n: nat)
    ensures
        ({
            let x = h.line(from, n + 1);
            let y = h.line(from, n + 2);
            &&& x.len() <= n + 1
            &&& y.len() <= n + 2
            &&& x.len() < n + 1 ==> y.len() < n + 2
            &&& x.len() == n + 1 ==> match x[n as int].parent {
                Some(id) => match h.find(id) {
                    Some(c) => y.len() == n + 2 && y[n as int + 1] == c,
                    None => y.len() == n + 1,
                },
                None => y.len() == n + 1,
            }
        }),
    decreases n,
{
    lemma_line_len(h, from, n + 1);
    lemma_line_len(h, from, n + 2);
    reveal_with_fuel(HistoryView::line, 3);
    match from {
        Some(id) => {
            match h.find(id) {
                Some(c) => {
                    if n > 0 {
                        lemma_ancestor_step(h, c.parent, (n - 1) as nat);
                        let x = h.line(c.parent, n);
                        let y = h.line(c.parent, n + 1);
                        assert(h.line(from, n + 1) =~= seq![c] + x);
                        assert(h.line(from, n + 2) =~= seq![c] + y);
                    }
                },
                None => {},
            }
        },
        None => {},
    }
}

/// The full identifier of a recorded checkpoint names it, whoever is asked.
pub proof fn full_id_names_checkpoint(h: HistoryView, pins: Seq<(Seq<char>, u128)>, id: u128)
    requires
        h.find(id) is Some,
    ensures
        named(h, pins, crate::ids::ulid_text(id)) == Ok::<u128, RefError>(id),
        named_id(h, pins, crate::ids::ulid_text(id)) == Some(id),
        named_checkpoint(h, pins, crate::ids::ulid_text(id)) == h.find(id),
{
    let text = crate::ids::ulid_text(id);
    crate::ids::id_round_trip(id);
    crate::ids::id_text_is_plain(id);
    reveal_strlit("HEAD");
    reveal_strlit("HEAD~");
    if crate::text::begins_with(text, "HEAD~"@) {
        assert(text.take(5)[4] == '~');
    }
}

/// `HEAD` names the latest checkpoint; where the name of a pin may stand in its place,
/// it does so unless a pin is called `HEAD`.
pub proof fn head_names_latest(h: HistoryView, pins: Seq<(Seq<char>, u128)>)
    ensures
        find_pin(pins, "HEAD"@) is None && h.latest() is Some ==> named(h, pins, "HEAD"@) == Ok::<u128, RefError>(
            h.latest()->0.id,
        ),
        named_checkpoint(h, pins, "HEAD"@) == h.latest(),
        named_id(h, pins, "HEAD"@) == (match h.latest() {
            Some(c) => Some(c.id),
            None => None,
        }),
{
}

/// A pin names its checkpoint, unless its name means something else: `HEAD` or what
/// begins with `HEAD~`, an identifier, or the beginning of one that is recorded.
pub proof fn pin_names_its_checkpoint(h: HistoryView, pins: Seq<(Seq<char>, u128)>, name: Seq<char>, id: u128)
    requires
        find_pin(pins, name) == Some(id),
        name != "HEAD"@,
        !crate::text::begins_with(name, "HEAD~"@),
        crate::ids::ulid_value(vstd::utf8::encode_utf8(name)) is None,
        forall|i: int|
            0 <= i < h.records.len() ==> !crate::text::begins_with(
                crate::ids::ulid_text((#[trigger] h.records[i]).id),
                name,
            ),
    ensures
        named(h, pins, name) == Ok::<u128, RefError>(id),
        named_id(h, pins, name) == Some(id),
        named_checkpoint(h, pins, name) == h.find(id),
{
    let pred = |id: u128| crate::text::begins_with(crate::ids::ulid_text(id), name);
    let ids = h.ids();
    assert forall|i: int| 0 <= i < ids.len() implies !pred(#[trigger] ids[i]) by {
        assert(ids[i] == h.records[i].id);
    }
    lemma_filter_none(ids, pred);
}

proof fn lemma_filter_none(s: Seq<u128>, pred: spec_fn(u128) -> bool)
    requires
        forall|i: int| 0 <= i < s.len() ==> !pred(#[trigger] s[i]),
    ensures
        s.filter(pred).len() == 0,
    decreases s.len(),
{
    reveal(Seq::filter);
    if s.len() > 0 {
        let t = s.drop_last();
        assert(!pred(s[s.len() - 1]));
        assert forall|i: int| 0 <= i < t.len() implies !pred(#[trigger] t[i]) by {
            assert(t[i] == s[i]);
        }
        lemma_filter_none(t, pred);
    }
}

/// A reference that resolves to an identifier of the history by a prefix is the
/// beginning of that identifier's text and of no other record's.
pub proof fn prefix_is_unique(h: HistoryView, reference: Seq<char>, i: int, j: int)
    requires
        h.with_prefix(reference).len() == 1,
        0 <= i < h.records.len(),
        0 <= j < h.records.len(),
        crate::text::begins_with(crate::ids::ulid_text(h.records[i].id), reference),
        crate::text::begins_with(crate::ids::ulid_text(h.records[j].id), reference),
    ensures
        i == j,
        h.with_prefix(reference)[0] == h.records[i].id,
{
    let pred = |id: u128| crate::text::begins_with(crate::ids::ulid_text(id), reference);
    lemma_filter_count(h.ids(), pred, i, j);
}

proof fn lemma_filter_count(s: Seq<u128>, pred: spec_fn(u128) -> bool, i: int, j: int)
    requires
        0 <= i < s.len(),
        0 <= j < s.len(),
        pred(s[i]),
        pred(s[j]),
    ensures
        s.filter(pred).len() >= 1,
        i != j ==> s.filter(pred).len() >= 2,
        s.filter(pred).len() == 1 ==> s.filter(pred)[0] == s[i],
    decreases s.len(),
{
    reveal(Seq::filter);
    let t = s.drop_last();
    let last = s.len() - 1;
    if i < last && j < last {
        lemma_filter_count(t, pred, i, j);
    } else if i < last {
        lemma_filter_count(t, pred, i, i);
    } else if j < last {
        lemma_filter_count(t, pred, j, j);
    }
}

proof fn lemma_find_record_range(records: Seq<CheckpointView>, id: u128)
    ensures
        0 <= find_record(records, id) <= records.len(),
        forall|j: int| 0 <= j < find_record(records, id) ==> (#[trigger] records[j]).id != id,
        find_record(records, id) < records.len() ==> records[find_record(records, id)].id == id,
    decreases records.len(),
{
    if records.len() > 0 && records[0].id != id {
        let t = records.drop_first();
        lemma_find_record_range(t, id);
        assert forall|j: int| 0 <= j < find_record(records, id) implies (#[trigger] records[j]).id != id by {
            if j > 0 {
                assert(records[j] == t[j - 1]);
            }
        }
    }
}

/// The record with an identifier is the first that has it; there is none exactly where
/// no record has it.
pub proof fn found_record_has_the_id(h: HistoryView, id: u128)
    ensures
        h.find(id) is None <==> forall|j: int| 0 <= j < h.records.len() ==> (#[trigger] h.records[j]).id != id,
        h.find(id) is Some ==> exists|i: int|
            0 <= i < h.records.len() && h.find(id) == Some(#[trigger] h.records[i]) && h.records[i].id == id && forall|
                j: int,
            |
                0 <= j < i ==> (#[trigger] h.records[j]).id != id,
{
    lemma_find_record_range(h.records, id);
    let i = find_record(h.records, id);
    if i < h.records.len() {
        assert(h.find(id) == Some(h.records[i]));
    }
}

/// The latest checkpoint is the record whose identifier is the head.
pub proof fn latest_is_the_head(h: HistoryView, i: int)
    requires
        0 <= i < h.records.len(),
        h.head == Some(h.records[i].id),
        forall|j: int| 0 <= j < i ==> (#[trigger] h.records[j]).id != h.records[i].id,
    ensures
        h.latest() == Some(h.records[i]),
{
    lemma_find_record(h.records, h.records[i].id, i);
}

/// The checkpoint of a pin is that of the first pin with the name; there is none exactly
/// where no pin has it.
pub proof fn found_pin_has_the_name(pins: Seq<(Seq<char>, u128)>, name: Seq<char>)
    ensures
        find_pin(pins, name) is None <==> forall|j: int| 0 <= j < pins.len() ==> (#[trigger] pins[j]).0 != name,
        find_pin(pins, name) is Some ==> exists|i: int|
            0 <= i < pins.len() && (#[trigger] pins[i]).0 == name && find_pin(pins, name) == Some(pins[i].1) && forall|
                j: int,
            |
                0 <= j < i ==> (#[trigger] pins[j]).0 != name,
    decreases pins.len(),
{
    if pins.len() > 0 {
        if pins[0].0 == name {
            assert(pins[0].0 == name && find_pin(pins, name) == Some(pins[0].1));
        } else {
            let rest = pins.drop_first();
            found_pin_has_the_name(rest, name);
            if find_pin(pins, name) is Some {
                let i = choose|i: int|
                    0 <= i < rest.len() && (#[trigger] rest[i]).0 == name && find_pin(rest, name) == Some(rest[i].1)
                        && forall|j: int| 0 <= j < i ==> (#[trigger] rest[j]).0 != name;
                assert(pins[i + 1] == rest[i]);
                assert forall|j: int| 0 <= j < i + 1 implies (#[trigger] pins[j]).0 != name by {
                    if j > 0 {
                        assert(pins[j] == rest[j - 1]);
                    }
                }
            } else {
                assert forall|j: int| 0 <= j < pins.len() implies (#[trigger] pins[j]).0 != name by {
                    if j > 0 {
                        assert(pins[j] == rest[j - 1]);
                    }
                }
            }
        }
    }
}

/// A text that begins an identifier's has as many bytes as characters, and is no
/// identifier where it is shorter.
proof fn lemma_prefix_bytes(id: u128, reference: Seq<char>)
    requires
        reference.len() <= 26,
        forall|j: int| 0 <= j < reference.len() ==> #[trigger] reference[j] == crate::ids::ulid_text(id)[j],
    ensures
        vstd::utf8::encode_utf8(reference).len() == reference.len(),
        crate::text::begins_with(crate::ids::ulid_text(id), reference),
        reference.len() < 26 ==> crate::ids::ulid_value(vstd::utf8::encode_utf8(reference)) is None,
        !crate::text::begins_with(reference, "HEAD~"@),
{
    crate::ids::id_text_is_plain(id);
    let text = crate::ids::ulid_text(id);
    assert(text.take(reference.len() as int) =~= reference);
    assert(vstd::utf8::is_ascii_chars(reference)) by {
        assert forall|i: int| 0 <= i < reference.len() implies '\0' <= #[trigger] reference[i] <= '\u{7f}' by {
            assert('0' <= text[i] <= 'Z');
        }
    }
    vstd::utf8::is_ascii_chars_encode_utf8(reference);
    reveal_strlit("HEAD~");
    if crate::text::begins_with(reference, "HEAD~"@) {
        assert(reference.take(5)[4] == '~');
        assert(reference[4] == text[4]);
    }
}

/// The beginning of exactly one identifier, of at least four characters, names the
/// checkpoint with that identifier, whoever is asked.
pub proof fn short_id_names_checkpoint(h: HistoryView, pins: Seq<(Seq<char>, u128)>, reference: Seq<char>, i: int)
    requires
        4 <= reference.len() < 26,
        reference != "HEAD"@,
        0 <= i < h.records.len(),
        forall|k: int|
            0 <= k < reference.len() ==> #[trigger] reference[k] == crate::ids::ulid_text(h.records[i].id)[k],
        forall|j: int|
            0 <= j < h.records.len() && j != i ==> exists|k: int|
                0 <= k < reference.len() && #[trigger] reference[k] != crate::ids::ulid_text(
                    (#[trigger] h.records[j]).id,
                )[k],
    ensures
        named_checkpoint(h, pins, reference) == Some(h.records[i]),
        named_id(h, pins, reference) == Some(h.records[i].id),
        named(h, pins, reference) == Ok::<u128, RefError>(h.records[i].id),
{
    let id = h.records[i].id;
    lemma_prefix_bytes(id, reference);
    let pred = |id: u128| crate::text::begins_with(crate::ids::ulid_text(id), reference);
    let ids = h.ids();
    assert(ids[i] == id);
    assert forall|j: int| 0 <= j < ids.len() && j != i implies !pred(#[trigger] ids[j]) by {
        assert(ids[j] == h.records[j].id);
        let text = crate::ids::ulid_text(h.records[j].id);
        let k = choose|k: int| 0 <= k < reference.len() && #[trigger] reference[k] != text[k];
        if pred(ids[j]) {
            assert(text.take(reference.len() as int)[k] == reference[k]);
        }
    }
    lemma_filter_one(ids, pred, i);
    assert forall|j: int| 0 <= j < i implies (#[trigger] h.records[j]).id != id by {
        assert(!pred(ids[j]));
        assert(ids[j] == h.records[j].id);
    }
    lemma_find_record(h.records, id, i);
}

proof fn lemma_filter_one(s: Seq<u128>, pred: spec_fn(u128) -> bool, i: int)
    requires
        0 <= i < s.len(),
        pred(s[i]),
        forall|j: int| 0 <= j < s.len() && j != i ==> !pred(#[trigger] s[j]),
    ensures
        s.filter(pred) == seq![s[i]],
    decreases s.len(),
{
    reveal(Seq::filter);
    let t = s.drop_last();
    let last = s.len() - 1;
    if i < last {
        assert(!pred(s[last]));
        assert forall|j: int| 0 <= j < t.len() && j != i implies !pred(#[trigger] t[j]) by {
            assert(t[j] == s[j]);
        }
        lemma_filter_one(t, pred, i);
    } else {
        assert forall|j: int| 0 <= j < t.len() implies !pred(#[trigger] t[j]) by {
            assert(t[j] == s[j]);
        }
        lemma_filter_none(t, pred);
        assert(s.filter(pred) =~= seq![s[i]]);
    }
}

/// The beginning of several identifiers names none of the checkpoints.
pub proof fn ambiguous_reference_names_nothing(
    h: HistoryView,
    pins: Seq<(Seq<char>, u128)>,
    reference: Seq<char>,
    i: int,
    j: int,
)
    requires
        4 <= reference.len() < 26,
        reference != "HEAD"@,
        0 <= i < j < h.records.len(),
        forall|k: int|
            0 <= k < reference.len() ==> #[trigger] reference[k] == crate::ids::ulid_text(h.records[i].id)[k],
        forall|k: int|
            0 <= k < reference.len() ==> #[trigger] reference[k] == crate::ids::ulid_text(h.records[j].id)[k],
    ensures
        named_checkpoint(h, pins, reference) is None,
        named_id(h, pins, reference) is None,
        named(h, pins, reference) is Err,
        named(h, pins, reference)->Err_0 is Ambiguous,
{
    let pred = |id: u128| crate::text::begins_with(crate::ids::ulid_text(id), reference);
    let ids = h.ids();
    lemma_prefix_bytes(h.records[i].id, reference);
    lemma_prefix_bytes(h.records[j].id, reference);
    assert(ids[i] == h.records[i].id && ids[j] == h.records[j].id);
    lemma_filter_count(ids, pred, i, j);
}

/// A reference of fewer than four bytes is looked up as a pin alone.
pub proof fn shorter_references_are_pins(h: HistoryView, pins: Seq<(Seq<char>, u128)>, reference: Seq<char>)
    requires
        vstd::utf8::encode_utf8(reference).len() < 4,
    ensures
        named_id(h, pins, reference) == find_pin(pins, reference),
        named_checkpoint(h, pins, reference) == (match find_pin(pins, reference) {
            Some(id) => h.find(id),
            None => None,
        }),
        named(h, pins, reference) == (match find_pin(pins, reference) {
            Some(id) => Ok::<u128, RefError>(id),
            None => Err(RefError::Unknown),
        }),
{
    reveal_strlit("HEAD");
    reveal_strlit("HEAD~");
    vstd::utf8::encode_utf8_decode_utf8(reference);
    if reference == "HEAD"@ {
        assert(vstd::utf8::is_ascii_chars(reference));
        vstd::utf8::is_ascii_chars_encode_utf8(reference);
    }
    if crate::text::begins_with(reference, "HEAD~"@) {
        lemma_bytes_of_chars(reference);
    }
}

/// A text has at least as many bytes as characters.
proof fn lemma_bytes_of_chars(s: Seq<char>)
    ensures
        vstd::utf8::encode_utf8(s).len() >= s.len(),
    decreases s.len(),
{
    if s.len() > 0 {
        lemma_bytes_of_chars(s.drop_first());
    }
}

/// `HEAD~n` names the ancestor `n` generations before the latest checkpoint.
pub proof fn tilde_names_ancestor(h: HistoryView, pins: Seq<(Seq<char>, u128)>, n: nat)
    requires
        n <= usize::MAX,
    ensures
        named_checkpoint(h, pins, "HEAD~"@ + crate::text::decimal(n)) == h.ancestor(n),
{
    let digits = crate::text::digits(n, 10);
    let text = crate::text::decimal(n);
    let reference = "HEAD~"@ + text;
    reveal_strlit("HEAD");
    reveal_strlit("HEAD~");
    assert(reference.skip(5) =~= text);
    assert(reference.take(5) =~= "HEAD~"@);
    crate::text::numeral_denotes_its_number(n, 10);
    assert(vstd::utf8::is_ascii_chars(text)) by {
        assert forall|i: int| 0 <= i < text.len() implies '\0' <= #[trigger] text[i] <= '\u{7f}' by {
            assert(crate::text::is_digit(digits[i], 10));
        }
    }
    vstd::utf8::is_ascii_chars_encode_utf8(text);
    assert(vstd::utf8::encode_utf8(text) =~= digits) by {
        assert forall|i: int| 0 <= i < text.len() implies (text[i] as u8) == #[trigger] digits[i] by {
            assert(crate::text::is_digit(digits[i], 10));
        }
    }
}

/// A page holds the generations from its offset on, one after the other, and ends early
/// only where the line of ancestors does.
pub proof fn page_holds_the_generations(h: HistoryView, offset: nat, limit: nat)
    ensures
        h.page(offset, limit).len() <= limit,
        forall|i: int|
            0 <= i < h.page(offset, limit).len() ==> Some(#[trigger] h.page(offset, limit)[i]) == h.ancestor(
                (offset + i) as nat,
            ),
        h.page(offset, limit).len() < limit ==> h.ancestor(offset + h.page(offset, limit).len()) is None,
{
    let all = h.line(h.head, offset + limit);
    let page = h.page(offset, limit);
    lemma_line_len(h, h.head, offset + limit);
    assert forall|i: int| 0 <= i < page.len() implies Some(#[trigger] page[i]) == h.ancestor((offset + i) as nat) by {
        let n = (offset + i) as nat;
        lemma_line_prefix(h, h.head, n + 1, offset + limit);
        lemma_line_len(h, h.head, n + 1);
        assert(h.line(h.head, n + 1).len() == n + 1);
        assert(page[i] == all[n as int]);
    }
    if page.len() < limit {
        let n = offset + page.len();
        lemma_line_prefix(h, h.head, n + 1, offset + limit);
    }
}

/// The names of a checkpoint are those of its pins and no others, in the order of the
/// pins.
pub proof fn pin_names_are_those_of_the_pins(pins: Seq<(Seq<char>, u128)>, id: u128)
    ensures
        pin_names(pins, id) == pins.filter(|p: (Seq<char>, u128)| p.1 == id).map_values(
            |p: (Seq<char>, u128)| p.0,
        ),
        forall|i: int| 0 <= i < pins.len() && (#[trigger] pins[i]).1 == id ==> pin_names(pins, id).contains(pins[i].0),
    decreases pins.len(),
{
    reveal(Seq::filter);
    let pred = |p: (Seq<char>, u128)| p.1 == id;
    let f = |p: (Seq<char>, u128)| p.0;
    let all = pin_names(pins, id);
    if pins.len() > 0 {
        let front = pins.drop_last();
        let before = pin_names(front, id);
        pin_names_are_those_of_the_pins(front, id);
        assert(pins.filter(pred).map_values(f) =~= all);
        assert forall|i: int| 0 <= i < pins.len() && (#[trigger] pins[i]).1 == id implies all.contains(pins[i].0) by {
            if i < front.len() {
                assert(front[i] == pins[i]);
                assert(before.contains(pins[i].0));
                let k = choose|k: int| 0 <= k < before.len() && before[k] == pins[i].0;
                assert(all[k] == before[k]);
            } else {
                assert(all[all.len() - 1] == pins[i].0);
            }
        }
    } else {
        assert(pins.filter(pred).map_values(f) =~= all);
    }
}

} // verus!
