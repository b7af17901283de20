//! Git object names.

use vstd::prelude::*;

use super::{hash_bytes, Sha1Hash};
use crate::order::sort_positions;
use crate::text::{append_bytes, push_digits};

verus! {

/// A Git object: its kind, its length, a null byte and its content.
pub open spec fn object(kind: Seq<char>, content: Seq<u8>) -> Seq<u8> {
    vstd::utf8::encode_utf8(kind) + seq![32u8] + crate::text::digits(content.len(), 10) + seq![0u8] + content
}

/// Builds a Git object.
pub fn object_bytes(kind: &str, content: &[u8]) -> (v: Vec<u8>)
    ensures
        v@ == object(kind@, content@),
{
    let mut v: Vec<u8> = Vec::new();
    append_bytes(&mut v, kind.as_bytes());
    v.push(32u8);
    push_digits(&mut v, content.len() as u64, 10);
    v.push(0u8);
    append_bytes(&mut v, content);
    assert(v@ =~= object(kind@, content@));
    v
}

/// Hashes a blob as `git hash-object` does.
pub fn hash_blob(content: &[u8]) -> (h: Sha1Hash)
    ensures
        h@ == super::sha1_of(object("blob"@, content@)),
{
    let bytes = object_bytes("blob", content);
    hash_bytes(bytes.as_slice())
}

/// One line of a tree: the mode in decimal digits, a space, the name, a null
/// byte and the 20 bytes of the hash.
pub open spec fn tree_line(entry: (String, u32, Sha1Hash)) -> Seq<u8> {
    crate::text::digits(entry.1 as nat, 10) + seq![32u8] + vstd::utf8::encode_utf8(entry.0@) + seq![0u8]
        + entry.2@
}

/// The names of the entries as byte strings.
pub open spec fn names(entries: Seq<(String, u32, Sha1Hash)>) -> Seq<Seq<u8>> {
    entries.map_values(|e: (String, u32, Sha1Hash)| vstd::utf8::encode_utf8(e.0@))
}

/// The lines of the entries at the given positions.
pub open spec fn tree_lines(entries: Seq<(String, u32, Sha1Hash)>, order: Seq<int>) -> Seq<u8>
    decreases order.len(),
{
    if order.len() == 0 {
        Seq::empty()
    } else {
        tree_lines(entries, order.drop_last()) + tree_line(entries[order.last()])
    }
}

/// The content of a tree: one line for each entry, by name, entries with equal
/// names in the order given.
pub open spec fn tree_content(entries: Seq<(String, u32, Sha1Hash)>) -> Seq<u8> {
    tree_lines(entries, crate::order::stable_order(names(entries)))
}

/// Hashes a tree. The digits of a mode are those that Git writes, so the mode of
/// a regular file is given as the number 100644.
pub fn hash_tree(entries: &[(String, u32, Sha1Hash)]) -> (h: Sha1Hash)
    ensures
        h@ == super::sha1_of(object("tree"@, tree_content(entries@))),
{
    let mut keys: Vec<Vec<u8>> = Vec::new();
    let mut i: usize = 0;
    while i < entries.len()
        invariant
            i <= entries.len(),
            crate::order::views(keys@) == names(entries@).take(i as int),
        decreases entries.len() - i,
    {
        let ghost before = keys@;
        let mut key: Vec<u8> = Vec::new();
        append_bytes(&mut key, entries[i].0.as_str().as_bytes());
        keys.push(key);
        assert(key@ =~= vstd::utf8::encode_utf8(entries@[i as int].0@));
        assert(crate::order::views(keys@) =~= crate::order::views(before).push(key@));
        i = i + 1;
        assert(crate::order::views(keys@) =~= names(entries@).take(i as int));
    }
    assert(crate::order::views(keys@) =~= names(entries@));
    let order = sort_positions(&keys);
    let ghost all = crate::order::positions(order@);
    let mut content: Vec<u8> = Vec::new();
    let mut k: usize = 0;
    while k < order.len()
        invariant
            k <= order.len(),
            all == crate::order::positions(order@),
            crate::order::is_stable_order(names(entries@), all),
            content@ == tree_lines(entries@, all.take(k as int)),
        decreases order.len() - k,
    {
        let p: usize = order[k];
        assert(all[k as int] == p);
        let ghost before = content@;
        push_digits(&mut content, entries[p].1 as u64, 10);
        content.push(32u8);
        append_bytes(&mut content, entries[p].0.as_str().as_bytes());
        content.push(0u8);
        append_bytes(&mut content, entries[p].2.as_bytes().as_slice());
        assert(content@ =~= before + tree_line(entries@[p as int]));
        assert(all.take(k + 1).drop_last() =~= all.take(k as int));
        k = k + 1;
    }
    assert(all.take(all.len() as int) =~= all);
    let bytes = object_bytes("tree", content.as_slice());
    hash_bytes(bytes.as_slice())
}

/// `shuffled` is `entries` in another order: the entry at position `i` is the one
/// that stood at position `p[i]`.
pub open spec fn is_reordering(
    entries: Seq<(String, u32, Sha1Hash)>,
    shuffled: Seq<(String, u32, Sha1Hash)>,
    p: Seq<int>,
) -> bool {
    &&& p.len() == entries.len()
    &&& shuffled.len() == entries.len()
    &&& forall|i: int| 0 <= i < p.len() ==> 0 <= #[trigger] p[i] < entries.len()
    &&& forall|i: int| 0 <= i < p.len() ==> shuffled[i] == entries[#[trigger] p[i]]
    &&& forall|k: int| 0 <= k < entries.len() ==> #[trigger] p.contains(k)
}

/// Entries with different names give the same tree in whatever order they come.
pub proof fn tree_content_ignores_order(
    entries: Seq<(String, u32, Sha1Hash)>,
    shuffled: Seq<(String, u32, Sha1Hash)>,
    p: Seq<int>,
)
    requires
        is_reordering(entries, shuffled, p),
        forall|i: int, j: int|
            0 <= i < j < entries.len() ==> #[trigger] names(entries)[i] != #[trigger] names(entries)[j],
    ensures
        tree_content(shuffled) == tree_content(entries),
{
    let keys = names(entries);
    let keys2 = names(shuffled);
    crate::order::stable_order_exists(keys);
    crate::order::stable_order_exists(keys2);
    let x = crate::order::stable_order(keys);
    let y = x.map_values(|k: int| p.index_of(k));
    assert forall|a: int| 0 <= a < y.len() implies 0 <= #[trigger] y[a] < keys2.len() && p[y[a]] == x[a] by {
        assert(0 <= x[a] < keys.len());
        assert(p.contains(x[a]));
    }
    assert forall|i: int| 0 <= i < keys2.len() implies #[trigger] y.contains(i) by {
        assert(0 <= p[i] < entries.len());
        assert(x.contains(p[i]));
        let a = choose|a: int| 0 <= a < x.len() && x[a] == p[i];
        assert(0 <= y[a] < keys2.len() && p[y[a]] == p[i]);
        if y[a] != i {
            lemma_reordering_is_injective(p, entries.len() as int, y[a], i);
        }
        assert(y[a] == i);
    }
    assert forall|a: int, b: int| 0 <= a < b < y.len() implies crate::order::position_before(
        keys2,
        #[trigger] y[a],
        #[trigger] y[b],
    ) by {
        assert(0 <= x[a] < keys.len() && 0 <= x[b] < keys.len());
        assert(crate::order::position_before(keys, x[a], x[b]));
        assert(x[a] != x[b]) by {
            crate::order::bytes_lt_irreflexive(keys[x[a]]);
        }
        assert(keys[x[a]] != keys[x[b]]);
        assert(0 <= y[a] < keys2.len() && p[y[a]] == x[a]);
        assert(0 <= y[b] < keys2.len() && p[y[b]] == x[b]);
        assert(keys2[y[a]] == keys[x[a]]);
        assert(keys2[y[b]] == keys[x[b]]);
    }
    crate::order::stable_order_is_unique(keys2, y, crate::order::stable_order(keys2));
    lemma_same_lines(entries, x, shuffled, y);
}

/// A sequence of `n` numbers below `n` that holds each of them holds none twice.
proof fn lemma_reordering_is_injective(p: Seq<int>, n: int, i: int, j: int)
    requires
        p.len() == n,
        forall|k: int| 0 <= k < p.len() ==> 0 <= #[trigger] p[k] < n,
        forall|k: int| 0 <= k < n ==> #[trigger] p.contains(k),
        0 <= i < n,
        0 <= j < n,
        p[i] == p[j],
    ensures
        i == j,
{
    if i != j {
        let all = Set::<int>::new(|k: int| 0 <= k < n);
        vstd::set_lib::lemma_int_range(0, n);
        assert(all =~= vstd::set_lib::set_int_range(0, n));
        assert(p.to_set() =~= all) by {
            assert forall|k: int| all.contains(k) implies p.to_set().contains(k) by {
                assert(p.contains(k));
            }
        }
        let q = p.remove(j);
        assert(q.to_set() =~= all) by {
            assert forall|k: int| all.contains(k) implies q.to_set().contains(k) by {
                assert(p.contains(k));
                let a = choose|a: int| 0 <= a < p.len() && p[a] == k;
                let b: int = if a == j { i } else { a };
                assert(q[if b < j { b } else { b - 1 }] == k);
            }
            assert forall|k: int| q.to_set().contains(k) implies all.contains(k) by {
                let a = choose|a: int| 0 <= a < q.len() && q[a] == k;
                assert(q[a] == p[if a < j { a } else { a + 1 }]);
            }
        }
        q.lemma_cardinality_of_set();
    }
}

proof fn lemma_same_lines(
    e1: Seq<(String, u32, Sha1Hash)>,
    x: Seq<int>,
    e2: Seq<(String, u32, Sha1Hash)>,
    y: Seq<int>,
)
    requires
        x.len() == y.len(),
        forall|a: int| 0 <= a < x.len() ==> e1[#[trigger] x[a]] == e2[y[a]],
    ensures
        tree_lines(e1, x) == tree_lines(e2, y),
    decreases x.len(),
{
    if x.len() > 0 {
        lemma_same_lines(e1, x.drop_last(), e2, y.drop_last());
        assert(e1[x[x.len() - 1]] == e2[y[x.len() - 1]]);
    }
}

/// An object is its kind, a space, the length of its content in decimal, a zero byte and
/// the content.
pub proof fn objects_end_with_their_content(kind: Seq<char>, content: Seq<u8>)
    ensures
        object(kind, content).len() == vstd::utf8::encode_utf8(kind).len() + crate::text::digits(
            content.len(),
            10,
        ).len() + 2 + content.len(),
        object(kind, content).skip(object(kind, content).len() - content.len()) == content,
        object(kind, content)[object(kind, content).len() - content.len() - 1] == 0u8,
        crate::text::begins_with(object(kind, content), vstd::utf8::encode_utf8(kind).push(32u8)),
{
    let o = object(kind, content);
    let head = vstd::utf8::encode_utf8(kind).push(32u8);
    assert(o.skip(o.len() - content.len()) =~= content);
    assert(o.take(head.len() as int) =~= head);
}

} // verus!
