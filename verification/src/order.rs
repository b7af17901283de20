//! Lexicographic order of byte strings, and sorting by it.

use vstd::prelude::*;

verus! {

/// Strict lexicographic order: the first differing byte decides, and a proper
/// prefix comes first.
pub open spec fn bytes_lt(a: Seq<u8>, b: Seq<u8>) -> bool
    decreases a.len(),
{
    if b.len() == 0 {
        false
    } else if a.len() == 0 {
        true
    } else if a[0] != b[0] {
        a[0] < b[0]
    } else {
        bytes_lt(a.drop_first(), b.drop_first())
    }
}

/// No byte string comes before itself.
pub proof fn bytes_lt_irreflexive(a: Seq<u8>)
    ensures
        !bytes_lt(a, a),
    decreases a.len(),
{
    if a.len() > 0 {
        bytes_lt_irreflexive(a.drop_first());
    }
}

/// The order is transitive.
pub proof fn bytes_lt_transitive(a: Seq<u8>, b: Seq<u8>, c: Seq<u8>)
    requires
        bytes_lt(a, b),
        bytes_lt(b, c),
    ensures
        bytes_lt(a, c),
    decreases a.len(),
{
    if a.len() > 0 && a[0] == b[0] && b[0] == c[0] {
        bytes_lt_transitive(a.drop_first(), b.drop_first(), c.drop_first());
    }
}

/// Of two byte strings, one comes first or they are equal.
pub proof fn bytes_lt_total(a: Seq<u8>, b: Seq<u8>)
    ensures
        bytes_lt(a, b) || a == b || bytes_lt(b, a),
    decreases a.len(),
{
    if a.len() == 0 || b.len() == 0 {
        if a.len() == 0 && b.len() == 0 {
            assert(a =~= b);
        }
    } else if a[0] == b[0] {
        bytes_lt_total(a.drop_first(), b.drop_first());
        if a.drop_first() == b.drop_first() {
            assert(a =~= seq![a[0]] + a.drop_first());
            assert(b =~= seq![b[0]] + b.drop_first());
        }
    }
}

/// Compares two byte strings.
pub fn less_bytes(a: &[u8], b: &[u8]) -> (r: bool)
    ensures
        r == bytes_lt(a@, b@),
{
    let mut i: usize = 0;
    assert(a@.skip(0) =~= a@);
    assert(b@.skip(0) =~= b@);
    while i < a.len() && i < b.len()
        invariant
            i <= a.len(),
            i <= b.len(),
            bytes_lt(a@, b@) == bytes_lt(a@.skip(i as int), b@.skip(i as int)),
        decreases a.len() - i,
    {
        assert(a@.skip(i as int)[0] == a@[i as int]);
        assert(b@.skip(i as int)[0] == b@[i as int]);
        if a[i] != b[i] {
            return a[i] < b[i];
        }
        assert(a@.skip(i as int).drop_first() =~= a@.skip(i + 1));
        assert(b@.skip(i as int).drop_first() =~= b@.skip(i + 1));
        i = i + 1;
    }
    i < b.len()
}

/// Position `i` comes before position `j` when its key is smaller, or the keys
/// are equal and `i` is smaller.
pub open spec fn position_before(keys: Seq<Seq<u8>>, i: int, j: int) -> bool {
    bytes_lt(keys[i], keys[j]) || (keys[i] == keys[j] && i < j)
}

/// `order` lists each position of `keys` once, by key, and positions with equal
/// keys in their own order.
pub open spec fn is_stable_order(keys: Seq<Seq<u8>>, order: Seq<int>) -> bool {
    &&& order.len() == keys.len()
    &&& forall|a: int| 0 <= a < order.len() ==> 0 <= #[trigger] order[a] < keys.len()
    &&& forall|i: int| 0 <= i < keys.len() ==> #[trigger] order.contains(i)
    &&& forall|a: int, b: int|
        0 <= a < b < order.len() ==> position_before(keys, #[trigger] order[a], #[trigger] order[b])
}

/// The stable order of the given keys.
pub open spec fn stable_order(keys: Seq<Seq<u8>>) -> Seq<int> {
    choose|order: Seq<int>| is_stable_order(keys, order)
}

proof fn lemma_before_irreflexive(keys: Seq<Seq<u8>>, i: int)
    ensures
        !position_before(keys, i, i),
{
    bytes_lt_irreflexive(keys[i]);
}

proof fn lemma_before_transitive(keys: Seq<Seq<u8>>, i: int, j: int, k: int)
    requires
        position_before(keys, i, j),
        position_before(keys, j, k),
    ensures
        position_before(keys, i, k),
{
    if bytes_lt(keys[i], keys[j]) && bytes_lt(keys[j], keys[k]) {
        bytes_lt_transitive(keys[i], keys[j], keys[k]);
    }
}

/// A sequence of keys has only one stable order.
pub proof fn stable_order_is_unique(keys: Seq<Seq<u8>>, x: Seq<int>, y: Seq<int>)
    requires
        is_stable_order(keys, x),
        is_stable_order(keys, y),
    ensures
        x == y,
{
    assert forall|a: int| 0 <= a < x.len() implies x[a] == y[a] by {
        lemma_orders_agree(keys, x, y, a);
    }
    assert(x =~= y);
}

proof fn lemma_orders_agree(keys: Seq<Seq<u8>>, x: Seq<int>, y: Seq<int>, a: int)
    requires
        is_stable_order(keys, x),
        is_stable_order(keys, y),
        0 <= a < x.len(),
    ensures
        x[a] == y[a],
    decreases a,
{
    assert forall|b: int| 0 <= b < a implies x[b] == y[b] by {
        lemma_orders_agree(keys, x, y, b);
    }
    if x[a] != y[a] {
        // x[a] stands later in y, and y[a] stands later in x.
        assert(y.contains(x[a]));
        let p = choose|p: int| 0 <= p < y.len() && y[p] == x[a];
        assert(x.contains(y[a]));
        let q = choose|q: int| 0 <= q < x.len() && x[q] == y[a];
        if p < a {
            assert(x[p] == x[a]);
            lemma_before_irreflexive(keys, x[a]);
        }
        if q < a {
            assert(y[q] == y[a]);
            lemma_before_irreflexive(keys, y[a]);
        }
        assert(position_before(keys, x[a], x[q]));
        assert(position_before(keys, y[a], y[p]));
        lemma_before_transitive(keys, x[a], y[a], x[a]);
        lemma_before_irreflexive(keys, x[a]);
    }
}

/// Every sequence of keys has a stable order.
pub proof fn stable_order_exists(keys: Seq<Seq<u8>>)
    ensures
        is_stable_order(keys, stable_order(keys)),
    decreases keys.len(),
{
    if keys.len() == 0 {
        assert(is_stable_order(keys, Seq::empty()));
    } else {
        let known = keys.drop_last();
        let i: int = keys.len() - 1;
        stable_order_exists(known);
        let order = stable_order(known);
        let at = lemma_insertion_point(known, order, keys.last());
        lemma_insert_keeps_order(keys, order, at);
        assert(is_stable_order(keys, order.insert(at, i)));
    }
}

/// The number of positions in `order` whose key does not come after `key`.
proof fn lemma_insertion_point(keys: Seq<Seq<u8>>, order: Seq<int>, key: Seq<u8>) -> (at: int)
    requires
        is_stable_order(keys, order),
    ensures
        0 <= at <= order.len(),
        forall|a: int| 0 <= a < at ==> !bytes_lt(key, keys[#[trigger] order[a]]),
        forall|a: int| at <= a < order.len() ==> bytes_lt(key, keys[#[trigger] order[a]]),
{
    if exists|a: int| 0 <= a < order.len() && bytes_lt(key, keys[order[a]]) {
        let a = choose|a: int| 0 <= a < order.len() && bytes_lt(key, keys[order[a]]);
        lemma_descend(keys, order, key, a)
    } else {
        order.len() as int
    }
}

proof fn lemma_descend(keys: Seq<Seq<u8>>, order: Seq<int>, key: Seq<u8>, a: int) -> (at: int)
    requires
        is_stable_order(keys, order),
        0 <= a < order.len(),
        bytes_lt(key, keys[order[a]]),
    ensures
        0 <= at <= a,
        forall|b: int| 0 <= b < at ==> !bytes_lt(key, keys[#[trigger] order[b]]),
        forall|b: int| at <= b < order.len() ==> bytes_lt(key, keys[#[trigger] order[b]]),
    decreases a,
{
    if a > 0 && bytes_lt(key, keys[order[a - 1]]) {
        lemma_descend(keys, order, key, a - 1)
    } else {
        assert forall|b: int| a <= b < order.len() implies bytes_lt(key, keys[#[trigger] order[b]]) by {
            if a < b {
                assert(position_before(keys, order[a], order[b]));
                if bytes_lt(keys[order[a]], keys[order[b]]) {
                    bytes_lt_transitive(key, keys[order[a]], keys[order[b]]);
                }
            }
        }
        assert forall|b: int| 0 <= b < a implies !bytes_lt(key, keys[#[trigger] order[b]]) by {
            if b < a - 1 && bytes_lt(key, keys[order[b]]) {
                assert(position_before(keys, order[b], order[a - 1]));
                if bytes_lt(keys[order[b]], keys[order[a - 1]]) {
                    bytes_lt_transitive(key, keys[order[b]], keys[order[a - 1]]);
                }
            }
        }
        a
    }
}

/// Inserting the last position where its key belongs keeps the order.
proof fn lemma_insert_keeps_order(keys: Seq<Seq<u8>>, order: Seq<int>, at: int)
    requires
        keys.len() > 0,
        is_stable_order(keys.drop_last(), order),
        0 <= at <= order.len(),
        forall|a: int| 0 <= a < at ==> !bytes_lt(keys.last(), keys.drop_last()[#[trigger] order[a]]),
        forall|a: int| at <= a < order.len() ==> bytes_lt(keys.last(), keys.drop_last()[#[trigger] order[a]]),
    ensures
        is_stable_order(keys, order.insert(at, keys.len() - 1)),
{
    let known = keys.drop_last();
    let i: int = keys.len() - 1;
    let after = order.insert(at, i);
    assert forall|k: int| 0 <= k < keys.len() implies #[trigger] after.contains(k) by {
        if k == i {
            assert(after[at] == k);
        } else {
            assert(order.contains(k));
            let a = choose|a: int| 0 <= a < order.len() && order[a] == k;
            assert(after[if a < at { a } else { a + 1 }] == k);
        }
    }
    assert forall|a: int, b: int| 0 <= a < b < after.len() implies position_before(
        keys,
        #[trigger] after[a],
        #[trigger] after[b],
    ) by {
        if a == at {
            assert(after[b] == order[b - 1]);
            assert(bytes_lt(keys.last(), known[order[b - 1]]));
        } else if b == at {
            assert(after[a] == order[a]);
            assert(!bytes_lt(keys.last(), known[order[a]]));
            bytes_lt_total(known[order[a]], keys.last());
        } else {
            let x: int = if a < at { a } else { a - 1 };
            let y: int = if b < at { b } else { b - 1 };
            assert(after[a] == order[x] && after[b] == order[y]);
            assert(position_before(known, order[x], order[y]));
        }
    }
}

/// The keys as byte strings.
pub open spec fn views(keys: Seq<Vec<u8>>) -> Seq<Seq<u8>> {
    keys.map_values(|k: Vec<u8>| k@)
}

/// Positions as integers.
pub open spec fn positions(order: Seq<usize>) -> Seq<int> {
    order.map_values(|p: usize| p as int)
}

/// Sorts the positions of `keys` by key, equal keys in their own order.
pub fn sort_positions(keys: &Vec<Vec<u8>>) -> (order: Vec<usize>)
    ensures
        positions(order@) == stable_order(views(keys@)),
        is_stable_order(views(keys@), positions(order@)),
{
    let ghost all = views(keys@);
    let mut order: Vec<usize> = Vec::new();
    let mut i: usize = 0;
    assert(positions(order@) =~= Seq::<int>::empty());
    while i < keys.len()
        invariant
            i <= keys.len(),
            all == views(keys@),
            is_stable_order(all.take(i as int), positions(order@)),
        decreases keys.len() - i,
    {
        let ghost before = positions(order@);
        let ghost known = all.take(i as int);
        let mut lo: usize = 0;
        let mut hi: usize = order.len();
        while lo < hi
            invariant
                lo <= hi <= order.len(),
                i < keys.len(),
                all == views(keys@),
                known == all.take(i as int),
                before == positions(order@),
                is_stable_order(known, before),
                forall|a: int| 0 <= a < lo ==> !bytes_lt(all[i as int], all[#[trigger] before[a]]),
                forall|a: int| hi <= a < before.len() ==> bytes_lt(all[i as int], all[#[trigger] before[a]]),
            decreases hi - lo,
        {
            let mid: usize = lo + (hi - lo) / 2;
            let p: usize = order[mid];
            assert(before[mid as int] == p);
            assert(0 <= before[mid as int] < known.len());
            let smaller: bool = less_bytes(keys[i].as_slice(), keys[p].as_slice());
            assert(all[i as int] == keys@[i as int]@);
            assert(all[p as int] == keys@[p as int]@);
            if smaller {
                proof {
                    assert forall|a: int| mid <= a < before.len() implies bytes_lt(
                        all[i as int],
                        all[#[trigger] before[a]],
                    ) by {
                        if mid < a {
                            assert(position_before(known, before[mid as int], before[a]));
                            assert(known[before[a]] == all[before[a]]);
                            assert(known[before[mid as int]] == all[before[mid as int]]);
                            if bytes_lt(all[p as int], all[before[a]]) {
                                bytes_lt_transitive(all[i as int], all[p as int], all[before[a]]);
                            }
                        }
                    }
                }
                hi = mid;
            } else {
                proof {
                    assert forall|a: int| 0 <= a <= mid implies !bytes_lt(
                        all[i as int],
                        all[#[trigger] before[a]],
                    ) by {
                        if a < mid && bytes_lt(all[i as int], all[before[a]]) {
                            assert(position_before(known, before[a], before[mid as int]));
                            assert(known[before[a]] == all[before[a]]);
                            assert(known[before[mid as int]] == all[before[mid as int]]);
                            if bytes_lt(all[before[a]], all[p as int]) {
                                bytes_lt_transitive(all[i as int], all[before[a]], all[p as int]);
                            }
                        }
                    }
                }
                lo = mid + 1;
            }
        }
        order.insert(lo, i);
        proof {
            let wider = all.take(i + 1);
            assert(wider.drop_last() =~= known);
            assert forall|a: int| 0 <= a < before.len() implies known[#[trigger] before[a]] == all[before[a]] by {
                assert(0 <= before[a] < known.len());
            }
            lemma_insert_keeps_order(wider, before, lo as int);
            assert(positions(order@) =~= before.insert(lo as int, i as int));
        }
        i = i + 1;
    }
    proof {
        assert(all.take(all.len() as int) =~= all);
        stable_order_is_unique(all, positions(order@), stable_order(all));
    }
    order
}

/// The UTF-8 encodings of texts.
pub open spec fn encodings(names: Seq<Seq<char>>) -> Seq<Seq<u8>> {
    names.map_values(|t: Seq<char>| vstd::utf8::encode_utf8(t))
}

/// The texts in the order of their UTF-8 encodings.
pub open spec fn sorted_texts(names: Seq<Seq<char>>) -> Seq<Seq<char>> {
    stable_order(encodings(names)).map_values(|p: int| names[p])
}

/// Sorts texts.
pub fn sort_texts(names: &Vec<String>) -> (sorted: Vec<String>)
    ensures
        crate::text::texts(sorted@) == sorted_texts(crate::text::texts(names@)),
{
    let ghost all = crate::text::texts(names@);
    let mut keys: Vec<Vec<u8>> = Vec::new();
    let mut i: usize = 0;
    while i < names.len()
        invariant
            i <= names.len(),
            all == crate::text::texts(names@),
            views(keys@) == encodings(all).take(i as int),
        decreases names.len() - i,
    {
        let ghost before = keys@;
        let bytes = names[i].as_str().as_bytes();
        let key = crate::text::bytes_between(bytes, 0, bytes.len());
        assert(key@ =~= bytes@);
        keys.push(key);
        assert(views(keys@) =~= views(before).push(key@));
        i = i + 1;
        assert(views(keys@) =~= encodings(all).take(i as int));
    }
    assert(views(keys@) =~= encodings(all));
    let order = sort_positions(&keys);
    let mut sorted: Vec<String> = Vec::new();
    let mut k: usize = 0;
    while k < order.len()
        invariant
            k <= order.len(),
            all == crate::text::texts(names@),
            positions(order@) == stable_order(encodings(all)),
            is_stable_order(encodings(all), positions(order@)),
            crate::text::texts(sorted@) == sorted_texts(all).take(k as int),
        decreases order.len() - k,
    {
        let ghost before = sorted@;
        assert(positions(order@)[k as int] == order@[k as int] as int);
        sorted.push(names[order[k]].clone());
        assert(crate::text::texts(sorted@) =~= crate::text::texts(before).push(all[order@[k as int] as int]));
        k = k + 1;
        assert(crate::text::texts(sorted@) =~= sorted_texts(all).take(k as int));
    }
    assert(crate::text::texts(sorted@) =~= sorted_texts(all));
    sorted
}

/// Sorted texts are the same texts, each as often, in the order of their encodings.
pub proof fn sorted_texts_are_in_order(names: Seq<Seq<char>>)
    ensures
        sorted_texts(names).len() == names.len(),
        forall|a: int, b: int|
            0 <= a < b < names.len() ==> !bytes_lt(
                vstd::utf8::encode_utf8(#[trigger] sorted_texts(names)[b]),
                vstd::utf8::encode_utf8(#[trigger] sorted_texts(names)[a]),
            ),
        forall|t: Seq<char>| #[trigger] sorted_texts(names).contains(t) <==> names.contains(t),
        exists|p: Seq<int>|
            #![trigger p.len()]
            p.len() == names.len() && (forall|i: int| 0 <= i < names.len() ==> #[trigger] p.contains(i)) && (forall|
                a: int,
            |
                0 <= a < p.len() ==> 0 <= #[trigger] p[a] < names.len() && sorted_texts(names)[a] == names[p[a]]),
{
    let keys = encodings(names);
    stable_order_exists(keys);
    let order = stable_order(keys);
    let sorted = sorted_texts(names);
    assert forall|a: int, b: int| 0 <= a < b < names.len() implies !bytes_lt(
        vstd::utf8::encode_utf8(#[trigger] sorted[b]),
        vstd::utf8::encode_utf8(#[trigger] sorted[a]),
    ) by {
        assert(position_before(keys, order[a], order[b]));
        let x = keys[order[a]];
        let y = keys[order[b]];
        assert(x == vstd::utf8::encode_utf8(sorted[a]));
        assert(y == vstd::utf8::encode_utf8(sorted[b]));
        bytes_lt_irreflexive(x);
        if bytes_lt(x, y) && bytes_lt(y, x) {
            bytes_lt_transitive(x, y, x);
        }
    }
    assert forall|t: Seq<char>| #[trigger] sorted.contains(t) <==> names.contains(t) by {
        if names.contains(t) {
            let i = choose|i: int| 0 <= i < names.len() && names[i] == t;
            assert(order.contains(i));
            let a = choose|a: int| 0 <= a < order.len() && order[a] == i;
            assert(sorted[a] == t);
        }
        if sorted.contains(t) {
            let a = choose|a: int| 0 <= a < sorted.len() && sorted[a] == t;
            assert(names[order[a]] == t);
        }
    }
    assert(order.len() == names.len());
}

/// Which of two byte strings comes first is decided by the first byte in which they differ;
/// the beginning of another comes before it.
pub proof fn first_difference_decides(p: Seq<u8>, a: u8, x: Seq<u8>, b: u8, y: Seq<u8>)
    ensures
        bytes_lt(p + seq![a] + x, p + seq![b] + y) <== a < b,
        bytes_lt(p, p + seq![b] + y),
        !bytes_lt(p + seq![b] + y, p),
    decreases p.len(),
{
    if p.len() == 0 {
        assert((p + seq![a] + x)[0] == a);
        assert((p + seq![b] + y)[0] == b);
    } else {
        let t = p.drop_first();
        first_difference_decides(t, a, x, b, y);
        assert((p + seq![a] + x).drop_first() =~= t + seq![a] + x);
        assert((p + seq![b] + y).drop_first() =~= t + seq![b] + y);
    }
}

} // verus!
