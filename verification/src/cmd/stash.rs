//! Saving changes for later: stashes are pins whose names begin with `stash/`.

use vstd::multiset::Multiset;
use vstd::prelude::*;

use crate::format::format_relative_to;
use crate::format::CivilTime;
use crate::journal::{Checkpoint, CheckpointView, History, HistoryView};
use crate::text::{chars_between, chars_of, has_prefix, parse_number, string_of};
use crate::ui::{
    add_line, add_page, add_text, blank, concat, counted_text, joined_texts, no_lines, put, Span, SpanView, Style,
};

verus! {

/// What the names of stashes begin with.
pub open spec fn stash_prefix() -> Seq<char> {
    "stash/"@
}

/// The pins that are stashes, in the order in which they are listed.
pub open spec fn stashes(pins: Seq<(Seq<char>, u128)>) -> Seq<(Seq<char>, u128)> {
    pins.filter(|p: (Seq<char>, u128)| crate::text::begins_with(p.0, stash_prefix()))
}

/// Collects the stashes among pins.
pub fn stash_pins(pins: &Vec<(String, u128)>) -> (out: Vec<(String, u128)>)
    ensures
        crate::journal::pin_views(out@) == stashes(crate::journal::pin_views(pins@)),
{
    let ghost all = crate::journal::pin_views(pins@);
    let prefix = chars_of("stash/");
    let mut out: Vec<(String, u128)> = Vec::new();
    let mut i: usize = 0;
    proof {
        reveal(Seq::filter);
        assert(all.take(0) =~= Seq::empty());
        assert(crate::journal::pin_views(out@) =~= Seq::empty());
    }
    while i < pins.len()
        invariant
            i <= pins.len(),
            prefix@ == stash_prefix(),
            all == crate::journal::pin_views(pins@),
            crate::journal::pin_views(out@) == stashes(all.take(i as int)),
        decreases pins.len() - i,
    {
        let ghost before = out@;
        proof {
            reveal(Seq::filter);
            assert(all.take(i + 1).drop_last() =~= all.take(i as int));
            assert(all.take(i + 1).last() == (pins@[i as int].0@, pins@[i as int].1));
        }
        let name = chars_of(pins[i].0.as_str());
        if has_prefix(name.as_slice(), prefix.as_slice()) {
            out.push((pins[i].0.clone(), pins[i].1));
            assert(crate::journal::pin_views(out@) =~= crate::journal::pin_views(before).push(
                (pins@[i as int].0@, pins@[i as int].1),
            ));
        }
        i = i + 1;
    }
    assert(all.take(all.len() as int) =~= all);
    out
}

/// The time of a checkpoint; the start of 1970 where it is not recorded.
pub open spec fn time_of(h: HistoryView, id: u128) -> u64 {
    match h.find(id) {
        Some(c) => c.ts_unix_ms,
        None => 0,
    }
}

/// The list with one more stash: behind all that are as new or newer.
pub open spec fn with_stash(h: HistoryView, list: Seq<(Seq<char>, u128)>, x: (Seq<char>, u128)) -> Seq<
    (Seq<char>, u128),
>
    decreases list.len(),
{
    if list.len() > 0 && time_of(h, list.last().1) < time_of(h, x.1) {
        with_stash(h, list.drop_last(), x).push(list.last())
    } else {
        list.push(x)
    }
}

/// Stashes by the time of their checkpoints, newest first, those of one time in the
/// order in which they are listed.
pub open spec fn by_time(h: HistoryView, list: Seq<(Seq<char>, u128)>) -> Seq<(Seq<char>, u128)>
    decreases list.len(),
{
    if list.len() == 0 {
        Seq::empty()
    } else {
        with_stash(h, by_time(h, list.drop_last()), list.last())
    }
}

/// The checkpoint of the stash is recorded.
pub open spec fn is_dated(h: HistoryView, x: (Seq<char>, u128)) -> bool {
    h.find(x.1) is Some
}

/// The stashes whose checkpoints are recorded.
pub open spec fn dated(h: HistoryView, list: Seq<(Seq<char>, u128)>) -> Seq<(Seq<char>, u128)> {
    list.filter(|x: (Seq<char>, u128)| is_dated(h, x))
}

/// The list with other stashes, in their order, in the places of those whose checkpoints
/// are recorded.
pub open spec fn placed(h: HistoryView, list: Seq<(Seq<char>, u128)>, sorted: Seq<(Seq<char>, u128)>) -> Seq<
    (Seq<char>, u128),
>
    decreases list.len(),
{
    if list.len() == 0 {
        Seq::empty()
    } else if is_dated(h, list.last()) {
        placed(h, list.drop_last(), sorted.drop_last()).push(sorted.last())
    } else {
        placed(h, list.drop_last(), sorted).push(list.last())
    }
}

/// The stashes by the time of their checkpoints, newest first, those of one time in
/// the order in which they are listed. One whose checkpoint is not recorded compares
/// with no other and keeps its place.
pub open spec fn newest_first(h: HistoryView, list: Seq<(Seq<char>, u128)>) -> Seq<(Seq<char>, u128)> {
    placed(h, list, by_time(h, dated(h, list)))
}

proof fn lemma_with_stash(h: HistoryView, list: Seq<(Seq<char>, u128)>, x: (Seq<char>, u128), k: int)
    requires
        0 <= k <= list.len(),
        forall|j: int| k <= j < list.len() ==> time_of(h, (#[trigger] list[j]).1) < time_of(h, x.1),
        k > 0 ==> time_of(h, list[k - 1].1) >= time_of(h, x.1),
    ensures
        with_stash(h, list, x) == list.insert(k, x),
    decreases list.len(),
{
    if k < list.len() {
        assert(time_of(h, list[list.len() - 1].1) < time_of(h, x.1));
        lemma_with_stash(h, list.drop_last(), x, k);
        assert(list.drop_last().insert(k, x).push(list.last()) =~= list.insert(k, x));
    } else {
        assert(list.push(x) =~= list.insert(k, x));
    }
}

proof fn lemma_by_time(h: HistoryView, list: Seq<(Seq<char>, u128)>)
    ensures
        by_time(h, list).len() == list.len(),
        is_sorted(h, by_time(h, list)),
        by_time(h, list).to_multiset() == list.to_multiset(),
    decreases list.len(),
{
    broadcast use vstd::seq_lib::group_to_multiset_ensures;

    if list.len() > 0 {
        let front = list.drop_last();
        lemma_by_time(h, front);
        lemma_insertion(h, by_time(h, front), list.last());
        assert(list =~= front.push(list.last()));
    } else {
        assert(list =~= Seq::empty());
    }
}

proof fn lemma_dated_step(h: HistoryView, list: Seq<(Seq<char>, u128)>)
    requires
        list.len() > 0,
    ensures
        dated(h, list) == if is_dated(h, list.last()) {
            dated(h, list.drop_last()).push(list.last())
        } else {
            dated(h, list.drop_last())
        },
{
    reveal(Seq::filter);
}

proof fn lemma_placed(h: HistoryView, list: Seq<(Seq<char>, u128)>, sorted: Seq<(Seq<char>, u128)>)
    requires
        sorted.len() == dated(h, list).len(),
        is_sorted(h, sorted),
        forall|i: int| 0 <= i < sorted.len() ==> is_dated(h, #[trigger] sorted[i]),
    ensures
        placed(h, list, sorted).len() == list.len(),
        forall|i: int|
            0 <= i < list.len() && !is_dated(h, #[trigger] list[i]) ==> placed(h, list, sorted)[i] == list[i],
        forall|i: int|
            0 <= i < list.len() && is_dated(h, #[trigger] placed(h, list, sorted)[i]) ==> sorted.contains(
                placed(h, list, sorted)[i],
            ),
        forall|i: int, j: int|
            0 <= i < j < list.len() && is_dated(h, #[trigger] placed(h, list, sorted)[i]) && is_dated(
                h,
                #[trigger] placed(h, list, sorted)[j],
            ) ==> time_of(h, placed(h, list, sorted)[i].1) >= time_of(h, placed(h, list, sorted)[j].1),
        placed(h, list, sorted).to_multiset().add(dated(h, list).to_multiset()) == list.to_multiset().add(
            sorted.to_multiset(),
        ),
    decreases list.len(),
{
    broadcast use vstd::seq_lib::group_to_multiset_ensures;

    let out = placed(h, list, sorted);
    if list.len() == 0 {
        reveal(Seq::filter);
        assert(list =~= Seq::empty());
        assert(sorted =~= Seq::empty());
        assert(out =~= Seq::empty());
    } else {
        let front = list.drop_last();
        lemma_dated_step(h, list);
        assert(list =~= front.push(list.last()));
        if is_dated(h, list.last()) {
            let rest = sorted.drop_last();
            assert forall|i: int| 0 <= i < rest.len() implies is_dated(h, #[trigger] rest[i]) by {
                assert(rest[i] == sorted[i]);
            }
            assert forall|i: int, j: int| 0 <= i < j < rest.len() implies time_of(h, (#[trigger] rest[i]).1)
                >= time_of(h, (#[trigger] rest[j]).1) by {
                assert(rest[i] == sorted[i] && rest[j] == sorted[j]);
            }
            lemma_placed(h, front, rest);
            let inner = placed(h, front, rest);
            assert(sorted =~= rest.push(sorted.last()));
            assert forall|i: int| 0 <= i < list.len() && !is_dated(h, #[trigger] list[i]) implies out[i] == list[i] by {
                assert(front[i] == list[i]);
            }
            assert forall|i: int| 0 <= i < list.len() && is_dated(h, #[trigger] out[i]) implies sorted.contains(out[i]) by {
                if i < inner.len() {
                    assert(inner[i] == out[i]);
                    assert(rest.contains(inner[i]));
                    let k = choose|k: int| 0 <= k < rest.len() && rest[k] == inner[i];
                    assert(sorted[k] == out[i]);
                } else {
                    assert(sorted[sorted.len() - 1] == out[i]);
                }
            }
            assert forall|i: int, j: int|
                0 <= i < j < list.len() && is_dated(h, #[trigger] out[i]) && is_dated(h, #[trigger] out[j]) implies time_of(
                h,
                out[i].1,
            ) >= time_of(h, out[j].1) by {
                assert(inner[i] == out[i]);
                if j < inner.len() {
                    assert(inner[j] == out[j]);
                } else {
                    assert(rest.contains(inner[i]));
                    let k = choose|k: int| 0 <= k < rest.len() && rest[k] == inner[i];
                    assert(sorted[k] == out[i]);
                    assert(sorted[sorted.len() - 1] == out[j]);
                }
            }
            assert(out.to_multiset().add(dated(h, list).to_multiset()) =~= list.to_multiset().add(
                sorted.to_multiset(),
            )) by {
                assert(out.to_multiset() =~= inner.to_multiset().insert(sorted.last()));
                assert(dated(h, list).to_multiset() =~= dated(h, front).to_multiset().insert(list.last()));
                assert(list.to_multiset() =~= front.to_multiset().insert(list.last()));
                assert(sorted.to_multiset() =~= rest.to_multiset().insert(sorted.last()));
                assert(inner.to_multiset().add(dated(h, front).to_multiset()) == front.to_multiset().add(
                    rest.to_multiset(),
                ));
                lemma_add_two(
                    inner.to_multiset(),
                    dated(h, front).to_multiset(),
                    front.to_multiset(),
                    rest.to_multiset(),
                    sorted.last(),
                    list.last(),
                );
            }
        } else {
            lemma_placed(h, front, sorted);
            let inner = placed(h, front, sorted);
            assert forall|i: int| 0 <= i < list.len() && !is_dated(h, #[trigger] list[i]) implies out[i] == list[i] by {
                if i < front.len() {
                    assert(front[i] == list[i]);
                }
            }
            assert forall|i: int| 0 <= i < list.len() && is_dated(h, #[trigger] out[i]) implies sorted.contains(out[i]) by {
                assert(inner[i] == out[i]);
            }
            assert forall|i: int, j: int|
                0 <= i < j < list.len() && is_dated(h, #[trigger] out[i]) && is_dated(h, #[trigger] out[j]) implies time_of(
                h,
                out[i].1,
            ) >= time_of(h, out[j].1) by {
                assert(inner[i] == out[i] && inner[j] == out[j]);
            }
            assert(out.to_multiset() =~= inner.to_multiset().insert(list.last()));
            assert(list.to_multiset() =~= front.to_multiset().insert(list.last()));
            lemma_add_one(
                inner.to_multiset(),
                dated(h, front).to_multiset(),
                front.to_multiset(),
                sorted.to_multiset(),
                list.last(),
            );
        }
    }
}

proof fn lemma_add_one(
    a: Multiset<(Seq<char>, u128)>,
    b: Multiset<(Seq<char>, u128)>,
    c: Multiset<(Seq<char>, u128)>,
    d: Multiset<(Seq<char>, u128)>,
    x: (Seq<char>, u128),
)
    requires
        a.add(b) == c.add(d),
    ensures
        a.insert(x).add(b) == c.insert(x).add(d),
{
    assert(a.insert(x).add(b) =~= a.add(b).insert(x));
    assert(c.insert(x).add(d) =~= c.add(d).insert(x));
}

proof fn lemma_add_two(
    a: Multiset<(Seq<char>, u128)>,
    b: Multiset<(Seq<char>, u128)>,
    c: Multiset<(Seq<char>, u128)>,
    d: Multiset<(Seq<char>, u128)>,
    x: (Seq<char>, u128),
    y: (Seq<char>, u128),
)
    requires
        a.add(b) == c.add(d),
    ensures
        a.insert(x).add(b.insert(y)) == c.insert(y).add(d.insert(x)),
{
    assert(a.insert(x).add(b.insert(y)) =~= a.add(b).insert(x).insert(y));
    assert(c.insert(y).add(d.insert(x)) =~= c.add(d).insert(x).insert(y));
}

proof fn lemma_sorted_dated(h: HistoryView, list: Seq<(Seq<char>, u128)>)
    ensures
        by_time(h, dated(h, list)).len() == dated(h, list).len(),
        is_sorted(h, by_time(h, dated(h, list))),
        forall|i: int|
            0 <= i < by_time(h, dated(h, list)).len() ==> is_dated(h, #[trigger] by_time(h, dated(h, list))[i]),
{
    broadcast use vstd::seq_lib::group_to_multiset_ensures;

    let d = dated(h, list);
    let sorted = by_time(h, d);
    lemma_by_time(h, d);
    assert forall|i: int| 0 <= i < sorted.len() implies is_dated(h, #[trigger] sorted[i]) by {
        assert(sorted.contains(sorted[i]));
        assert(sorted.to_multiset().count(sorted[i]) > 0);
        assert(d.to_multiset().count(sorted[i]) > 0);
        assert(d.contains(sorted[i]));
        list.lemma_filter_contains_rev(|x: (Seq<char>, u128)| is_dated(h, x), sorted[i]);
    }
}

/// Newer stashes come first, among those whose checkpoints are recorded; the others keep
/// their places.
pub proof fn newest_first_is_sorted(h: HistoryView, list: Seq<(Seq<char>, u128)>)
    ensures
        newest_first(h, list).len() == list.len(),
        forall|i: int, j: int|
            0 <= i < j < list.len() && is_dated(h, #[trigger] newest_first(h, list)[i]) && is_dated(
                h,
                #[trigger] newest_first(h, list)[j],
            ) ==> time_of(h, newest_first(h, list)[i].1) >= time_of(h, newest_first(h, list)[j].1),
        forall|i: int|
            0 <= i < list.len() && !is_dated(h, #[trigger] list[i]) ==> newest_first(h, list)[i] == list[i],
{
    lemma_sorted_dated(h, list);
    lemma_placed(h, list, by_time(h, dated(h, list)));
}

spec fn is_sorted(h: HistoryView, list: Seq<(Seq<char>, u128)>) -> bool {
    forall|i: int, j: int|
        0 <= i < j < list.len() ==> time_of(h, (#[trigger] list[i]).1) >= time_of(h, (#[trigger] list[j]).1)
}

proof fn lemma_insertion(h: HistoryView, list: Seq<(Seq<char>, u128)>, x: (Seq<char>, u128))
    requires
        is_sorted(h, list),
    ensures
        with_stash(h, list, x).len() == list.len() + 1,
        is_sorted(h, with_stash(h, list, x)),
        with_stash(h, list, x).to_multiset() == list.to_multiset().insert(x),
        forall|i: int|
            0 <= i < with_stash(h, list, x).len() ==> (#[trigger] with_stash(h, list, x)[i]) == x || list.contains(
                with_stash(h, list, x)[i],
            ),
    decreases list.len(),
{
    broadcast use vstd::seq_lib::group_to_multiset_ensures;

    let out = with_stash(h, list, x);
    if list.len() > 0 && time_of(h, list.last().1) < time_of(h, x.1) {
        let front = list.drop_last();
        lemma_insertion(h, front, x);
        let inner = with_stash(h, front, x);
        assert(list =~= front.push(list.last()));
        assert(list.to_multiset() == front.to_multiset().insert(list.last()));
        assert(out.to_multiset() =~= list.to_multiset().insert(x));
        assert forall|i: int| 0 <= i < out.len() implies (#[trigger] out[i]) == x || list.contains(out[i]) by {
            if i < inner.len() {
                assert(out[i] == inner[i]);
                if inner[i] != x {
                    let k = choose|k: int| 0 <= k < front.len() && front[k] == inner[i];
                    assert(list[k] == out[i]);
                }
            } else {
                assert(out[i] == list[list.len() - 1]);
            }
        }
        assert forall|i: int, j: int| 0 <= i < j < out.len() implies time_of(h, (#[trigger] out[i]).1) >= time_of(
            h,
            (#[trigger] out[j]).1,
        ) by {
            if j < inner.len() {
                assert(out[i] == inner[i] && out[j] == inner[j]);
            } else {
                assert(out[j] == list.last());
                assert(out[i] == inner[i]);
                if inner[i] != x {
                    let k = choose|k: int| 0 <= k < front.len() && front[k] == inner[i];
                    assert(list[k] == inner[i]);
                    assert(time_of(h, list[k].1) >= time_of(h, list[list.len() - 1].1));
                }
            }
        }
    } else {
        assert forall|i: int, j: int| 0 <= i < j < out.len() implies time_of(h, (#[trigger] out[i]).1) >= time_of(
            h,
            (#[trigger] out[j]).1,
        ) by {
            if j == list.len() && i < list.len() - 1 {
                assert(time_of(h, list[i].1) >= time_of(h, list[list.len() - 1].1));
            }
        }
    }
}

/// Sorting loses no stash and adds none.
pub proof fn newest_first_keeps_all(h: HistoryView, list: Seq<(Seq<char>, u128)>)
    ensures
        newest_first(h, list).to_multiset() == list.to_multiset(),
{
    let d = dated(h, list);
    lemma_sorted_dated(h, list);
    lemma_by_time(h, d);
    lemma_placed(h, list, by_time(h, d));
    let a = newest_first(h, list).to_multiset();
    let b = list.to_multiset();
    assert forall|x: (Seq<char>, u128)| a.count(x) == b.count(x) by {
        assert(a.add(d.to_multiset()).count(x) == b.add(d.to_multiset()).count(x));
    }
    assert(a =~= b);
}

fn time_in(history: &History, id: u128) -> (t: u64)
    ensures
        t == time_of(history@, id),
{
    match history.get(id) {
        Some(c) => c.ts_unix_ms,
        None => 0,
    }
}

fn dated_by_time(history: &History, list: &Vec<(String, u128)>) -> (out: Vec<(String, u128)>)
    ensures
        crate::journal::pin_views(out@) == by_time(history@, dated(history@, crate::journal::pin_views(list@))),
{
    let ghost all = crate::journal::pin_views(list@);
    let ghost h = history@;
    let mut out: Vec<(String, u128)> = Vec::new();
    let mut i: usize = 0;
    proof {
        reveal(Seq::filter);
        assert(all.take(0) =~= Seq::empty());
        assert(crate::journal::pin_views(out@) =~= Seq::empty());
    }
    while i < list.len()
        invariant
            i <= list.len(),
            h == history@,
            all == crate::journal::pin_views(list@),
            crate::journal::pin_views(out@) == by_time(h, dated(h, all.take(i as int))),
        decreases list.len() - i,
    {
        let ghost sorted = crate::journal::pin_views(out@);
        let ghost x = (list@[i as int].0@, list@[i as int].1);
        proof {
            assert(all.take(i + 1).drop_last() =~= all.take(i as int));
            assert(all.take(i + 1).last() == x);
            lemma_dated_step(h, all.take(i + 1));
            assert(dated(h, all.take(i as int)).push(x).drop_last() =~= dated(h, all.take(i as int)));
        }
        if history.get(list[i].1).is_some() {
            let time: u64 = time_in(history, list[i].1);
            let mut k: usize = out.len();
            while k > 0 && time_in(history, out[k - 1].1) < time
                invariant
                    k <= out.len(),
                    h == history@,
                    sorted == crate::journal::pin_views(out@),
                    time == time_of(h, x.1),
                    forall|j: int| k <= j < sorted.len() ==> time_of(h, (#[trigger] sorted[j]).1) < time,
                decreases k,
            {
                assert(sorted[k - 1] == (out@[k - 1].0@, out@[k - 1].1));
                k = k - 1;
            }
            proof {
                if k > 0 {
                    assert(sorted[k - 1] == (out@[k - 1].0@, out@[k - 1].1));
                }
                lemma_with_stash(h, sorted, x, k as int);
            }
            out.insert(k, (list[i].0.clone(), list[i].1));
            assert(crate::journal::pin_views(out@) =~= sorted.insert(k as int, x));
        }
        i = i + 1;
    }
    assert(all.take(all.len() as int) =~= all);
    out
}

/// The stashes among pins, newest first.
pub fn sorted_stashes(history: &History, pins: &Vec<(String, u128)>) -> (out: Vec<(String, u128)>)
    ensures
        crate::journal::pin_views(out@) == newest_first(history@, stashes(crate::journal::pin_views(pins@))),
{
    let list = stash_pins(pins);
    let by_date = dated_by_time(history, &list);
    let ghost all = crate::journal::pin_views(list@);
    let ghost sorted = crate::journal::pin_views(by_date@);
    let ghost h = history@;
    proof {
        lemma_sorted_dated(h, all);
    }
    let mut out: Vec<(String, u128)> = Vec::new();
    let mut i: usize = 0;
    let mut k: usize = 0;
    proof {
        reveal(Seq::filter);
        assert(all.take(0) =~= Seq::empty());
        assert(crate::journal::pin_views(out@) =~= Seq::empty());
    }
    while i < list.len()
        invariant
            i <= list.len(),
            h == history@,
            all == crate::journal::pin_views(list@),
            sorted == crate::journal::pin_views(by_date@),
            sorted.len() == dated(h, all).len(),
            k == dated(h, all.take(i as int)).len(),
            crate::journal::pin_views(out@) == placed(h, all.take(i as int), sorted.take(k as int)),
        decreases list.len() - i,
    {
        let ghost before = crate::journal::pin_views(out@);
        let ghost x = (list@[i as int].0@, list@[i as int].1);
        proof {
            assert(all.take(i + 1).drop_last() =~= all.take(i as int));
            assert(all.take(i + 1).last() == x);
            lemma_dated_step(h, all.take(i + 1));
            lemma_dated_grows(h, all, i + 1);
        }
        if history.get(list[i].1).is_some() {
            assert(k < by_date.len());
            assert(sorted.take(k + 1).drop_last() =~= sorted.take(k as int));
            assert(sorted.take(k + 1).last() == (by_date@[k as int].0@, by_date@[k as int].1));
            out.push((by_date[k].0.clone(), by_date[k].1));
            assert(crate::journal::pin_views(out@) =~= before.push((by_date@[k as int].0@, by_date@[k as int].1)));
            k = k + 1;
        } else {
            out.push((list[i].0.clone(), list[i].1));
            assert(crate::journal::pin_views(out@) =~= before.push(x));
        }
        i = i + 1;
    }
    assert(all.take(all.len() as int) =~= all);
    assert(sorted.take(k as int) =~= sorted);
    out
}

proof fn lemma_dated_grows(h: HistoryView, list: Seq<(Seq<char>, u128)>, n: int)
    requires
        0 <= n <= list.len(),
    ensures
        dated(h, list.take(n)).len() <= dated(h, list).len(),
    decreases list.len() - n,
{
    if n < list.len() {
        assert(list.take(n + 1).drop_last() =~= list.take(n));
        lemma_dated_step(h, list.take(n + 1));
        lemma_dated_grows(h, list, n + 1);
    } else {
        assert(list.take(n) =~= list);
    }
}

/// Why a reference to a stash cannot be resolved.
#[derive(Debug, Clone, Copy, PartialEq, Eq, Structural)]
pub enum StashRefError {
    /// There is no stash.
    NoStashes,
    /// What stands in the brackets is no number.
    InvalidIndex,
    /// There are not so many stashes.
    NotFound {
        /// The number in the brackets.
        index: usize,
    },
}

/// What references by number begin with.
pub open spec fn index_prefix() -> Seq<char> {
    "stash@{"@
}

/// The text without the prefix, as often as it begins with it.
pub open spec fn without_prefix(s: Seq<char>, p: Seq<char>) -> Seq<char>
    decreases s.len(),
{
    if p.len() > 0 && crate::text::begins_with(s, p) {
        without_prefix(s.skip(p.len() as int), p)
    } else {
        s
    }
}

/// The number in a reference `stash@{n}`.
pub open spec fn stash_index(reference: Seq<char>) -> Option<nat> {
    crate::text::parse_unsigned(
        vstd::utf8::encode_utf8(
            crate::git_config::strip_end(without_prefix(reference, index_prefix()), '}'),
        ),
        10,
        usize::MAX as nat,
    )
}

/// The name of the stash that a reference denotes: by its place, newest first, or by
/// its name with or without the prefix; without a reference, the newest.
pub open spec fn stash_named(h: HistoryView, pins: Seq<(Seq<char>, u128)>, reference: Option<Seq<char>>) -> Result<
    Seq<char>,
    StashRefError,
> {
    let list = newest_first(h, stashes(pins));
    match reference {
        Some(r) => if crate::text::begins_with(r, index_prefix()) {
            match stash_index(r) {
                None => Err(StashRefError::InvalidIndex),
                Some(n) => if n < list.len() {
                    Ok(list[n as int].0)
                } else {
                    Err(StashRefError::NotFound { index: n as usize })
                },
            }
        } else if crate::text::begins_with(r, stash_prefix()) {
            Ok(r)
        } else {
            Ok(stash_prefix() + r)
        },
        None => if list.len() == 0 {
            Err(StashRefError::NoStashes)
        } else {
            Ok(list[0].0)
        },
    }
}

fn index_in(reference: &[char]) -> (r: Option<u64>)
    ensures
        match r {
            Some(n) => stash_index(reference@) == Some(n as nat),
            None => stash_index(reference@) is None,
        },
        r is Some ==> r->0 <= usize::MAX,
{
    let prefix = chars_of("stash@{");
    let mut lo: usize = 0;
    proof {
        reveal_strlit("stash@{");
        assert(reference@.skip(0) =~= reference@);
    }
    while crate::text::stands_at(reference, lo, prefix.as_slice())
        invariant
            prefix@ == index_prefix(),
            prefix@.len() == 7,
            lo <= reference.len(),
            without_prefix(reference@, index_prefix()) == without_prefix(reference@.skip(lo as int), index_prefix()),
        decreases reference.len() - lo,
    {
        proof {
            let rest = reference@.skip(lo as int);
            assert(rest.take(7) =~= reference@.subrange(lo as int, lo + 7));
            assert(rest.skip(7) =~= reference@.skip(lo + 7));
        }
        lo = lo + 7;
    }
    let ghost rest = reference@.skip(lo as int);
    proof {
        assert(lo + 7 <= reference@.len() ==> rest.take(7) =~= reference@.subrange(lo as int, lo + 7));
        assert(without_prefix(reference@, index_prefix()) == rest);
    }
    let mut hi: usize = reference.len();
    assert(reference@.subrange(lo as int, hi as int) =~= rest);
    while hi > lo && reference[hi - 1] == '}'
        invariant
            lo <= hi <= reference.len(),
            crate::git_config::strip_end(rest, '}') == crate::git_config::strip_end(
                reference@.subrange(lo as int, hi as int),
                '}',
            ),
        decreases hi,
    {
        assert(reference@.subrange(lo as int, hi as int).drop_last() =~= reference@.subrange(lo as int, hi - 1));
        hi = hi - 1;
    }
    let digits = chars_between(reference, lo, hi);
    let text = string_of(digits.as_slice());
    parse_number(text.as_str().as_bytes(), 10, usize::MAX as u64)
}

/// Finds the name of the stash that a reference denotes.
pub fn resolve_stash(history: &History, pins: &Vec<(String, u128)>, reference: Option<&str>) -> (r: Result<
    String,
    StashRefError,
>)
    ensures
        match stash_named(
            history@,
            crate::journal::pin_views(pins@),
            match reference {
                Some(s) => Some(s@),
                None => None,
            },
        ) {
            Ok(name) => r matches Ok(s) && s@ == name,
            Err(e) => r == Err::<String, StashRefError>(e),
        },
{
    match reference {
        Some(s) => {
            let chars = chars_of(s);
            let by_index = chars_of("stash@{");
            let by_name = chars_of("stash/");
            if has_prefix(chars.as_slice(), by_index.as_slice()) {
                match index_in(chars.as_slice()) {
                    None => Err(StashRefError::InvalidIndex),
                    Some(n) => {
                        let list = sorted_stashes(history, pins);
                        let ghost all = crate::journal::pin_views(list@);
                        let index: usize = n as usize;
                        if index < list.len() {
                            assert(all[index as int] == (list@[index as int].0@, list@[index as int].1));
                            Ok(list[index].0.clone())
                        } else {
                            Err(StashRefError::NotFound { index })
                        }
                    },
                }
            } else if has_prefix(chars.as_slice(), by_name.as_slice()) {
                Ok(s.to_owned())
            } else {
                Ok(concat("stash/", s))
            }
        },
        None => {
            let list = sorted_stashes(history, pins);
            let ghost all = crate::journal::pin_views(list@);
            if list.len() == 0 {
                Err(StashRefError::NoStashes)
            } else {
                assert(all[0] == (list@[0].0@, list@[0].1));
                Ok(list[0].0.clone())
            }
        },
    }
}

/// The name of a stash with the prefix denotes the stash itself.
pub proof fn stash_name_denotes_itself(h: HistoryView, pins: Seq<(Seq<char>, u128)>, message: Seq<char>)
    ensures
        stash_named(h, pins, Some(stash_prefix() + message)) == (Ok::<Seq<char>, StashRefError>(
            stash_prefix() + message,
        )),
{
    reveal_strlit("stash/");
    reveal_strlit("stash@{");
    let name = stash_prefix() + message;
    assert(name.take(6) =~= stash_prefix());
    assert(name[5] == '/');
    if crate::text::begins_with(name, index_prefix()) {
        assert(name.take(7)[5] == '@');
    }
}

/// The first three touched paths of a stash, and how many more there are.
pub open spec fn sample_line(paths: Seq<Seq<char>>) -> Seq<SpanView> {
    if paths.len() <= 3 {
        seq![crate::ui::plain("      "@), crate::ui::styled(crate::ui::join(paths, ", "@), Style::Dimmed)]
    } else {
        seq![
            crate::ui::plain("      "@),
            crate::ui::styled(crate::ui::join(paths.take(3), ", "@), Style::Dimmed),
            crate::ui::plain(" ("@ + crate::text::decimal((paths.len() - 3) as nat) + " more)"@),
        ]
    }
}

/// The name of a stash without the prefix.
pub open spec fn bare_name(name: Seq<char>) -> Seq<char> {
    if crate::text::begins_with(name, stash_prefix()) {
        name.skip(stash_prefix().len() as int)
    } else {
        name
    }
}

/// A stash in the listing.
pub open spec fn stash_entry(index: nat, name: Seq<char>, cp: CheckpointView, now: Option<u64>) -> Seq<Seq<SpanView>> {
    let first = seq![
        crate::ui::plain("  "@),
        crate::ui::styled("stash@{"@ + crate::text::decimal(index) + "}"@, Style::Yellow),
        crate::ui::plain(": "@),
        crate::ui::styled(bare_name(name), Style::Cyan),
        crate::ui::plain(" "@),
        crate::ui::styled("-"@, Style::Dimmed),
        crate::ui::plain(" "@),
        crate::ui::styled(crate::format::relative_time(now, cp.ts_unix_ms), Style::Dimmed),
    ];
    if cp.touched_paths.len() > 0 {
        seq![first, sample_line(cp.touched_paths)]
    } else {
        seq![first]
    }
}

fn bare_name_of(name: &str) -> (r: String)
    ensures
        r@ == bare_name(name@),
{
    let chars = chars_of(name);
    let prefix = chars_of("stash/");
    if has_prefix(chars.as_slice(), prefix.as_slice()) {
        let rest = chars_between(chars.as_slice(), prefix.len(), chars.len());
        assert(rest@ =~= name@.skip(stash_prefix().len() as int));
        string_of(rest.as_slice())
    } else {
        name.to_owned()
    }
}

fn stash_entry_of(index: usize, name: &str, cp: &Checkpoint, now: Option<u64>) -> (p: Vec<Vec<Span>>)
    ensures
        crate::ui::page(p@) == stash_entry(index as nat, name@, cp@, now),
{
    let ghost paths = cp@.touched_paths;
    let mut p = no_lines();
    let mut l = blank();
    put(&mut l, "  ", Style::Plain);
    put(&mut l, counted_text("stash@{", index as u64, "}").as_str(), Style::Yellow);
    put(&mut l, ": ", Style::Plain);
    put(&mut l, bare_name_of(name).as_str(), Style::Cyan);
    put(&mut l, " ", Style::Plain);
    put(&mut l, "-", Style::Dimmed);
    put(&mut l, " ", Style::Plain);
    put(&mut l, format_relative_to(now, cp.ts_unix_ms).as_str(), Style::Dimmed);
    add_line(&mut p, l);
    let n: usize = cp.touched_paths.len();
    if n > 0 {
        let mut first: Vec<String> = Vec::new();
        let mut i: usize = 0;
        while i < n && i < 3
            invariant
                i <= n,
                i <= 3,
                n == cp.touched_paths.len(),
                paths == cp@.touched_paths,
                crate::text::texts(first@) == paths.take(i as int),
            decreases n - i,
        {
            let ghost before = first@;
            first.push(cp.touched_paths[i].clone());
            assert(crate::text::texts(first@) =~= crate::text::texts(before).push(cp.touched_paths@[i as int]@));
            i = i + 1;
            assert(crate::text::texts(first@) =~= paths.take(i as int));
        }
        let sample = joined_texts(&first, ", ");
        let mut l = blank();
        put(&mut l, "      ", Style::Plain);
        put(&mut l, sample.as_str(), Style::Dimmed);
        if n > 3 {
            put(&mut l, counted_text(" (", (n - 3) as u64, " more)").as_str(), Style::Plain);
        } else {
            assert(paths.take(n as int) =~= paths);
        }
        assert(crate::ui::line(l@) =~= sample_line(paths));
        add_line(&mut p, l);
    }
    assert(crate::ui::page(p@) =~~= stash_entry(index as nat, name@, cp@, now));
    p
}

/// The number of stashes, from the newest, whose checkpoints are recorded without a
/// gap.
pub open spec fn recorded(h: HistoryView, list: Seq<(Seq<char>, u128)>) -> nat
    decreases list.len(),
{
    if list.len() == 0 {
        0
    } else {
        let front = recorded(h, list.drop_last());
        if front == list.len() - 1 && h.find(list.last().1) is Some {
            list.len()
        } else {
            front
        }
    }
}

/// The first `n` stashes in the listing.
pub open spec fn stash_entries(h: HistoryView, list: Seq<(Seq<char>, u128)>, now: Option<u64>, n: nat) -> Seq<
    Seq<SpanView>,
>
    decreases n,
{
    if n == 0 {
        crate::ui::empty_page()
    } else {
        stash_entries(h, list, now, (n - 1) as nat) + stash_entry(
            (n - 1) as nat,
            list[n - 1].0,
            h.find(list[n - 1].1)->0,
            now,
        )
    }
}

/// The listing of stashes, up to one whose checkpoint is not recorded.
pub open spec fn stash_page(h: HistoryView, list: Seq<(Seq<char>, u128)>, now: Option<u64>) -> Seq<Seq<SpanView>> {
    if list.len() == 0 {
        seq![seq![crate::ui::styled("No stashes found"@, Style::Dimmed)]]
    } else {
        seq![seq![crate::ui::styled("Stashes:"@, Style::Bold)]] + stash_entries(h, list, now, recorded(h, list))
    }
}

proof fn lemma_recorded(h: HistoryView, list: Seq<(Seq<char>, u128)>, n: int)
    requires
        0 <= n <= list.len(),
        forall|i: int| 0 <= i < n ==> h.find((#[trigger] list[i]).1) is Some,
        n < list.len() ==> h.find(list[n].1) is None,
    ensures
        recorded(h, list) == n,
    decreases list.len(),
{
    if list.len() > 0 {
        let front = list.drop_last();
        if n == list.len() {
            lemma_recorded(h, front, n - 1);
            assert(h.find(list[n - 1].1) is Some);
        } else {
            lemma_recorded(h, front, n);
        }
    }
}

/// Lists the stashes, newest first, and says whether all checkpoints were recorded.
pub fn list_stashes(history: &History, pins: &Vec<(String, u128)>, now: Option<u64>) -> (r: (Vec<Vec<Span>>, bool))
    ensures
        ({
            let list = newest_first(history@, stashes(crate::journal::pin_views(pins@)));
            &&& crate::ui::page(r.0@) == stash_page(history@, list, now)
            &&& r.1 == (recorded(history@, list) == list.len())
        }),
{
    let list = sorted_stashes(history, pins);
    let ghost h = history@;
    let ghost all = crate::journal::pin_views(list@);
    let mut p = no_lines();
    if list.len() == 0 {
        add_text(&mut p, "No stashes found", Style::Dimmed);
        assert(crate::ui::page(p@) =~= stash_page(h, all, now));
        return (p, true);
    }
    add_text(&mut p, "Stashes:", Style::Bold);
    let ghost title = seq![seq![crate::ui::styled("Stashes:"@, Style::Bold)]];
    let mut i: usize = 0;
    assert(crate::ui::page(p@) =~= title + stash_entries(h, all, now, 0));
    while i < list.len()
        invariant
            i <= list.len(),
            list.len() > 0,
            h == history@,
            all == crate::journal::pin_views(list@),
            all == newest_first(h, stashes(crate::journal::pin_views(pins@))),
            title == seq![seq![crate::ui::styled("Stashes:"@, Style::Bold)]],
            forall|j: int| 0 <= j < i ==> h.find((#[trigger] all[j]).1) is Some,
            crate::ui::page(p@) == title + stash_entries(h, all, now, i as nat),
        decreases list.len() - i,
    {
        assert(all[i as int] == (list@[i as int].0@, list@[i as int].1));
        match history.get(list[i].1) {
            Some(cp) => {
                let entry = stash_entry_of(i, list[i].0.as_str(), cp, now);
                add_page(&mut p, entry);
                assert(crate::ui::page(p@) =~= title + stash_entries(h, all, now, (i + 1) as nat));
            },
            None => {
                proof {
                    lemma_recorded(h, all, i as int);
                }
                return (p, false);
            },
        }
        i = i + 1;
    }
    proof {
        lemma_recorded(h, all, i as int);
    }
    (p, true)
}

/// A year as used in the names of stashes: four digits, and a sign before more.
pub open spec fn year_text(year: nat) -> Seq<char> {
    if year > 9999 {
        "+"@ + crate::text::decimal(year)
    } else {
        crate::format::padded(year, 4)
    }
}

/// A date and a time of day as used in the names of stashes.
pub open spec fn stamp(t: CivilTime) -> Seq<char> {
    year_text(t.year as nat) + crate::format::padded(t.month as nat, 2) + crate::format::padded(
        t.day as nat,
        2,
    ) + "-"@ + crate::format::padded(t.hour as nat, 2) + crate::format::padded(t.minute as nat, 2)
        + crate::format::padded(t.second as nat, 2)
}

/// The stamp of a number of seconds after the start of 1970.
pub open spec fn stamp_at(secs: nat) -> Seq<char> {
    stamp(choose|t: CivilTime| #[trigger] t.is_at(secs))
}

/// `chrono::DateTime::format` writes a time in UTC by a pattern: here the year in four
/// digits, or with a sign where it has more, and month, day, hour, minute and second
/// in two digits each. Its times end with the year 262142.
#[verifier::external_body]
fn chrono_stamp(secs: u64) -> (r: Option<String>)
    requires
        secs < 8210266876800,
    ensures
        crate::git_config::opt_text(r) == Some(stamp_at(secs as nat)),
{
    let time = chrono::DateTime::from_timestamp(secs as i64, 0);
    time.map(|t| t.format("%Y%m%d-%H%M%S").to_string())
}

/// The name of a new stash: the message, or the time where there is none. A time is
/// before the end of the year 262142.
pub fn stash_name(message: Option<&str>, now_secs: u64) -> (name: String)
    requires
        message is None ==> now_secs < 8210266876800,
    ensures
        name@ == (match message {
            Some(m) => stash_prefix() + m@,
            None => "stash/WIP-"@ + stamp_at(now_secs as nat),
        }),
{
    match message {
        Some(m) => concat("stash/", m),
        None => match chrono_stamp(now_secs) {
            Some(s) => concat("stash/WIP-", s.as_str()),
            None => concat("stash/WIP-", ""),
        },
    }
}

/// What clearing the stashes does.
#[derive(Debug)]
pub enum ClearPlan {
    /// There is nothing to clear.
    Nothing,
    /// The user has to confirm.
    Confirm {
        /// Number of stashes.
        count: usize,
    },
    /// These pins are removed.
    Remove {
        /// Their names.
        names: Vec<String>,
    },
}

/// The names of pins.
pub open spec fn names_of_pins(pins: Seq<(Seq<char>, u128)>) -> Seq<Seq<char>> {
    pins.map_values(|p: (Seq<char>, u128)| p.0)
}

/// Decides what clearing the stashes does.
pub fn clear_plan(pins: &Vec<(String, u128)>, yes: bool) -> (plan: ClearPlan)
    ensures
        ({
            let list = stashes(crate::journal::pin_views(pins@));
            if list.len() == 0 {
                plan is Nothing
            } else if !yes {
                plan matches ClearPlan::Confirm { count } && count == list.len()
            } else {
                plan matches ClearPlan::Remove { names } && crate::text::texts(names@) == names_of_pins(list)
            }
        }),
{
    let list = stash_pins(pins);
    let ghost all = crate::journal::pin_views(list@);
    if list.len() == 0 {
        return ClearPlan::Nothing;
    }
    if !yes {
        return ClearPlan::Confirm { count: list.len() };
    }
    let mut names: Vec<String> = Vec::new();
    let mut i: usize = 0;
    while i < list.len()
        invariant
            i <= list.len(),
            all == crate::journal::pin_views(list@),
            crate::text::texts(names@) == names_of_pins(all).take(i as int),
        decreases list.len() - i,
    {
        let ghost before = names@;
        names.push(list[i].0.clone());
        assert(crate::text::texts(names@) =~= crate::text::texts(before).push(list@[i as int].0@));
        i = i + 1;
        assert(crate::text::texts(names@) =~= names_of_pins(all).take(i as int));
    }
    assert(names_of_pins(all).take(all.len() as int) =~= names_of_pins(all));
    ClearPlan::Remove { names }
}

/// The stashes are the pins whose names begin with `stash/`, in the order of the pins.
pub proof fn stashes_are_pins_of_that_name(pins: Seq<(Seq<char>, u128)>, p: (Seq<char>, u128))
    ensures
        stashes(pins).contains(p) <==> pins.contains(p) && p.0.len() >= 6 && p.0.take(6) == seq![
            's',
            't',
            'a',
            's',
            'h',
            '/',
        ],
{
    reveal_strlit("stash/");
    let pred = |p: (Seq<char>, u128)| crate::text::begins_with(p.0, stash_prefix());
    assert(stash_prefix() =~= seq!['s', 't', 'a', 's', 'h', '/']);
    if stashes(pins).contains(p) {
        pins.lemma_filter_contains_rev(pred, p);
        let k = choose|k: int| 0 <= k < stashes(pins).len() && stashes(pins)[k] == p;
        pins.lemma_filter_pred(pred, k);
    }
    if pins.contains(p) && pred(p) {
        let i = choose|i: int| 0 <= i < pins.len() && pins[i] == p;
        pins.lemma_filter_contains(pred, i);
    }
}

/// `stash@{n}` names the stash at that place of the list, newest first, no reference the
/// newest, and any other text the stash of that name.
pub proof fn stash_references_count_from_the_newest(
    h: HistoryView,
    pins: Seq<(Seq<char>, u128)>,
    n: nat,
    name: Seq<char>,
)
    requires
        n <= usize::MAX,
    ensures
        ({
            let list = newest_first(h, stashes(pins));
            let reference = Some("stash@{"@ + crate::text::decimal(n) + "}"@);
            &&& n < list.len() ==> stash_named(h, pins, reference) == Ok::<Seq<char>, StashRefError>(
                list[n as int].0,
            )
            &&& n >= list.len() ==> stash_named(h, pins, reference) == Err::<Seq<char>, StashRefError>(
                StashRefError::NotFound { index: n as usize },
            )
            &&& list.len() > 0 ==> stash_named(h, pins, None) == Ok::<Seq<char>, StashRefError>(list[0].0)
            &&& list.len() == 0 ==> stash_named(h, pins, None) == Err::<Seq<char>, StashRefError>(
                StashRefError::NoStashes,
            )
        }),
        !crate::text::begins_with(name, "stash@{"@) && !crate::text::begins_with(name, "stash/"@) ==> stash_named(
            h,
            pins,
            Some(name),
        ) == Ok::<Seq<char>, StashRefError>("stash/"@ + name),
{
    reveal_strlit("stash@{");
    reveal_strlit("}");
    let digits = crate::text::digits(n, 10);
    let text = crate::text::decimal(n);
    let rest = text + "}"@;
    let reference = "stash@{"@ + text + "}"@;
    crate::text::numeral_denotes_its_number(n, 10);
    assert forall|i: int| 0 <= i < text.len() implies '0' <= #[trigger] text[i] <= '9' by {
        assert(crate::text::is_digit(digits[i], 10));
    }
    assert(reference.take(7) =~= "stash@{"@);
    assert(reference.skip(7) =~= rest);
    if crate::text::begins_with(rest, "stash@{"@) {
        assert(rest.take(7)[0] == 's');
        assert(rest[0] == text[0]);
    }
    reveal_with_fuel(without_prefix, 2);
    assert(without_prefix(reference, index_prefix()) == rest);
    assert(rest.drop_last() =~= text);
    assert(rest.last() == '}');
    assert(text.last() == text[text.len() - 1]);
    reveal_with_fuel(crate::git_config::strip_end, 2);
    assert(crate::git_config::strip_end(rest, '}') == text);
    assert(vstd::utf8::is_ascii_chars(text));
    vstd::utf8::is_ascii_chars_encode_utf8(text);
    assert(vstd::utf8::encode_utf8(text) =~= digits) by {
        assert forall|i: int| 0 <= i < text.len() implies (text[i] as u8) == #[trigger] digits[i] by {
            assert(crate::text::is_digit(digits[i], 10));
        }
    }
}

/// The number with which a stash is listed is the one that names it, and its name is shown
/// without the prefix.
pub proof fn listed_numbers_are_references(
    h: HistoryView,
    pins: Seq<(Seq<char>, u128)>,
    index: nat,
    message: Seq<char>,
    cp: CheckpointView,
    now: Option<u64>,
)
    requires
        index < newest_first(h, stashes(pins)).len(),
        index <= usize::MAX,
    ensures
        stash_named(h, pins, Some(stash_entry(index, "stash/"@ + message, cp, now)[0][1].text)) == Ok::<
            Seq<char>,
            StashRefError,
        >(newest_first(h, stashes(pins))[index as int].0),
        stash_entry(index, "stash/"@ + message, cp, now)[0][3].text == message,
{
    stash_references_count_from_the_newest(h, pins, index, message);
    reveal_strlit("stash/");
    let name = "stash/"@ + message;
    assert(name.take(6) =~= "stash/"@);
    assert(name.skip(6) =~= message);
}

/// The stashes are listed as far as their checkpoints are recorded.
pub proof fn stashes_are_listed_until_one_is_missing(h: HistoryView, list: Seq<(Seq<char>, u128)>)
    ensures
        recorded(h, list) <= list.len(),
        forall|j: int| 0 <= j < recorded(h, list) ==> h.find((#[trigger] list[j]).1) is Some,
        recorded(h, list) < list.len() ==> h.find(list[recorded(h, list) as int].1) is None,
    decreases list.len(),
{
    if list.len() > 0 {
        let front = list.drop_last();
        stashes_are_listed_until_one_is_missing(h, front);
        assert forall|j: int| 0 <= j < recorded(h, list) implies h.find((#[trigger] list[j]).1) is Some by {
            if j < recorded(h, front) {
                assert(front[j] == list[j]);
            }
        }
        if recorded(h, front) < front.len() {
            assert(front[recorded(h, front) as int] == list[recorded(h, front) as int]);
        }
    }
}

/// A stash is at one time.
spec fn is_at(h: HistoryView, x: (Seq<char>, u128), t: u64) -> bool {
    is_dated(h, x) && time_of(h, x.1) == t
}

proof fn lemma_insertion_is_stable(h: HistoryView, list: Seq<(Seq<char>, u128)>, x: (Seq<char>, u128), t: u64)
    ensures
        with_stash(h, list, x).filter(|y: (Seq<char>, u128)| is_at(h, y, t)) == (if is_at(h, x, t) {
            list.filter(|y: (Seq<char>, u128)| is_at(h, y, t)).push(x)
        } else {
            list.filter(|y: (Seq<char>, u128)| is_at(h, y, t))
        }),
    decreases list.len(),
{
    reveal(Seq::filter);
    let pred = |y: (Seq<char>, u128)| is_at(h, y, t);
    if list.len() > 0 && time_of(h, list.last().1) < time_of(h, x.1) {
        lemma_insertion_is_stable(h, list.drop_last(), x, t);
        let inner = with_stash(h, list.drop_last(), x);
        assert(inner.push(list.last()).drop_last() =~= inner);
    } else {
        assert(list.push(x).drop_last() =~= list);
    }
}

proof fn lemma_order_is_stable(h: HistoryView, list: Seq<(Seq<char>, u128)>, t: u64)
    ensures
        by_time(h, list).filter(|y: (Seq<char>, u128)| is_at(h, y, t)) == list.filter(
            |y: (Seq<char>, u128)| is_at(h, y, t),
        ),
    decreases list.len(),
{
    reveal(Seq::filter);
    if list.len() > 0 {
        lemma_order_is_stable(h, list.drop_last(), t);
        lemma_insertion_is_stable(h, by_time(h, list.drop_last()), list.last(), t);
    } else {
        assert(by_time(h, list) =~= list);
    }
}

proof fn lemma_dated_at(h: HistoryView, list: Seq<(Seq<char>, u128)>, t: u64)
    ensures
        dated(h, list).filter(|y: (Seq<char>, u128)| is_at(h, y, t)) == list.filter(
            |y: (Seq<char>, u128)| is_at(h, y, t),
        ),
    decreases list.len(),
{
    reveal(Seq::filter);
    if list.len() > 0 {
        let front = list.drop_last();
        lemma_dated_at(h, front, t);
        lemma_dated_step(h, list);
        if is_dated(h, list.last()) {
            assert(dated(h, front).push(list.last()).drop_last() =~= dated(h, front));
        }
    } else {
        assert(dated(h, list) =~= list);
    }
}

proof fn lemma_placed_at(h: HistoryView, list: Seq<(Seq<char>, u128)>, sorted: Seq<(Seq<char>, u128)>, t: u64)
    requires
        sorted.len() == dated(h, list).len(),
    ensures
        placed(h, list, sorted).filter(|y: (Seq<char>, u128)| is_at(h, y, t)) == sorted.filter(
            |y: (Seq<char>, u128)| is_at(h, y, t),
        ),
    decreases list.len(),
{
    reveal(Seq::filter);
    let out = placed(h, list, sorted);
    if list.len() == 0 {
        assert(sorted =~= Seq::empty());
        assert(out =~= sorted);
    } else {
        let front = list.drop_last();
        lemma_dated_step(h, list);
        if is_dated(h, list.last()) {
            lemma_placed_at(h, front, sorted.drop_last(), t);
            assert(out.drop_last() =~= placed(h, front, sorted.drop_last()));
        } else {
            lemma_placed_at(h, front, sorted, t);
            assert(out.drop_last() =~= placed(h, front, sorted));
        }
    }
}

/// Stashes of one time stay in the order in which they are listed.
pub proof fn stashes_of_one_time_keep_their_order(h: HistoryView, list: Seq<(Seq<char>, u128)>, t: u64)
    ensures
        newest_first(h, list).filter(
            |y: (Seq<char>, u128)| h.find(y.1) is Some && h.find(y.1)->0.ts_unix_ms == t,
        ) == list.filter(|y: (Seq<char>, u128)| h.find(y.1) is Some && h.find(y.1)->0.ts_unix_ms == t),
{
    let pred = |y: (Seq<char>, u128)| is_at(h, y, t);
    let want = |y: (Seq<char>, u128)| h.find(y.1) is Some && h.find(y.1)->0.ts_unix_ms == t;
    assert(pred =~= want);
    let d = dated(h, list);
    lemma_by_time(h, d);
    lemma_order_is_stable(h, d, t);
    lemma_dated_at(h, list, t);
    lemma_placed_at(h, list, by_time(h, d), t);
}

/// Clearing removes the pins of the stashes and no others.
pub proof fn only_stashes_are_cleared(pins: Seq<(Seq<char>, u128)>, name: Seq<char>)
    ensures
        names_of_pins(stashes(pins)).contains(name) <==> exists|i: int|
            0 <= i < pins.len() && (#[trigger] pins[i]).0 == name && name.len() >= 6 && name.take(6) == seq![
                's',
                't',
                'a',
                's',
                'h',
                '/',
            ],
        names_of_pins(stashes(pins)).len() == stashes(pins).len(),
{
    let list = stashes(pins);
    let names = names_of_pins(list);
    if names.contains(name) {
        let k = choose|k: int| 0 <= k < names.len() && names[k] == name;
        assert(list[k].0 == name);
        assert(list.contains(list[k]));
        stashes_are_pins_of_that_name(pins, list[k]);
        let i = choose|i: int| 0 <= i < pins.len() && pins[i] == list[k];
        assert(pins[i].0 == name);
    }
    if exists|i: int|
        0 <= i < pins.len() && (#[trigger] pins[i]).0 == name && name.len() >= 6 && name.take(6) == seq![
            's',
            't',
            'a',
            's',
            'h',
            '/',
        ] {
        let i = choose|i: int|
            0 <= i < pins.len() && (#[trigger] pins[i]).0 == name && name.len() >= 6 && name.take(6) == seq![
                's',
                't',
                'a',
                's',
                'h',
                '/',
            ];
        assert(pins.contains(pins[i]));
        stashes_are_pins_of_that_name(pins, pins[i]);
        let k = choose|k: int| 0 <= k < list.len() && list[k] == pins[i];
        assert(names[k] == name);
    }
}

} // verus!
