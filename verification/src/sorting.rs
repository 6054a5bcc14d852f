//! Ordering lists by a key, as the store orders rows: by the bytes of a
//! text, by a time with the missing times first, or by a count. Rows with
//! equal keys keep the order they had.

use vstd::prelude::*;

verus! {

/// The key that a row is ordered by.
#[derive(Debug)]
pub enum SortKey {
    /// A text, by its UTF-8 bytes.
    Text(Vec<u8>),
    /// A time in milliseconds; a missing time comes before every time.
    Time(Option<i64>),
    Count(usize),
}

pub enum SortKeyView {
    Text(Seq<u8>),
    Time(Option<i64>),
    Count(nat),
}

impl View for SortKey {
    type V = SortKeyView;

    open spec fn view(&self) -> SortKeyView {
        match self {
            SortKey::Text(bytes) => SortKeyView::Text(bytes@),
            SortKey::Time(at) => SortKeyView::Time(*at),
            SortKey::Count(n) => SortKeyView::Count(*n as nat),
        }
    }
}

/// The views of a list of keys.
pub open spec fn keys_view(keys: Seq<SortKey>) -> Seq<SortKeyView> {
    keys.map_values(|k: SortKey| k@)
}

/// `a` comes no later than `b` in the order of byte strings: at the first
/// byte in which they differ `a` has the smaller one, or `a` is a prefix of
/// `b`.
pub open spec fn bytes_le(a: Seq<u8>, b: Seq<u8>) -> bool
    decreases a.len(),
{
    if a.len() == 0 {
        true
    } else if b.len() == 0 {
        false
    } else if a[0] != b[0] {
        a[0] < b[0]
    } else {
        bytes_le(a.drop_first(), b.drop_first())
    }
}

/// `a` comes no later than `b`. Keys of different kinds are not ordered
/// against each other.
pub open spec fn key_le(a: SortKeyView, b: SortKeyView) -> bool {
    match (a, b) {
        (SortKeyView::Text(x), SortKeyView::Text(y)) => bytes_le(x, y),
        (SortKeyView::Time(x), SortKeyView::Time(y)) => match (x, y) {
            (None, _) => true,
            (Some(_), None) => false,
            (Some(p), Some(q)) => p <= q,
        },
        (SortKeyView::Count(x), SortKeyView::Count(y)) => x <= y,
        _ => true,
    }
}

/// How many of the leading positions in `order` hold keys that come no
/// later than `key`: the place after them is where a row with `key` goes.
pub open spec fn insertion_point(keys: Seq<SortKeyView>, order: Seq<int>, key: SortKeyView) -> int
    decreases order.len(),
{
    if order.len() == 0 {
        0
    } else if key_le(keys[order[0]], key) {
        1 + insertion_point(keys, order.drop_first(), key)
    } else {
        0
    }
}

/// The positions of the rows in the order of their keys: each row in turn
/// is put after the leading rows whose keys come no later than its own, so
/// that rows with equal keys keep their order.
pub open spec fn stable_order(keys: Seq<SortKeyView>) -> Seq<int>
    decreases keys.len(),
{
    if keys.len() == 0 {
        Seq::<int>::empty()
    } else {
        let before = stable_order(keys.drop_last());
        before.insert(insertion_point(keys, before, keys.last()), keys.len() - 1)
    }
}

/// The rows in the given order of positions; in reverse where `descending`
/// is set.
pub open spec fn arranged<T>(rows: Seq<T>, order: Seq<int>, descending: bool) -> Seq<T> {
    let ascending = Seq::new(order.len(), |i: int| rows[order[i]]);
    if descending {
        ascending.reverse()
    } else {
        ascending
    }
}

/// The rows ordered by their keys; in reverse where `descending` is set.
pub open spec fn sorted_by<T>(rows: Seq<T>, keys: Seq<SortKeyView>, descending: bool) -> Seq<T> {
    arranged(rows, stable_order(keys), descending)
}

/// Whether one byte string comes no later than another.
pub fn bytes_le_exec(a: &Vec<u8>, b: &Vec<u8>) -> (r: bool)
    ensures
        r == bytes_le(a@, b@),
{
    let mut i: usize = 0;
    assert(a@.skip(0) =~= a@);
    assert(b@.skip(0) =~= b@);
    loop
        invariant
            i <= a.len(),
            i <= b.len(),
            bytes_le(a@, b@) == bytes_le(a@.skip(i as int), b@.skip(i as int)),
        decreases a.len() - i,
    {
        if i == a.len() {
            return true;
        }
        if i == b.len() {
            return false;
        }
        assert(a@.skip(i as int)[0] == a@[i as int]);
        assert(b@.skip(i as int)[0] == b@[i as int]);
        if a[i] != b[i] {
            return a[i] < b[i];
        }
        assert(a@.skip(i as int).drop_first() =~= a@.skip(i + 1));
        assert(b@.skip(i as int).drop_first() =~= b@.skip(i + 1));
        i = i + 1;
    }
}

/// Whether one key comes no later than another.
pub fn key_le_exec(a: &SortKey, b: &SortKey) -> (r: bool)
    ensures
        r == key_le(a@, b@),
{
    match (a, b) {
        (SortKey::Text(x), SortKey::Text(y)) => bytes_le_exec(x, y),
        (SortKey::Time(x), SortKey::Time(y)) => match (x, y) {
            (None, _) => true,
            (Some(_), None) => false,
            (Some(p), Some(q)) => *p <= *q,
        },
        (SortKey::Count(x), SortKey::Count(y)) => *x <= *y,
        _ => true,
    }
}

/// The views of a list of positions.
pub open spec fn positions(order: Seq<usize>) -> Seq<int> {
    order.map_values(|i: usize| i as int)
}

/// Works out the order of the rows by their keys. Rows with equal keys
/// keep their order.
pub fn stable_order_of(keys: &Vec<SortKey>) -> (r: Vec<usize>)
    ensures
        positions(r@) == stable_order(keys_view(keys@)),
        r.len() == keys.len(),
        forall|i: int| 0 <= i < r.len() ==> (#[trigger] r@[i]) < keys.len(),
{
    let ghost all = keys_view(keys@);
    let mut order: Vec<usize> = Vec::new();
    let mut k: usize = 0;
    assert(all.take(0) =~= Seq::<SortKeyView>::empty());
    assert(positions(order@) =~= stable_order(all.take(0)));
    while k < keys.len()
        invariant
            k <= keys.len(),
            all == keys_view(keys@),
            order.len() == k,
            positions(order@) == stable_order(all.take(k as int)),
            forall|i: int| 0 <= i < order.len() ==> (#[trigger] order@[i]) < k,
        decreases keys.len() - k,
    {
        let ghost part = all.take(k + 1);
        let ghost before = positions(order@);
        proof {
            assert(part.drop_last() =~= all.take(k as int));
            assert(part.last() == all[k as int]);
            assert(before.skip(0) =~= before);
        }
        let mut at: usize = 0;
        while at < order.len() && key_le_exec(&keys[order[at]], &keys[k])
            invariant
                at <= order.len(),
                order.len() == k,
                k < keys.len(),
                all == keys_view(keys@),
                part == all.take(k + 1),
                before == positions(order@),
                forall|i: int| 0 <= i < order.len() ==> (#[trigger] order@[i]) < k,
                insertion_point(part, before, all[k as int]) == at + insertion_point(
                    part,
                    before.skip(at as int),
                    all[k as int],
                ),
            decreases order.len() - at,
        {
            proof {
                let rest = before.skip(at as int);
                assert(rest[0] == order@[at as int] as int);
                assert(part[rest[0]] == all[order@[at as int] as int]);
                assert(rest.drop_first() =~= before.skip(at + 1));
            }
            at = at + 1;
        }
        proof {
            let rest = before.skip(at as int);
            if at < order.len() {
                assert(rest[0] == order@[at as int] as int);
                assert(part[rest[0]] == all[order@[at as int] as int]);
            }
            assert(insertion_point(part, rest, all[k as int]) == 0);
        }
        order.insert(at, k);
        assert(positions(order@) =~= before.insert(at as int, k as int));
        k = k + 1;
    }
    assert(all.take(keys.len() as int) =~= all);
    order
}

/// Two keys are of one kind.
pub open spec fn same_kind(a: SortKeyView, b: SortKeyView) -> bool {
    match (a, b) {
        (SortKeyView::Text(_), SortKeyView::Text(_)) => true,
        (SortKeyView::Time(_), SortKeyView::Time(_)) => true,
        (SortKeyView::Count(_), SortKeyView::Count(_)) => true,
        _ => false,
    }
}

/// All keys of the list are of one kind.
pub open spec fn one_kind(keys: Seq<SortKeyView>) -> bool {
    forall|i: int, j: int|
        0 <= i < keys.len() && 0 <= j < keys.len() ==> same_kind(
            #[trigger] keys[i],
            #[trigger] keys[j],
        )
}

/// Of two byte strings one comes no later than the other.
pub proof fn lemma_bytes_le_total(a: Seq<u8>, b: Seq<u8>)
    ensures
        bytes_le(a, b) || bytes_le(b, a),
    decreases a.len(),
{
    if a.len() > 0 && b.len() > 0 && a[0] == b[0] {
        lemma_bytes_le_total(a.drop_first(), b.drop_first());
    }
}

/// The order of byte strings is transitive.
pub proof fn lemma_bytes_le_transitive(a: Seq<u8>, b: Seq<u8>, c: Seq<u8>)
    requires
        bytes_le(a, b),
        bytes_le(b, c),
    ensures
        bytes_le(a, c),
    decreases a.len(),
{
    if a.len() > 0 && b.len() > 0 && c.len() > 0 && a[0] == b[0] && b[0] == c[0] {
        lemma_bytes_le_transitive(a.drop_first(), b.drop_first(), c.drop_first());
    }
}

/// Of two keys of one kind one comes no later than the other.
pub proof fn lemma_key_le_total(a: SortKeyView, b: SortKeyView)
    ensures
        key_le(a, b) || key_le(b, a),
{
    match (a, b) {
        (SortKeyView::Text(x), SortKeyView::Text(y)) => {
            lemma_bytes_le_total(x, y);
        },
        _ => {},
    }
}

/// The order of keys of one kind is transitive.
pub proof fn lemma_key_le_transitive(a: SortKeyView, b: SortKeyView, c: SortKeyView)
    requires
        same_kind(a, b),
        same_kind(b, c),
        key_le(a, b),
        key_le(b, c),
    ensures
        key_le(a, c),
{
    match (a, b, c) {
        (SortKeyView::Text(x), SortKeyView::Text(y), SortKeyView::Text(z)) => {
            lemma_bytes_le_transitive(x, y, z);
        },
        _ => {},
    }
}

/// The place where a row goes lies after every leading row whose key comes
/// no later, and before a row whose key comes later.
pub proof fn lemma_insertion_point(keys: Seq<SortKeyView>, order: Seq<int>, key: SortKeyView)
    ensures
        0 <= insertion_point(keys, order, key) <= order.len(),
        forall|j: int|
            0 <= j < insertion_point(keys, order, key) ==> key_le(keys[#[trigger] order[j]], key),
        insertion_point(keys, order, key) < order.len() ==> !key_le(
            keys[order[insertion_point(keys, order, key)]],
            key,
        ),
    decreases order.len(),
{
    if order.len() > 0 && key_le(keys[order[0]], key) {
        let rest = order.drop_first();
        lemma_insertion_point(keys, rest, key);
        let p = insertion_point(keys, rest, key);
        assert forall|j: int| 0 <= j < p + 1 implies key_le(keys[#[trigger] order[j]], key) by {
            if j > 0 {
                assert(order[j] == rest[j - 1]);
            }
        }
        if p + 1 < order.len() {
            assert(order[p + 1] == rest[p]);
        }
    }
}

/// The order holds each position of the list once. For keys of one kind it
/// is rising, and of two rows with equal keys the one that stood first
/// comes first.
pub open spec fn is_stable_order(keys: Seq<SortKeyView>, order: Seq<int>) -> bool {
    &&& order.len() == keys.len()
    &&& forall|i: int| 0 <= i < order.len() ==> 0 <= #[trigger] order[i] < keys.len()
    &&& forall|i: int, j: int|
        0 <= i < j < order.len() ==> #[trigger] order[i] != #[trigger] order[j]
    &&& forall|k: int| 0 <= k < keys.len() ==> #[trigger] order.contains(k)
    &&& one_kind(keys) ==> forall|i: int, j: int|
        0 <= i < j < order.len() ==> key_le(keys[#[trigger] order[i]], keys[#[trigger] order[j]])
            && (key_le(keys[order[j]], keys[order[i]]) ==> order[i] < order[j])
}

/// Ordering by keys arranges the rows anew without losing or repeating
/// one, in rising order of the keys, and keeps rows with equal keys in the
/// order they had.
pub proof fn lemma_stable_order(keys: Seq<SortKeyView>)
    ensures
        is_stable_order(keys, stable_order(keys)),
    decreases keys.len(),
{
    if keys.len() > 0 {
        let init = keys.drop_last();
        let x = keys.last();
        let n = keys.len() as int;
        lemma_stable_order(init);
        let before = stable_order(init);
        lemma_insertion_point(keys, before, x);
        let p = insertion_point(keys, before, x);
        let after = before.insert(p, n - 1);
        assert forall|i: int| 0 <= i < after.len() implies 0 <= #[trigger] after[i] < n by {
            if i < p {
                assert(after[i] == before[i]);
            } else if i > p {
                assert(after[i] == before[i - 1]);
            }
        }
        assert forall|i: int, j: int| 0 <= i < j < after.len() implies #[trigger] after[i]
            != #[trigger] after[j] by {
            let a = if i < p { i } else { i - 1 };
            let b = if j < p { j } else { j - 1 };
            if i != p && j != p {
                assert(after[i] == before[a] && after[j] == before[b]);
                assert(before[a] != before[b]);
            } else if i == p {
                assert(after[j] == before[b]);
            } else {
                assert(after[i] == before[a]);
            }
        }
        assert forall|k: int| 0 <= k < n implies #[trigger] after.contains(k) by {
            if k == n - 1 {
                assert(after[p] == k);
            } else {
                assert(before.contains(k));
                let i = choose|i: int| 0 <= i < before.len() && #[trigger] before[i] == k;
                if i < p {
                    assert(after[i] == k);
                } else {
                    assert(after[i + 1] == k);
                }
            }
        }
        if one_kind(keys) {
            assert(one_kind(init)) by {
                assert forall|i: int, j: int|
                    0 <= i < init.len() && 0 <= j < init.len() implies same_kind(
                    #[trigger] init[i],
                    #[trigger] init[j],
                ) by {
                    assert(same_kind(keys[i], keys[j]));
                }
            }
            assert forall|i: int, j: int| 0 <= i < j < after.len() implies key_le(
                keys[#[trigger] after[i]],
                keys[#[trigger] after[j]],
            ) && (key_le(keys[after[j]], keys[after[i]]) ==> after[i] < after[j]) by {
                let a = if i < p { i } else { i - 1 };
                let b = if j < p { j } else { j - 1 };
                if i != p && j != p {
                    assert(after[i] == before[a] && after[j] == before[b]);
                    assert(init[before[a]] == keys[before[a]]);
                    assert(init[before[b]] == keys[before[b]]);
                    assert(key_le(init[before[a]], init[before[b]]));
                } else if j == p {
                    assert(after[i] == before[i]);
                    assert(key_le(keys[before[i]], x));
                } else {
                    assert(after[j] == before[j - 1]);
                    let first = keys[before[p]];
                    let other = keys[before[j - 1]];
                    assert(same_kind(first, x) && same_kind(other, x) && same_kind(first, other));
                    lemma_key_le_total(x, first);
                    if p < j - 1 {
                        assert(init[before[p]] == first && init[before[j - 1]] == other);
                        assert(key_le(init[before[p]], init[before[j - 1]]));
                        lemma_key_le_transitive(x, first, other);
                        if key_le(other, x) {
                            lemma_key_le_transitive(first, other, x);
                        }
                    }
                }
            }
        }
    }
}

/// A list ordered by keys holds the rows of the list, each once: as many
/// rows as before, each of them a row of the list, and each row of the
/// list among them.
pub proof fn lemma_sorted_by_holds_the_rows<T>(
    rows: Seq<T>,
    keys: Seq<SortKeyView>,
    descending: bool,
)
    requires
        keys.len() == rows.len(),
    ensures
        sorted_by(rows, keys, descending).len() == rows.len(),
        forall|i: int|
            0 <= i < rows.len() ==> rows.contains(#[trigger] sorted_by(rows, keys, descending)[i]),
        forall|k: int|
            0 <= k < rows.len() ==> sorted_by(rows, keys, descending).contains(#[trigger] rows[k]),
{
    lemma_stable_order(keys);
    let order = stable_order(keys);
    let out = sorted_by(rows, keys, descending);
    let n = rows.len() as int;
    assert forall|i: int| 0 <= i < n implies rows.contains(#[trigger] out[i]) by {
        let at = if descending {
            order[n - 1 - i]
        } else {
            order[i]
        };
        assert(out[i] == rows[at]);
    }
    assert forall|k: int| 0 <= k < n implies out.contains(#[trigger] rows[k]) by {
        assert(order.contains(k));
        let i = choose|i: int| 0 <= i < order.len() && #[trigger] order[i] == k;
        let at = if descending {
            n - 1 - i
        } else {
            i
        };
        assert(out[at] == rows[k]);
    }
}

/// In a list ordered by keys of one kind the keys rise, or fall where
/// `descending` is set. `key_at(i)` is the key of the row that stands at
/// place `i` of the ordered list.
pub proof fn lemma_sorted_by_is_ordered(keys: Seq<SortKeyView>, descending: bool)
    requires
        one_kind(keys),
    ensures
        ({
            let by_place = sorted_by(keys, keys, descending);
            &&& by_place.len() == keys.len()
            &&& forall|i: int, j: int|
                0 <= i < j < by_place.len() ==> if descending {
                    key_le(#[trigger] by_place[j], #[trigger] by_place[i])
                } else {
                    key_le(#[trigger] by_place[i], #[trigger] by_place[j])
                }
        }),
{
    lemma_stable_order(keys);
    let order = stable_order(keys);
    let by_place = sorted_by(keys, keys, descending);
    let n = keys.len() as int;
    assert forall|i: int, j: int| 0 <= i < j < n implies if descending {
        key_le(#[trigger] by_place[j], #[trigger] by_place[i])
    } else {
        key_le(#[trigger] by_place[i], #[trigger] by_place[j])
    } by {
        if descending {
            assert(by_place[i] == keys[order[n - 1 - i]]);
            assert(by_place[j] == keys[order[n - 1 - j]]);
            assert(key_le(keys[order[n - 1 - j]], keys[order[n - 1 - i]]));
        } else {
            assert(by_place[i] == keys[order[i]]);
            assert(by_place[j] == keys[order[j]]);
        }
    }
}

/// Ordering rows by keys puts the keys in the same places as the rows:
/// the key of the row at a place of the ordered list is the key at that
/// place of the ordered keys.
pub proof fn lemma_sorted_by_carries_keys<T>(
    rows: Seq<T>,
    key_of: spec_fn(T) -> SortKeyView,
    descending: bool,
)
    ensures
        sorted_by(rows, rows.map_values(key_of), descending).map_values(key_of) == sorted_by(
            rows.map_values(key_of),
            rows.map_values(key_of),
            descending,
        ),
{
    let keys = rows.map_values(key_of);
    lemma_stable_order(keys);
    assert(sorted_by(rows, keys, descending).map_values(key_of) =~= sorted_by(
        keys,
        keys,
        descending,
    ));
}

} // verus!
