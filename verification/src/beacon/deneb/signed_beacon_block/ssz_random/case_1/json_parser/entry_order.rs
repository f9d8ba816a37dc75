//! The order in which the pretty printer writes an object's entries: by key, so
//! that the text does not depend on the order in which the entries are held.
use vstd::prelude::*;
use crate::json_value::{Json, distinct_keys, json_depth, lemma_items_depth, lemma_entries_depth};
use crate::text::{text_less, spaces};
use crate::text_order::lemma_text_less_order;
use super::{pretty, pretty_items, pretty_entries, insert_position, key_order_upto, key_order};

verus! {

/// The entries of `o` at the positions `ord`, in that order.
pub open spec fn entries_at(o: Seq<(Seq<char>, Json)>, ord: Seq<int>) -> Seq<(Seq<char>, Json)> {
    Seq::new(ord.len(), |k: int| o[ord[k]])
}

/// The keys of the entries `es` rise strictly.
pub open spec fn keys_rise(es: Seq<(Seq<char>, Json)>) -> bool {
    forall|i: int, j: int| 0 <= i < j < es.len() ==> text_less(#[trigger] es[i].0, #[trigger] es[j].0)
}

/// The lines of the entries `es`, in order, as `pretty_entries` writes them.
pub open spec fn pretty_entry_list(es: Seq<(Seq<char>, Json)>, ind: nat, cur: nat) -> Seq<char>
    decreases es.len(),
{
    if es.len() == 0 {
        Seq::empty()
    } else {
        spaces(cur) + spaces(ind) + seq!['"'] + es[0].0 + "\": "@ + pretty(es[0].1, ind, cur + ind) + (if es.len()
            > 1 {
            seq![',']
        } else {
            Seq::empty()
        }) + seq!['\n'] + pretty_entry_list(es.drop_first(), ind, cur)
    }
}

/// Writing the entries at positions `ord` is writing the list of those entries.
pub proof fn lemma_pretty_entries_at(o: Seq<(Seq<char>, Json)>, ord: Seq<int>, ind: nat, cur: nat)
    requires
        forall|k: int| 0 <= k < ord.len() ==> 0 <= #[trigger] ord[k] < o.len(),
    ensures
        pretty_entries(o, ord, ind, cur) == pretty_entry_list(entries_at(o, ord), ind, cur),
    decreases ord.len(),
{
    if ord.len() > 0 {
        lemma_pretty_entries_at(o, ord.drop_first(), ind, cur);
        assert(entries_at(o, ord).drop_first() =~= entries_at(o, ord.drop_first()));
        assert(entries_at(o, ord)[0] == o[ord[0]]);
    }
}

/// Where the entry at `j` is put among the positions `ord`: every key before it
/// is not above its key, and the key right after it is above it.
pub proof fn lemma_insert_position(ord: Seq<int>, o: Seq<(Seq<char>, Json)>, j: int)
    ensures
        0 <= insert_position(ord, o, j) <= ord.len(),
        forall|i: int| 0 <= i < insert_position(ord, o, j) ==> !text_less(o[j].0, #[trigger] o[ord[i]].0),
        insert_position(ord, o, j) < ord.len() ==> text_less(o[j].0, o[ord[insert_position(ord, o, j)]].0),
    decreases ord.len(),
{
    if ord.len() > 0 && !text_less(o[j].0, o[ord[0]].0) {
        lemma_insert_position(ord.drop_first(), o, j);
        let p = insert_position(ord, o, j);
        assert forall|i: int| 0 <= i < p implies !text_less(o[j].0, #[trigger] o[ord[i]].0) by {
            if i > 0 {
                assert(ord[i] == ord.drop_first()[i - 1]);
            }
        }
        if p < ord.len() {
            assert(ord[p] == ord.drop_first()[p - 1]);
        }
    }
}

/// The first `n` positions in key order: each of `0..n` once, the keys rising.
pub proof fn lemma_key_order_upto(o: Seq<(Seq<char>, Json)>, n: nat)
    requires
        n <= o.len(),
        distinct_keys(o),
    ensures
        key_order_upto(o, n).len() == n,
        forall|i: int| 0 <= i < n ==> 0 <= #[trigger] key_order_upto(o, n)[i] < n,
        forall|k: int| 0 <= k < n ==> key_order_upto(o, n).contains(k),
        keys_rise(entries_at(o, key_order_upto(o, n))),
    decreases n,
{
    if n > 0 {
        let m = (n - 1) as nat;
        lemma_key_order_upto(o, m);
        let prev = key_order_upto(o, m);
        let j = m as int;
        lemma_insert_position(prev, o, j);
        let p = insert_position(prev, o, j);
        let ord = prev.insert(p, j);
        assert(key_order_upto(o, n) == ord);
        assert(ord.len() == n);
        assert forall|i: int| 0 <= i < n implies 0 <= #[trigger] ord[i] < n by {
            if i < p {
                assert(ord[i] == prev[i]);
            } else if i > p {
                assert(ord[i] == prev[i - 1]);
            }
        }
        assert forall|k: int| 0 <= k < n implies ord.contains(k) by {
            if k == j {
                assert(ord[p] == j);
            } else {
                assert(prev.contains(k));
                let q = choose|q: int| 0 <= q < prev.len() && prev[q] == k;
                if q < p {
                    assert(ord[q] == k);
                } else {
                    assert(ord[q + 1] == k);
                }
            }
        }
        let es = entries_at(o, ord);
        let ps = entries_at(o, prev);
        assert forall|a: int, b: int| 0 <= a < b < es.len() implies text_less(#[trigger] es[a].0, #[trigger] es[b].0) by {
            let ka = es[a].0;
            let kb = es[b].0;
            let kj = o[j].0;
            if a < p && b < p {
                assert(ord[a] == prev[a] && ord[b] == prev[b]);
                assert(ps[a].0 == ka && ps[b].0 == kb);
            } else if a < p && b == p {
                assert(ord[a] == prev[a]);
                assert(ord[b] == j);
                assert(!text_less(kj, o[prev[a]].0));
                assert(prev[a] < m);
                assert(o[prev[a]].0 != kj);
                lemma_text_less_order(ka, kj, kj);
            } else if a < p && b > p {
                assert(ord[a] == prev[a] && ord[b] == prev[b - 1]);
                assert(ps[a].0 == ka && ps[b - 1].0 == kb);
            } else if a == p {
                assert(ord[a] == j);
                assert(ord[b] == prev[b - 1]);
                assert(p < prev.len());
                assert(text_less(kj, o[prev[p]].0));
                if b - 1 > p {
                    assert(ps[p].0 == o[prev[p]].0 && ps[b - 1].0 == kb);
                    lemma_text_less_order(kj, o[prev[p]].0, kb);
                }
            } else {
                assert(ord[a] == prev[a - 1] && ord[b] == prev[b - 1]);
                assert(ps[a - 1].0 == ka && ps[b - 1].0 == kb);
            }
        }
    }
}

/// The entries of `o` in key order: they hold the entries of `o`, and their keys
/// rise.
pub proof fn lemma_key_order_entries(o: Seq<(Seq<char>, Json)>)
    requires
        distinct_keys(o),
    ensures
        keys_rise(entries_at(o, key_order(o))),
        forall|e: (Seq<char>, Json)| entries_at(o, key_order(o)).contains(e) <==> o.contains(e),
        forall|k: int| 0 <= k < key_order(o).len() ==> 0 <= #[trigger] key_order(o)[k] < o.len(),
{
    lemma_key_order_upto(o, o.len());
    let ord = key_order(o);
    let es = entries_at(o, ord);
    assert forall|e: (Seq<char>, Json)| es.contains(e) <==> o.contains(e) by {
        if es.contains(e) {
            let q = choose|q: int| 0 <= q < es.len() && es[q] == e;
            assert(0 <= ord[q] < o.len());
            assert(o[ord[q]] == e);
        }
        if o.contains(e) {
            let q = choose|q: int| 0 <= q < o.len() && o[q] == e;
            assert(ord.contains(q));
            let r = choose|r: int| 0 <= r < ord.len() && ord[r] == q;
            assert(es[r] == e);
        }
    }
}


/// `a` and `b` are the same JSON value up to the order in which objects hold
/// their entries: arrays alike element by element, objects alike entry by entry,
/// anything else equal.
pub open spec fn same_json(a: Json, b: Json) -> bool
    decreases a, 1int,
{
    match a {
        Json::Array(x) => match b {
            Json::Array(y) => same_items(x, y),
            _ => false,
        },
        Json::Object(o) => match b {
            Json::Object(p) => same_entries(o, p),
            _ => false,
        },
        _ => a == b,
    }
}

/// The values `x` and `y` are alike one by one.
pub open spec fn same_items(x: Seq<Json>, y: Seq<Json>) -> bool
    decreases x, 0int,
{
    x.len() == y.len() && forall|i: int| 0 <= i < x.len() ==> same_json(#[trigger] x[i], y[i])
}

/// The entries `o` and `p` hold each key once and the same keys, a key's values
/// being alike.
pub open spec fn same_entries(o: Seq<(Seq<char>, Json)>, p: Seq<(Seq<char>, Json)>) -> bool
    decreases o, 0int,
{
    &&& distinct_keys(o)
    &&& distinct_keys(p)
    &&& same_keys(o, p)
    &&& forall|i: int|
        0 <= i < o.len() ==> exists|j: int|
            0 <= j < p.len() && p[j].0 == #[trigger] o[i].0 && same_json(o[i].1, p[j].1)
}

/// Every key of `o` is a key of `p`, and the other way round.
pub open spec fn same_keys(o: Seq<(Seq<char>, Json)>, p: Seq<(Seq<char>, Json)>) -> bool {
    &&& forall|i: int| 0 <= i < o.len() ==> exists|j: int| 0 <= j < p.len() && p[j].0 == #[trigger] o[i].0
    &&& forall|j: int| 0 <= j < p.len() ==> exists|i: int| 0 <= i < o.len() && o[i].0 == #[trigger] p[j].0
}

/// Two rising lists of keys with the same keys are the same list.
pub proof fn lemma_rising_keys_unique(k1: Seq<Seq<char>>, k2: Seq<Seq<char>>)
    requires
        forall|i: int, j: int| 0 <= i < j < k1.len() ==> text_less(#[trigger] k1[i], #[trigger] k1[j]),
        forall|i: int, j: int| 0 <= i < j < k2.len() ==> text_less(#[trigger] k2[i], #[trigger] k2[j]),
        forall|k: Seq<char>| k1.contains(k) <==> k2.contains(k),
    ensures
        k1 == k2,
    decreases k1.len(),
{
    if k1.len() == 0 {
        if k2.len() > 0 {
            assert(k2.contains(k2[0]));
        }
        assert(k1 =~= k2);
    } else if k2.len() == 0 {
        assert(k1.contains(k1[0]));
    } else {
        assert(k1.contains(k1[0]));
        assert(k2.contains(k2[0]));
        let j = choose|j: int| 0 <= j < k2.len() && k2[j] == k1[0];
        let i = choose|i: int| 0 <= i < k1.len() && k1[i] == k2[0];
        if i > 0 && j > 0 {
            assert(text_less(k1[0], k1[i]));
            assert(text_less(k2[0], k2[j]));
            lemma_text_less_order(k1[0], k2[0], k1[0]);
        }
        let t1 = k1.drop_first();
        let t2 = k2.drop_first();
        assert forall|e: Seq<char>| t1.contains(e) <==> t2.contains(e) by {
            lemma_text_less_order(e, e, e);
            if t1.contains(e) {
                let q = choose|q: int| 0 <= q < t1.len() && t1[q] == e;
                assert(k1[q + 1] == e);
                assert(text_less(k1[0], e));
                assert(k2.contains(e));
                let r = choose|r: int| 0 <= r < k2.len() && k2[r] == e;
                assert(r != 0);
                assert(t2[r - 1] == e);
            }
            if t2.contains(e) {
                let q = choose|q: int| 0 <= q < t2.len() && t2[q] == e;
                assert(k2[q + 1] == e);
                assert(text_less(k2[0], e));
                assert(k1.contains(e));
                let r = choose|r: int| 0 <= r < k1.len() && k1[r] == e;
                assert(r != 0);
                assert(t1[r - 1] == e);
            }
        }
        assert forall|a: int, b: int| 0 <= a < b < t1.len() implies text_less(#[trigger] t1[a], #[trigger] t1[b]) by {
            assert(t1[a] == k1[a + 1] && t1[b] == k1[b + 1]);
        }
        assert forall|a: int, b: int| 0 <= a < b < t2.len() implies text_less(#[trigger] t2[a], #[trigger] t2[b]) by {
            assert(t2[a] == k2[a + 1] && t2[b] == k2[b + 1]);
        }
        lemma_rising_keys_unique(t1, t2);
        assert forall|k: int| 0 <= k < k1.len() implies k1[k] == k2[k] by {
            if k > 0 {
                assert(k1[k] == t1[k - 1]);
                assert(k2[k] == t2[k - 1]);
            }
        }
        assert(k1 =~= k2);
    }
}

/// The keys of the entries `es`.
pub open spec fn keys_of(es: Seq<(Seq<char>, Json)>) -> Seq<Seq<char>> {
    Seq::new(es.len(), |i: int| es[i].0)
}

/// Some entry of `o` has key `k`.
pub open spec fn has_key(o: Seq<(Seq<char>, Json)>, k: Seq<char>) -> bool {
    exists|i: int| 0 <= i < o.len() && (#[trigger] o[i]).0 == k
}

/// The keys of `o` in key order are the keys of `o`.
pub proof fn lemma_sorted_keys_contains(o: Seq<(Seq<char>, Json)>)
    requires
        distinct_keys(o),
    ensures
        forall|k: Seq<char>| keys_of(entries_at(o, key_order(o))).contains(k) <==> has_key(o, k),
{
    lemma_key_order_entries(o);
    let e = entries_at(o, key_order(o));
    let ks = keys_of(e);
    assert forall|k: Seq<char>| ks.contains(k) implies has_key(o, k) by {
        let q = choose|q: int| 0 <= q < ks.len() && ks[q] == k;
        assert(e.contains(e[q]));
        assert(o.contains(e[q]));
        let i = choose|i: int| 0 <= i < o.len() && o[i] == e[q];
        assert(o[i].0 == k);
    }
    assert forall|k: Seq<char>| has_key(o, k) implies ks.contains(k) by {
        let i = choose|i: int| 0 <= i < o.len() && (#[trigger] o[i]).0 == k;
        assert(o.contains(o[i]));
        assert(e.contains(o[i]));
        let r = choose|r: int| 0 <= r < e.len() && e[r] == o[i];
        assert(ks[r] == k);
    }
}

/// Objects with the same keys have, in key order, the same keys.
pub proof fn lemma_same_keys_in_key_order(o: Seq<(Seq<char>, Json)>, p: Seq<(Seq<char>, Json)>)
    requires
        distinct_keys(o),
        distinct_keys(p),
        same_keys(o, p),
    ensures
        keys_of(entries_at(o, key_order(o))) == keys_of(entries_at(p, key_order(p))),
{
    lemma_sorted_keys_contains(o);
    lemma_sorted_keys_contains(p);
    let k1 = keys_of(entries_at(o, key_order(o)));
    let k2 = keys_of(entries_at(p, key_order(p)));
    assert forall|k: Seq<char>| has_key(o, k) <==> has_key(p, k) by {
        if has_key(o, k) {
            let i = choose|i: int| 0 <= i < o.len() && (#[trigger] o[i]).0 == k;
            let j = choose|j: int| 0 <= j < p.len() && p[j].0 == o[i].0;
            assert(p[j].0 == k);
        }
        if has_key(p, k) {
            let j = choose|j: int| 0 <= j < p.len() && (#[trigger] p[j]).0 == k;
            let i = choose|i: int| 0 <= i < o.len() && o[i].0 == p[j].0;
            assert(o[i].0 == k);
        }
    }
    assert forall|k: Seq<char>| k1.contains(k) <==> k2.contains(k) by {
        assert(k1.contains(k) <==> has_key(o, k));
        assert(k2.contains(k) <==> has_key(p, k));
    }
    lemma_key_order_entries(o);
    lemma_key_order_entries(p);
    let e1 = entries_at(o, key_order(o));
    let e2 = entries_at(p, key_order(p));
    assert forall|a: int, b: int| 0 <= a < b < k1.len() implies text_less(#[trigger] k1[a], #[trigger] k1[b]) by {
        assert(text_less(e1[a].0, e1[b].0));
    }
    assert forall|a: int, b: int| 0 <= a < b < k2.len() implies text_less(#[trigger] k2[a], #[trigger] k2[b]) by {
        assert(text_less(e2[a].0, e2[b].0));
    }
    lemma_rising_keys_unique(k1, k2);
}

/// Two objects alike up to entry order have, in key order, the same keys with
/// alike values.
pub proof fn lemma_same_objects_in_key_order(o: Seq<(Seq<char>, Json)>, p: Seq<(Seq<char>, Json)>)
    requires
        same_entries(o, p),
    ensures
        entries_at(o, key_order(o)).len() == entries_at(p, key_order(p)).len(),
        forall|k: int|
            0 <= k < entries_at(o, key_order(o)).len() ==> (#[trigger] entries_at(o, key_order(o))[k]).0
                == entries_at(p, key_order(p))[k].0 && same_json(
                entries_at(o, key_order(o))[k].1,
                entries_at(p, key_order(p))[k].1,
            ),
{
    lemma_same_keys_in_key_order(o, p);
    lemma_key_order_entries(o);
    lemma_key_order_entries(p);
    let e1 = entries_at(o, key_order(o));
    let e2 = entries_at(p, key_order(p));
    assert(keys_of(e1).len() == keys_of(e2).len());
    assert forall|k: int| 0 <= k < e1.len() implies (#[trigger] e1[k]).0 == e2[k].0 && same_json(e1[k].1, e2[k].1) by {
        assert(keys_of(e1)[k] == keys_of(e2)[k]);
        assert(e1.contains(e1[k]));
        assert(o.contains(e1[k]));
        let i = choose|i: int| 0 <= i < o.len() && o[i] == e1[k];
        let j = choose|j: int| 0 <= j < p.len() && p[j].0 == o[i].0 && same_json(o[i].1, p[j].1);
        assert(p.contains(p[j]));
        assert(e2.contains(p[j]));
        let r = choose|r: int| 0 <= r < e2.len() && e2[r] == p[j];
        if r != k {
            lemma_text_less_order(e2[r].0, e2[r].0, e2[r].0);
            if r < k {
                assert(text_less(e2[r].0, e2[k].0));
            } else {
                assert(text_less(e2[k].0, e2[r].0));
            }
        }
    }
}

/// Alike arrays of values no deeper than `d` print alike.
pub proof fn lemma_items_same(x: Seq<Json>, y: Seq<Json>, d: nat, ind: nat, cur: nat)
    requires
        x.len() == y.len(),
        forall|i: int| 0 <= i < x.len() ==> same_json(#[trigger] x[i], y[i]),
        forall|i: int| 0 <= i < x.len() ==> json_depth(#[trigger] x[i]) < d,
    ensures
        pretty_items(x, ind, cur) == pretty_items(y, ind, cur),
    decreases d, 0int, x.len(),
{
    if x.len() > 0 {
        assert(same_json(x[0], y[0]));
        assert(json_depth(x[0]) < d);
        lemma_pretty_same(x[0], y[0], ind, cur + ind);
        let x1 = x.subrange(1, x.len() as int);
        let y1 = y.subrange(1, y.len() as int);
        assert forall|i: int| 0 <= i < x1.len() implies same_json(#[trigger] x1[i], y1[i]) by {
            assert(x1[i] == x[i + 1] && y1[i] == y[i + 1]);
        }
        assert forall|i: int| 0 <= i < x1.len() implies json_depth(#[trigger] x1[i]) < d by {
            assert(x1[i] == x[i + 1]);
        }
        lemma_items_same(x1, y1, d, ind, cur);
    }
}

/// Alike lists of entries, keys equal and values alike and no deeper than `d`,
/// print alike.
pub proof fn lemma_entry_list_same(e1: Seq<(Seq<char>, Json)>, e2: Seq<(Seq<char>, Json)>, d: nat, ind: nat, cur: nat)
    requires
        e1.len() == e2.len(),
        forall|i: int| 0 <= i < e1.len() ==> (#[trigger] e1[i]).0 == e2[i].0 && same_json(e1[i].1, e2[i].1),
        forall|i: int| 0 <= i < e1.len() ==> json_depth((#[trigger] e1[i]).1) < d,
    ensures
        pretty_entry_list(e1, ind, cur) == pretty_entry_list(e2, ind, cur),
    decreases d, 0int, e1.len(),
{
    if e1.len() > 0 {
        assert(e1[0].0 == e2[0].0 && same_json(e1[0].1, e2[0].1));
        assert(json_depth(e1[0].1) < d);
        lemma_pretty_same(e1[0].1, e2[0].1, ind, cur + ind);
        let t1 = e1.drop_first();
        let t2 = e2.drop_first();
        assert forall|i: int| 0 <= i < t1.len() implies (#[trigger] t1[i]).0 == t2[i].0 && same_json(t1[i].1, t2[i].1) by {
            assert(t1[i] == e1[i + 1] && t2[i] == e2[i + 1]);
        }
        assert forall|i: int| 0 <= i < t1.len() implies json_depth((#[trigger] t1[i]).1) < d by {
            assert(t1[i] == e1[i + 1]);
        }
        lemma_entry_list_same(t1, t2, d, ind, cur);
    }
}

/// Two values alike up to the order of objects' entries print alike.
pub proof fn lemma_pretty_same(a: Json, b: Json, ind: nat, cur: nat)
    requires
        same_json(a, b),
    ensures
        pretty(a, ind, cur) == pretty(b, ind, cur),
    decreases json_depth(a), 1int, 0int,
{
    match (a, b) {
        (Json::Array(x), Json::Array(y)) => {
            assert(same_items(x, y));
            assert forall|i: int| 0 <= i < x.len() implies json_depth(#[trigger] x[i]) < json_depth(a) by {
                lemma_items_depth(x, i);
            }
            lemma_items_same(x, y, json_depth(a), ind, cur);
        },
        (Json::Object(o), Json::Object(p)) => {
            assert(same_entries(o, p));
            lemma_same_objects_in_key_order(o, p);
            lemma_key_order_entries(o);
            lemma_key_order_entries(p);
            let e1 = entries_at(o, key_order(o));
            let e2 = entries_at(p, key_order(p));
            assert forall|i: int| 0 <= i < e1.len() implies json_depth((#[trigger] e1[i]).1) < json_depth(a) by {
                lemma_entries_depth(o, key_order(o)[i]);
            }
            lemma_entry_list_same(e1, e2, json_depth(a), ind, cur);
            lemma_pretty_entries_at(o, key_order(o), ind, cur);
            lemma_pretty_entries_at(p, key_order(p), ind, cur);
            if o.len() == 0 && p.len() > 0 {
                let w = choose|i: int| 0 <= i < o.len() && o[i].0 == p[0].0;
            }
            if p.len() == 0 && o.len() > 0 {
                let w = choose|j: int| 0 <= j < p.len() && p[j].0 == o[0].0 && same_json(o[0].1, p[j].1);
            }
        },
        _ => {},
    }
}

/// Printing does not see the order in which objects hold their entries, at any
/// depth: two values alike up to that order (as two maps with the same entries
/// are equal) print the same text.
pub proof fn law_pretty_same_json(a: Json, b: Json, ind: nat, cur: nat)
    requires
        same_json(a, b),
    ensures
        pretty(a, ind, cur) == pretty(b, ind, cur),
{
    lemma_pretty_same(a, b, ind, cur);
}

/// A non-empty object prints its entries in ascending key order: its text is the
/// lines of a list of its entries whose keys rise and that holds each of its
/// entries.
pub proof fn law_pretty_object_in_key_order(o: Seq<(Seq<char>, Json)>, ind: nat, cur: nat)
    requires
        distinct_keys(o),
        o.len() > 0,
    ensures
        ({
            let es = entries_at(o, key_order(o));
            &&& keys_rise(es)
            &&& forall|e: (Seq<char>, Json)| es.contains(e) <==> o.contains(e)
            &&& pretty(Json::Object(o), ind, cur) == "{\n"@ + pretty_entry_list(es, ind, cur) + spaces(cur) + "}"@
        }),
{
    lemma_key_order_entries(o);
    lemma_pretty_entries_at(o, key_order(o), ind, cur);
}

} // verus!
