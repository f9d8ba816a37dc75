//! A JSON document model shared by the parsers, printers, mergers and validators.
//!
//! A number is held as its decimal text, exactly as it was read or as it is to be
//! printed; an object is a list of entries whose keys are distinct.
use vstd::prelude::*;

verus! {

/// The mathematical view of a JSON value.
pub enum Json {
    Null,
    Bool(bool),
    Number(Seq<char>),
    Str(Seq<char>),
    Array(Seq<Json>),
    Object(Seq<(Seq<char>, Json)>),
}

/// A JSON value.
#[derive(Debug, PartialEq)]
pub enum JsonValue {
    Null,
    Bool(bool),
    Number(String),
    String(String),
    Array(Vec<JsonValue>),
    Object(Vec<(String, JsonValue)>),
}

impl JsonValue {
    /// The mathematical view of this value.
    pub open spec fn model(self) -> Json
        decreases self,
    {
        match self {
            JsonValue::Null => Json::Null,
            JsonValue::Bool(b) => Json::Bool(b),
            JsonValue::Number(n) => Json::Number(n@),
            JsonValue::String(s) => Json::Str(s@),
            JsonValue::Array(a) => Json::Array(
                Seq::new(
                    a.len() as nat,
                    |i: int|
                        if 0 <= i < a.len() {
                            a@[i].model()
                        } else {
                            Json::Null
                        },
                ),
            ),
            JsonValue::Object(o) => Json::Object(
                Seq::new(
                    o.len() as nat,
                    |i: int|
                        if 0 <= i < o.len() {
                            (o@[i].0@, o@[i].1.model())
                        } else {
                            (Seq::empty(), Json::Null)
                        },
                ),
            ),
        }
    }
}

/// The views of the values `a`.
pub open spec fn models(a: Seq<JsonValue>) -> Seq<Json> {
    Seq::new(a.len(), |i: int| a[i].model())
}

/// The views of the entries `o`.
pub open spec fn entry_models(o: Seq<(String, JsonValue)>) -> Seq<(Seq<char>, Json)> {
    Seq::new(o.len(), |i: int| (o[i].0@, o[i].1.model()))
}

/// The view of an array is the views of its elements.
pub proof fn lemma_array_model(a: Vec<JsonValue>)
    ensures
        JsonValue::Array(a).model() == Json::Array(models(a@)),
{
    assert(JsonValue::Array(a).model()->Array_0 =~= models(a@));
}

/// The view of an object is the views of its entries.
pub proof fn lemma_object_model(o: Vec<(String, JsonValue)>)
    ensures
        JsonValue::Object(o).model() == Json::Object(entry_models(o@)),
{
    assert(JsonValue::Object(o).model()->Object_0 =~= entry_models(o@));
}

/// The position of the first entry of `m` with key `k`, or `m.len()` when there is none.
pub open spec fn key_index<V>(m: Seq<(Seq<char>, V)>, k: Seq<char>) -> int
    decreases m.len(),
{
    if m.len() == 0 {
        0
    } else if m[0].0 == k {
        0
    } else {
        1 + key_index(m.drop_first(), k)
    }
}

/// The value of key `k` in the entries `m`, if any.
pub open spec fn lookup<V>(m: Seq<(Seq<char>, V)>, k: Seq<char>) -> Option<V> {
    let i = key_index(m, k);
    if i < m.len() {
        Some(m[i].1)
    } else {
        None
    }
}

/// The entries `m` after setting key `k` to `v`, as a map insertion does: an
/// existing entry keeps its place and takes the new value, a new key goes last.
pub open spec fn obj_insert<V>(m: Seq<(Seq<char>, V)>, k: Seq<char>, v: V) -> Seq<
    (Seq<char>, V),
> {
    let i = key_index(m, k);
    if i < m.len() {
        m.update(i, (k, v))
    } else {
        m.push((k, v))
    }
}

/// The keys of the entries `m` are distinct.
pub open spec fn distinct_keys<V>(m: Seq<(Seq<char>, V)>) -> bool {
    forall|i: int, j: int| 0 <= i < j < m.len() ==> m[i].0 != m[j].0
}

/// `key_index` is the first position holding the key.
pub proof fn lemma_key_index<V>(m: Seq<(Seq<char>, V)>, k: Seq<char>, i: int)
    requires
        0 <= i <= m.len(),
        forall|j: int| 0 <= j < i ==> m[j].0 != k,
        i == m.len() || m[i].0 == k,
    ensures
        key_index(m, k) == i,
    decreases m.len(),
{
    if m.len() > 0 && i > 0 {
        assert forall|j: int| 0 <= j < i - 1 implies m.drop_first()[j].0 != k by {
            assert(m.drop_first()[j] == m[j + 1]);
        }
        lemma_key_index(m.drop_first(), k, i - 1);
    }
}

/// `key_index` lies within `0..=m.len()`.
pub proof fn lemma_key_index_bounds<V>(m: Seq<(Seq<char>, V)>, k: Seq<char>)
    ensures
        0 <= key_index(m, k) <= m.len(),
        key_index(m, k) < m.len() ==> m[key_index(m, k)].0 == k,
        forall|j: int| 0 <= j < key_index(m, k) ==> m[j].0 != k,
    decreases m.len(),
{
    if m.len() > 0 && m[0].0 != k {
        lemma_key_index_bounds(m.drop_first(), k);
        assert forall|j: int| 0 <= j < key_index(m, k) implies m[j].0 != k by {
            if j > 0 {
                assert(m[j] == m.drop_first()[j - 1]);
            }
        }
    }
}

/// After setting key `k` to `v`, looking up `k` gives `v` and looking up any
/// other key gives what it gave before.
pub proof fn lemma_lookup_obj_insert<V>(m: Seq<(Seq<char>, V)>, k: Seq<char>, v: V, k2: Seq<char>)
    ensures
        lookup(obj_insert(m, k, v), k2) == (if k2 == k { Some(v) } else { lookup(m, k2) }),
{
    lemma_key_index_bounds(m, k);
    lemma_key_index_bounds(m, k2);
    let i = key_index(m, k);
    let j = key_index(m, k2);
    let n = obj_insert(m, k, v);
    if i < m.len() {
        assert forall|l: int| 0 <= l < j implies n[l].0 != k2 by {
            assert(n[l].0 == m[l].0);
        }
        if j < m.len() {
            assert(n[j].0 == m[j].0);
        }
        lemma_key_index(n, k2, j);
        if k2 != k && j < m.len() {
            assert(j != i);
            assert(n[j] == m[j]);
        }
    } else {
        if k2 == k {
            assert forall|l: int| 0 <= l < m.len() implies n[l].0 != k2 by {
                assert(n[l] == m[l]);
            }
            lemma_key_index(n, k2, m.len() as int);
        } else {
            assert forall|l: int| 0 <= l < j implies n[l].0 != k2 by {
                assert(n[l] == m[l]);
            }
            if j < m.len() {
                assert(n[j] == m[j]);
                lemma_key_index(n, k2, j);
            } else {
                assert(n[m.len() as int].0 == k);
                lemma_key_index(n, k2, n.len() as int);
            }
        }
    }
}

/// Inserting keeps the keys distinct.
pub proof fn lemma_obj_insert_distinct<V>(m: Seq<(Seq<char>, V)>, k: Seq<char>, v: V)
    requires
        distinct_keys(m),
    ensures
        distinct_keys(obj_insert(m, k, v)),
        lookup(obj_insert(m, k, v), k) == Some(v),
{
    lemma_key_index_bounds(m, k);
    let r = obj_insert(m, k, v);
    let i = key_index(m, k);
    if i < m.len() {
        lemma_key_index(r, k, i);
    } else {
        lemma_key_index(r, k, m.len() as int);
    }
}

/// The position of the entry with key `k` in `o`, or `o.len()`.
pub fn find_key(o: &Vec<(String, JsonValue)>, k: &String) -> (i: usize)
    ensures
        i == key_index(entry_models(o@), k@),
        i <= o@.len(),
{
    let ghost m = entry_models(o@);
    let mut i: usize = 0;
    while i < o.len()
        invariant
            i <= o@.len(),
            m == entry_models(o@),
            forall|j: int| 0 <= j < i ==> m[j].0 != k@,
        decreases o.len() - i,
    {
        if o[i].0 == *k {
            proof {
                lemma_key_index(m, k@, i as int);
            }
            return i;
        }
        i += 1;
    }
    proof {
        lemma_key_index(m, k@, i as int);
    }
    i
}

/// Sets key `k` of the entries `o` to `v`.
pub fn insert_entry(o: &mut Vec<(String, JsonValue)>, k: String, v: JsonValue)
    ensures
        entry_models(final(o)@) == obj_insert(entry_models(old(o)@), k@, v.model()),
{
    let i = find_key(o, &k);
    let ghost m = entry_models(o@);
    let ghost kv = k@;
    let ghost vm = v.model();
    if i < o.len() {
        o.set(i, (k, v));
        assert(entry_models(o@) =~= m.update(i as int, (kv, vm)));
    } else {
        o.push((k, v));
        assert(entry_models(o@) =~= m.push((kv, vm)));
    }
}

/// How deeply arrays and objects nest in `v`: 0 for a scalar.
pub open spec fn json_depth(v: Json) -> nat
    decreases v, 0int,
{
    match v {
        Json::Array(a) => 1 + items_depth(a),
        Json::Object(o) => 1 + entries_depth(o),
        _ => 0,
    }
}

/// The greatest depth among the values `a`, 0 when there are none.
pub open spec fn items_depth(a: Seq<Json>) -> nat
    decreases a, 0int,
{
    if a.len() == 0 {
        0
    } else {
        let d = json_depth(a[0]);
        let r = items_depth(a.subrange(1, a.len() as int));
        if d > r {
            d
        } else {
            r
        }
    }
}

/// The greatest depth among the values of the entries `o`, 0 when there are none.
pub open spec fn entries_depth(o: Seq<(Seq<char>, Json)>) -> nat
    decreases o, 0int,
{
    if o.len() == 0 {
        0
    } else {
        let d = json_depth(o[0].1);
        let r = entries_depth(o.subrange(1, o.len() as int));
        if d > r {
            d
        } else {
            r
        }
    }
}

/// Each value of `a` is at most as deep as `items_depth(a)`.
pub proof fn lemma_items_depth(a: Seq<Json>, i: int)
    requires
        0 <= i < a.len(),
    ensures
        json_depth(a[i]) <= items_depth(a),
    decreases a.len(),
{
    if i > 0 {
        lemma_items_depth(a.subrange(1, a.len() as int), i - 1);
        assert(a.subrange(1, a.len() as int)[i - 1] == a[i]);
    }
}

/// Each value of `o` is at most as deep as `entries_depth(o)`.
pub proof fn lemma_entries_depth(o: Seq<(Seq<char>, Json)>, i: int)
    requires
        0 <= i < o.len(),
    ensures
        json_depth(o[i].1) <= entries_depth(o),
    decreases o.len(),
{
    if i > 0 {
        lemma_entries_depth(o.subrange(1, o.len() as int), i - 1);
        assert(o.subrange(1, o.len() as int)[i - 1] == o[i]);
    }
}

/// A copy of `v`.
pub fn deep_clone(v: &JsonValue) -> (r: JsonValue)
    ensures
        r.model() == v.model(),
    decreases v,
{
    match v {
        JsonValue::Null => JsonValue::Null,
        JsonValue::Bool(b) => JsonValue::Bool(*b),
        JsonValue::Number(n) => JsonValue::Number(n.clone()),
        JsonValue::String(s) => JsonValue::String(s.clone()),
        JsonValue::Array(a) => {
            let mut out: Vec<JsonValue> = Vec::new();
            let mut i: usize = 0;
            while i < a.len()
                invariant
                    i <= a@.len(),
                    *v == JsonValue::Array(*a),
                    models(out@) == models(a@).take(i as int),
                decreases a.len() - i,
            {
                proof {
                    assert(decreases_to!(*v => (*v)->Array_0));
                    assert(decreases_to!(*a => a@));
                    assert(decreases_to!(a@ => a@[i as int]));
                }
                let c = deep_clone(&a[i]);
                let ghost before = models(out@);
                out.push(c);
                assert(models(out@) =~= before.push(a@[i as int].model()));
                i += 1;
                assert(models(out@) =~= models(a@).take(i as int));
            }
            assert(models(a@).take(i as int) =~= models(a@));
            proof {
                lemma_array_model(out);
                lemma_array_model(*a);
            }
            JsonValue::Array(out)
        },
        JsonValue::Object(o) => {
            let mut out: Vec<(String, JsonValue)> = Vec::new();
            let mut i: usize = 0;
            while i < o.len()
                invariant
                    i <= o@.len(),
                    *v == JsonValue::Object(*o),
                    entry_models(out@) == entry_models(o@).take(i as int),
                decreases o.len() - i,
            {
                proof {
                    assert(decreases_to!(*v => (*v)->Object_0));
                    assert(decreases_to!(*o => o@));
                    assert(decreases_to!(o@ => o@[i as int]));
                    assert(decreases_to!(o@[i as int] => o@[i as int].1));
                }
                let c = deep_clone(&o[i].1);
                let k = o[i].0.clone();
                let ghost before = entry_models(out@);
                out.push((k, c));
                assert(entry_models(out@) =~= before.push((o@[i as int].0@, o@[i as int].1.model())));
                i += 1;
                assert(entry_models(out@) =~= entry_models(o@).take(i as int));
            }
            assert(entry_models(o@).take(i as int) =~= entry_models(o@));
            proof {
                lemma_object_model(out);
                lemma_object_model(*o);
            }
            JsonValue::Object(out)
        },
    }
}

} // verus!
