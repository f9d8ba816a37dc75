//! Merging JSON values: objects key by key, arrays by appending what is new, and
//! anything else by replacement.
use vstd::prelude::*;
use crate::json_value::{Json, JsonValue, models, entry_models, lookup, obj_insert, lemma_array_model, lemma_object_model, lemma_key_index_bounds, find_key, deep_clone, insert_entry, lemma_lookup_obj_insert};
use crate::vec_util::reversed;

verus! {

broadcast use vstd::string::group_string_axioms;

/// `base` merged with `other`: two objects merge key by key, the values of a key
/// both have merging in turn and other keys of `other` being added; two arrays,
/// unless `overwrite_arrays`, give `base`'s elements followed by `other`'s that are
/// not strings already in `base`; anything else gives `other`.
pub open spec fn merged(base: Json, other: Json, overwrite_arrays: bool) -> Json
    decreases other, 0int,
{
    match (base, other) {
        (Json::Object(bm), Json::Object(om)) => Json::Object(
            merge_entries(bm, om, overwrite_arrays),
        ),
        (Json::Array(ba), Json::Array(oa)) => if !overwrite_arrays {
            Json::Array(ba + array_extension(ba, oa))
        } else {
            other
        },
        _ => other,
    }
}

/// Merging a value that is not an object into anything, or anything into a
/// value of another kind, gives that value as it is: only two objects merge key
/// by key and only two arrays (unless arrays are overwritten) are joined; every
/// other pairing is replaced by `other`, a `null` in `other` included. With
/// `overwrite_arrays`, an array replaces an array.
pub proof fn law_merge_replaces_non_containers(base: Json, other: Json, overwrite_arrays: bool)
    requires
        !(base is Object && other is Object),
        !(base is Array && other is Array && !overwrite_arrays),
    ensures
        merged(base, other, overwrite_arrays) == other,
{
}

/// In particular a `null` in `other` replaces whatever `base` holds when `base`
/// is not an object.
pub proof fn law_merge_null_replaces(base: Json, overwrite_arrays: bool)
    requires
        !(base is Object),
    ensures
        merged(base, Json::Null, overwrite_arrays) == Json::Null,
{
    law_merge_replaces_non_containers(base, Json::Null, overwrite_arrays);
}

/// The entries `acc` with each entry of `om` merged in, in order.
pub open spec fn merge_entries(
    acc: Seq<(Seq<char>, Json)>,
    om: Seq<(Seq<char>, Json)>,
    overwrite_arrays: bool,
) -> Seq<(Seq<char>, Json)>
    decreases om, 0int,
{
    if om.len() == 0 {
        acc
    } else {
        let (k, ov) = om[0];
        let next = match lookup(acc, k) {
            Some(bv) => obj_insert(acc, k, merged(bv, ov, overwrite_arrays)),
            None => obj_insert(acc, k, ov),
        };
        merge_entries(next, om.subrange(1, om.len() as int), overwrite_arrays)
    }
}

/// The elements of `oa` that an array merge adds to `ba`: all but the strings
/// that are already elements of `ba`.
pub open spec fn array_extension(ba: Seq<Json>, oa: Seq<Json>) -> Seq<Json>
    decreases oa.len(),
{
    if oa.len() == 0 {
        Seq::empty()
    } else {
        let rest = array_extension(ba, oa.drop_last());
        let x = oa.last();
        if x is Str && ba.contains(x) {
            rest
        } else {
            rest.push(x)
        }
    }
}

/// A key is in the entries merged from `acc` and `om` exactly when it is in one
/// of them.
pub proof fn lemma_merge_entries_keys(acc: Seq<(Seq<char>, Json)>, om: Seq<(Seq<char>, Json)>, overwrite_arrays: bool, k: Seq<char>)
    ensures
        lookup(merge_entries(acc, om, overwrite_arrays), k) is Some <==> (lookup(acc, k) is Some || lookup(om, k) is Some),
    decreases om.len(),
{
    if om.len() > 0 {
        let (k0, ov) = om[0];
        let next = match lookup(acc, k0) {
            Some(bv) => obj_insert(acc, k0, merged(bv, ov, overwrite_arrays)),
            None => obj_insert(acc, k0, ov),
        };
        let rest = om.subrange(1, om.len() as int);
        assert(rest =~= om.drop_first());
        lemma_merge_entries_keys(next, rest, overwrite_arrays, k);
        match lookup(acc, k0) {
            Some(bv) => lemma_lookup_obj_insert(acc, k0, merged(bv, ov, overwrite_arrays), k),
            None => lemma_lookup_obj_insert(acc, k0, ov, k),
        }
        lemma_key_index_bounds(om, k);
        lemma_key_index_bounds(rest, k);
    }
}

/// Merging two objects keeps every key of both and adds no other: a key is in
/// the merged object exactly when it is in one of the two.
pub proof fn law_merge_keeps_keys(base: Json, other: Json, overwrite_arrays: bool, k: Seq<char>)
    requires
        base is Object,
        other is Object,
    ensures
        merged(base, other, overwrite_arrays) is Object,
        lookup(merged(base, other, overwrite_arrays)->Object_0, k) is Some <==> (lookup(base->Object_0, k) is Some
            || lookup(other->Object_0, k) is Some),
{
    lemma_merge_entries_keys(base->Object_0, other->Object_0, overwrite_arrays, k);
}

/// `base` merged with `other`, as `merged` says.
pub fn merge_values(base: JsonValue, other: &JsonValue, overwrite_arrays: bool) -> (r: JsonValue)
    ensures
        r.model() == merged(base.model(), other.model(), overwrite_arrays),
    decreases other,
{
    match (base, other) {
        (JsonValue::Object(bm), JsonValue::Object(om)) => {
            proof {
                lemma_object_model(bm);
                lemma_object_model(*om);
            }
            let ghost oms = entry_models(om@);
            let mut acc = bm;
            let mut i: usize = 0;
            assert(oms.subrange(0, oms.len() as int) =~= oms);
            while i < om.len()
                invariant
                    i <= om@.len(),
                    oms == entry_models(om@),
                    *other == JsonValue::Object(*om),
                    merge_entries(entry_models(bm@), oms, overwrite_arrays) == merge_entries(
                        entry_models(acc@),
                        oms.subrange(i as int, oms.len() as int),
                        overwrite_arrays,
                    ),
                decreases om.len() - i,
            {
                let ghost rest = oms.subrange(i as int, oms.len() as int);
                assert(rest[0] == oms[i as int]);
                assert(rest.subrange(1, rest.len() as int) =~= oms.subrange(i + 1, oms.len() as int));
                proof {
                    assert(decreases_to!(*other => (*other)->Object_0));
                    assert(decreases_to!(*om => om@));
                    assert(decreases_to!(om@ => om@[i as int]));
                    assert(decreases_to!(om@[i as int] => om@[i as int].1));
                    lemma_key_index_bounds(entry_models(acc@), om@[i as int].0@);
                }
                let ghost am = entry_models(acc@);
                let k = find_key(&acc, &om[i].0);
                if k < acc.len() {
                    let (key, existing) = acc.remove(k);
                    let m = merge_values(existing, &om[i].1, overwrite_arrays);
                    let ghost km = key@;
                    let ghost mm = m.model();
                    acc.insert(k, (key, m));
                    assert(entry_models(acc@) =~= am.update(k as int, (km, mm)));
                } else {
                    let c = deep_clone(&om[i].1);
                    let kc = om[i].0.clone();
                    let ghost cm = c.model();
                    acc.push((kc, c));
                    assert(entry_models(acc@) =~= am.push((om@[i as int].0@, cm)));
                }
                i += 1;
            }
            assert(oms.subrange(i as int, oms.len() as int) =~= Seq::<(Seq<char>, Json)>::empty());
            proof {
                lemma_object_model(acc);
            }
            JsonValue::Object(acc)
        },
        (JsonValue::Array(ba), JsonValue::Array(oa)) => {
            if overwrite_arrays {
                proof {
                    lemma_array_model(ba);
                    lemma_array_model(*oa);
                }
                return deep_clone(other);
            }
            proof {
                lemma_array_model(ba);
                lemma_array_model(*oa);
            }
            let ghost bms = models(ba@);
            let ghost oms = models(oa@);
            let mut out = ba;
            let base_len = out.len();
            let mut i: usize = 0;
            while i < oa.len()
                invariant
                    i <= oa@.len(),
                    base_len == bms.len(),
                    oms == models(oa@),
                    out@.len() >= bms.len(),
                    models(out@) == bms + array_extension(bms, oms.take(i as int)),
                    models(out@).take(bms.len() as int) == bms,
                decreases oa.len() - i,
            {
                let ghost before = models(out@);
                assert(oms.take(i + 1).drop_last() =~= oms.take(i as int));
                assert(oms.take(i + 1).last() == oa@[i as int].model());
                let add = match &oa[i] {
                    JsonValue::String(s) => {
                        let prefix_has = holds_string_prefix(&out, base_len, s);
                        !prefix_has
                    },
                    _ => true,
                };
                if add {
                    let c = deep_clone(&oa[i]);
                    out.push(c);
                    assert(models(out@) =~= before.push(oa@[i as int].model()));
                }
                i += 1;
                assert(models(out@).take(bms.len() as int) =~= bms);
            }
            assert(oms.take(i as int) =~= oms);
            proof {
                lemma_array_model(out);
            }
            JsonValue::Array(out)
        },
        (_, _) => deep_clone(other),
    }
}

/// Whether one of the first `n` elements of `a` is the string `s`.
fn holds_string_prefix(a: &Vec<JsonValue>, n: usize, s: &String) -> (b: bool)
    requires
        n <= a@.len(),
    ensures
        b == models(a@).take(n as int).contains(Json::Str(s@)),
{
    let mut i: usize = 0;
    while i < n
        invariant
            i <= n,
            n <= a@.len(),
            forall|j: int| 0 <= j < i ==> models(a@)[j] != Json::Str(s@),
        decreases n - i,
    {
        match &a[i] {
            JsonValue::String(t) => {
                if *t == *s {
                    assert(models(a@).take(n as int)[i as int] == Json::Str(s@));
                    return true;
                }
            },
            _ => {},
        }
        i += 1;
    }
    assert forall|j: int| 0 <= j < n implies models(a@).take(n as int)[j] != Json::Str(s@) by {
        assert(models(a@).take(n as int)[j] == models(a@)[j]);
    }
    false
}

/// Merges `other` into `base`, as `merged` says.
pub fn merge_into(base: &mut JsonValue, other: &JsonValue, overwrite_arrays: bool)
    ensures
        final(base).model() == merged(old(base).model(), other.model(), overwrite_arrays),
{
    let mut taken = JsonValue::Null;
    std::mem::swap(&mut taken, base);
    *base = merge_values(taken, other, overwrite_arrays);
}

/// The entries `acc` with the entries `es` set in order, a later value for a key
/// replacing an earlier one.
pub open spec fn union_entries(acc: Seq<(Seq<char>, Json)>, es: Seq<(Seq<char>, Json)>) -> Seq<
    (Seq<char>, Json),
>
    decreases es.len(),
{
    if es.len() == 0 {
        acc
    } else {
        union_entries(obj_insert(acc, es[0].0, es[0].1), es.drop_first())
    }
}

/// Sets the entries `es` into `acc`, in order.
pub fn union_into(acc: &mut Vec<(String, JsonValue)>, es: Vec<(String, JsonValue)>)
    ensures
        entry_models(final(acc)@) == union_entries(entry_models(old(acc)@), entry_models(es@)),
{
    let ghost ems = entry_models(es@);
    let mut rest = reversed(es);
    let ghost target = union_entries(entry_models(acc@), ems);
    assert(ems.skip(0) =~= ems);
    while rest.len() > 0
        invariant
            rest@.len() <= ems.len(),
            ems == entry_models(es@),
            target == union_entries(entry_models(old(acc)@), ems),
            forall|j: int| 0 <= j < rest@.len() ==> (#[trigger] rest@[j]).0@ == ems[ems.len() - 1 - j].0
                && rest@[j].1.model() == ems[ems.len() - 1 - j].1,
            union_entries(entry_models(acc@), ems.skip(ems.len() - rest@.len())) == target,
        decreases rest.len(),
    {
        let ghost k = ems.len() - rest@.len();
        let (key, value) = rest.pop().unwrap();
        assert(ems.skip(k)[0] == ems[k]);
        assert(ems.skip(k).drop_first() =~= ems.skip(k + 1));
        insert_entry(acc, key, value);
    }
    assert(ems.skip(ems.len() as int) =~= Seq::<(Seq<char>, Json)>::empty());
}

/// Whether `a` and `b` are the same value.
pub fn json_equal(a: &JsonValue, b: &JsonValue) -> (r: bool)
    ensures
        r == (a.model() == b.model()),
    decreases a,
{
    match (a, b) {
        (JsonValue::Null, JsonValue::Null) => true,
        (JsonValue::Bool(x), JsonValue::Bool(y)) => *x == *y,
        (JsonValue::Number(x), JsonValue::Number(y)) => *x == *y,
        (JsonValue::String(x), JsonValue::String(y)) => *x == *y,
        (JsonValue::Array(x), JsonValue::Array(y)) => {
            proof {
                lemma_array_model(*x);
                lemma_array_model(*y);
            }
            if x.len() != y.len() {
                assert(models(x@).len() != models(y@).len());
                return false;
            }
            let mut i: usize = 0;
            while i < x.len()
                invariant
                    i <= x@.len(),
                    x@.len() == y@.len(),
                    *a == JsonValue::Array(*x),
                    a.model() == Json::Array(models(x@)),
                    b.model() == Json::Array(models(y@)),
                    forall|j: int| 0 <= j < i ==> models(x@)[j] == models(y@)[j],
                decreases x.len() - i,
            {
                proof {
                    assert(decreases_to!(*a => (*a)->Array_0));
                    assert(decreases_to!(*x => x@));
                    assert(decreases_to!(x@ => x@[i as int]));
                }
                if !json_equal(&x[i], &y[i]) {
                    assert(models(x@)[i as int] != models(y@)[i as int]);
                    return false;
                }
                i += 1;
            }
            assert(models(x@) =~= models(y@));
            true
        },
        (JsonValue::Object(x), JsonValue::Object(y)) => {
            proof {
                lemma_object_model(*x);
                lemma_object_model(*y);
            }
            if x.len() != y.len() {
                assert(entry_models(x@).len() != entry_models(y@).len());
                return false;
            }
            let mut i: usize = 0;
            while i < x.len()
                invariant
                    i <= x@.len(),
                    x@.len() == y@.len(),
                    *a == JsonValue::Object(*x),
                    a.model() == Json::Object(entry_models(x@)),
                    b.model() == Json::Object(entry_models(y@)),
                    forall|j: int| 0 <= j < i ==> entry_models(x@)[j] == entry_models(y@)[j],
                decreases x.len() - i,
            {
                proof {
                    assert(decreases_to!(*a => (*a)->Object_0));
                    assert(decreases_to!(*x => x@));
                    assert(decreases_to!(x@ => x@[i as int]));
                    assert(decreases_to!(x@[i as int] => x@[i as int].1));
                }
                if !(x[i].0 == y[i].0) || !json_equal(&x[i].1, &y[i].1) {
                    assert(entry_models(x@)[i as int] != entry_models(y@)[i as int]);
                    return false;
                }
                i += 1;
            }
            assert(entry_models(x@) =~= entry_models(y@));
            true
        },
        (_, _) => false,
    }
}

/// The views of documents read from files: each a value or the text of the error
/// met reading or decoding it.
pub open spec fn doc_views(d: Seq<Result<JsonValue, String>>) -> Seq<Result<Json, Seq<char>>> {
    Seq::new(
        d.len(),
        |i: int|
            match d[i] {
                Ok(v) => Ok(v.model()),
                Err(e) => Err(e@),
            },
    )
}

/// The views of documents, each `None` when its file is missing.
pub open spec fn optional_doc_views(d: Seq<Option<Result<JsonValue, String>>>) -> Seq<
    Option<Result<Json, Seq<char>>>,
> {
    Seq::new(
        d.len(),
        |i: int|
            match d[i] {
                None => None,
                Some(Ok(v)) => Some(Ok(v.model())),
                Some(Err(e)) => Some(Err(e@)),
            },
    )
}

/// The top-level objects of the documents `docs` set in order into `acc`: a
/// missing file is passed over, an error stops the merge, and a document that is
/// not an object is passed over.
pub open spec fn skip_merge(
    docs: Seq<Option<Result<Json, Seq<char>>>>,
    acc: Seq<(Seq<char>, Json)>,
) -> Result<Seq<(Seq<char>, Json)>, Seq<char>>
    decreases docs.len(),
{
    if docs.len() == 0 {
        Ok(acc)
    } else {
        match docs[0] {
            None => skip_merge(docs.drop_first(), acc),
            Some(Err(e)) => Err(e),
            Some(Ok(Json::Object(m))) => skip_merge(docs.drop_first(), union_entries(acc, m)),
            Some(Ok(_)) => skip_merge(docs.drop_first(), acc),
        }
    }
}

/// Merges the top-level objects of the documents, as `skip_merge` says.
pub fn merge_skipping(documents: Vec<Option<Result<JsonValue, String>>>) -> (r: Result<JsonValue, String>)
    ensures
        match skip_merge(optional_doc_views(documents@), Seq::empty()) {
            Ok(es) => r matches Ok(v) && v.model() == Json::Object(es),
            Err(e) => r matches Err(m) && m@ == e,
        },
{
    let ghost ds = optional_doc_views(documents@);
    let ghost target = skip_merge(ds, Seq::empty());
    let n = documents.len();
    let mut rest = reversed(documents);
    let mut acc: Vec<(String, JsonValue)> = Vec::new();
    assert(ds.skip(0) =~= ds);
    assert(entry_models(acc@) =~= Seq::<(Seq<char>, Json)>::empty());
    while rest.len() > 0
        invariant
            rest@.len() <= ds.len(),
            n == ds.len(),
            ds == optional_doc_views(documents@),
            target == skip_merge(ds, Seq::empty()),
            forall|j: int| #![trigger rest@[j]] 0 <= j < rest@.len() ==> optional_doc_views(rest@)[j] == ds[ds.len() - 1 - j],
            skip_merge(ds.skip(ds.len() - rest@.len()), entry_models(acc@)) == target,
        decreases rest.len(),
    {
        let ghost k = ds.len() - rest@.len();
        let ghost last = rest@.len() - 1;
        assert(optional_doc_views(rest@)[last] == ds[k]);
        let d = rest.pop().unwrap();
        assert(ds[k] == (match d {
            None => None,
            Some(Ok(v)) => Some(Ok(v.model())),
            Some(Err(e)) => Some(Err(e@)),
        }));
        assert(ds.skip(k)[0] == ds[k]);
        assert(ds.skip(k).drop_first() =~= ds.skip(k + 1));
        match d {
            None => {},
            Some(Err(e)) => {
                return Err(e);
            },
            Some(Ok(JsonValue::Object(m))) => {
                proof {
                    lemma_object_model(m);
                }
                union_into(&mut acc, m);
            },
            Some(Ok(_)) => {},
        }
    }
    assert(ds.skip(ds.len() as int) =~= Seq::<Option<Result<Json, Seq<char>>>>::empty());
    proof {
        lemma_object_model(acc);
    }
    Ok(JsonValue::Object(acc))
}

} // verus!
