//! Deep merging of JSON values.
use vstd::prelude::*;
use crate::json_value::{Json, JsonValue, entry_models, lemma_object_model};
use crate::json_merge::{merged, merge_into};
use crate::vec_util::reversed;

verus! {

/// Merges `source` into `target`: two objects key by key, the values of a key both
/// have merging in turn; anything else is replaced by `source`.
pub fn deep_merge(target: &mut JsonValue, source: &JsonValue)
    ensures
        final(target).model() == merged(old(target).model(), source.model(), true),
{
    merge_into(target, source, true);
}

/// `acc` with each of `vs` merged in, in order.
pub open spec fn merge_all(acc: Json, vs: Seq<Json>) -> Json
    decreases vs.len(),
{
    if vs.len() == 0 {
        acc
    } else {
        merge_all(merged(acc, vs[0], true), vs.drop_first())
    }
}

/// The empty object with each of `json_objects` merged in, in order.
pub fn merge_multiple(json_objects: Vec<JsonValue>) -> (r: JsonValue)
    ensures
        r.model() == merge_all(Json::Object(Seq::empty()), crate::json_value::models(json_objects@)),
{
    let ghost vs = crate::json_value::models(json_objects@);
    let empty: Vec<(String, JsonValue)> = Vec::new();
    proof {
        lemma_object_model(empty);
        assert(entry_models(empty@) =~= Seq::<(Seq<char>, Json)>::empty());
    }
    let mut result = JsonValue::Object(empty);
    let ghost target = merge_all(result.model(), vs);
    let mut rest = reversed(json_objects);
    assert(vs.skip(0) =~= vs);
    while rest.len() > 0
        invariant
            vs == crate::json_value::models(json_objects@),
            rest@.len() <= vs.len(),
            forall|j: int| #![trigger rest@[j]] 0 <= j < rest@.len() ==> rest@[j].model() == vs[vs.len() - 1 - j],
            merge_all(result.model(), vs.skip(vs.len() - rest@.len())) == target,
        decreases rest.len(),
    {
        let ghost k = vs.len() - rest@.len();
        let obj = rest.pop().unwrap();
        assert(vs.skip(k)[0] == vs[k]);
        assert(vs.skip(k).drop_first() =~= vs.skip(k + 1));
        deep_merge(&mut result, &obj);
    }
    assert(vs.skip(vs.len() as int) =~= Seq::<Json>::empty());
    result
}

} // verus!
