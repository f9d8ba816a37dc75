//! Checks a JSON document against required fields and the kinds of value allowed
//! for some fields.
//!
//! The text is decoded with `serde_json` (see `json_text`).
use vstd::prelude::*;
use crate::json_text::{decoded_json, decode_json};
use crate::json_value::{Json, JsonValue, entry_models, lookup, obj_insert, lemma_object_model, lemma_key_index_bounds, find_key};
use crate::beacon::json_validator::kind_name;
use crate::text::{concat_str, string_views, str_eq};

verus! {

broadcast use vstd::string::group_string_axioms;

/// What `format!("{:?}", list)` writes for a list of strings.
pub uninterp spec fn debug_list_text(items: Seq<Seq<char>>) -> Seq<char>;

/// `Debug` formatting of a list of strings, as `format!("{:?}", ..)` writes it.
#[verifier::external_body]
fn debug_list(items: &Vec<String>) -> (s: String)
    ensures
        s@ == debug_list_text(string_views(items@)),
{
    format!("{:?}", items)
}

/// The views of the allowed kinds per field.
pub open spec fn allowed_views(a: Seq<(String, Vec<String>)>) -> Seq<(Seq<char>, Seq<Seq<char>>)> {
    Seq::new(a.len(), |i: int| (a[i].0@, string_views(a[i].1@)))
}

/// The first of `required` that is not a key of the entries `o`, if any.
pub open spec fn first_missing(required: Seq<Seq<char>>, o: Seq<(Seq<char>, Json)>) -> Option<Seq<char>>
    decreases required.len(),
{
    if required.len() == 0 {
        None
    } else if lookup(o, required[0]) is None {
        Some(required[0])
    } else {
        first_missing(required.drop_first(), o)
    }
}

/// The message for the first entry of `o` whose kind is not among those allowed for
/// its key, if any.
pub open spec fn first_bad_kind(o: Seq<(Seq<char>, Json)>, allowed: Seq<(Seq<char>, Seq<Seq<char>>)>) -> Option<Seq<char>>
    decreases o.len(),
{
    if o.len() == 0 {
        None
    } else {
        let (k, v) = o[0];
        match lookup(allowed, k) {
            Some(kinds) => if !kinds.contains(kind_name(v)) {
                Some("Field '"@ + k + "' has invalid type '"@ + kind_name(v) + "'. Allowed: "@
                    + debug_list_text(kinds))
            } else {
                first_bad_kind(o.drop_first(), allowed)
            },
            None => first_bad_kind(o.drop_first(), allowed),
        }
    }
}

/// What checking `v` gives: a value that is not an object passes; an object must
/// have the required fields (the first missing is named), then each field must
/// have an allowed kind (the first that does not is named).
pub open spec fn check_value(v: Json, required: Seq<Seq<char>>, allowed: Seq<(Seq<char>, Seq<Seq<char>>)>) -> Result<(), Seq<char>> {
    match v {
        Json::Object(o) => match first_missing(required, o) {
            Some(f) => Err("Missing required field: "@ + f),
            None => match first_bad_kind(o, allowed) {
                Some(m) => Err(m),
                None => Ok(()),
            },
        },
        _ => Ok(()),
    }
}

/// Required fields and the kinds allowed per field.
pub struct JsonValidator {
    required_fields: Vec<String>,
    allowed_types: Vec<(String, Vec<String>)>,
}

impl JsonValidator {
    /// The required fields, each once, in the order they were added.
    pub closed spec fn required(&self) -> Seq<Seq<char>> {
        string_views(self.required_fields@)
    }

    /// The kinds allowed per field.
    pub closed spec fn allowed(&self) -> Seq<(Seq<char>, Seq<Seq<char>>)> {
        allowed_views(self.allowed_types@)
    }

    /// A validator that requires and restricts nothing.
    pub fn new() -> (v: JsonValidator)
        ensures
            v.required() == Seq::<Seq<char>>::empty(),
            v.allowed() == Seq::<(Seq<char>, Seq<Seq<char>>)>::empty(),
    {
        let v = JsonValidator { required_fields: Vec::new(), allowed_types: Vec::new() };
        assert(string_views(v.required_fields@) =~= Seq::<Seq<char>>::empty());
        assert(allowed_views(v.allowed_types@) =~= Seq::<(Seq<char>, Seq<Seq<char>>)>::empty());
        v
    }

    /// Requires `field`; a field already required stays as it is.
    pub fn add_required_field(&mut self, field: &str)
        ensures
            final(self).allowed() == old(self).allowed(),
            final(self).required() == (if old(self).required().contains(field@) {
                old(self).required()
            } else {
                old(self).required().push(field@)
            }),
    {
        let mut i: usize = 0;
        while i < self.required_fields.len()
            invariant
                i <= self.required_fields@.len(),
                forall|j: int| 0 <= j < i ==> self.required_fields@[j]@ != field@,
            decreases self.required_fields.len() - i,
        {
            if str_eq(self.required_fields[i].as_str(), field) {
                assert(string_views(self.required_fields@)[i as int] == field@);
                return;
            }
            i += 1;
        }
        let ghost before = string_views(self.required_fields@);
        assert(!before.contains(field@));
        self.required_fields.push(field.to_string());
        assert(string_views(self.required_fields@) =~= before.push(field@));
    }

    /// Allows the kinds `types` for `field`, replacing what was allowed before.
    pub fn add_allowed_type(&mut self, field: &str, types: Vec<&str>)
        ensures
            final(self).required() == old(self).required(),
            final(self).allowed() == obj_insert(
                old(self).allowed(),
                field@,
                Seq::new(types@.len(), |i: int| types@[i]@),
            ),
    {
        let mut kinds: Vec<String> = Vec::new();
        let mut i: usize = 0;
        while i < types.len()
            invariant
                i <= types@.len(),
                string_views(kinds@) == Seq::new(i as nat, |j: int| types@[j]@),
            decreases types.len() - i,
        {
            let ghost before = string_views(kinds@);
            kinds.push(types[i].to_string());
            assert(string_views(kinds@) =~= before.push(types@[i as int]@));
            i += 1;
            assert(string_views(kinds@) =~= Seq::new(i as nat, |j: int| types@[j]@));
        }
        let ghost m = allowed_views(self.allowed_types@);
        let ghost kv = string_views(kinds@);
        proof {
            lemma_key_index_bounds(m, field@);
        }
        let mut k: usize = 0;
        while k < self.allowed_types.len() && !str_eq(self.allowed_types[k].0.as_str(), field)
            invariant
                k <= self.allowed_types@.len(),
                m == allowed_views(self.allowed_types@),
                forall|j: int| 0 <= j < k ==> m[j].0 != field@,
            decreases self.allowed_types.len() - k,
        {
            k += 1;
        }
        proof {
            crate::json_value::lemma_key_index(m, field@, k as int);
        }
        if k < self.allowed_types.len() {
            self.allowed_types.set(k, (field.to_string(), kinds));
            assert(allowed_views(self.allowed_types@) =~= m.update(k as int, (field@, kv)));
        } else {
            self.allowed_types.push((field.to_string(), kinds));
            assert(allowed_views(self.allowed_types@) =~= m.push((field@, kv)));
        }
    }

    /// Checks the decoded document (or reports the decoding error), as
    /// `check_value` says.
    pub fn validate(&self, json_str: &str) -> (r: Result<(), String>)
        ensures
            match decoded_json(json_str@) {
                Err(e) => r matches Err(m) && m@ == "Invalid JSON: "@ + e,
                Ok(v) => match check_value(v, self.required(), self.allowed()) {
                    Ok(()) => r is Ok,
                    Err(e) => r matches Err(m) && m@ == e,
                },
            },
    {
        match decode_json(json_str) {
            Err(e) => Err(concat_str("Invalid JSON: ", e.as_str())),
            Ok(v) => self.validate_value(&v),
        }
    }

    /// Checks a document, as `check_value` says.
    pub fn validate_value(&self, value: &JsonValue) -> (r: Result<(), String>)
        ensures
            match check_value(value.model(), self.required(), self.allowed()) {
                Ok(()) => r is Ok,
                Err(e) => r matches Err(m) && m@ == e,
            },
    {
        match value {
            JsonValue::Object(o) => {
                proof {
                    lemma_object_model(*o);
                }
                let ghost om = entry_models(o@);
                let ghost req = self.required();
                let mut i: usize = 0;
                assert(req.skip(0) =~= req);
                while i < self.required_fields.len()
                    invariant
                        i <= self.required_fields@.len(),
                        req == string_views(self.required_fields@),
                        req == self.required(),
                        om == entry_models(o@),
                        value.model() == Json::Object(om),
                        first_missing(req, om) == first_missing(req.skip(i as int), om),
                    decreases self.required_fields.len() - i,
                {
                    assert(req.skip(i as int)[0] == req[i as int]);
                    assert(req.skip(i as int).drop_first() =~= req.skip(i + 1));
                    proof {
                        lemma_key_index_bounds(om, req[i as int]);
                    }
                    let pos = find_key(o, &self.required_fields[i]);
                    if pos == o.len() {
                        return Err(concat_str("Missing required field: ", self.required_fields[i].as_str()));
                    }
                    i += 1;
                }
                assert(req.skip(i as int) =~= Seq::<Seq<char>>::empty());
                let ghost al = self.allowed();
                let mut q: usize = 0;
                assert(om.skip(0) =~= om);
                while q < o.len()
                    invariant
                        q <= o@.len(),
                        om == entry_models(o@),
                        value.model() == Json::Object(om),
                        first_missing(self.required(), om) is None,
                        al == allowed_views(self.allowed_types@),
                        al == self.allowed(),
                        first_bad_kind(om, al) == first_bad_kind(om.skip(q as int), al),
                    decreases o.len() - q,
                {
                    assert(om.skip(q as int)[0] == om[q as int]);
                    assert(om.skip(q as int).drop_first() =~= om.skip(q + 1));
                    proof {
                        lemma_key_index_bounds(al, om[q as int].0);
                    }
                    let mut k: usize = 0;
                    while k < self.allowed_types.len() && !(self.allowed_types[k].0 == o[q].0)
                        invariant
                            k <= self.allowed_types@.len(),
                            q < o@.len(),
                            om == entry_models(o@),
                            al == allowed_views(self.allowed_types@),
                            forall|j: int| 0 <= j < k ==> al[j].0 != om[q as int].0,
                        decreases self.allowed_types.len() - k,
                    {
                        k += 1;
                    }
                    proof {
                        crate::json_value::lemma_key_index(al, om[q as int].0, k as int);
                    }
                    if k < self.allowed_types.len() {
                        let kind = crate::beacon::json_validator::get_root_type(&o[q].1);
                        let allowed = &self.allowed_types[k].1;
                        let mut found = false;
                        let mut t: usize = 0;
                        while t < allowed.len()
                            invariant
                                t <= allowed@.len(),
                                found <==> exists|w: int| 0 <= w < t && #[trigger] allowed@[w]@ == kind@,
                            decreases allowed.len() - t,
                        {
                            if allowed[t] == kind {
                                found = true;
                                assert(allowed@[t as int]@ == kind@);
                            }
                            t += 1;
                        }
                        proof {
                            let sv = string_views(allowed@);
                            if found {
                                let w = choose|w: int| 0 <= w < t && #[trigger] allowed@[w]@ == kind@;
                                assert(sv[w] == kind@);
                            } else {
                                assert forall|w: int| 0 <= w < sv.len() implies sv[w] != kind@ by {
                                    assert(sv[w] == allowed@[w]@);
                                }
                            }
                        }
                        if !found {
                            let listed = debug_list(allowed);
                            let a = concat_str("Field '", o[q].0.as_str());
                            let b = concat_str(a.as_str(), "' has invalid type '");
                            let c = concat_str(b.as_str(), kind.as_str());
                            let d = concat_str(c.as_str(), "'. Allowed: ");
                            return Err(concat_str(d.as_str(), listed.as_str()));
                        }
                    }
                    q += 1;
                }
                assert(om.skip(q as int) =~= Seq::<(Seq<char>, Json)>::empty());
                Ok(())
            },
            _ => Ok(()),
        }
    }
}

} // verus!
