//! Cleaning person records: trimmed names, normalized emails, plausible ages.
use vstd::prelude::*;
use crate::text::{trim, trim_str, lowercase, to_lowercase};

verus! {

/// A person record as it stands in the data file.
pub struct Record {
    pub id: u32,
    pub name: String,
    pub email: String,
    pub age: u8,
}

/// An email address trimmed and lowercased.
pub open spec fn normalized_email(email: Seq<char>) -> Seq<char> {
    lowercase(trim(email))
}

/// Whether an age is plausible: more than 0 and less than 120.
pub open spec fn plausible_age(age: u8) -> bool {
    0 < age < 120
}

/// The email trimmed and lowercased.
pub fn normalize_email(email: &str) -> (r: String)
    ensures
        r@ == normalized_email(email@),
{
    let t = trim_str(email);
    to_lowercase(t.as_str())
}

/// The age when it is plausible.
pub fn validate_age(age: u8) -> (r: Option<u8>)
    ensures
        r == (if plausible_age(age) { Some(age) } else { None::<u8> }),
{
    if age > 0 && age < 120 {
        Some(age)
    } else {
        None
    }
}

/// The cleaned form of a record (id, name, email, age), or `None` when its age
/// is not plausible and the record is dropped.
pub open spec fn cleaned_record(id: u32, name: Seq<char>, email: Seq<char>, age: u8) -> Option<
    (u32, Seq<char>, Seq<char>, u8),
> {
    if plausible_age(age) {
        Some((id, trim(name), normalized_email(email), age))
    } else {
        None
    }
}

/// The record with its email normalized and its name trimmed, or `None` when its
/// age is not plausible.
pub fn clean_record(record: Record) -> (r: Option<Record>)
    ensures
        match cleaned_record(record.id, record.name@, record.email@, record.age) {
            None => r is None,
            Some(c) => r matches Some(x) && (x.id, x.name@, x.email@, x.age) == c,
        },
{
    let email = normalize_email(record.email.as_str());
    let name = trim_str(record.name.as_str());
    match validate_age(record.age) {
        Some(age) => Some(Record { id: record.id, name, email, age }),
        None => None,
    }
}

/// The views of a sequence of records.
pub open spec fn record_views(rs: Seq<Record>) -> Seq<(u32, Seq<char>, Seq<char>, u8)> {
    Seq::new(rs.len(), |i: int| (rs[i].id, rs[i].name@, rs[i].email@, rs[i].age))
}

/// The cleaned records of `rs`, in order, without those that are dropped.
pub open spec fn cleaned_records(rs: Seq<(u32, Seq<char>, Seq<char>, u8)>) -> Seq<
    (u32, Seq<char>, Seq<char>, u8),
>
    decreases rs.len(),
{
    if rs.len() == 0 {
        Seq::empty()
    } else {
        let r = cleaned_records(rs.drop_last());
        let x = rs.last();
        match cleaned_record(x.0, x.1, x.2, x.3) {
            Some(c) => r.push(c),
            None => r,
        }
    }
}

/// Cleans each record in turn, keeping those with a plausible age.
pub fn clean_records(records: Vec<Record>) -> (r: Vec<Record>)
    ensures
        record_views(r@) == cleaned_records(record_views(records@)),
{
    let ghost s = record_views(records@);
    let mut rev: Vec<Record> = Vec::new();
    let mut records = records;
    while records.len() > 0
        invariant
            s.len() == records@.len() + rev@.len(),
            record_views(records@) == s.take(records@.len() as int),
            forall|j: int| 0 <= j < rev@.len() ==> record_views(rev@)[j] == s[s.len() - 1 - j],
        decreases records.len(),
    {
        let ghost whole = records@;
        let x = records.pop().unwrap();
        assert(record_views(whole)[whole.len() - 1] == s[whole.len() - 1]);
        assert(record_views(records@) =~= s.take(records@.len() as int)) by {
            assert forall|j: int| 0 <= j < records@.len() implies record_views(records@)[j]
                == s.take(records@.len() as int)[j] by {
                assert(whole[j] == records@[j]);
            }
        }
        let ghost before = rev@;
        rev.push(x);
        assert forall|j: int| 0 <= j < rev@.len() implies record_views(rev@)[j] == s[s.len() - 1 - j] by {
            if j < before.len() {
                assert(rev@[j] == before[j]);
                assert(record_views(before)[j] == s[s.len() - 1 - j]);
            } else {
                assert(rev@[j] == x);
                assert(whole[whole.len() - 1] == x);
            }
        }
    }
    let mut out: Vec<Record> = Vec::new();
    while rev.len() > 0
        invariant
            rev@.len() <= s.len(),
            forall|j: int| 0 <= j < rev@.len() ==> record_views(rev@)[j] == s[s.len() - 1 - j],
            record_views(out@) == cleaned_records(s.take(s.len() - rev@.len())),
        decreases rev.len(),
    {
        let ghost k = s.len() - rev@.len();
        let ghost before = out@;
        let ghost whole = rev@;
        let x = rev.pop().unwrap();
        assert(whole[whole.len() - 1] == x);
        assert(record_views(whole)[whole.len() - 1] == s[k]);
        assert forall|j: int| 0 <= j < rev@.len() implies record_views(rev@)[j] == s[s.len() - 1 - j] by {
            assert(whole[j] == rev@[j]);
            assert(record_views(whole)[j] == s[s.len() - 1 - j]);
        }
        assert(s.take(k + 1).drop_last() =~= s.take(k));
        assert(s.take(k + 1).last() == s[k]);
        let ghost xv = (x.id, x.name@, x.email@, x.age);
        assert(xv == s[k]);
        match clean_record(x) {
            Some(c) => {
                out.push(c);
                assert(record_views(out@) =~= record_views(before).push((c.id, c.name@, c.email@, c.age)));
            },
            None => {},
        }
    }
    assert(s.take(s.len() as int) =~= s);
    out
}

} // verus!
