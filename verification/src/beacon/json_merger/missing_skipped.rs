//! Merging the top-level objects of JSON files, passing over missing files and
//! documents that are not objects.
use vstd::prelude::*;
use crate::json_text::{optional_read_decodings, decode_present_files};
use crate::json_value::{Json, JsonValue};
use crate::json_merge::{optional_doc_views, skip_merge, merge_skipping};

verus! {

/// One object with the keys of the documents' objects, a later file's value for a
/// key replacing an earlier one; `None` stands for a missing file, which is passed
/// over, and so is a document that is not an object; an error stops the merge.
pub fn merge_json_files(files: &Vec<Option<Result<String, String>>>) -> (r: Result<JsonValue, String>)
    ensures
        match skip_merge(optional_read_decodings(files@), Seq::empty()) {
            Ok(es) => r matches Ok(v) && v.model() == Json::Object(es),
            Err(e) => r matches Err(m) && m@ == e,
        },
{
    merge_documents(decode_present_files(files))
}

/// One object with the keys of the documents' objects, a later file's value for a
/// key replacing an earlier one; `None` stands for a missing file, which is passed
/// over, and so is a document that is not an object; an error stops the merge.
/// The documents are handed in decoded.
pub fn merge_documents(documents: Vec<Option<Result<JsonValue, String>>>) -> (r: Result<JsonValue, String>)
    ensures
        match skip_merge(optional_doc_views(documents@), Seq::empty()) {
            Ok(es) => r matches Ok(v) && v.model() == Json::Object(es),
            Err(e) => r matches Err(m) && m@ == e,
        },
{
    merge_skipping(documents)
}

} // verus!
