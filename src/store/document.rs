use crate::store::record::{RecordView, TaskRecord, record_views};
use vstd::prelude::*;

verus! {

/// The records that the json crate reads out of a text: `None` when the text is
/// not JSON or not an array; otherwise, for each member in order, its `id` as a
/// byte (if it is one), and its `task` and `state` as text.
pub uninterp spec fn json_records(source: Seq<char>) -> Option<Seq<RecordView>>;

/// The text that the json crate writes for records: an array of objects with
/// the keys `id`, `task` and `state`, in that order.
pub uninterp spec fn json_document(records: Seq<RecordView>) -> Seq<char>;

/// Relies on json::parse, and on JsonValue's `Index<&str>`, `as_u8` and `Display`
/// to read each member of the array. A missing key reads as null.
#[verifier::external_body]
pub(crate) fn read_records(source: &str) -> (r: Option<Vec<TaskRecord>>)
    ensures
        r is None <==> json_records(source@) is None,
        r matches Some(v) ==> json_records(source@) == Some(record_views(v@)),
{
    match json::parse(source) {
        Ok(json::JsonValue::Array(items)) => Some(
            items.iter().map(|item| TaskRecord {
                id: item["id"].as_u8(),
                task: item["task"].to_string(),
                state: item["state"].to_string(),
            }).collect(),
        ),
        _ => None,
    }
}

/// Relies on JsonValue::new_array, new_object, `IndexMut<&str>`, push and dump:
/// the records become objects of an array, which is written as compact JSON.
#[verifier::external_body]
pub(crate) fn write_document(records: &Vec<TaskRecord>) -> (r: String)
    ensures
        r@ == json_document(record_views(records@)),
{
    let mut items = json::JsonValue::new_array();
    for record in records.iter() {
        let mut item = json::JsonValue::new_object();
        item["id"] = record.id.into();
        item["task"] = record.task.as_str().into();
        item["state"] = record.state.as_str().into();
        let _ = items.push(item);
    }
    items.dump()
}

} // verus!
