//! Event hydration: a raw (event name, payload text) pair is augmented with
//! a fresh unique identifier and a millisecond creation timestamp before a
//! reducer consumes it.

use vstd::prelude::*;
use crate::json::Json;
use crate::json::JsonModel;
use crate::json::deep_fields;
use crate::json::lemma_deep_fields_index;
use crate::json::lemma_deep_fields_len;
use crate::parse::parse_json;
use crate::parse::parse_text;

verus! {

/// A fresh identifier, unique for the process lifetime.
/// Relies on `uuid::Uuid::new_v4` (a version-4 UUID from 122 random bits)
/// and its `Display` form, which is always the 36-character hyphenated text.
#[verifier::external_body]
fn fresh_id() -> (r: String)
    ensures
        r@.len() == 36,
{
    uuid::Uuid::new_v4().to_string()
}

/// The wall clock, as milliseconds since the Unix epoch (truncated to 64
/// bits). Relies on `std::time::SystemTime::now` and
/// `duration_since(UNIX_EPOCH)`; a clock before the epoch reads as zero.
#[verifier::external_body]
fn now_millis() -> u64 {
    match std::time::SystemTime::now().duration_since(std::time::UNIX_EPOCH) {
        Ok(d) => d.as_millis() as u64,
        Err(_) => 0,
    }
}

/// The value a payload text carries: its parsed JSON value, or null where
/// the text is not JSON this library accepts. A malformed payload degrades,
/// it never aborts a dispatch.
pub open spec fn payload_value(raw: Seq<char>) -> JsonModel {
    match parse_text(raw) {
        Some(v) => v,
        None => JsonModel::Null,
    }
}

/// The hydrated event record: identifier, creation time, event type name,
/// and the payload value nested under its own field.
pub open spec fn event_record(
    id: Seq<char>,
    create_time: int,
    event: Seq<char>,
    payload: JsonModel,
) -> JsonModel {
    JsonModel::Obj(
        seq![
            ("id"@, JsonModel::Str(id)),
            ("createTime"@, JsonModel::Int(create_time)),
            ("type"@, JsonModel::Str(event)),
            ("payload"@, payload),
        ],
    )
}

/// Parses a payload text, degrading to null where it is not JSON this
/// library accepts.
pub fn parse_payload(payload: &str) -> (r: Json)
    ensures
        r@ == payload_value(payload@),
{
    match parse_json(payload) {
        Some(v) => v,
        None => Json::Null,
    }
}

/// Assembles the hydrated event record from its four parts.
pub fn build_event_record(id: String, create_time: i64, event: &str, payload: Json) -> (r: Json)
    ensures
        r@ == event_record(id@, create_time as int, event@, payload@),
{
    let ghost id_view = id@;
    let ghost payload_view = payload@;
    let mut fields: Vec<(String, Json)> = Vec::new();
    fields.push(("id".to_owned(), Json::Str(id)));
    fields.push(("createTime".to_owned(), Json::Int(create_time)));
    fields.push(("type".to_owned(), Json::Str(event.to_owned())));
    fields.push(("payload".to_owned(), payload));
    proof {
        let want = event_record(id_view, create_time as int, event@, payload_view);
        lemma_deep_fields_len(fields@);
        lemma_deep_fields_index(fields@, 0);
        lemma_deep_fields_index(fields@, 1);
        lemma_deep_fields_index(fields@, 2);
        lemma_deep_fields_index(fields@, 3);
        assert(deep_fields(fields@) =~= want->Obj_0);
    }
    Json::Obj(fields)
}

/// Hydrates one event: parses the raw payload text, draws a fresh unique
/// identifier and the current wall-clock time, and wraps them with the
/// event type name in a canonical event record.
pub fn hydrate_event(event: &str, payload: &str) -> (r: Json)
    ensures
        ({
            &&& r@ matches JsonModel::Obj(fields)
            &&& fields.len() == 4
            &&& fields[0].0 == "id"@
            &&& fields[0].1 matches JsonModel::Str(id)
            &&& id.len() == 36
            &&& fields[1].0 == "createTime"@
            &&& fields[1].1 matches JsonModel::Int(t)
            &&& 0 <= t
            &&& fields[2] == ("type"@, JsonModel::Str(event@))
            &&& fields[3] == ("payload"@, payload_value(payload@))
        }),
{
    let id = fresh_id();
    let clock = now_millis();
    let create_time: i64 = if clock > 9223372036854775807u64 {
        i64::MAX
    } else {
        clock as i64
    };
    let parsed = parse_payload(payload);
    build_event_record(id, create_time, event, parsed)
}

} // verus!
