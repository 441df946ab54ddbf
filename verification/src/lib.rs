//! A reducer-based state container: named events with JSON payloads are
//! routed to registered pure reducers, one per state slice; a slice whose
//! reducer produces a structurally different value is committed and every
//! registered listener is notified; each dispatch returns the full state
//! serialized as JSON text.

pub mod event;
pub mod json;
pub mod machine;
pub mod parse;
pub mod roundtrip;
pub mod samples;
pub mod text;

pub use event::build_event_record;
pub use event::hydrate_event;
pub use event::parse_payload;
pub use json::Json;
pub use json::JsonModel;
pub use machine::Listener;
pub use machine::Machine;
pub use machine::Reducer;
pub use json::eq_json;
pub use parse::parse_json;
pub use samples::NodeReducer;
pub use samples::RecordLog;
pub use text::json_text;
pub use text::obj_string;
